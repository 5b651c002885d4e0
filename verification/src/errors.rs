//! What can go wrong on the device, and the errors that these failures become.

use ash::vk;
use vstd::prelude::*;
use vstd::std_specs::convert::{FromSpec, FromSpecImpl};
use crate::mem_type_assignment::MemoryAssignmentError;

verus! {

/// The result codes that a failed device call is told apart by.
#[derive(Debug, Clone, Copy, PartialEq, Eq, Structural)]
pub enum ResultCode {
    OutOfHostMemory,
    OutOfDeviceMemory,
    DeviceLost,
    MemoryMapFailed,
    Unknown,
    ValidationFailed,
    Other,
}

/// The result code with the number `raw`.
pub open spec fn result_code(raw: i32) -> ResultCode {
    if raw == -1 {
        ResultCode::OutOfHostMemory
    } else if raw == -2 {
        ResultCode::OutOfDeviceMemory
    } else if raw == -4 {
        ResultCode::DeviceLost
    } else if raw == -5 {
        ResultCode::MemoryMapFailed
    } else if raw == -13 {
        ResultCode::Unknown
    } else if raw == -1_000_011_001 {
        ResultCode::ValidationFailed
    } else {
        ResultCode::Other
    }
}

/// `vk::Result::from_raw` and the named values of `vk::Result`: each of the six names stands for
/// the number that `result_code` gives it.
#[verifier::external_body]
fn decode_result(raw: i32) -> (r: ResultCode)
    ensures
        r == result_code(raw),
{
    match vk::Result::from_raw(raw) {
        vk::Result::ERROR_OUT_OF_HOST_MEMORY => ResultCode::OutOfHostMemory,
        vk::Result::ERROR_OUT_OF_DEVICE_MEMORY => ResultCode::OutOfDeviceMemory,
        vk::Result::ERROR_DEVICE_LOST => ResultCode::DeviceLost,
        vk::Result::ERROR_MEMORY_MAP_FAILED => ResultCode::MemoryMapFailed,
        vk::Result::ERROR_UNKNOWN => ResultCode::Unknown,
        vk::Result::ERROR_VALIDATION_FAILED_EXT => ResultCode::ValidationFailed,
        _ => ResultCode::Other,
    }
}

/// The host or the device has no memory left.
#[derive(Debug, Clone, Copy, PartialEq, Eq, Structural)]
pub enum OutOfMemoryError {
    OutOfHostMemory,
    OutOfDeviceMemory,
}

impl OutOfMemoryError {
    /// The error that `code` stands for, if it stands for one of these.
    pub open spec fn of_code(code: ResultCode) -> Option<OutOfMemoryError> {
        match code {
            ResultCode::OutOfHostMemory => Some(OutOfMemoryError::OutOfHostMemory),
            ResultCode::OutOfDeviceMemory => Some(OutOfMemoryError::OutOfDeviceMemory),
            _ => None,
        }
    }

    /// Whether the result code `raw` stands for one of these errors.
    pub fn accepts_result(raw: i32) -> (r: bool)
        ensures
            r == (Self::of_code(result_code(raw)) is Some),
    {
        match decode_result(raw) {
            ResultCode::OutOfHostMemory | ResultCode::OutOfDeviceMemory => true,
            _ => false,
        }
    }

    /// The error that the result code `raw` stands for.
    pub fn from_result(raw: i32) -> (r: OutOfMemoryError)
        requires
            Self::of_code(result_code(raw)) is Some,
        ensures
            Self::of_code(result_code(raw)) == Some(r),
    {
        match decode_result(raw) {
            ResultCode::OutOfHostMemory => OutOfMemoryError::OutOfHostMemory,
            _ => OutOfMemoryError::OutOfDeviceMemory,
        }
    }
}

/// Why memory could not be mapped.
#[derive(Debug, Clone, Copy, PartialEq, Eq, Structural)]
pub enum MemoryMapError {
    MemoryMapFailed,
    OutOfMemoryError(OutOfMemoryError),
    Unknown,
    ValidationFailed,
}

impl MemoryMapError {
    /// The error that `code` stands for, if it stands for one of these.
    pub open spec fn of_code(code: ResultCode) -> Option<MemoryMapError> {
        match code {
            ResultCode::OutOfHostMemory => Some(
                MemoryMapError::OutOfMemoryError(OutOfMemoryError::OutOfHostMemory),
            ),
            ResultCode::OutOfDeviceMemory => Some(
                MemoryMapError::OutOfMemoryError(OutOfMemoryError::OutOfDeviceMemory),
            ),
            ResultCode::MemoryMapFailed => Some(MemoryMapError::MemoryMapFailed),
            ResultCode::Unknown => Some(MemoryMapError::Unknown),
            ResultCode::ValidationFailed => Some(MemoryMapError::ValidationFailed),
            _ => None,
        }
    }

    /// Whether the result code `raw` stands for one of these errors.
    pub fn accepts_result(raw: i32) -> (r: bool)
        ensures
            r == (Self::of_code(result_code(raw)) is Some),
    {
        match decode_result(raw) {
            ResultCode::DeviceLost | ResultCode::Other => false,
            _ => true,
        }
    }

    /// The error that the result code `raw` stands for.
    pub fn from_result(raw: i32) -> (r: MemoryMapError)
        requires
            Self::of_code(result_code(raw)) is Some,
        ensures
            Self::of_code(result_code(raw)) == Some(r),
    {
        match decode_result(raw) {
            ResultCode::OutOfHostMemory | ResultCode::OutOfDeviceMemory => {
                MemoryMapError::from(OutOfMemoryError::from_result(raw))
            },
            ResultCode::MemoryMapFailed => MemoryMapError::MemoryMapFailed,
            ResultCode::Unknown => MemoryMapError::Unknown,
            _ => MemoryMapError::ValidationFailed,
        }
    }
}

impl From<OutOfMemoryError> for MemoryMapError {
    fn from(value: OutOfMemoryError) -> (r: MemoryMapError) {
        MemoryMapError::OutOfMemoryError(value)
    }
}

impl FromSpecImpl<OutOfMemoryError> for MemoryMapError {
    open spec fn obeys_from_spec() -> bool {
        true
    }

    open spec fn from_spec(value: OutOfMemoryError) -> MemoryMapError {
        MemoryMapError::OutOfMemoryError(value)
    }
}

/// Why a mapped range could not be flushed or invalidated.
#[derive(Debug, Clone, Copy, PartialEq, Eq, Structural)]
pub enum HostMemorySyncError {
    OutOfMemoryError(OutOfMemoryError),
    Unknown,
    ValidationFailed,
}

impl HostMemorySyncError {
    /// The error that `code` stands for, if it stands for one of these.
    pub open spec fn of_code(code: ResultCode) -> Option<HostMemorySyncError> {
        match code {
            ResultCode::OutOfHostMemory => Some(
                HostMemorySyncError::OutOfMemoryError(OutOfMemoryError::OutOfHostMemory),
            ),
            ResultCode::OutOfDeviceMemory => Some(
                HostMemorySyncError::OutOfMemoryError(OutOfMemoryError::OutOfDeviceMemory),
            ),
            ResultCode::Unknown => Some(HostMemorySyncError::Unknown),
            ResultCode::ValidationFailed => Some(HostMemorySyncError::ValidationFailed),
            _ => None,
        }
    }

    /// Whether the result code `raw` stands for one of these errors.
    pub fn accepts_result(raw: i32) -> (r: bool)
        ensures
            r == (Self::of_code(result_code(raw)) is Some),
    {
        match decode_result(raw) {
            ResultCode::DeviceLost | ResultCode::MemoryMapFailed | ResultCode::Other => false,
            _ => true,
        }
    }

    /// The error that the result code `raw` stands for.
    pub fn from_result(raw: i32) -> (r: HostMemorySyncError)
        requires
            Self::of_code(result_code(raw)) is Some,
        ensures
            Self::of_code(result_code(raw)) == Some(r),
    {
        match decode_result(raw) {
            ResultCode::OutOfHostMemory | ResultCode::OutOfDeviceMemory => {
                HostMemorySyncError::from(OutOfMemoryError::from_result(raw))
            },
            ResultCode::Unknown => HostMemorySyncError::Unknown,
            _ => HostMemorySyncError::ValidationFailed,
        }
    }
}

impl From<OutOfMemoryError> for HostMemorySyncError {
    fn from(value: OutOfMemoryError) -> (r: HostMemorySyncError) {
        HostMemorySyncError::OutOfMemoryError(value)
    }
}

impl FromSpecImpl<OutOfMemoryError> for HostMemorySyncError {
    open spec fn obeys_from_spec() -> bool {
        true
    }

    open spec fn from_spec(value: OutOfMemoryError) -> HostMemorySyncError {
        HostMemorySyncError::OutOfMemoryError(value)
    }
}

/// Why objects could not be given memory.
#[derive(Debug, Clone, Copy, PartialEq, Eq, Structural)]
pub enum AllocationError {
    /// No memory types could be assigned to the objects.
    AssignmentError(MemoryAssignmentError),
    OutOfMemoryError(OutOfMemoryError),
}

impl From<MemoryAssignmentError> for AllocationError {
    fn from(value: MemoryAssignmentError) -> (r: AllocationError) {
        AllocationError::AssignmentError(value)
    }
}

impl FromSpecImpl<MemoryAssignmentError> for AllocationError {
    open spec fn obeys_from_spec() -> bool {
        true
    }

    open spec fn from_spec(value: MemoryAssignmentError) -> AllocationError {
        AllocationError::AssignmentError(value)
    }
}

impl From<OutOfMemoryError> for AllocationError {
    fn from(value: OutOfMemoryError) -> (r: AllocationError) {
        AllocationError::OutOfMemoryError(value)
    }
}

impl FromSpecImpl<OutOfMemoryError> for AllocationError {
    open spec fn obeys_from_spec() -> bool {
        true
    }

    open spec fn from_spec(value: OutOfMemoryError) -> AllocationError {
        AllocationError::OutOfMemoryError(value)
    }
}

/// Why objects could not be given memory that the host sees.
#[derive(Debug, Clone, Copy, PartialEq, Eq, Structural)]
pub enum HostAllocationError {
    AllocationError(AllocationError),
    MemoryMapError(MemoryMapError),
}

/// The device is lost.
#[derive(Debug, Clone, Copy, PartialEq, Eq, Structural)]
pub struct DeviceIsLost {}

/// Why work could not be submitted to a queue.
#[derive(Debug, Clone, Copy, PartialEq, Eq, Structural)]
pub enum QueueSubmitError {
    DeviceIsLost(DeviceIsLost),
    OutOfMemory(OutOfMemoryError),
}

/// Why device memory could not be filled from staging buffers.
#[derive(Debug, Clone, Copy, PartialEq, Eq, Structural)]
pub enum DeviceMemoryInitializationError {
    /// No memory for the staging buffers.
    AllocationError(HostAllocationError),
    /// The staging buffers could not be mapped.
    MemoryMapFailed(MemoryMapError),
    /// A staging buffer could not be flushed.
    MemoryFlushFailed(HostMemorySyncError),
    /// Out of memory, but not in an allocation.
    GenericOutOfMemory(OutOfMemoryError),
    DeviceIsLost(DeviceIsLost),
}

impl DeviceMemoryInitializationError {
    /// The error that `code` stands for, if it stands for one of these.
    pub open spec fn of_code(code: ResultCode) -> Option<DeviceMemoryInitializationError> {
        match code {
            ResultCode::OutOfHostMemory => Some(
                DeviceMemoryInitializationError::GenericOutOfMemory(
                    OutOfMemoryError::OutOfHostMemory,
                ),
            ),
            ResultCode::OutOfDeviceMemory => Some(
                DeviceMemoryInitializationError::GenericOutOfMemory(
                    OutOfMemoryError::OutOfDeviceMemory,
                ),
            ),
            ResultCode::DeviceLost => Some(
                DeviceMemoryInitializationError::DeviceIsLost(DeviceIsLost {  }),
            ),
            _ => None,
        }
    }

    /// Whether the result code `raw` stands for one of these errors.
    pub fn accepts_result(raw: i32) -> (r: bool)
        ensures
            r == (Self::of_code(result_code(raw)) is Some),
    {
        match decode_result(raw) {
            ResultCode::OutOfHostMemory
            | ResultCode::OutOfDeviceMemory
            | ResultCode::DeviceLost => true,
            _ => false,
        }
    }

    /// The error that the result code `raw` stands for.
    pub fn from_result(raw: i32) -> (r: DeviceMemoryInitializationError)
        requires
            Self::of_code(result_code(raw)) is Some,
        ensures
            Self::of_code(result_code(raw)) == Some(r),
    {
        match decode_result(raw) {
            ResultCode::OutOfHostMemory | ResultCode::OutOfDeviceMemory => {
                DeviceMemoryInitializationError::from(OutOfMemoryError::from_result(raw))
            },
            _ => DeviceMemoryInitializationError::DeviceIsLost(DeviceIsLost {  }),
        }
    }
}

impl From<HostAllocationError> for DeviceMemoryInitializationError {
    fn from(value: HostAllocationError) -> (r: DeviceMemoryInitializationError) {
        DeviceMemoryInitializationError::AllocationError(value)
    }
}

impl FromSpecImpl<HostAllocationError> for DeviceMemoryInitializationError {
    open spec fn obeys_from_spec() -> bool {
        true
    }

    open spec fn from_spec(value: HostAllocationError) -> DeviceMemoryInitializationError {
        DeviceMemoryInitializationError::AllocationError(value)
    }
}

impl From<MemoryMapError> for DeviceMemoryInitializationError {
    fn from(value: MemoryMapError) -> (r: DeviceMemoryInitializationError) {
        DeviceMemoryInitializationError::MemoryMapFailed(value)
    }
}

impl FromSpecImpl<MemoryMapError> for DeviceMemoryInitializationError {
    open spec fn obeys_from_spec() -> bool {
        true
    }

    open spec fn from_spec(value: MemoryMapError) -> DeviceMemoryInitializationError {
        DeviceMemoryInitializationError::MemoryMapFailed(value)
    }
}

impl From<HostMemorySyncError> for DeviceMemoryInitializationError {
    fn from(value: HostMemorySyncError) -> (r: DeviceMemoryInitializationError) {
        DeviceMemoryInitializationError::MemoryFlushFailed(value)
    }
}

impl FromSpecImpl<HostMemorySyncError> for DeviceMemoryInitializationError {
    open spec fn obeys_from_spec() -> bool {
        true
    }

    open spec fn from_spec(value: HostMemorySyncError) -> DeviceMemoryInitializationError {
        DeviceMemoryInitializationError::MemoryFlushFailed(value)
    }
}

impl From<OutOfMemoryError> for DeviceMemoryInitializationError {
    fn from(value: OutOfMemoryError) -> (r: DeviceMemoryInitializationError) {
        DeviceMemoryInitializationError::GenericOutOfMemory(value)
    }
}

impl FromSpecImpl<OutOfMemoryError> for DeviceMemoryInitializationError {
    open spec fn obeys_from_spec() -> bool {
        true
    }

    open spec fn from_spec(value: OutOfMemoryError) -> DeviceMemoryInitializationError {
        DeviceMemoryInitializationError::GenericOutOfMemory(value)
    }
}

impl From<DeviceIsLost> for DeviceMemoryInitializationError {
    fn from(value: DeviceIsLost) -> (r: DeviceMemoryInitializationError) {
        DeviceMemoryInitializationError::DeviceIsLost(value)
    }
}

impl FromSpecImpl<DeviceIsLost> for DeviceMemoryInitializationError {
    open spec fn obeys_from_spec() -> bool {
        true
    }

    open spec fn from_spec(value: DeviceIsLost) -> DeviceMemoryInitializationError {
        DeviceMemoryInitializationError::DeviceIsLost(value)
    }
}

impl From<QueueSubmitError> for DeviceMemoryInitializationError {
    fn from(value: QueueSubmitError) -> (r: DeviceMemoryInitializationError) {
        match value {
            QueueSubmitError::DeviceIsLost(_) => DeviceMemoryInitializationError::DeviceIsLost(
                DeviceIsLost {  },
            ),
            QueueSubmitError::OutOfMemory(v) => {
                DeviceMemoryInitializationError::GenericOutOfMemory(v)
            },
        }
    }
}

impl FromSpecImpl<QueueSubmitError> for DeviceMemoryInitializationError {
    open spec fn obeys_from_spec() -> bool {
        true
    }

    open spec fn from_spec(value: QueueSubmitError) -> DeviceMemoryInitializationError {
        match value {
            QueueSubmitError::DeviceIsLost(_) => DeviceMemoryInitializationError::DeviceIsLost(
                DeviceIsLost {  },
            ),
            QueueSubmitError::OutOfMemory(v) => {
                DeviceMemoryInitializationError::GenericOutOfMemory(v)
            },
        }
    }
}

/// Running out of memory is reported as such by every kind of call: where a result code stands for
/// an out of memory error, it stands for the error that wraps it.
pub proof fn law_out_of_memory_is_always_recognised(raw: i32, error: OutOfMemoryError)
    requires
        OutOfMemoryError::of_code(result_code(raw)) == Some(error),
    ensures
        MemoryMapError::of_code(result_code(raw)) == Some(MemoryMapError::OutOfMemoryError(error)),
        HostMemorySyncError::of_code(result_code(raw)) == Some(
            HostMemorySyncError::OutOfMemoryError(error),
        ),
        DeviceMemoryInitializationError::of_code(result_code(raw)) == Some(
            DeviceMemoryInitializationError::GenericOutOfMemory(error),
        ),
{
}

/// Each kind of error stands for its own Vulkan result codes, by their numbers, and for no others.
pub proof fn law_result_codes_are_those_of_vulkan(raw: i32)
    ensures
        OutOfMemoryError::of_code(result_code(raw)) == if raw == -1 {
            Some(OutOfMemoryError::OutOfHostMemory)
        } else if raw == -2 {
            Some(OutOfMemoryError::OutOfDeviceMemory)
        } else {
            None
        },
        MemoryMapError::of_code(result_code(raw)) == if raw == -1 {
            Some(MemoryMapError::OutOfMemoryError(OutOfMemoryError::OutOfHostMemory))
        } else if raw == -2 {
            Some(MemoryMapError::OutOfMemoryError(OutOfMemoryError::OutOfDeviceMemory))
        } else if raw == -5 {
            Some(MemoryMapError::MemoryMapFailed)
        } else if raw == -13 {
            Some(MemoryMapError::Unknown)
        } else if raw == -1_000_011_001 {
            Some(MemoryMapError::ValidationFailed)
        } else {
            None
        },
        HostMemorySyncError::of_code(result_code(raw)) == if raw == -1 {
            Some(HostMemorySyncError::OutOfMemoryError(OutOfMemoryError::OutOfHostMemory))
        } else if raw == -2 {
            Some(HostMemorySyncError::OutOfMemoryError(OutOfMemoryError::OutOfDeviceMemory))
        } else if raw == -13 {
            Some(HostMemorySyncError::Unknown)
        } else if raw == -1_000_011_001 {
            Some(HostMemorySyncError::ValidationFailed)
        } else {
            None
        },
        DeviceMemoryInitializationError::of_code(result_code(raw)) == if raw == -1 {
            Some(
                DeviceMemoryInitializationError::GenericOutOfMemory(
                    OutOfMemoryError::OutOfHostMemory,
                ),
            )
        } else if raw == -2 {
            Some(
                DeviceMemoryInitializationError::GenericOutOfMemory(
                    OutOfMemoryError::OutOfDeviceMemory,
                ),
            )
        } else if raw == -4 {
            Some(DeviceMemoryInitializationError::DeviceIsLost(DeviceIsLost {  }))
        } else {
            None
        },
{
}

/// An error that becomes another is kept in it as it is.
pub proof fn law_conversions_keep_the_error(
    out_of_memory: OutOfMemoryError,
    assignment: MemoryAssignmentError,
    host: HostAllocationError,
    map: MemoryMapError,
    sync: HostMemorySyncError,
    lost: DeviceIsLost,
)
    ensures
        <AllocationError as FromSpec<OutOfMemoryError>>::from_spec(out_of_memory)
            == AllocationError::OutOfMemoryError(out_of_memory),
        <AllocationError as FromSpec<MemoryAssignmentError>>::from_spec(assignment)
            == AllocationError::AssignmentError(assignment),
        <MemoryMapError as FromSpec<OutOfMemoryError>>::from_spec(out_of_memory)
            == MemoryMapError::OutOfMemoryError(out_of_memory),
        <HostMemorySyncError as FromSpec<OutOfMemoryError>>::from_spec(out_of_memory)
            == HostMemorySyncError::OutOfMemoryError(out_of_memory),
        <DeviceMemoryInitializationError as FromSpec<HostAllocationError>>::from_spec(host)
            == DeviceMemoryInitializationError::AllocationError(host),
        <DeviceMemoryInitializationError as FromSpec<MemoryMapError>>::from_spec(map)
            == DeviceMemoryInitializationError::MemoryMapFailed(map),
        <DeviceMemoryInitializationError as FromSpec<HostMemorySyncError>>::from_spec(sync)
            == DeviceMemoryInitializationError::MemoryFlushFailed(sync),
        <DeviceMemoryInitializationError as FromSpec<OutOfMemoryError>>::from_spec(out_of_memory)
            == DeviceMemoryInitializationError::GenericOutOfMemory(out_of_memory),
        <DeviceMemoryInitializationError as FromSpec<DeviceIsLost>>::from_spec(lost)
            == DeviceMemoryInitializationError::DeviceIsLost(lost),
        <DeviceMemoryInitializationError as FromSpec<QueueSubmitError>>::from_spec(
            QueueSubmitError::OutOfMemory(out_of_memory),
        ) == DeviceMemoryInitializationError::GenericOutOfMemory(out_of_memory),
        <DeviceMemoryInitializationError as FromSpec<QueueSubmitError>>::from_spec(
            QueueSubmitError::DeviceIsLost(lost),
        ) == DeviceMemoryInitializationError::DeviceIsLost(lost),
{
}

} // verus!
