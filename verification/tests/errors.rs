use ash::vk;
use vkallocator::errors::{
    AllocationError, DeviceIsLost, DeviceMemoryInitializationError, HostAllocationError,
    HostMemorySyncError, MemoryMapError, OutOfMemoryError, QueueSubmitError,
};
use vkallocator::mem_type_assignment::MemoryAssignmentError;

const HOST: i32 = vk::Result::ERROR_OUT_OF_HOST_MEMORY.as_raw();
const DEVICE: i32 = vk::Result::ERROR_OUT_OF_DEVICE_MEMORY.as_raw();
const LOST: i32 = vk::Result::ERROR_DEVICE_LOST.as_raw();
const MAP_FAILED: i32 = vk::Result::ERROR_MEMORY_MAP_FAILED.as_raw();
const UNKNOWN: i32 = vk::Result::ERROR_UNKNOWN.as_raw();
const VALIDATION: i32 = vk::Result::ERROR_VALIDATION_FAILED_EXT.as_raw();
const SUCCESS: i32 = vk::Result::SUCCESS.as_raw();
const FRAGMENTED: i32 = vk::Result::ERROR_FRAGMENTED_POOL.as_raw();

#[test]
fn out_of_memory_from_result() {
    assert_eq!(OutOfMemoryError::from_result(HOST), OutOfMemoryError::OutOfHostMemory);
    assert_eq!(OutOfMemoryError::from_result(DEVICE), OutOfMemoryError::OutOfDeviceMemory);
    for raw in [LOST, MAP_FAILED, UNKNOWN, VALIDATION, SUCCESS, FRAGMENTED] {
        assert!(!OutOfMemoryError::accepts_result(raw));
    }
    assert!(OutOfMemoryError::accepts_result(HOST));
    assert!(OutOfMemoryError::accepts_result(DEVICE));
}

#[test]
fn memory_map_error_from_result() {
    assert_eq!(
        MemoryMapError::from_result(HOST),
        MemoryMapError::OutOfMemoryError(OutOfMemoryError::OutOfHostMemory)
    );
    assert_eq!(
        MemoryMapError::from_result(DEVICE),
        MemoryMapError::OutOfMemoryError(OutOfMemoryError::OutOfDeviceMemory)
    );
    assert_eq!(MemoryMapError::from_result(MAP_FAILED), MemoryMapError::MemoryMapFailed);
    assert_eq!(MemoryMapError::from_result(UNKNOWN), MemoryMapError::Unknown);
    assert_eq!(MemoryMapError::from_result(VALIDATION), MemoryMapError::ValidationFailed);
    for raw in [HOST, DEVICE, MAP_FAILED, UNKNOWN, VALIDATION] {
        assert!(MemoryMapError::accepts_result(raw));
    }
    for raw in [LOST, SUCCESS, FRAGMENTED] {
        assert!(!MemoryMapError::accepts_result(raw));
    }
}

#[test]
fn host_memory_sync_error_from_result() {
    assert_eq!(
        HostMemorySyncError::from_result(HOST),
        HostMemorySyncError::OutOfMemoryError(OutOfMemoryError::OutOfHostMemory)
    );
    assert_eq!(
        HostMemorySyncError::from_result(DEVICE),
        HostMemorySyncError::OutOfMemoryError(OutOfMemoryError::OutOfDeviceMemory)
    );
    assert_eq!(HostMemorySyncError::from_result(UNKNOWN), HostMemorySyncError::Unknown);
    assert_eq!(
        HostMemorySyncError::from_result(VALIDATION),
        HostMemorySyncError::ValidationFailed
    );
    for raw in [HOST, DEVICE, UNKNOWN, VALIDATION] {
        assert!(HostMemorySyncError::accepts_result(raw));
    }
    for raw in [LOST, MAP_FAILED, SUCCESS, FRAGMENTED] {
        assert!(!HostMemorySyncError::accepts_result(raw));
    }
}

#[test]
fn initialization_error_from_result() {
    assert_eq!(
        DeviceMemoryInitializationError::from_result(HOST),
        DeviceMemoryInitializationError::GenericOutOfMemory(OutOfMemoryError::OutOfHostMemory)
    );
    assert_eq!(
        DeviceMemoryInitializationError::from_result(DEVICE),
        DeviceMemoryInitializationError::GenericOutOfMemory(OutOfMemoryError::OutOfDeviceMemory)
    );
    assert_eq!(
        DeviceMemoryInitializationError::from_result(LOST),
        DeviceMemoryInitializationError::DeviceIsLost(DeviceIsLost {})
    );
    for raw in [HOST, DEVICE, LOST] {
        assert!(DeviceMemoryInitializationError::accepts_result(raw));
    }
    for raw in [MAP_FAILED, UNKNOWN, VALIDATION, SUCCESS, FRAGMENTED] {
        assert!(!DeviceMemoryInitializationError::accepts_result(raw));
    }
}

#[test]
fn initialization_error_from_queue_submit_error() {
    assert_eq!(
        DeviceMemoryInitializationError::from(QueueSubmitError::DeviceIsLost(DeviceIsLost {})),
        DeviceMemoryInitializationError::DeviceIsLost(DeviceIsLost {})
    );
    assert_eq!(
        DeviceMemoryInitializationError::from(QueueSubmitError::OutOfMemory(
            OutOfMemoryError::OutOfDeviceMemory
        )),
        DeviceMemoryInitializationError::GenericOutOfMemory(OutOfMemoryError::OutOfDeviceMemory)
    );
}

#[test]
fn out_of_memory_codes_agree() {
    for raw in [HOST, DEVICE] {
        let error = OutOfMemoryError::from_result(raw);
        assert_eq!(MemoryMapError::from_result(raw), MemoryMapError::OutOfMemoryError(error));
        assert_eq!(
            HostMemorySyncError::from_result(raw),
            HostMemorySyncError::OutOfMemoryError(error)
        );
        assert_eq!(
            DeviceMemoryInitializationError::from_result(raw),
            DeviceMemoryInitializationError::GenericOutOfMemory(error)
        );
    }
}

#[test]
fn host_allocation_errors_differ_by_cause() {
    let oom = OutOfMemoryError::OutOfHostMemory;
    assert_ne!(
        HostAllocationError::AllocationError(AllocationError::OutOfMemoryError(oom)),
        HostAllocationError::MemoryMapError(MemoryMapError::OutOfMemoryError(oom))
    );
}

#[test]
fn errors_become_the_errors_that_wrap_them() {
    let oom = OutOfMemoryError::OutOfDeviceMemory;
    assert_eq!(AllocationError::from(oom), AllocationError::OutOfMemoryError(oom));
    assert_eq!(MemoryMapError::from(oom), MemoryMapError::OutOfMemoryError(oom));
    assert_eq!(HostMemorySyncError::from(oom), HostMemorySyncError::OutOfMemoryError(oom));
    let assignment = MemoryAssignmentError::ObjectIncompatibleWithAllProperties(3);
    assert_eq!(AllocationError::from(assignment), AllocationError::AssignmentError(assignment));

    let host = HostAllocationError::MemoryMapError(MemoryMapError::Unknown);
    assert_eq!(
        DeviceMemoryInitializationError::from(host),
        DeviceMemoryInitializationError::AllocationError(host)
    );
    assert_eq!(
        DeviceMemoryInitializationError::from(MemoryMapError::Unknown),
        DeviceMemoryInitializationError::MemoryMapFailed(MemoryMapError::Unknown)
    );
    assert_eq!(
        DeviceMemoryInitializationError::from(HostMemorySyncError::ValidationFailed),
        DeviceMemoryInitializationError::MemoryFlushFailed(HostMemorySyncError::ValidationFailed)
    );
    assert_eq!(
        DeviceMemoryInitializationError::from(oom),
        DeviceMemoryInitializationError::GenericOutOfMemory(oom)
    );
    assert_eq!(
        DeviceMemoryInitializationError::from(DeviceIsLost {}),
        DeviceMemoryInitializationError::DeviceIsLost(DeviceIsLost {})
    );
}
