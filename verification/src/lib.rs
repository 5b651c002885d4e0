//! Placing Vulkan buffers and images in device memory.
//!
//! Each object gets a memory type, the objects of one memory type share one device memory, and
//! each object a place in it. The crate decides; the calls to the device are the caller's: where
//! the two alternate, a function takes in what the device did and says what is to be done next.

pub mod allocation;
pub mod binding;
mod boxed;
pub mod create_objs;
pub mod errors;
pub mod host_memory;
pub mod layout;
pub mod mapped_host_obj;
pub mod mapping;
pub mod mem_type_assignment;
pub mod memory_bound;
pub mod staging_buffers;
pub mod vulkan;

pub use allocation::{allocate_memory, AllocationSuccess, DetailedMemory, MemoryPlacement};
pub use binding::allocate_and_bind_memory;
pub use errors::{
    AllocationError, DeviceMemoryInitializationError, HostMemorySyncError, MemoryMapError,
};
pub use host_memory::allocate_and_map_host_memory;
pub use mapped_host_obj::{MappedHostBuffer, MappedHostImage, MappedHostObject};
pub use mapping::map_host_visible_allocation;
pub use memory_bound::{MemoryBound, MemoryBoundType};
pub use staging_buffers::{create_single_use_staging_buffers, SingleUseStagingBuffers};
