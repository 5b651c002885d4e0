//! Creating buffers.

use vstd::prelude::*;
use crate::vulkan::{BufferCreateInfo, BufferUsageFlags, SharingMode};

verus! {

/// The buffer to create for `size` bytes and these uses: no flags, and owned by one queue family
/// at a time.
pub open spec fn exclusive_buffer(size: u64, usage: BufferUsageFlags) -> BufferCreateInfo {
    BufferCreateInfo {
        flags: 0,
        size,
        usage,
        sharing_mode: SharingMode::Exclusive,
        queue_family_index_count: 0,
    }
}

/// The buffer that the device is to create for `size` bytes and these uses.
pub fn create_buffer(size: u64, usage: BufferUsageFlags) -> (r: BufferCreateInfo)
    ensures
        r == exclusive_buffer(size, usage),
        r.size == size,
        r.usage == usage,
        r.flags == 0,
        r.sharing_mode is Exclusive,
        r.queue_family_index_count == 0,
{
    BufferCreateInfo {
        flags: 0,
        size,
        usage,
        sharing_mode: SharingMode::Exclusive,
        queue_family_index_count: 0,
    }
}

/// A buffer is created with the size and the uses asked for, without flags, and belongs to one
/// queue family at a time, none of which is named.
pub proof fn law_buffer_is_plain_and_exclusive(size: u64, usage: BufferUsageFlags)
    ensures
        exclusive_buffer(size, usage).size == size,
        exclusive_buffer(size, usage).usage == usage,
        exclusive_buffer(size, usage).flags == 0,
        exclusive_buffer(size, usage).sharing_mode is Exclusive,
        exclusive_buffer(size, usage).queue_family_index_count == 0,
{
}

} // verus!
