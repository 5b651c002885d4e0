use ash::vk;
use vkallocator::create_objs::create_buffer;
use vkallocator::vulkan::{
    BufferUsageFlags, DeviceMemory, SharingMode, HOST_COHERENT, HOST_VISIBLE, MAX_MEMORY_TYPES,
    TRANSFER_SRC, WHOLE_SIZE,
};

#[test]
fn constants_are_those_of_vulkan() {
    assert_eq!(MAX_MEMORY_TYPES, vk::MAX_MEMORY_TYPES);
    assert_eq!(HOST_VISIBLE, vk::MemoryPropertyFlags::HOST_VISIBLE.as_raw());
    assert_eq!(HOST_COHERENT, vk::MemoryPropertyFlags::HOST_COHERENT.as_raw());
    assert_eq!(TRANSFER_SRC, vk::BufferUsageFlags::TRANSFER_SRC.as_raw());
    assert_eq!(WHOLE_SIZE, vk::WHOLE_SIZE);
    assert_eq!(DeviceMemory::null().raw, vk::Handle::as_raw(vk::DeviceMemory::null()));
}

#[test]
fn buffers_are_exclusive_and_plain() {
    let info = create_buffer(4096, BufferUsageFlags { bits: TRANSFER_SRC });
    assert_eq!(info.size, 4096);
    assert_eq!(info.usage.bits, vk::BufferUsageFlags::TRANSFER_SRC.as_raw());
    assert_eq!(info.flags, vk::BufferCreateFlags::empty().as_raw());
    assert_eq!(info.sharing_mode, SharingMode::Exclusive);
    assert_eq!(info.queue_family_index_count, 0);
}
