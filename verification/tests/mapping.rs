use vkallocator::allocation::{AllocationSuccess, DetailedMemory, MemoryPlacement};
use vkallocator::errors::MemoryMapError;
use vkallocator::mapped_host_obj::{
    HostMemorySync, MappedHostBuffer, MappedHostImage, MappedHostObject,
};
use vkallocator::mapping::{
    map_host_visible_allocation, MappingAction, MappingEvent, MappingState,
};
use vkallocator::memory_bound::{MemoryBound, MemoryBoundType};
use vkallocator::vulkan::{
    Buffer, Destroyable, DeviceMemory, Image, MappedMemoryRange, MemoryPropertyFlags,
};

fn memory(raw: u64, type_index: usize) -> DetailedMemory {
    DetailedMemory { memory: DeviceMemory { raw }, type_index, size: 1024 }
}

fn allocation() -> AllocationSuccess<2> {
    let mut memories = [DetailedMemory::default(); 32];
    memories[0] = memory(71, 1);
    memories[1] = memory(72, 0);
    AllocationSuccess {
        memories,
        memory_count: 2,
        obj_to_memory_assignment: [
            MemoryPlacement { memory_index: 1, memory_offset: 64, object_size: 32 },
            MemoryPlacement { memory_index: 0, memory_offset: 128, object_size: 16 },
        ],
    }
}

fn map_target(action: MappingAction) -> (DeviceMemory, u64, u64, u32) {
    match action {
        MappingAction::MapMemory { memory, offset, size, flags } => (memory, offset, size, flags),
        other => panic!("unexpected {:?}", other),
    }
}

#[test]
fn memories_are_mapped_whole_and_in_order() {
    let state = MappingState::new(allocation());
    let (state, action) = map_host_visible_allocation(state, MappingEvent::Started);
    assert_eq!(map_target(action), (DeviceMemory { raw: 71 }, 0, u64::MAX, 0));
    let (state, action) = map_host_visible_allocation(state, MappingEvent::Mapped(0x1000));
    assert_eq!(map_target(action), (DeviceMemory { raw: 72 }, 0, u64::MAX, 0));
    let (_, action) = map_host_visible_allocation(state, MappingEvent::Mapped(0x2000));
    match action {
        MappingAction::Finish(pointers) => assert_eq!(*pointers, [0x1000, 0x2000]),
        other => panic!("unexpected {:?}", other),
    }
}

#[test]
fn failed_mapping_is_reported() {
    let state = MappingState::new(allocation());
    let (state, _) = map_host_visible_allocation(state, MappingEvent::Started);
    let (_, action) =
        map_host_visible_allocation(state, MappingEvent::Failed(MemoryMapError::MemoryMapFailed));
    assert!(matches!(action, MappingAction::Abandon(MemoryMapError::MemoryMapFailed)));
}

#[test]
fn no_memories_need_no_mapping() {
    let allocation: AllocationSuccess<0> = AllocationSuccess {
        memories: [DetailedMemory::default(); 32],
        memory_count: 0,
        obj_to_memory_assignment: [],
    };
    let (_, action) =
        map_host_visible_allocation(MappingState::new(allocation), MappingEvent::Started);
    match action {
        MappingAction::Finish(pointers) => assert!(pointers.is_empty()),
        other => panic!("unexpected {:?}", other),
    }
}

#[test]
fn objects_know_their_kind_and_handle() {
    let buffer = Buffer { raw: 3 };
    let image = Image { raw: 4 };
    assert_eq!(buffer.object_type(), MemoryBoundType::Buffer);
    assert_eq!(buffer.object_handle(), 3);
    assert_eq!(image.object_type(), MemoryBoundType::Image);
    assert_eq!(image.object_handle(), 4);
}

fn objects() -> [MappedHostObject; 2] {
    let buffer = Buffer { raw: 3 };
    let image = Image { raw: 4 };
    let objs: [&dyn MemoryBound; 2] = [&buffer, &image];
    MappedHostObject::from_allocation(
        &allocation(),
        [MemoryPropertyFlags { bits: 0x2 }, MemoryPropertyFlags { bits: 0x7 }],
        &objs,
        [0x2040, 0x1080],
    )
}

#[test]
fn mapped_objects_of_an_allocation() {
    assert_eq!(
        objects(),
        [
            MappedHostObject {
                handle: 3,
                object_type: MemoryBoundType::Buffer,
                data_ptr: 0x2040,
                memory: DeviceMemory { raw: 72 },
                mem_host_coherent: false,
                obj_offset: 64,
                obj_size: 32,
            },
            MappedHostObject {
                handle: 4,
                object_type: MemoryBoundType::Image,
                data_ptr: 0x1080,
                memory: DeviceMemory { raw: 71 },
                mem_host_coherent: true,
                obj_offset: 128,
                obj_size: 16,
            },
        ]
    );
}

#[test]
fn mapped_objects_are_destroyed_as_what_they_are() {
    let [buffer, image] = objects();
    assert_eq!(buffer.destroy_self(), Destroyable::Buffer(Buffer { raw: 3 }));
    assert_eq!(image.destroy_self(), Destroyable::Image(Image { raw: 4 }));
    assert_eq!(buffer.into_buffer::<u32>().destroy_self(), buffer.destroy_self());
    assert_eq!(image.into_image().destroy_self(), image.destroy_self());
}

#[test]
fn incoherent_buffer_is_flushed_and_invalidated() {
    let buffer: MappedHostBuffer<u16> = objects()[0].into_buffer();
    let range = MappedMemoryRange { memory: DeviceMemory { raw: 72 }, offset: 64, size: 32 };
    assert_eq!(*buffer, Buffer { raw: 3 });
    assert_eq!(buffer.data_ptr, 0x2040);
    assert_eq!(buffer.memory_range(), range);
    assert_eq!(buffer.flush_memory_range(), Some(HostMemorySync::Flush(range)));
    assert_eq!(buffer.invalidate_memory_range(), Some(HostMemorySync::Invalidate(range)));
}

#[test]
fn coherent_image_needs_no_sync() {
    let image: MappedHostImage = objects()[1].into_image();
    let range = MappedMemoryRange { memory: DeviceMemory { raw: 71 }, offset: 128, size: 16 };
    assert_eq!(*image, Image { raw: 4 });
    assert_eq!(image.memory_range(), range);
    assert_eq!(image.flush_memory_range(), None);
    assert_eq!(image.invalidate_memory_range(), None);
    let incoherent = MappedHostImage { mem_host_coherent: false, ..image };
    assert_eq!(incoherent.flush_memory_range(), Some(HostMemorySync::Flush(range)));
    assert_eq!(incoherent.invalidate_memory_range(), Some(HostMemorySync::Invalidate(range)));
}

#[test]
fn coherent_buffer_needs_no_sync() {
    let mut buffer: MappedHostBuffer<u8> = objects()[0].into_buffer();
    buffer.mem_host_coherent = true;
    let copy = buffer;
    assert_eq!(copy.flush_memory_range(), None);
    assert_eq!(copy.invalidate_memory_range(), None);
}

#[test]
fn buffer_reads_give_back_what_was_written() {
    let buffer: MappedHostBuffer<u32> = objects()[0].into_buffer();
    let mut mapped = [9u32; 8];
    buffer.copy_to_buffer_memory(&mut mapped, &[1, 2, 3]);
    assert_eq!(mapped, [1, 2, 3, 9, 9, 9, 9, 9]);
    assert_eq!(*buffer.read_to_box(&mapped, 3), [1, 2, 3]);
    assert_eq!(*buffer.read_to_box(&mapped, 4), [1, 2, 3, 9]);
    assert!(buffer.read_to_box(&mapped, 0).is_empty());
}

#[test]
fn buffer_can_be_filled_to_the_end() {
    let buffer: MappedHostBuffer<u64> = objects()[0].into_buffer();
    let mut mapped = [0u64; 4];
    buffer.copy_to_buffer_memory(&mut mapped, &[4, 3, 2, 1]);
    assert_eq!(mapped, [4, 3, 2, 1]);
}

#[test]
fn byte_copies_take_the_given_number_of_bytes() {
    let buffer: MappedHostBuffer<u64> = objects()[0].into_buffer();
    let mut mapped = [7u8; 6];
    buffer.copy_to_buffer_memory_ptr(&mut mapped, &[1, 2, 3, 4], 2);
    assert_eq!(mapped, [1, 2, 7, 7, 7, 7]);

    let image: MappedHostImage = objects()[1].into_image();
    image.copy_to_image_memory(&mut mapped, &[5, 5, 5]);
    assert_eq!(mapped, [5, 5, 5, 7, 7, 7]);
    image.copy_to_image_memory_ptr(&mut mapped, &[8, 9], 1);
    assert_eq!(mapped, [8, 5, 5, 7, 7, 7]);
}

#[test]
fn object_addresses_are_offsets_from_the_mapped_memories() {
    let addresses = allocation().object_addresses(&[0x1000, 0x2000]);
    assert_eq!(addresses, [0x2040, 0x1080]);
    assert!(addresses.iter().all(|&address| address != 0));
}

#[test]
fn addresses_in_one_memory_are_apart() {
    let mut allocation = allocation();
    allocation.obj_to_memory_assignment = [
        MemoryPlacement { memory_index: 1, memory_offset: 64, object_size: 32 },
        MemoryPlacement { memory_index: 1, memory_offset: 96, object_size: 16 },
    ];
    let [first, second] = allocation.object_addresses(&[0x1000, 0x2000]);
    assert_eq!((first, second), (0x2040, 0x2060));
    assert!(first + 32 <= second);
}

#[test]
fn addresses_may_reach_the_end_of_the_address_space() {
    let [first, second] = allocation().object_addresses(&[usize::MAX - 128, usize::MAX - 64]);
    assert_eq!((first, second), (usize::MAX, usize::MAX));
}

#[test]
fn ranges_are_those_of_the_placements() {
    let places = allocation().obj_to_memory_assignment;
    let [buffer, image] = objects();
    let buffer = buffer.into_buffer::<u8>().memory_range();
    let image = image.into_image().memory_range();
    assert_eq!((buffer.offset, buffer.size), (places[0].memory_offset, places[0].object_size));
    assert_eq!((image.offset, image.size), (places[1].memory_offset, places[1].object_size));
}
