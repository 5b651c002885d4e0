use vkallocator::allocation::{AllocationSuccess, DetailedMemory, MemoryPlacement};
use vkallocator::errors::{
    AllocationError, DeviceMemoryInitializationError, HostAllocationError, HostMemorySyncError,
    OutOfMemoryError,
};
use vkallocator::host_memory::HostMemory;
use vkallocator::mapped_host_obj::{HostMemorySync, MappedHostObject};
use vkallocator::memory_bound::MemoryBoundType;
use vkallocator::staging_buffers::{
    create_single_use_staging_buffers, StagingAction, StagingEvent, StagingState,
};
use vkallocator::vulkan::{
    Buffer, Destroyable, DeviceMemory, MappedMemoryRange, MemoryPropertyFlags, SharingMode,
    HOST_COHERENT, HOST_VISIBLE, TRANSFER_SRC,
};

fn object(handle: u64, coherent: bool, offset: u64) -> MappedHostObject {
    MappedHostObject {
        handle,
        object_type: MemoryBoundType::Buffer,
        data_ptr: 0x1000 + offset as usize,
        memory: DeviceMemory { raw: 71 },
        mem_host_coherent: coherent,
        obj_offset: offset,
        obj_size: 64,
    }
}

fn host() -> HostMemory<2> {
    let mut memories = [DetailedMemory::default(); 32];
    memories[0] =
        DetailedMemory { memory: DeviceMemory { raw: 71 }, type_index: 0, size: 128 };
    memories[1] =
        DetailedMemory { memory: DeviceMemory { raw: 72 }, type_index: 1, size: 128 };
    HostMemory {
        allocation: AllocationSuccess {
            memories,
            memory_count: 2,
            obj_to_memory_assignment: [
                MemoryPlacement { memory_index: 0, memory_offset: 0, object_size: 64 },
                MemoryPlacement { memory_index: 0, memory_offset: 64, object_size: 64 },
            ],
        },
        objects: [object(11, true, 0), object(12, false, 64)],
    }
}

fn created() -> (StagingState<2>, StagingAction<2>) {
    let state = StagingState::new([40, 64]);
    let (state, action) = create_single_use_staging_buffers(state, StagingEvent::Started);
    match action {
        StagingAction::CreateBuffer(info) => {
            assert_eq!(info.size, 40);
            assert_eq!(info.usage.bits, TRANSFER_SRC);
            assert_eq!(info.sharing_mode, SharingMode::Exclusive);
        }
        other => panic!("unexpected {:?}", other),
    }
    let (state, action) =
        create_single_use_staging_buffers(state, StagingEvent::BufferCreated(Buffer { raw: 11 }));
    match action {
        StagingAction::CreateBuffer(info) => assert_eq!(info.size, 64),
        other => panic!("unexpected {:?}", other),
    }
    create_single_use_staging_buffers(state, StagingEvent::BufferCreated(Buffer { raw: 12 }))
}

fn abandoned(
    action: StagingAction<2>,
) -> (Vec<Destroyable>, DeviceMemoryInitializationError) {
    match action {
        StagingAction::Abandon { destroy, error } => (destroy, error),
        other => panic!("unexpected {:?}", other),
    }
}

fn all_made() -> Vec<Destroyable> {
    vec![
        Destroyable::Buffer(Buffer { raw: 11 }),
        Destroyable::Buffer(Buffer { raw: 12 }),
        Destroyable::Memory(DeviceMemory { raw: 71 }),
        Destroyable::Memory(DeviceMemory { raw: 72 }),
    ]
}

#[test]
fn staging_buffers_from_start_to_finish() {
    let (state, action) = created();
    match action {
        StagingAction::AllocateHostMemory { buffers, mem_props, priority } => {
            assert_eq!(priority.bits, 0.5f32.to_bits());
            assert_eq!(buffers, [Buffer { raw: 11 }, Buffer { raw: 12 }]);
            assert_eq!(mem_props[0].bits, HOST_VISIBLE | HOST_COHERENT);
            assert_eq!(mem_props[1].bits, HOST_VISIBLE);
            for props in mem_props {
                assert!(props.contains(MemoryPropertyFlags { bits: HOST_VISIBLE }));
            }
        }
        other => panic!("unexpected {:?}", other),
    }
    let (state, action) =
        create_single_use_staging_buffers(state, StagingEvent::HostMemoryReady(host()));
    match action {
        StagingAction::Write { index, target, size, sync } => {
            assert_eq!(index, 0);
            assert_eq!(target.buffer, Buffer { raw: 11 });
            assert_eq!(target.data_ptr, 0x1000);
            assert_eq!(size, 40);
            assert_eq!(sync, None);
        }
        other => panic!("unexpected {:?}", other),
    }
    let (state, action) = create_single_use_staging_buffers(state, StagingEvent::Written);
    match action {
        StagingAction::Write { index, target, size, sync } => {
            assert_eq!(index, 1);
            assert_eq!(target.buffer, Buffer { raw: 12 });
            assert_eq!(size, 64);
            assert_eq!(
                sync,
                Some(HostMemorySync::Flush(MappedMemoryRange {
                    memory: DeviceMemory { raw: 71 },
                    offset: 64,
                    size: 64,
                }))
            );
        }
        other => panic!("unexpected {:?}", other),
    }
    let (_, action) = create_single_use_staging_buffers(state, StagingEvent::Written);
    match action {
        StagingAction::Finish { unmap, staging } => {
            assert_eq!(unmap, vec![DeviceMemory { raw: 71 }, DeviceMemory { raw: 72 }]);
            assert_eq!(staging.buffers, [Buffer { raw: 11 }, Buffer { raw: 12 }]);
            assert_eq!(*staging.get_buffers(), staging.buffers);
            assert_eq!(staging.destroy_self(), all_made());
        }
        other => panic!("unexpected {:?}", other),
    }
}

#[test]
fn failed_buffer_destroys_the_buffers_before_it() {
    let state = StagingState::new([40, 64]);
    let (state, _) = create_single_use_staging_buffers(state, StagingEvent::Started);
    let (state, _) =
        create_single_use_staging_buffers(state, StagingEvent::BufferCreated(Buffer { raw: 11 }));
    let (_, action) = create_single_use_staging_buffers(
        state,
        StagingEvent::BufferFailed(OutOfMemoryError::OutOfHostMemory),
    );
    assert_eq!(
        abandoned(action),
        (
            vec![Destroyable::Buffer(Buffer { raw: 11 })],
            DeviceMemoryInitializationError::GenericOutOfMemory(OutOfMemoryError::OutOfHostMemory)
        )
    );
}

#[test]
fn failed_host_memory_destroys_the_buffers() {
    let (state, _) = created();
    let error = HostAllocationError::AllocationError(AllocationError::OutOfMemoryError(
        OutOfMemoryError::OutOfDeviceMemory,
    ));
    let (_, action) =
        create_single_use_staging_buffers(state, StagingEvent::HostMemoryFailed(error));
    assert_eq!(
        abandoned(action),
        (
            vec![
                Destroyable::Buffer(Buffer { raw: 11 }),
                Destroyable::Buffer(Buffer { raw: 12 }),
            ],
            DeviceMemoryInitializationError::AllocationError(error)
        )
    );
}

#[test]
fn failed_flush_destroys_buffers_and_memories() {
    let (state, _) = created();
    let (state, _) =
        create_single_use_staging_buffers(state, StagingEvent::HostMemoryReady(host()));
    let (state, _) = create_single_use_staging_buffers(state, StagingEvent::Written);
    let (_, action) = create_single_use_staging_buffers(
        state,
        StagingEvent::FlushFailed(HostMemorySyncError::Unknown),
    );
    assert_eq!(
        abandoned(action),
        (
            all_made(),
            DeviceMemoryInitializationError::MemoryFlushFailed(HostMemorySyncError::Unknown)
        )
    );
}

#[test]
fn failed_staging_leaves_the_state_as_it_was() {
    let (state, _) = created();
    let (state, _) =
        create_single_use_staging_buffers(state, StagingEvent::HostMemoryReady(host()));
    let before = format!("{:?}", state);
    let (state, _) = create_single_use_staging_buffers(
        state,
        StagingEvent::FlushFailed(HostMemorySyncError::Unknown),
    );
    assert_eq!(format!("{:?}", state), before);
}
