use vkallocator::allocation::{AllocationEvent, MemoryExtensions};
use vkallocator::binding::PlacementEvent;
use vkallocator::errors::{
    AllocationError, HostAllocationError, MemoryMapError, OutOfMemoryError,
};
use vkallocator::host_memory::{
    allocate_and_map_host_memory, HostMemory, HostMemoryAction, HostMemoryEvent, HostMemoryState,
};
use vkallocator::mapped_host_obj::MappedHostObject;
use vkallocator::mapping::MappingEvent;
use vkallocator::mem_type_assignment::{MemoryAssignmentError, UnassignedToMemoryObjectsData};
use vkallocator::memory_bound::{BoundObject, MemoryBoundType};
use vkallocator::vulkan::{
    Destroyable, DeviceMemory, MemoryPriority, MemoryPropertyFlags, MemoryRequirements, MemoryType,
    WHOLE_SIZE,
};

const PRIORITY: MemoryPriority = MemoryPriority { bits: 0x3f00_0000 };

fn mem_type(bits: u32) -> MemoryType {
    MemoryType { property_flags: MemoryPropertyFlags { bits }, heap_index: 0 }
}

fn req(size: u64, alignment: u64, memory_type_bits: u32) -> MemoryRequirements {
    MemoryRequirements { size, alignment, memory_type_bits }
}

fn new<const S: usize>(
    obj_reqs: [MemoryRequirements; S],
    objects: [BoundObject; S],
) -> Result<HostMemoryState<S>, HostAllocationError> {
    HostMemoryState::new(
        UnassignedToMemoryObjectsData {
            mem_types: &[mem_type(0x1), mem_type(0x6), mem_type(0x2)],
            mem_props: [MemoryPropertyFlags { bits: 0x6 }, MemoryPropertyFlags { bits: 0x2 }],
            obj_reqs,
        },
        1000,
        MemoryExtensions { memory_priority: true, pageable_device_local_memory: false },
        PRIORITY,
        objects,
    )
}

/// A buffer and an image in coherent memory, and a buffer that allows only memory that is not.
fn state() -> HostMemoryState<3> {
    new(
        [req(10, 4, 0b111), req(16, 16, 0b101), req(8, 8, 0b010)],
        [
            BoundObject { object_type: MemoryBoundType::Buffer, handle: 11 },
            BoundObject { object_type: MemoryBoundType::Buffer, handle: 12 },
            BoundObject { object_type: MemoryBoundType::Image, handle: 13 },
        ],
    )
    .unwrap()
}

/// Answers every request until the memories are to be mapped at `pointers`; a missing one fails.
fn run(pointers: &[usize]) -> (Vec<HostMemoryAction<3>>, HostMemoryState<3>) {
    let mut state = state();
    let mut event =
        HostMemoryEvent::Placement(PlacementEvent::Allocation(AllocationEvent::Started));
    let mut actions = vec![];
    let mut allocated = 0;
    let mut mapped = 0;
    loop {
        let (next, action) = allocate_and_map_host_memory(state, event);
        state = next;
        event = match &action {
            HostMemoryAction::Allocate(request) => {
                assert_eq!(request.priority, Some(PRIORITY));
                allocated += 1;
                HostMemoryEvent::Placement(PlacementEvent::Allocation(AllocationEvent::Allocated(
                    DeviceMemory { raw: 70 + allocated },
                )))
            }
            HostMemoryAction::Bind { .. } => HostMemoryEvent::Placement(PlacementEvent::Bound),
            HostMemoryAction::MapMemory { .. } => {
                mapped += 1;
                HostMemoryEvent::Mapping(match pointers.get(mapped - 1) {
                    Some(&pointer) => {
                        assert!(state.addresses_fit(pointer));
                        MappingEvent::Mapped(pointer)
                    }
                    None => MappingEvent::Failed(MemoryMapError::MemoryMapFailed),
                })
            }
            _ => {
                actions.push(action);
                return (actions, state);
            }
        };
        actions.push(action);
    }
}

fn finished(action: HostMemoryAction<3>) -> HostMemory<3> {
    match action {
        HostMemoryAction::Finish(host) => host,
        other => panic!("unexpected {:?}", other),
    }
}

fn abandoned<const S: usize>(
    action: HostMemoryAction<S>,
) -> (Vec<Destroyable>, HostAllocationError) {
    match action {
        HostMemoryAction::Abandon { destroy, error } => (destroy, error),
        other => panic!("unexpected {:?}", other),
    }
}

#[test]
fn host_memory_from_start_to_finish() {
    let (mut actions, _) = run(&[0x1000, 0x2000]);
    let host = finished(actions.pop().unwrap());
    assert_eq!(
        host.objects,
        [
            MappedHostObject {
                handle: 11,
                object_type: MemoryBoundType::Buffer,
                data_ptr: 0x1000,
                memory: DeviceMemory { raw: 71 },
                mem_host_coherent: true,
                obj_offset: 0,
                obj_size: 10,
            },
            MappedHostObject {
                handle: 12,
                object_type: MemoryBoundType::Buffer,
                data_ptr: 0x2000,
                memory: DeviceMemory { raw: 72 },
                mem_host_coherent: false,
                obj_offset: 0,
                obj_size: 16,
            },
            MappedHostObject {
                handle: 13,
                object_type: MemoryBoundType::Image,
                data_ptr: 0x1010,
                memory: DeviceMemory { raw: 71 },
                mem_host_coherent: true,
                obj_offset: 16,
                obj_size: 8,
            },
        ]
    );
    assert_eq!(
        host.allocation.destroy_self(),
        vec![
            Destroyable::Memory(DeviceMemory { raw: 71 }),
            Destroyable::Memory(DeviceMemory { raw: 72 }),
        ]
    );
    let binds: Vec<_> = actions
        .iter()
        .filter_map(|action| match action {
            HostMemoryAction::Bind { object_index, memory, memory_offset } => {
                Some((*object_index, memory.raw, *memory_offset))
            }
            _ => None,
        })
        .collect();
    assert_eq!(binds, vec![(0, 71, 0), (1, 72, 0), (2, 71, 16)]);
    let maps: Vec<_> = actions
        .iter()
        .filter_map(|action| match action {
            HostMemoryAction::MapMemory { memory, offset, size, flags } => {
                Some((memory.raw, *offset, *size, *flags))
            }
            _ => None,
        })
        .collect();
    assert_eq!(maps, vec![(71, 0, WHOLE_SIZE, 0), (72, 0, WHOLE_SIZE, 0)]);
}

#[test]
fn failed_mapping_frees_all_memories() {
    for pointers in [&[][..], &[0x1000][..]] {
        let (mut actions, _) = run(pointers);
        assert_eq!(
            abandoned(actions.pop().unwrap()),
            (
                vec![
                    Destroyable::Memory(DeviceMemory { raw: 71 }),
                    Destroyable::Memory(DeviceMemory { raw: 72 }),
                ],
                HostAllocationError::MemoryMapError(MemoryMapError::MemoryMapFailed)
            )
        );
    }
}

#[test]
fn failed_allocation_and_failed_bind_end_host_memory() {
    let out_of_memory = HostAllocationError::AllocationError(AllocationError::OutOfMemoryError(
        OutOfMemoryError::OutOfHostMemory,
    ));
    let event = |event| HostMemoryEvent::Placement(PlacementEvent::Allocation(event));
    let memory = |raw| event(AllocationEvent::Allocated(DeviceMemory { raw }));
    let (state1, _) = allocate_and_map_host_memory(state(), event(AllocationEvent::Started));
    let (state1, _) = allocate_and_map_host_memory(state1, memory(71));
    let failed = event(AllocationEvent::Failed(OutOfMemoryError::OutOfHostMemory));
    let before = format!("{:?}", state1);
    let (state1, action) = allocate_and_map_host_memory(state1, failed);
    assert_eq!(format!("{:?}", state1), before);
    assert_eq!(
        abandoned(action),
        (vec![Destroyable::Memory(DeviceMemory { raw: 71 })], out_of_memory)
    );

    let (state2, _) = allocate_and_map_host_memory(state(), event(AllocationEvent::Started));
    let (state2, _) = allocate_and_map_host_memory(state2, memory(71));
    let (state2, _) = allocate_and_map_host_memory(state2, memory(72));
    let failed = PlacementEvent::BindFailed(OutOfMemoryError::OutOfHostMemory);
    let (_, action) = allocate_and_map_host_memory(state2, HostMemoryEvent::Placement(failed));
    assert_eq!(
        abandoned(action),
        (
            vec![
                Destroyable::Memory(DeviceMemory { raw: 71 }),
                Destroyable::Memory(DeviceMemory { raw: 72 }),
            ],
            out_of_memory
        )
    );
}

#[test]
fn addresses_beyond_the_address_space_do_not_fit() {
    let mut state = state();
    assert!(!state.addresses_fit(0x1000));
    let events = [
        HostMemoryEvent::Placement(PlacementEvent::Allocation(AllocationEvent::Started)),
        HostMemoryEvent::Placement(PlacementEvent::Allocation(AllocationEvent::Allocated(
            DeviceMemory { raw: 71 },
        ))),
        HostMemoryEvent::Placement(PlacementEvent::Allocation(AllocationEvent::Allocated(
            DeviceMemory { raw: 72 },
        ))),
        HostMemoryEvent::Placement(PlacementEvent::Bound),
        HostMemoryEvent::Placement(PlacementEvent::Bound),
        HostMemoryEvent::Placement(PlacementEvent::Bound),
    ];
    for event in events {
        state = allocate_and_map_host_memory(state, event).0;
    }
    assert!(state.addresses_fit(usize::MAX - 16));
    assert!(!state.addresses_fit(usize::MAX - 15));
}

#[test]
fn oversized_host_memory_stops() {
    let object = BoundObject { object_type: MemoryBoundType::Buffer, handle: 1 };
    let state = new([req(1001, 1, 0b111)], [object]).unwrap();
    let started = HostMemoryEvent::Placement(PlacementEvent::Allocation(AllocationEvent::Started));
    let (_, action) = allocate_and_map_host_memory(state, started);
    assert!(matches!(action, HostMemoryAction::LimitExceeded));
}

#[test]
fn no_objects_need_no_host_memory() {
    let started = HostMemoryEvent::Placement(PlacementEvent::Allocation(AllocationEvent::Started));
    let (_, action) = allocate_and_map_host_memory(new([], []).unwrap(), started);
    match action {
        HostMemoryAction::Finish(host) => assert_eq!(host.allocation.memory_count, 0),
        other => panic!("unexpected {:?}", other),
    }
}

#[test]
fn host_memory_passes_assignment_errors_on() {
    let object = BoundObject { object_type: MemoryBoundType::Buffer, handle: 1 };
    assert_eq!(
        new([req(1, 1, 0b010), req(1, 1, 0b001)], [object, object]).err(),
        Some(HostAllocationError::AllocationError(AllocationError::AssignmentError(
            MemoryAssignmentError::ObjectIncompatibleWithAllProperties(1)
        )))
    );
    let unsupported = HostMemoryState::new(
        UnassignedToMemoryObjectsData {
            mem_types: &[mem_type(0x1)],
            mem_props: [MemoryPropertyFlags { bits: 0x2 }],
            obj_reqs: [req(1, 1, 0b1)],
        },
        1000,
        MemoryExtensions { memory_priority: false, pageable_device_local_memory: false },
        PRIORITY,
        [object],
    );
    assert_eq!(
        unsupported.err(),
        Some(HostAllocationError::AllocationError(AllocationError::AssignmentError(
            MemoryAssignmentError::AllPropertiesUnsupported
        )))
    );
}
