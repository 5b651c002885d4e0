use vkallocator::allocation::{
    allocate_memory, AllocationAction, AllocationEvent, AllocationState, AllocationSuccess,
    DetailedMemory, MemoryExtensions, MemoryPlacement, MemoryRequest,
};
use vkallocator::binding::{
    allocate_and_bind_memory, PlacementAction, PlacementEvent, PlacementState,
};
use vkallocator::errors::{AllocationError, OutOfMemoryError};
use vkallocator::mem_type_assignment::{MemoryAssignmentError, UnassignedToMemoryObjectsData};
use vkallocator::vulkan::{
    Destroyable, DeviceMemory, MemoryAllocateInfo, MemoryPriority, MemoryPropertyFlags,
    MemoryRequirements, MemoryType,
};

fn mem_type(bits: u32) -> MemoryType {
    MemoryType { property_flags: MemoryPropertyFlags { bits }, heap_index: 0 }
}

fn req(size: u64, alignment: u64, memory_type_bits: u32) -> MemoryRequirements {
    MemoryRequirements { size, alignment, memory_type_bits }
}

const NO_EXTENSIONS: MemoryExtensions =
    MemoryExtensions { memory_priority: false, pageable_device_local_memory: false };

const PRIORITY: MemoryPriority = MemoryPriority { bits: 0x3f00_0000 };

fn start<const S: usize>(
    obj_reqs: [MemoryRequirements; S],
    max: u64,
) -> Result<AllocationState<S>, AllocationError> {
    start_with(obj_reqs, max, NO_EXTENSIONS)
}

fn start_with<const S: usize>(
    obj_reqs: [MemoryRequirements; S],
    max: u64,
    extensions: MemoryExtensions,
) -> Result<AllocationState<S>, AllocationError> {
    let mem_types = [mem_type(1), mem_type(1), mem_type(2)];
    AllocationState::new(
        UnassignedToMemoryObjectsData {
            mem_types: &mem_types,
            mem_props: [MemoryPropertyFlags { bits: 1 }],
            obj_reqs,
        },
        max,
        extensions,
        PRIORITY,
    )
}

fn request<const S: usize>(action: AllocationAction<S>) -> MemoryAllocateInfo {
    match action {
        AllocationAction::Allocate(request) => request.info,
        other => panic!("unexpected {:?}", other),
    }
}

fn finished<const S: usize>(action: AllocationAction<S>) -> AllocationSuccess<S> {
    match action {
        AllocationAction::Finish(success) => success,
        other => panic!("unexpected {:?}", other),
    }
}

/// Three objects of type 1, with one of type 0 between them.
fn mixed() -> [MemoryRequirements; 4] {
    [req(10, 4, 0b10), req(100, 64, 0b01), req(3, 16, 0b10), req(8, 8, 0b10)]
}

#[test]
fn objects_are_packed_by_memory_type() {
    let state = start(mixed(), 1000).unwrap();
    let (state, action) = allocate_memory(state, AllocationEvent::Started);
    // 0..10, 16..19, 24..32
    assert_eq!(request(action), MemoryAllocateInfo { allocation_size: 32, memory_type_index: 1 });
    let (state, action) =
        allocate_memory(state, AllocationEvent::Allocated(DeviceMemory { raw: 71 }));
    assert_eq!(request(action), MemoryAllocateInfo { allocation_size: 100, memory_type_index: 0 });
    let (_, action) = allocate_memory(state, AllocationEvent::Allocated(DeviceMemory { raw: 72 }));
    let success = finished(action);

    assert_eq!(success.memory_count, 2);
    assert_eq!(
        success.get_memories(),
        [
            DetailedMemory { memory: DeviceMemory { raw: 71 }, type_index: 1, size: 32 },
            DetailedMemory { memory: DeviceMemory { raw: 72 }, type_index: 0, size: 100 },
        ]
    );
    for unused in &success.memories[2..] {
        assert_eq!(
            *unused,
            DetailedMemory { memory: DeviceMemory::null(), type_index: usize::MAX, size: 0 }
        );
    }
    assert_eq!(
        success.obj_to_memory_assignment,
        [
            MemoryPlacement { memory_index: 0, memory_offset: 0, object_size: 10 },
            MemoryPlacement { memory_index: 1, memory_offset: 0, object_size: 100 },
            MemoryPlacement { memory_index: 0, memory_offset: 16, object_size: 3 },
            MemoryPlacement { memory_index: 0, memory_offset: 24, object_size: 8 },
        ]
    );
}

#[test]
fn placements_are_aligned_inside_and_apart() {
    let reqs = mixed();
    let state = start(reqs, 1000).unwrap();
    let (state, _) = allocate_memory(state, AllocationEvent::Started);
    let (state, _) = allocate_memory(state, AllocationEvent::Allocated(DeviceMemory { raw: 1 }));
    let (_, action) = allocate_memory(state, AllocationEvent::Allocated(DeviceMemory { raw: 2 }));
    let success = finished(action);
    let places = success.obj_to_memory_assignment;
    for (place, r) in places.iter().zip(reqs.iter()) {
        let memory = success.get_memories()[place.memory_index];
        assert_eq!(place.memory_offset % r.alignment, 0);
        assert!(place.memory_offset + place.object_size <= memory.size);
        assert!(r.memory_type_bits >> memory.type_index & 1 == 1);
    }
    for i in 0..places.len() {
        for j in i + 1..places.len() {
            if places[i].memory_index == places[j].memory_index {
                assert!(places[i].memory_offset + places[i].object_size <= places[j].memory_offset);
            }
        }
    }
}

#[test]
fn failed_allocation_frees_what_was_allocated() {
    let state = start(mixed(), 1000).unwrap();
    let (state, _) = allocate_memory(state, AllocationEvent::Started);
    let (state, _) = allocate_memory(state, AllocationEvent::Allocated(DeviceMemory { raw: 71 }));
    let (_, action) =
        allocate_memory(state, AllocationEvent::Failed(OutOfMemoryError::OutOfDeviceMemory));
    match action {
        AllocationAction::Abandon { destroy, error } => {
            assert_eq!(destroy, vec![Destroyable::Memory(DeviceMemory { raw: 71 })]);
            assert_eq!(
                error,
                AllocationError::OutOfMemoryError(OutOfMemoryError::OutOfDeviceMemory)
            );
        }
        other => panic!("unexpected {:?}", other),
    }
}

#[test]
fn first_failed_allocation_frees_nothing() {
    let state = start(mixed(), 1000).unwrap();
    let (state, _) = allocate_memory(state, AllocationEvent::Started);
    let (_, action) =
        allocate_memory(state, AllocationEvent::Failed(OutOfMemoryError::OutOfHostMemory));
    match action {
        AllocationAction::Abandon { destroy, .. } => assert!(destroy.is_empty()),
        other => panic!("unexpected {:?}", other),
    }
}

#[test]
fn memory_at_the_limit_is_requested() {
    let state = start([req(64, 1, 0b01)], 64).unwrap();
    let (_, action) = allocate_memory(state, AllocationEvent::Started);
    assert_eq!(request(action).allocation_size, 64);
}

#[test]
fn memory_beyond_the_limit_is_not_requested() {
    let state = start([req(65, 1, 0b01)], 64).unwrap();
    let (_, action) = allocate_memory(state, AllocationEvent::Started);
    assert!(matches!(action, AllocationAction::LimitExceeded));
}

#[test]
fn sizes_beyond_64_bits_exceed_any_limit() {
    let state = start([req(u64::MAX, 1, 0b01), req(1, 1, 0b01)], u64::MAX).unwrap();
    let (_, action) = allocate_memory(state, AllocationEvent::Started);
    assert!(matches!(action, AllocationAction::LimitExceeded));

    let state = start([req(u64::MAX, 1, 0b01), req(0, 1 << 63, 0b01)], u64::MAX).unwrap();
    let (_, action) = allocate_memory(state, AllocationEvent::Started);
    assert!(matches!(action, AllocationAction::LimitExceeded));
}

#[test]
fn assignment_errors_are_passed_on() {
    assert!(matches!(
        start([req(1, 1, 0b01), req(1, 1, 0b100)], 64),
        Err(AllocationError::AssignmentError(
            MemoryAssignmentError::ObjectIncompatibleWithAllProperties(1)
        ))
    ));
    let mem_types = [mem_type(2)];
    let data = UnassignedToMemoryObjectsData {
        mem_types: &mem_types,
        mem_props: [MemoryPropertyFlags { bits: 1 }],
        obj_reqs: [req(1, 1, 0b1)],
    };
    assert!(matches!(
        AllocationState::new(data, 64, NO_EXTENSIONS, PRIORITY),
        Err(AllocationError::AssignmentError(MemoryAssignmentError::AllPropertiesUnsupported))
    ));
}

#[test]
fn no_objects_need_no_memory() {
    let state = start([], 64).unwrap();
    let (_, action) = allocate_memory(state, AllocationEvent::Started);
    let success = finished(action);
    assert_eq!(success.memory_count, 0);
    assert!(success.get_memories().is_empty());
    assert!(success.destroy_self().is_empty());
}

#[test]
fn allocation_frees_its_memories_in_order() {
    let mut memories = [DetailedMemory::default(); 32];
    memories[0].memory = DeviceMemory { raw: 5 };
    memories[1].memory = DeviceMemory { raw: 6 };
    memories[2].memory = DeviceMemory { raw: 7 };
    let success =
        AllocationSuccess { memories, memory_count: 2, obj_to_memory_assignment: [] };
    assert_eq!(
        success.destroy_self(),
        vec![
            Destroyable::Memory(DeviceMemory { raw: 5 }),
            Destroyable::Memory(DeviceMemory { raw: 6 }),
        ]
    );
}

#[test]
fn detailed_memory_stands_for_its_handle() {
    let memory = DetailedMemory { memory: DeviceMemory { raw: 9 }, type_index: 1, size: 2 };
    assert_eq!(*memory, DeviceMemory { raw: 9 });
    assert_eq!(memory.destroy_self(), Destroyable::Memory(DeviceMemory { raw: 9 }));
}

#[test]
fn defaults_are_zero() {
    assert_eq!(
        DetailedMemory::default(),
        DetailedMemory { memory: DeviceMemory { raw: 0 }, type_index: 0, size: 0 }
    );
    assert_eq!(
        MemoryPlacement::default(),
        MemoryPlacement { memory_index: 0, memory_offset: 0, object_size: 0 }
    );
}

fn bind_target<const S: usize>(action: PlacementAction<S>) -> (usize, DeviceMemory, u64) {
    match action {
        PlacementAction::Bind { object_index, memory, memory_offset } => {
            (object_index, memory, memory_offset)
        }
        other => panic!("unexpected {:?}", other),
    }
}

fn allocated() -> (PlacementState<4>, PlacementAction<4>) {
    let state = PlacementState::Allocating(start(mixed(), 1000).unwrap());
    let (state, action) =
        allocate_and_bind_memory(state, PlacementEvent::Allocation(AllocationEvent::Started));
    assert!(matches!(
        action,
        PlacementAction::Allocate(MemoryRequest {
            info: MemoryAllocateInfo { allocation_size: 32, memory_type_index: 1 },
            priority: None,
        })
    ));
    let (state, action) = allocate_and_bind_memory(
        state,
        PlacementEvent::Allocation(AllocationEvent::Allocated(DeviceMemory { raw: 71 })),
    );
    assert!(matches!(
        action,
        PlacementAction::Allocate(MemoryRequest {
            info: MemoryAllocateInfo { allocation_size: 100, memory_type_index: 0 },
            priority: None,
        })
    ));
    allocate_and_bind_memory(
        state,
        PlacementEvent::Allocation(AllocationEvent::Allocated(DeviceMemory { raw: 72 })),
    )
}

#[test]
fn objects_are_bound_in_order_to_their_places() {
    let (state, action) = allocated();
    assert_eq!(bind_target(action), (0, DeviceMemory { raw: 71 }, 0));
    let (state, action) = allocate_and_bind_memory(state, PlacementEvent::Bound);
    assert_eq!(bind_target(action), (1, DeviceMemory { raw: 72 }, 0));
    let (state, action) = allocate_and_bind_memory(state, PlacementEvent::Bound);
    assert_eq!(bind_target(action), (2, DeviceMemory { raw: 71 }, 16));
    let (state, action) = allocate_and_bind_memory(state, PlacementEvent::Bound);
    assert_eq!(bind_target(action), (3, DeviceMemory { raw: 71 }, 24));
    let (_, action) = allocate_and_bind_memory(state, PlacementEvent::Bound);
    match action {
        PlacementAction::Finish(success) => assert_eq!(success.memory_count, 2),
        other => panic!("unexpected {:?}", other),
    }
}

#[test]
fn failed_bind_frees_all_memories() {
    let (state, _) = allocated();
    let (state, _) = allocate_and_bind_memory(state, PlacementEvent::Bound);
    let (_, action) = allocate_and_bind_memory(
        state,
        PlacementEvent::BindFailed(OutOfMemoryError::OutOfHostMemory),
    );
    match action {
        PlacementAction::Abandon { destroy, error } => {
            assert_eq!(
                destroy,
                vec![
                    Destroyable::Memory(DeviceMemory { raw: 71 }),
                    Destroyable::Memory(DeviceMemory { raw: 72 }),
                ]
            );
            assert_eq!(
                error,
                AllocationError::OutOfMemoryError(OutOfMemoryError::OutOfHostMemory)
            );
        }
        other => panic!("unexpected {:?}", other),
    }
}

#[test]
fn failed_allocation_ends_allocate_and_bind() {
    let state = PlacementState::Allocating(start(mixed(), 1000).unwrap());
    let (state, _) =
        allocate_and_bind_memory(state, PlacementEvent::Allocation(AllocationEvent::Started));
    let (state, _) = allocate_and_bind_memory(
        state,
        PlacementEvent::Allocation(AllocationEvent::Allocated(DeviceMemory { raw: 71 })),
    );
    let (_, action) = allocate_and_bind_memory(
        state,
        PlacementEvent::Allocation(AllocationEvent::Failed(OutOfMemoryError::OutOfHostMemory)),
    );
    match action {
        PlacementAction::Abandon { destroy, error } => {
            assert_eq!(destroy, vec![Destroyable::Memory(DeviceMemory { raw: 71 })]);
            assert_eq!(
                error,
                AllocationError::OutOfMemoryError(OutOfMemoryError::OutOfHostMemory)
            );
        }
        other => panic!("unexpected {:?}", other),
    }
}

#[test]
fn oversized_memory_stops_allocate_and_bind() {
    let state = PlacementState::Allocating(start([req(65, 1, 0b01)], 64).unwrap());
    let (_, action) =
        allocate_and_bind_memory(state, PlacementEvent::Allocation(AllocationEvent::Started));
    assert!(matches!(action, PlacementAction::LimitExceeded));
}

/// Runs an allocation to its end. Returns the result, the priorities that the requests carried
/// and the memories whose priority was set.
fn run(
    extensions: MemoryExtensions,
) -> (AllocationSuccess<4>, Vec<Option<MemoryPriority>>, Vec<(DeviceMemory, MemoryPriority)>) {
    let mut state = start_with(mixed(), 1000, extensions).unwrap();
    let mut event = AllocationEvent::Started;
    let mut carried = vec![];
    let mut set = vec![];
    loop {
        let (next, action) = allocate_memory(state, event);
        state = next;
        event = match action {
            AllocationAction::Allocate(request) => {
                carried.push(request.priority);
                AllocationEvent::Allocated(DeviceMemory { raw: 70 + carried.len() as u64 })
            }
            AllocationAction::SetPriority { memory, priority } => {
                set.push((memory, priority));
                AllocationEvent::PrioritySet
            }
            AllocationAction::Finish(success) => return (success, carried, set),
            other => panic!("unexpected {:?}", other),
        };
    }
}

#[test]
fn requests_carry_the_priority_where_the_device_takes_it() {
    for pageable_device_local_memory in [false, true] {
        let extensions = MemoryExtensions { memory_priority: true, pageable_device_local_memory };
        assert_eq!(run(extensions).1, vec![Some(PRIORITY), Some(PRIORITY)]);
        let extensions = MemoryExtensions { memory_priority: false, pageable_device_local_memory };
        assert_eq!(run(extensions).1, vec![None, None]);
    }
}

#[test]
fn each_memory_gets_its_priority_once() {
    for memory_priority in [false, true] {
        let extensions = MemoryExtensions { memory_priority, pageable_device_local_memory: true };
        let (success, _, set) = run(extensions);
        let expected: Vec<_> = success.get_memories().iter().map(|m| (**m, PRIORITY)).collect();
        assert_eq!(set, expected);
        assert_eq!(set.len(), 2);
        let extensions = MemoryExtensions { memory_priority, pageable_device_local_memory: false };
        assert!(run(extensions).2.is_empty());
    }
}

#[test]
fn priority_is_set_before_the_next_request_and_before_binding() {
    let extensions =
        MemoryExtensions { memory_priority: true, pageable_device_local_memory: true };
    let state = PlacementState::Allocating(start_with(mixed(), 1000, extensions).unwrap());
    let mut step =
        allocate_and_bind_memory(state, PlacementEvent::Allocation(AllocationEvent::Started));
    for (raw, size, index) in [(71, 32, 1), (72, 100, 0)] {
        let expected = MemoryRequest {
            info: MemoryAllocateInfo { allocation_size: size, memory_type_index: index },
            priority: Some(PRIORITY),
        };
        assert!(matches!(step.1, PlacementAction::Allocate(request) if request == expected));
        let memory = DeviceMemory { raw };
        step = allocate_and_bind_memory(
            step.0,
            PlacementEvent::Allocation(AllocationEvent::Allocated(memory)),
        );
        assert!(matches!(
            step.1,
            PlacementAction::SetPriority { memory: m, priority } if m == memory
                && priority == PRIORITY
        ));
        step = allocate_and_bind_memory(
            step.0,
            PlacementEvent::Allocation(AllocationEvent::PrioritySet),
        );
    }
    assert_eq!(bind_target(step.1), (0, DeviceMemory { raw: 71 }, 0));
}

#[test]
fn a_later_failure_frees_memory_whose_priority_was_set() {
    let extensions =
        MemoryExtensions { memory_priority: false, pageable_device_local_memory: true };
    let state = start_with(mixed(), 1000, extensions).unwrap();
    let (state, _) = allocate_memory(state, AllocationEvent::Started);
    let (state, _) = allocate_memory(state, AllocationEvent::Allocated(DeviceMemory { raw: 71 }));
    let (state, action) = allocate_memory(state, AllocationEvent::PrioritySet);
    assert_eq!(request(action).allocation_size, 100);
    let (_, action) =
        allocate_memory(state, AllocationEvent::Failed(OutOfMemoryError::OutOfHostMemory));
    match action {
        AllocationAction::Abandon { destroy, .. } => {
            assert_eq!(destroy, vec![Destroyable::Memory(DeviceMemory { raw: 71 })]);
        }
        other => panic!("unexpected {:?}", other),
    }
}

#[test]
fn failure_leaves_the_state_as_it_was() {
    let state = start(mixed(), 1000).unwrap();
    let (state, _) = allocate_memory(state, AllocationEvent::Started);
    let (state, _) = allocate_memory(state, AllocationEvent::Allocated(DeviceMemory { raw: 71 }));
    let before = format!("{:?}", state);
    let (state, _) =
        allocate_memory(state, AllocationEvent::Failed(OutOfMemoryError::OutOfHostMemory));
    assert_eq!(format!("{:?}", state), before);

    let (state, _) = allocated();
    let (state, _) = allocate_and_bind_memory(state, PlacementEvent::Bound);
    let before = format!("{:?}", state);
    let (state, _) = allocate_and_bind_memory(
        state,
        PlacementEvent::BindFailed(OutOfMemoryError::OutOfHostMemory),
    );
    assert_eq!(format!("{:?}", state), before);
}

#[test]
fn atom_multiples_stay_multiples() {
    let atom: u64 = 16;
    let state = start([req(48, 32, 0b01), req(16, 16, 0b01), req(64, 64, 0b01)], 1000).unwrap();
    let (state, _) = allocate_memory(state, AllocationEvent::Started);
    let (_, action) = allocate_memory(state, AllocationEvent::Allocated(DeviceMemory { raw: 1 }));
    let places = finished(action).obj_to_memory_assignment;
    assert_eq!(places.map(|place| place.memory_offset), [0, 48, 64]);
    for place in places {
        assert_eq!(place.memory_offset % atom, 0);
        assert_eq!(place.object_size % atom, 0);
    }
}
