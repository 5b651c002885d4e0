//! Memory that the host sees: allocated, bound to its objects and mapped.

use vstd::prelude::*;
use crate::allocation::{
    handles_to_destroy, law_object_placed_in_its_memory, memories_to_destroy, memory_handles,
    tightly_placed, AllocationEvent, AllocationState, AllocationSuccess, MemoryExtensions,
    MemoryRequest,
};
use crate::binding::{
    allocate_and_bind_memory, law_placement_request_is_for_the_tight_packing, lemma_binding_begins,
    lemma_placement_asked_step, lemma_placement_step, newly_placed, placement_asked, BindingState,
    PlacementAction, PlacementEvent, PlacementState,
};
use crate::errors::{AllocationError, HostAllocationError, MemoryMapError, OutOfMemoryError};
use crate::layout::{packed_tightly, reqs_wf};
use crate::mapped_host_obj::{
    law_mapped_object_has_the_properties_of_its_memory, mapped_object, mapped_objects,
    object_type_index, MappedHostObject,
};
use crate::mapping::{map_host_visible_allocation, MappingAction, MappingEvent, MappingState};
use crate::mem_type_assignment::{
    assignable, assigned_type, earliest_set, first_incompatible, is_assignment, no_set_supported,
    usable, MemoryAssignmentError, UnassignedToMemoryObjectsData,
};
use crate::memory_bound::BoundObject;
use crate::vulkan::{
    Buffer, Destroyable, DeviceMemory, MemoryPriority, MemoryPropertyFlags,
    MemoryRequirements, MemoryType, HOST_VISIBLE, MAX_MEMORY_TYPES,
};

verus! {

/// The memory of a set of objects: allocated, bound and mapped.
#[derive(Debug, Clone, Copy)]
pub struct HostMemory<const S: usize> {
    pub allocation: AllocationSuccess<S>,
    pub objects: [MappedHostObject; S],
}

impl<const S: usize> HostMemory<S> {
    /// The memories are mapped at `pointers`, and each object at its place in its memory.
    pub open spec fn mapped_at(self, pointers: Seq<usize>) -> bool {
        forall|i: int|
            0 <= i < S ==> (#[trigger] self.objects@[i]).data_ptr == self.allocation.object_address(
                pointers,
                i,
            )
    }

    /// Object `i` has the range of the memory that it was placed in.
    pub open spec fn in_place(self, i: int) -> bool {
        let placement = self.allocation.obj_to_memory_assignment@[i];
        &&& self.objects@[i].memory
            == self.allocation.used_memories()[placement.memory_index as int].memory
        &&& self.objects@[i].obj_offset == placement.memory_offset
        &&& self.objects@[i].obj_size == placement.object_size
    }

    /// Each object lies where it was placed, in memory and in the host's address space.
    pub open spec fn wf(self) -> bool {
        &&& self.allocation.wf()
        &&& exists|pointers: Seq<usize>| #[trigger] self.mapped_at(pointers)
        &&& forall|i: int| 0 <= i < S ==> (#[trigger] self.objects@[i]).wf() && self.in_place(i)
    }

    /// Each object is the buffer of the same number, and holds its data of the given size.
    pub open spec fn serves(self, sizes: Seq<u64>, buffers: Seq<Buffer>) -> bool {
        &&& self.wf()
        &&& forall|i: int|
            0 <= i < S ==> {
                &&& (#[trigger] self.objects@[i]).object_type is Buffer
                &&& self.objects@[i].handle == buffers[i].raw
                &&& sizes[i] <= self.objects@[i].obj_size
            }
    }
}

/// How far the memory is.
#[derive(Debug)]
pub enum HostMemoryPhase<const S: usize> {
    /// It is allocated and bound.
    Placing(PlacementState<S>),
    /// It is mapped.
    Mapping(MappingState<S>),
}

/// Objects being given memory that the host sees.
#[derive(Debug)]
pub struct HostMemoryState<const S: usize> {
    pub objects: [BoundObject; S],
    /// Properties of each memory type.
    pub type_props: [MemoryPropertyFlags; MAX_MEMORY_TYPES],
    pub phase: HostMemoryPhase<S>,
}

/// What the device did.
#[derive(Debug, Clone, Copy)]
pub enum HostMemoryEvent {
    /// Nothing yet, or its answer while the memories are allocated and bound.
    Placement(PlacementEvent),
    /// Its answer while the memories are mapped.
    Mapping(MappingEvent),
}

/// What is to be done next.
#[derive(Debug)]
pub enum HostMemoryAction<const S: usize> {
    /// Make this allocation.
    Allocate(MemoryRequest),
    /// Set the priority of this memory.
    SetPriority { memory: DeviceMemory, priority: MemoryPriority },
    /// Stop: the next memory would be larger than any allocation that the device makes.
    LimitExceeded,
    /// Bind the object with this index.
    Bind { object_index: usize, memory: DeviceMemory, memory_offset: u64 },
    /// Map `size` bytes of the memory from `offset` on.
    MapMemory { memory: DeviceMemory, offset: u64, size: u64, flags: u32 },
    /// All memories are mapped.
    Finish(HostMemory<S>),
    /// Free the memories and report the error.
    Abandon { destroy: Vec<Destroyable>, error: HostAllocationError },
}

/// The addresses of all objects in the memories mapped so far exist.
pub open spec fn addresses_exist<const S: usize>(
    allocation: AllocationSuccess<S>,
    pointers: Seq<usize>,
) -> bool {
    forall|i: int|
        0 <= i < S && allocation.obj_to_memory_assignment@[i].memory_index < pointers.len()
            ==> #[trigger] allocation.object_address(pointers, i) <= usize::MAX
}

impl<const S: usize> HostMemoryState<S> {
    /// Memory of type `t` is host visible.
    pub open spec fn visible(self, t: usize) -> bool {
        &&& t < MAX_MEMORY_TYPES
        &&& self.type_props@[t as int].includes(MemoryPropertyFlags { bits: HOST_VISIBLE })
    }

    /// All objects lie in host visible memory.
    pub open spec fn all_visible(self, allocation: AllocationSuccess<S>) -> bool {
        forall|i: int| 0 <= i < S ==> self.visible(#[trigger] object_type_index(allocation, i))
    }

    /// The phase is valid, and the objects' memory types are host visible.
    pub open spec fn wf(self) -> bool {
        match self.phase {
            HostMemoryPhase::Placing(placing) => {
                &&& placing.wf()
                &&& match placing {
                    PlacementState::Allocating(allocating) => forall|i: int|
                        0 <= i < S ==> self.visible(#[trigger] allocating.assigned@[i]),
                    PlacementState::Binding(binding) => self.all_visible(binding.allocation),
                }
            },
            HostMemoryPhase::Mapping(mapping) => {
                &&& mapping.wf()
                &&& mapping.allocation.wf()
                &&& self.all_visible(mapping.allocation)
                &&& addresses_exist(mapping.allocation, mapping.pointers@)
            },
        }
    }

    /// The event can come in this state.
    pub open spec fn expects(self, event: HostMemoryEvent) -> bool {
        match (self.phase, event) {
            (
                HostMemoryPhase::Placing(placing),
                HostMemoryEvent::Placement(event),
            ) => placing.expects(event),
            (HostMemoryPhase::Mapping(mapping), HostMemoryEvent::Mapping(event)) => {
                &&& mapping.expects(event)
                &&& event !is Started
                &&& event matches MappingEvent::Mapped(pointer) ==> addresses_exist(
                    mapping.allocation,
                    mapping.pointers@.push(pointer),
                )
            },
            _ => false,
        }
    }

    /// The memories that the objects have so far.
    pub open spec fn memories(self) -> Seq<DeviceMemory> {
        match self.phase {
            HostMemoryPhase::Placing(placing) => placing.memories(),
            HostMemoryPhase::Mapping(mapping) => memory_handles(
                mapping.allocation.used_memories(),
            ),
        }
    }

    /// `self` comes out of `before` by an event that is no failure. Mapping begins when all
    /// objects are bound.
    pub open spec fn follows(self, before: HostMemoryState<S>, event: HostMemoryEvent) -> bool {
        &&& self.objects == before.objects
        &&& self.type_props == before.type_props
        &&& match (before.phase, event) {
            (
                HostMemoryPhase::Placing(placing),
                HostMemoryEvent::Placement(event),
            ) => match self.phase {
                HostMemoryPhase::Placing(next) => {
                    &&& next.follows(placing, event)
                    &&& !(next matches PlacementState::Binding(binding) && binding.bound == S)
                },
                HostMemoryPhase::Mapping(mapping) => {
                    &&& PlacementState::Binding(
                        BindingState { allocation: mapping.allocation, bound: S },
                    ).follows(placing, event)
                    &&& mapping.pointers@.len() == 0
                },
            },
            (
                HostMemoryPhase::Mapping(mapping),
                HostMemoryEvent::Mapping(MappingEvent::Mapped(pointer)),
            ) => {
                &&& self.phase matches HostMemoryPhase::Mapping(next)
                &&& next.allocation == mapping.allocation
                &&& next.pointers@ == mapping.pointers@.push(pointer)
            },
            _ => false,
        }
    }

    /// The same step of allocating and binding.
    pub open spec fn placement_action(action: HostMemoryAction<S>) -> Option<PlacementAction<S>> {
        match action {
            HostMemoryAction::Allocate(request) => Some(PlacementAction::Allocate(request)),
            HostMemoryAction::SetPriority { memory, priority } => Some(
                PlacementAction::SetPriority { memory, priority },
            ),
            HostMemoryAction::LimitExceeded => Some(PlacementAction::LimitExceeded),
            HostMemoryAction::Bind { object_index, memory, memory_offset } => Some(
                PlacementAction::Bind { object_index, memory, memory_offset },
            ),
            _ => None,
        }
    }

    /// `host` is the finished memory: each object at its place in the memories mapped at
    /// `pointers`.
    pub open spec fn is_result(
        self,
        allocation: AllocationSuccess<S>,
        pointers: Seq<usize>,
        host: HostMemory<S>,
    ) -> bool {
        &&& host.allocation == allocation
        &&& forall|i: int|
            0 <= i < S ==> #[trigger] host.objects@[i] == mapped_object(
                allocation,
                self.type_props@,
                self.objects@[i].handle,
                self.objects@[i].object_type,
                allocation.object_address(pointers, i) as usize,
                i,
            )
    }

    /// `action` is what comes next in this state.
    pub open spec fn calls_for(self, action: HostMemoryAction<S>) -> bool {
        match self.phase {
            HostMemoryPhase::Placing(placing) => {
                Self::placement_action(action) matches Some(action) && placing.calls_for(action)
            },
            HostMemoryPhase::Mapping(mapping) => {
                if mapping.pointers@.len() == mapping.allocation.memory_count {
                    action matches HostMemoryAction::Finish(host) && self.is_result(
                        mapping.allocation,
                        mapping.pointers@,
                        host,
                    )
                } else {
                    &&& action matches HostMemoryAction::MapMemory { memory, offset, size, flags }
                    &&& mapping.calls_for(MappingAction::MapMemory { memory, offset, size, flags })
                }
            },
        }
    }

    /// The error that the event is reported as.
    pub open spec fn failure(event: HostMemoryEvent) -> Option<HostAllocationError> {
        match event {
            HostMemoryEvent::Placement(event) => match PlacementState::<S>::failure(event) {
                Some(error) => Some(
                    HostAllocationError::AllocationError(AllocationError::OutOfMemoryError(error)),
                ),
                None => None,
            },
            HostMemoryEvent::Mapping(MappingEvent::Failed(error)) => Some(
                HostAllocationError::MemoryMapError(error),
            ),
            _ => None,
        }
    }

    /// Whether all objects in the next memory have an address if that memory is mapped at
    /// `pointer`.
    pub fn addresses_fit(&self, pointer: usize) -> (r: bool)
        requires
            self.wf(),
        ensures
            r == (self.phase matches HostMemoryPhase::Mapping(mapping) && addresses_exist(
                mapping.allocation,
                mapping.pointers@.push(pointer),
            )),
    {
        let mapping = match &self.phase {
            HostMemoryPhase::Mapping(mapping) => mapping,
            HostMemoryPhase::Placing(_) => {
                return false;
            },
        };
        let allocation = &mapping.allocation;
        let mapped: usize = mapping.pointers.len();
        let ghost pointers = mapping.pointers@.push(pointer);
        for i in 0..S
            invariant
                mapped == mapping.pointers@.len(),
                *allocation == mapping.allocation,
                pointers == mapping.pointers@.push(pointer),
                self.phase == HostMemoryPhase::Mapping(*mapping),
                addresses_exist(*allocation, mapping.pointers@),
                forall|j: int|
                    0 <= j < i && allocation.obj_to_memory_assignment@[j].memory_index <= mapped
                        ==> #[trigger] allocation.object_address(pointers, j) <= usize::MAX,
        {
            let placement = allocation.obj_to_memory_assignment[i];
            if placement.memory_index == mapped {
                if placement.memory_offset > (usize::MAX - pointer) as u64 {
                    assert(allocation.object_address(pointers, i as int) > usize::MAX);
                    return false;
                }
            }
            proof {
                if placement.memory_index < mapped {
                    assert(allocation.object_address(mapping.pointers@, i as int) <= usize::MAX);
                }
            }
        }
        true
    }

    /// Chooses the memory types of the objects, which have the given kinds and handles. All sets of
    /// properties must ask for host visible memory. No memory is allocated yet.
    pub fn new<const P: usize>(
        data: UnassignedToMemoryObjectsData<'_, P, S>,
        max_memory_allocation_size: u64,
        extensions: MemoryExtensions,
        priority: MemoryPriority,
        objects: [BoundObject; S],
    ) -> (r: Result<HostMemoryState<S>, HostAllocationError>)
        requires
            1 <= data.mem_types@.len() <= MAX_MEMORY_TYPES,
            reqs_wf(data.obj_reqs@),
            forall|p: int|
                0 <= p < P ==> (#[trigger] data.mem_props@[p]).includes(
                    MemoryPropertyFlags { bits: HOST_VISIBLE },
                ),
        ensures
            r == Err::<HostMemoryState<S>, _>(
                HostAllocationError::AllocationError(
                    AllocationError::AssignmentError(
                        MemoryAssignmentError::AllPropertiesUnsupported,
                    ),
                ),
            ) <==> no_set_supported(data.mem_types@, data.mem_props@),
            forall|i: usize|
                r == Err::<HostMemoryState<S>, _>(
                    HostAllocationError::AllocationError(
                        AllocationError::AssignmentError(
                            MemoryAssignmentError::ObjectIncompatibleWithAllProperties(i),
                        ),
                    ),
                ) <==> first_incompatible(
                    data.mem_types@,
                    data.mem_props@,
                    data.obj_reqs@,
                    i as int,
                ),
            r is Ok <==> assignable(data.mem_types@, data.mem_props@, data.obj_reqs@),
            r matches Ok(state) ==> {
                &&& state.wf()
                &&& state.objects == objects
                &&& forall|t: int|
                    0 <= t < data.mem_types@.len() ==> #[trigger] state.type_props@[t]
                        == data.mem_types@[t].property_flags
                &&& forall|t: int|
                    data.mem_types@.len() <= t < MAX_MEMORY_TYPES ==> (
                    #[trigger] state.type_props@[t]).bits == 0
                &&& state.phase matches HostMemoryPhase::Placing(
                    PlacementState::Allocating(allocating),
                )
                &&& is_assignment(
                    data.mem_types@,
                    data.mem_props@,
                    data.obj_reqs@,
                    allocating.assigned@,
                )
                &&& allocating.obj_reqs == data.obj_reqs
                &&& allocating.max_memory_allocation_size == max_memory_allocation_size
                &&& allocating.extensions == extensions
                &&& allocating.priority == priority
                &&& allocating.memories@ == Seq::<DeviceMemory>::empty()
                &&& allocating.prioritized == 0
            },
    {
        let mem_types = data.mem_types;
        let ghost (types, props, reqs) = (data.mem_types@, data.mem_props@, data.obj_reqs@);
        let mut type_props: [MemoryPropertyFlags; MAX_MEMORY_TYPES] = [
            MemoryPropertyFlags { bits: 0 };MAX_MEMORY_TYPES];
        for t in 0..mem_types.len()
            invariant
                mem_types@.len() <= MAX_MEMORY_TYPES,
                forall|u: int|
                    0 <= u < t ==> #[trigger] type_props@[u] == mem_types@[u].property_flags,
                forall|u: int| t <= u < MAX_MEMORY_TYPES ==> (#[trigger] type_props@[u]).bits == 0,
        {
            type_props[t] = mem_types[t].property_flags;
        }
        match AllocationState::new(data, max_memory_allocation_size, extensions, priority) {
            Ok(allocating) => {
                let state = HostMemoryState {
                    objects,
                    type_props,
                    phase: HostMemoryPhase::Placing(PlacementState::Allocating(allocating)),
                };
                proof {
                    assert forall|i: int| 0 <= i < S implies state.visible(
                        #[trigger] allocating.assigned@[i],
                    ) by {
                        let t = allocating.assigned@[i] as int;
                        assert(assigned_type(types, props, reqs, i, t));
                        lemma_assigned_type_visible(types, props, reqs, i, t);
                    }
                }
                Ok(state)
            },
            Err(error) => Err(HostAllocationError::AllocationError(error)),
        }
    }
}

/// A memory type that an object gets is host visible where all sets of properties are.
proof fn lemma_assigned_type_visible(
    types: Seq<MemoryType>,
    props: Seq<MemoryPropertyFlags>,
    reqs: Seq<MemoryRequirements>,
    i: int,
    t: int,
)
    requires
        assigned_type(types, props, reqs, i, t),
        forall|p: int|
            0 <= p < props.len() ==> (#[trigger] props[p]).includes(
                MemoryPropertyFlags { bits: HOST_VISIBLE },
            ),
    ensures
        0 <= t < types.len(),
        types[t].property_flags.includes(MemoryPropertyFlags { bits: HOST_VISIBLE }),
{
    let p = choose|p: int| #[trigger]
        earliest_set(types, props, reqs[i], p) && usable(types, props[p], reqs[i], t);
    let (has, asked, visible) = (types[t].property_flags.bits, props[p].bits, HOST_VISIBLE);
    assert(props[p].includes(MemoryPropertyFlags { bits: HOST_VISIBLE }));
    assert(has & visible == visible) by (bit_vector)
        requires
            has & asked == asked,
            asked & visible == visible,
    ;
}

/// What comes next where the mapping does what `action` says.
fn after_mapping<const S: usize>(
    objects: &[BoundObject; S],
    type_props: &[MemoryPropertyFlags; MAX_MEMORY_TYPES],
    mapping: &MappingState<S>,
    action: MappingAction,
) -> (r: HostMemoryAction<S>)
    requires
        (HostMemoryState {
            objects: *objects,
            type_props: *type_props,
            phase: HostMemoryPhase::Mapping(*mapping),
        }).wf(),
        action is Abandon || mapping.calls_for(action),
    ensures
        match action {
            MappingAction::Abandon(error) => {
                &&& r matches HostMemoryAction::Abandon { destroy, error: reported }
                &&& destroy@ == memories_to_destroy(mapping.allocation.used_memories())
                &&& reported == HostAllocationError::MemoryMapError(error)
            },
            _ => (HostMemoryState {
                objects: *objects,
                type_props: *type_props,
                phase: HostMemoryPhase::Mapping(*mapping),
            }).calls_for(r),
        },
{
    match action {
        MappingAction::MapMemory { memory, offset, size, flags } => {
            HostMemoryAction::MapMemory { memory, offset, size, flags }
        },
        MappingAction::Finish(pointers) => {
            let allocation = mapping.allocation;
            proof {
                assert forall|i: int| 0 <= i < S implies #[trigger] allocation.object_address(
                    pointers@,
                    i,
                ) <= usize::MAX by {
                    assert(allocation.obj_to_memory_assignment@[i].memory_index
                        < allocation.memory_count);
                }
            }
            let addresses: [usize; S] = allocation.object_addresses(&pointers);
            let objects = mapped_objects(&allocation, type_props, objects, &addresses);
            HostMemoryAction::Finish(HostMemory { allocation, objects })
        },
        MappingAction::Abandon(error) => HostMemoryAction::Abandon {
            destroy: mapping.allocation.destroy_self(),
            error: HostAllocationError::MemoryMapError(error),
        },
    }
}

/// Allocates the memories of a set of objects, binds each object to its place and maps the
/// memories, one step at a time: takes in what the device did and says what is to be done next.
pub fn allocate_and_map_host_memory<const S: usize>(
    state: HostMemoryState<S>,
    event: HostMemoryEvent,
) -> (r: (HostMemoryState<S>, HostMemoryAction<S>))
    requires
        state.wf(),
        state.expects(event),
    ensures
        r.0.wf(),
        match HostMemoryState::<S>::failure(event) {
            Some(error) => {
                &&& r.0 == state
                &&& r.1 matches HostMemoryAction::Abandon { destroy, error: reported }
                &&& destroy@ == handles_to_destroy(state.memories())
                &&& reported == error
            },
            None => r.0.follows(state, event) && r.0.calls_for(r.1),
        },
{
    let ghost before = state;
    let HostMemoryState { objects, type_props, phase } = state;
    match phase {
        HostMemoryPhase::Placing(placing) => {
            let event = match event {
                HostMemoryEvent::Placement(event) => event,
                // nothing else comes while memories are allocated and bound
                HostMemoryEvent::Mapping(_) => PlacementEvent::Bound,
            };
            let ghost from = placing;
            let (placing, action) = allocate_and_bind_memory(placing, event);
            proof {
                if PlacementState::<S>::failure(event) is None {
                    lemma_placing_stays_visible(before, from, event, placing);
                }
            }
            let action = match action {
                PlacementAction::Allocate(request) => HostMemoryAction::Allocate(request),
                PlacementAction::SetPriority { memory, priority } => {
                    HostMemoryAction::SetPriority { memory, priority }
                },
                PlacementAction::LimitExceeded => HostMemoryAction::LimitExceeded,
                PlacementAction::Bind { object_index, memory, memory_offset } => {
                    HostMemoryAction::Bind { object_index, memory, memory_offset }
                },
                PlacementAction::Finish(allocation) => {
                    let (mapping, action) = map_host_visible_allocation(
                        MappingState::new(allocation),
                        MappingEvent::Started,
                    );
                    let action = after_mapping(&objects, &type_props, &mapping, action);
                    let phase = HostMemoryPhase::Mapping(mapping);
                    return (HostMemoryState { objects, type_props, phase }, action);
                },
                PlacementAction::Abandon { destroy, error } => HostMemoryAction::Abandon {
                    destroy,
                    error: HostAllocationError::AllocationError(error),
                },
            };
            let phase = HostMemoryPhase::Placing(placing);
            (HostMemoryState { objects, type_props, phase }, action)
        },
        HostMemoryPhase::Mapping(mapping) => {
            let event = match event {
                HostMemoryEvent::Mapping(event) => event,
                // nothing else comes while memories are mapped
                HostMemoryEvent::Placement(_) => MappingEvent::Started,
            };
            let (mapping, action) = map_host_visible_allocation(mapping, event);
            proof {
                let used = mapping.allocation.used_memories();
                assert(memories_to_destroy(used) =~= handles_to_destroy(memory_handles(used)));
            }
            let action = after_mapping(&objects, &type_props, &mapping, action);
            let phase = HostMemoryPhase::Mapping(mapping);
            (HostMemoryState { objects, type_props, phase }, action)
        },
    }
}

/// The objects' memory types stay host visible.
proof fn lemma_placing_stays_visible<const S: usize>(
    state: HostMemoryState<S>,
    before: PlacementState<S>,
    event: PlacementEvent,
    after: PlacementState<S>,
)
    requires
        state.wf(),
        state.phase == HostMemoryPhase::Placing(before),
        before.expects(event),
        after.follows(before, event),
    ensures
        match after {
            PlacementState::Allocating(allocating) => forall|i: int|
                0 <= i < S ==> state.visible(#[trigger] allocating.assigned@[i]),
            PlacementState::Binding(binding) => state.all_visible(binding.allocation),
        },
{
    if let PlacementState::Allocating(allocating) = before {
        if let PlacementState::Binding(binding) = after {
            let done = lemma_binding_begins(allocating, event, binding);
            assert forall|i: int| 0 <= i < S implies state.visible(
                #[trigger] object_type_index(binding.allocation, i),
            ) by {
                law_object_placed_in_its_memory(done, binding.allocation, i);
                assert(state.visible(allocating.assigned@[i]));
            }
        }
    }
}

/// Finished host memory has each object where it was placed, in memory and in the host's address
/// space. Where the objects are the given buffers, and their places are large enough, it serves
/// these buffers and sizes.
pub proof fn law_finished_host_memory_serves_its_buffers<const S: usize>(
    state: HostMemoryState<S>,
    host: HostMemory<S>,
    sizes: Seq<u64>,
    buffers: Seq<Buffer>,
)
    requires
        state.wf(),
        state.calls_for(HostMemoryAction::Finish(host)),
    ensures
        host.wf(),
        (forall|i: int|
            0 <= i < S ==> {
                &&& (#[trigger] state.objects@[i]).object_type is Buffer
                &&& state.objects@[i].handle == buffers[i].raw
                &&& sizes[i] <= host.allocation.obj_to_memory_assignment@[i].object_size
            }) ==> host.serves(sizes, buffers),
{
    let mapping = state.phase->Mapping_0;
    let pointers = mapping.pointers@;
    assert forall|i: int| 0 <= i < S implies {
        &&& (#[trigger] host.objects@[i]).wf()
        &&& host.in_place(i)
        &&& host.objects@[i].data_ptr == host.allocation.object_address(pointers, i)
        &&& host.objects@[i].object_type == state.objects@[i].object_type
        &&& host.objects@[i].handle == state.objects@[i].handle
    } by {
        let k = host.allocation.obj_to_memory_assignment@[i].memory_index as int;
        assert(pointers[k] != 0);
        assert(host.allocation.object_address(pointers, i) <= usize::MAX);
    }
    assert(host.mapped_at(pointers));
}

/// Host memory is made through `states`: the objects begin without memories, and each state comes
/// out of the one before it by one of the `events`, none of which is a failure.
pub open spec fn is_host_memory_run<const S: usize>(
    states: Seq<HostMemoryState<S>>,
    events: Seq<HostMemoryEvent>,
) -> bool {
    &&& states.len() == events.len() + 1
    &&& states[0].memories().len() == 0
    &&& forall|n: int| 0 <= n < states.len() ==> (#[trigger] states[n]).wf()
    &&& forall|n: int|
        0 <= n < events.len() ==> {
            &&& states[n].expects(#[trigger] events[n])
            &&& HostMemoryState::<S>::failure(events[n]) is None
            &&& states[n + 1].follows(states[n], events[n])
        }
}

/// The memories that the device allocated, in order.
pub open spec fn host_memories_by(events: Seq<HostMemoryEvent>) -> Seq<DeviceMemory>
    decreases events.len(),
{
    if events.len() == 0 {
        seq![]
    } else {
        host_memories_by(events.drop_last()) + match events.last() {
            HostMemoryEvent::Placement(event) => newly_placed(event),
            HostMemoryEvent::Mapping(_) => seq![],
        }
    }
}

/// Nothing leaks: at each point the objects hold exactly the memories that the device allocated,
/// so that these are what a failure there frees, in mapping too. What finished host memory frees
/// is exactly these.
pub proof fn law_host_memory_owns_what_was_allocated<const S: usize>(
    states: Seq<HostMemoryState<S>>,
    events: Seq<HostMemoryEvent>,
)
    requires
        is_host_memory_run(states, events),
    ensures
        states.last().memories() == host_memories_by(events),
        forall|host: HostMemory<S>| #[trigger]
            states.last().calls_for(HostMemoryAction::Finish(host)) ==> memories_to_destroy(
                host.allocation.used_memories(),
            ) == handles_to_destroy(host_memories_by(events)),
    decreases events.len(),
{
    if events.len() > 0 {
        let n = events.len() - 1;
        let (init_states, init_events) = (states.drop_last(), events.drop_last());
        assert(is_host_memory_run(init_states, init_events)) by {
            assert forall|m: int| 0 <= m < init_events.len() implies {
                &&& init_states[m].expects(#[trigger] init_events[m])
                &&& HostMemoryState::<S>::failure(init_events[m]) is None
                &&& init_states[m + 1].follows(init_states[m], init_events[m])
            } by {
                assert(init_events[m] == events[m]);
            }
        }
        law_host_memory_owns_what_was_allocated(init_states, init_events);
        let (before, after) = (states[n], states.last());
        assert(init_states.last() == before);
        assert(before.expects(events[n]) && after.follows(before, events[n]));
        assert(before.wf());
        if let (HostMemoryPhase::Placing(placing), HostMemoryEvent::Placement(event)) = (
            before.phase,
            events[n],
        ) {
            let next = match after.phase {
                HostMemoryPhase::Placing(next) => next,
                HostMemoryPhase::Mapping(mapping) => PlacementState::Binding(
                    BindingState { allocation: mapping.allocation, bound: S },
                ),
            };
            lemma_placement_step(placing, event, next);
        }
        assert(after.memories() =~= host_memories_by(events));
    } else {
        assert(states.last() == states[0]);
        assert(states[0].memories() =~= Seq::<DeviceMemory>::empty());
    }
    assert forall|host: HostMemory<S>| #[trigger]
        states.last().calls_for(HostMemoryAction::Finish(host)) implies memories_to_destroy(
        host.allocation.used_memories(),
    ) == handles_to_destroy(host_memories_by(events)) by {
        let used = host.allocation.used_memories();
        assert(memories_to_destroy(used) =~= handles_to_destroy(memory_handles(used)));
    }
}

/// The memories of host memory in the making are those that the device gave, and what goes wrong
/// is reported as what it is.
pub proof fn law_host_memory_frees_what_it_holds<const S: usize>(
    state: HostMemoryState<S>,
    out_of_memory: OutOfMemoryError,
    map_error: MemoryMapError,
)
    requires
        state.wf(),
    ensures
        match state.phase {
            HostMemoryPhase::Placing(PlacementState::Allocating(allocating)) => {
                state.memories() == allocating.memories@
            },
            HostMemoryPhase::Placing(PlacementState::Binding(binding)) => {
                &&& state.memories().len() == binding.allocation.memory_count
                &&& forall|k: int|
                    0 <= k < binding.allocation.memory_count ==> #[trigger] state.memories()[k]
                        == binding.allocation.memories@[k].memory
            },
            HostMemoryPhase::Mapping(mapping) => {
                &&& state.memories().len() == mapping.allocation.memory_count
                &&& forall|k: int|
                    0 <= k < mapping.allocation.memory_count ==> #[trigger] state.memories()[k]
                        == mapping.allocation.memories@[k].memory
            },
        },
        HostMemoryState::<S>::failure(
            HostMemoryEvent::Placement(
                PlacementEvent::Allocation(AllocationEvent::Failed(out_of_memory)),
            ),
        ) == Some(
            HostAllocationError::AllocationError(AllocationError::OutOfMemoryError(out_of_memory)),
        ),
        HostMemoryState::<S>::failure(
            HostMemoryEvent::Placement(PlacementEvent::BindFailed(out_of_memory)),
        ) == Some(
            HostAllocationError::AllocationError(AllocationError::OutOfMemoryError(out_of_memory)),
        ),
        HostMemoryState::<S>::failure(HostMemoryEvent::Mapping(MappingEvent::Failed(map_error)))
            == Some(HostAllocationError::MemoryMapError(map_error)),
        forall|event: HostMemoryEvent| #[trigger]
            HostMemoryState::<S>::failure(event) is Some ==> match event {
                HostMemoryEvent::Placement(event) => event is BindFailed || (
                event matches PlacementEvent::Allocation(event) && event is Failed),
                HostMemoryEvent::Mapping(event) => event is Failed,
            },
{
}

/// A step does only what its event says. Objects and memory types stay. Mapping begins when the
/// last object is bound, with the allocation that it was bound in, and adds the address that the
/// device gave behind the others.
pub proof fn law_host_memory_step_keeps_the_allocation<const S: usize>(
    before: HostMemoryState<S>,
    event: HostMemoryEvent,
    after: HostMemoryState<S>,
)
    requires
        before.wf(),
        before.expects(event),
        after.follows(before, event),
    ensures
        after.objects == before.objects,
        after.type_props == before.type_props,
        before.phase matches HostMemoryPhase::Mapping(mapping) ==> {
            &&& after.phase matches HostMemoryPhase::Mapping(next)
            &&& event matches HostMemoryEvent::Mapping(MappingEvent::Mapped(pointer))
            &&& next.allocation == mapping.allocation
            &&& next.pointers@.len() == mapping.pointers@.len() + 1
            &&& next.pointers@.last() == pointer
            &&& forall|k: int|
                0 <= k < mapping.pointers@.len() ==> #[trigger] next.pointers@[k]
                    == mapping.pointers@[k]
        },
        (before.phase matches HostMemoryPhase::Placing(PlacementState::Binding(binding))
            && after.phase matches HostMemoryPhase::Mapping(next)) ==> {
            let binding = before.phase->Placing_0->Binding_0;
            let next = after.phase->Mapping_0;
            &&& binding.bound + 1 == S
            &&& next.allocation == binding.allocation
            &&& next.pointers@.len() == 0
        },
        (before.phase matches HostMemoryPhase::Placing(PlacementState::Binding(binding))
            && after.phase matches HostMemoryPhase::Placing(PlacementState::Binding(next))) ==> {
            let binding = before.phase->Placing_0->Binding_0;
            let next = after.phase->Placing_0->Binding_0;
            &&& next.bound == binding.bound + 1
            &&& next.bound < S
            &&& next.allocation == binding.allocation
        },
{
}

/// Addresses exist exactly where, for each object in a mapped memory, the memory's address plus
/// the object's offset is an address.
pub proof fn law_addresses_exist_where_the_sums_fit<const S: usize>(
    allocation: AllocationSuccess<S>,
    pointers: Seq<usize>,
)
    ensures
        addresses_exist(allocation, pointers) <==> forall|i: int|
            0 <= i < S && (#[trigger] allocation.obj_to_memory_assignment@[i]).memory_index
                < pointers.len() ==> pointers[allocation.obj_to_memory_assignment@[i].memory_index
                as int] + allocation.obj_to_memory_assignment@[i].memory_offset <= usize::MAX,
{
    if addresses_exist(allocation, pointers) {
        assert forall|i: int|
            0 <= i < S && (#[trigger] allocation.obj_to_memory_assignment@[i]).memory_index
                < pointers.len() implies pointers[allocation.obj_to_memory_assignment@[
            i].memory_index as int] + allocation.obj_to_memory_assignment@[i].memory_offset
            <= usize::MAX by {
            assert(allocation.object_address(pointers, i) <= usize::MAX);
        }
    }
}

/// Objects are bound at their placements and memories are mapped whole. The finished host memory
/// has each object, with its own kind and handle, in the memory and at the offset of its placement,
/// at the address of that memory plus that offset, and coherent exactly where the type of that
/// memory has the coherent bit.
pub proof fn law_host_memory_has_objects_at_their_placements<const S: usize>(
    state: HostMemoryState<S>,
    action: HostMemoryAction<S>,
)
    requires
        state.wf(),
        state.calls_for(action),
    ensures
        action matches HostMemoryAction::Bind { object_index, memory, memory_offset } ==> {
            &&& state.phase matches HostMemoryPhase::Placing(PlacementState::Binding(binding))
            &&& object_index == binding.bound
            &&& memory == binding.allocation.memories@[binding.allocation.obj_to_memory_assignment@[
                object_index as int].memory_index as int].memory
            &&& memory_offset == binding.allocation.obj_to_memory_assignment@[
                object_index as int].memory_offset
        },
        action matches HostMemoryAction::MapMemory { memory, offset, size, flags } ==> {
            &&& state.phase matches HostMemoryPhase::Mapping(mapping)
            &&& mapping.pointers@.len() < mapping.allocation.memory_count
            &&& memory == mapping.allocation.memories@[mapping.pointers@.len() as int].memory
            &&& offset == 0
            &&& size == 0xffff_ffff_ffff_ffff
            &&& flags == 0
        },
        action matches HostMemoryAction::Finish(host) ==> {
            &&& state.phase matches HostMemoryPhase::Mapping(mapping)
            &&& mapping.pointers@.len() == mapping.allocation.memory_count
            &&& host.allocation == mapping.allocation
            &&& forall|i: int|
                0 <= i < S ==> {
                    let placement = host.allocation.obj_to_memory_assignment@[i];
                    let memory = host.allocation.memories@[placement.memory_index as int];
                    &&& (#[trigger] host.objects@[i]).handle == state.objects@[i].handle
                    &&& host.objects@[i].object_type == state.objects@[i].object_type
                    &&& host.objects@[i].data_ptr
                        == mapping.pointers@[placement.memory_index as int]
                        + placement.memory_offset
                    &&& host.objects@[i].memory == memory.memory
                    &&& host.objects@[i].mem_host_coherent == (state.type_props@[
                        memory.type_index as int].bits & 0x4 != 0)
                    &&& host.objects@[i].obj_offset == placement.memory_offset
                    &&& host.objects@[i].obj_size == placement.object_size
                }
        },
{
    if let HostMemoryAction::Finish(host) = action {
        let mapping = state.phase->Mapping_0;
        let pointers = mapping.pointers@;
        assert forall|i: int| 0 <= i < S implies {
            let placement = host.allocation.obj_to_memory_assignment@[i];
            let memory = host.allocation.memories@[placement.memory_index as int];
            &&& (#[trigger] host.objects@[i]).handle == state.objects@[i].handle
            &&& host.objects@[i].object_type == state.objects@[i].object_type
            &&& host.objects@[i].data_ptr == pointers[placement.memory_index as int]
                + placement.memory_offset
            &&& host.objects@[i].memory == memory.memory
            &&& host.objects@[i].mem_host_coherent == (state.type_props@[
                memory.type_index as int].bits & 0x4 != 0)
            &&& host.objects@[i].obj_offset == placement.memory_offset
            &&& host.objects@[i].obj_size == placement.object_size
        } by {
            let address = host.allocation.object_address(pointers, i);
            assert(host.allocation.obj_to_memory_assignment@[i].memory_index < pointers.len());
            assert(address <= usize::MAX);
            law_mapped_object_has_the_properties_of_its_memory(
                host.allocation,
                state.type_props@,
                state.objects@[i],
                address as usize,
                i,
            );
        }
    }
}

/// While host memory is allocated, a memory is requested with the size to which its objects pack
/// tightly, exactly where that is not more than the device allows; where it is, it all stops.
pub proof fn law_host_memory_request_is_for_the_tight_packing<const S: usize>(
    state: HostMemoryState<S>,
    allocating: AllocationState<S>,
    action: HostMemoryAction<S>,
    offsets: Seq<int>,
    size: int,
)
    requires
        state.wf(),
        state.phase == HostMemoryPhase::Placing(PlacementState::Allocating(allocating)),
        !allocating.complete(),
        state.calls_for(action),
        action !is SetPriority,
        packed_tightly(
            allocating.assigned@,
            allocating.obj_reqs@,
            allocating.memory_types@[allocating.memories@.len() as int],
            offsets,
            size,
        ),
    ensures
        action is LimitExceeded || action is Allocate,
        action is LimitExceeded <==> size > allocating.max_memory_allocation_size,
        action matches HostMemoryAction::Allocate(request) ==> {
            &&& request.info.allocation_size == size
            &&& request.info.memory_type_index
                == allocating.memory_types@[allocating.memories@.len() as int]
        },
{
    law_placement_request_is_for_the_tight_packing(
        allocating,
        HostMemoryState::placement_action(action)->0,
        offsets,
        size,
    );
}

/// Host memory is made from the start, without a failure: event `n` leads from state `n` to the
/// next, and action `n` is what is then to be done.
pub open spec fn is_host_memory_action_run<const S: usize>(
    states: Seq<HostMemoryState<S>>,
    events: Seq<HostMemoryEvent>,
    actions: Seq<HostMemoryAction<S>>,
) -> bool {
    let started = HostMemoryEvent::Placement(PlacementEvent::Allocation(AllocationEvent::Started));
    &&& is_host_memory_run(states, events)
    &&& states[0].phase matches HostMemoryPhase::Placing(PlacementState::Allocating(_))
    &&& actions.len() == events.len()
    &&& events.len() > 0
    &&& events[0] == started
    &&& forall|n: int| 0 < n < events.len() ==> #[trigger] events[n] != started
    &&& forall|n: int|
        0 <= n < actions.len() ==> states[n + 1].calls_for(#[trigger] actions[n])
}

/// The memories asked for, in order.
pub open spec fn host_requests_in<const S: usize>(actions: Seq<HostMemoryAction<S>>) -> Seq<
    MemoryRequest,
>
    decreases actions.len(),
{
    if actions.len() == 0 {
        seq![]
    } else {
        match actions.last() {
            HostMemoryAction::Allocate(request) => host_requests_in(actions.drop_last()).push(
                request,
            ),
            _ => host_requests_in(actions.drop_last()),
        }
    }
}

/// The priorities to set, each with its memory, in order.
pub open spec fn host_priorities_in<const S: usize>(actions: Seq<HostMemoryAction<S>>) -> Seq<
    (DeviceMemory, MemoryPriority),
>
    decreases actions.len(),
{
    if actions.len() == 0 {
        seq![]
    } else {
        match actions.last() {
            HostMemoryAction::SetPriority { memory, priority } => host_priorities_in(
                actions.drop_last(),
            ).push((memory, priority)),
            _ => host_priorities_in(actions.drop_last()),
        }
    }
}

/// What is to be bound to what, in order.
pub open spec fn host_binds_in<const S: usize>(actions: Seq<HostMemoryAction<S>>) -> Seq<
    (usize, DeviceMemory, u64),
>
    decreases actions.len(),
{
    if actions.len() == 0 {
        seq![]
    } else {
        match actions.last() {
            HostMemoryAction::Bind { object_index, memory, memory_offset } => host_binds_in(
                actions.drop_last(),
            ).push((object_index, memory, memory_offset)),
            _ => host_binds_in(actions.drop_last()),
        }
    }
}

/// The memories to map, each with offset, size and flags, in order.
pub open spec fn host_maps_in<const S: usize>(actions: Seq<HostMemoryAction<S>>) -> Seq<
    (DeviceMemory, u64, u64, u32),
>
    decreases actions.len(),
{
    if actions.len() == 0 {
        seq![]
    } else {
        match actions.last() {
            HostMemoryAction::MapMemory { memory, offset, size, flags } => host_maps_in(
                actions.drop_last(),
            ).push((memory, offset, size, flags)),
            _ => host_maps_in(actions.drop_last()),
        }
    }
}

/// The addresses that the device mapped memories at, in order.
pub open spec fn host_pointers_by(events: Seq<HostMemoryEvent>) -> Seq<usize>
    decreases events.len(),
{
    if events.len() == 0 {
        seq![]
    } else {
        match events.last() {
            HostMemoryEvent::Mapping(MappingEvent::Mapped(pointer)) => host_pointers_by(
                events.drop_last(),
            ).push(pointer),
            _ => host_pointers_by(events.drop_last()),
        }
    }
}

/// What was asked of the device up to `state`, and the addresses that it gave.
spec fn host_asked<const S: usize>(
    start: HostMemoryState<S>,
    state: HostMemoryState<S>,
    requests: Seq<MemoryRequest>,
    priorities: Seq<(DeviceMemory, MemoryPriority)>,
    binds: Seq<(usize, DeviceMemory, u64)>,
    maps: Seq<(DeviceMemory, u64, u64, u32)>,
    pointers: Seq<usize>,
) -> bool {
    let plan = start.phase->Placing_0->Allocating_0;
    &&& state.objects == start.objects
    &&& state.type_props == start.type_props
    &&& match state.phase {
        HostMemoryPhase::Placing(placing) => {
            &&& placement_asked(plan, placing, requests, priorities, binds)
            &&& maps.len() == 0
            &&& pointers.len() == 0
        },
        HostMemoryPhase::Mapping(mapping) => {
            &&& placement_asked(
                plan,
                PlacementState::Binding(
                    BindingState { allocation: mapping.allocation, bound: S },
                ),
                requests,
                priorities,
                binds,
            )
            &&& maps.len() == mapping.pointers@.len() + if mapping.pointers@.len()
                < mapping.allocation.memory_count {
                1int
            } else {
                0
            }
            &&& forall|k: int|
                0 <= k < maps.len() ==> #[trigger] maps[k] == (
                    mapping.allocation.memories@[k].memory,
                    0u64,
                    0xffff_ffff_ffff_ffffu64,
                    0u32,
                )
            &&& pointers == mapping.pointers@
        },
    }
}

proof fn lemma_host_memory_action_run<const S: usize>(
    states: Seq<HostMemoryState<S>>,
    events: Seq<HostMemoryEvent>,
    actions: Seq<HostMemoryAction<S>>,
)
    requires
        is_host_memory_action_run(states, events, actions),
    ensures
        host_asked(
            states[0],
            states.last(),
            host_requests_in(actions),
            host_priorities_in(actions),
            host_binds_in(actions),
            host_maps_in(actions),
            host_pointers_by(events),
        ),
    decreases actions.len(),
{
    let n = events.len() - 1;
    let (before, after) = (states[n], states[n + 1]);
    assert(states.last() == after);
    assert(before.wf() && after.wf());
    assert(before.expects(events[n]) && HostMemoryState::<S>::failure(events[n]) is None
        && after.follows(before, events[n]));
    assert(after.calls_for(actions[n]));
    let (init, init_events) = (actions.drop_last(), events.drop_last());
    let started = HostMemoryEvent::Placement(PlacementEvent::Allocation(AllocationEvent::Started));
    if n > 0 {
        let init_states = states.drop_last();
        assert(is_host_memory_action_run(init_states, init_events, init)) by {
            assert forall|m: int| 0 <= m < init_events.len() implies {
                &&& init_states[m].expects(#[trigger] init_events[m])
                &&& HostMemoryState::<S>::failure(init_events[m]) is None
                &&& init_states[m + 1].follows(init_states[m], init_events[m])
            } by {
                assert(init_events[m] == events[m]);
            }
            assert forall|m: int| 0 < m < init_events.len() implies #[trigger] init_events[m]
                != started by {
                assert(init_events[m] == events[m]);
            }
            assert forall|m: int| 0 <= m < init.len() implies init_states[m + 1].calls_for(
                #[trigger] init[m],
            ) by {
                assert(init[m] == actions[m]);
            }
        }
        lemma_host_memory_action_run(init_states, init_events, init);
        assert(init_states.last() == before);
        assert(events[n] != started);
    } else {
        assert(init =~= Seq::<HostMemoryAction<S>>::empty());
        assert(init_events =~= Seq::<HostMemoryEvent>::empty());
        assert(host_requests_in(init).len() == 0);
        assert(host_priorities_in(init).len() == 0);
        assert(host_binds_in(init).len() == 0);
        assert(host_maps_in(init).len() == 0);
        assert(host_pointers_by(init_events).len() == 0);
    }
    assert(actions.last() == actions[n]);
    assert(events.last() == events[n]);
    let plan = states[0].phase->Placing_0->Allocating_0;
    if let (HostMemoryPhase::Placing(placing), HostMemoryEvent::Placement(event)) = (
        before.phase,
        events[n],
    ) {
        let (next, action) = match after.phase {
            HostMemoryPhase::Placing(next) => (
                next,
                HostMemoryState::placement_action(actions[n])->0,
            ),
            HostMemoryPhase::Mapping(mapping) => (
                PlacementState::Binding(
                    BindingState { allocation: mapping.allocation, bound: S },
                ),
                PlacementAction::Finish(mapping.allocation),
            ),
        };
        lemma_placement_asked_step(
            plan,
            placing,
            event,
            next,
            action,
            host_requests_in(init),
            host_priorities_in(init),
            host_binds_in(init),
        );
    }
    law_host_memory_has_objects_at_their_placements(after, actions[n]);
    if let HostMemoryPhase::Mapping(mapping) = after.phase {
        assert(host_pointers_by(events) =~= mapping.pointers@);
    }
}

/// In a run from start to finish the objects are placed tightly, and the device is asked for
/// exactly the memories that the allocation lists, to bind every object once at its placement, and
/// to map every memory once and whole. Each object is then at the address that the device gave for
/// its memory, plus its offset.
pub proof fn law_finished_run_bound_and_mapped_everything<const S: usize>(
    states: Seq<HostMemoryState<S>>,
    events: Seq<HostMemoryEvent>,
    actions: Seq<HostMemoryAction<S>>,
    host: HostMemory<S>,
)
    requires
        is_host_memory_action_run(states, events, actions),
        actions.last() == HostMemoryAction::<S>::Finish(host),
    ensures
        ({
            let plan = states[0].phase->Placing_0->Allocating_0;
            let requests = host_requests_in(actions);
            let priorities = host_priorities_in(actions);
            let binds = host_binds_in(actions);
            let maps = host_maps_in(actions);
            let pointers = host_pointers_by(events);
            let allocation = host.allocation;
            &&& tightly_placed(plan.assigned@, plan.obj_reqs@, allocation)
            &&& requests.len() == allocation.memory_count
            &&& forall|k: int|
                0 <= k < allocation.memory_count ==> {
                    &&& (#[trigger] requests[k]).info.allocation_size
                        == allocation.memories@[k].size
                    &&& requests[k].info.memory_type_index == allocation.memories@[k].type_index
                    &&& requests[k].priority == if plan.extensions.memory_priority {
                        Some(plan.priority)
                    } else {
                        None
                    }
                }
            &&& priorities.len() == if plan.extensions.pageable_device_local_memory {
                allocation.memory_count as int
            } else {
                0
            }
            &&& forall|k: int|
                0 <= k < priorities.len() ==> #[trigger] priorities[k] == (
                    allocation.memories@[k].memory,
                    plan.priority,
                )
            &&& binds.len() == S
            &&& forall|i: int|
                0 <= i < S ==> {
                    let placement = allocation.obj_to_memory_assignment@[i];
                    #[trigger] binds[i] == (
                        i as usize,
                        allocation.memories@[placement.memory_index as int].memory,
                        placement.memory_offset,
                    )
                }
            &&& maps.len() == allocation.memory_count
            &&& forall|k: int|
                0 <= k < maps.len() ==> #[trigger] maps[k] == (
                    allocation.memories@[k].memory,
                    0u64,
                    0xffff_ffff_ffff_ffffu64,
                    0u32,
                )
            &&& pointers.len() == allocation.memory_count
            &&& forall|i: int|
                0 <= i < S ==> {
                    let placement = allocation.obj_to_memory_assignment@[i];
                    &&& (#[trigger] host.objects@[i]).data_ptr
                        == pointers[placement.memory_index as int] + placement.memory_offset
                    &&& host.objects@[i].handle == states[0].objects@[i].handle
                    &&& host.objects@[i].object_type == states[0].objects@[i].object_type
                    &&& host.objects@[i].memory
                        == allocation.memories@[placement.memory_index as int].memory
                    &&& host.objects@[i].obj_offset == placement.memory_offset
                    &&& host.objects@[i].obj_size == plan.obj_reqs@[i].size
                    &&& host.objects@[i].mem_host_coherent == (
                    states[0].type_props@[plan.assigned@[i] as int].bits & 0x4 != 0)
                }
        }),
{
    lemma_host_memory_action_run(states, events, actions);
    let n = actions.len() - 1;
    let last = states[n + 1];
    assert(states.last() == last);
    assert(last.wf());
    assert(last.calls_for(actions[n]));
    law_host_memory_has_objects_at_their_placements(last, actions[n]);
}

} // verus!
