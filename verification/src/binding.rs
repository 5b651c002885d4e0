//! Binding objects to the memories allocated for them.

use vstd::prelude::*;
use crate::allocation::{
    allocate_memory, asked_for, handles_to_destroy, law_finished_allocation_is_tightly_placed,
    law_object_placed_in_its_memory, law_one_memory_per_type, law_placed_objects_do_not_overlap,
    memories_to_destroy, memory_handles, tightly_placed, AllocationAction, AllocationEvent,
    AllocationState, AllocationSuccess, MemoryPlacement, MemoryRequest,
};
use crate::errors::{AllocationError, OutOfMemoryError};
use crate::layout::{law_layout_is_the_tight_packing, packed_tightly};
use crate::vulkan::{Destroyable, DeviceMemory, MemoryPriority};

verus! {

/// Objects being bound to their places in a finished allocation.
#[derive(Debug, Clone, Copy)]
pub struct BindingState<const S: usize> {
    pub allocation: AllocationSuccess<S>,
    /// How many objects are bound.
    pub bound: usize,
}

/// Objects being given memory: first the memories are allocated, then the objects are bound.
#[derive(Debug)]
pub enum PlacementState<const S: usize> {
    Allocating(AllocationState<S>),
    Binding(BindingState<S>),
}

/// What the device did.
#[derive(Debug, Clone, Copy)]
pub enum PlacementEvent {
    /// Nothing yet, or its answer to a requested allocation.
    Allocation(AllocationEvent),
    /// It bound the object.
    Bound,
    /// It could not bind the object.
    BindFailed(OutOfMemoryError),
}

/// What is to be done next.
#[derive(Debug)]
pub enum PlacementAction<const S: usize> {
    /// Make this allocation.
    Allocate(MemoryRequest),
    /// Set the priority of this memory.
    SetPriority { memory: DeviceMemory, priority: MemoryPriority },
    /// Stop: the next memory would be larger than any allocation that the device makes.
    LimitExceeded,
    /// Bind the object with this index.
    Bind { object_index: usize, memory: DeviceMemory, memory_offset: u64 },
    /// All objects are bound.
    Finish(AllocationSuccess<S>),
    /// Free the memories and report the error.
    Abandon { destroy: Vec<Destroyable>, error: AllocationError },
}

impl<const S: usize> BindingState<S> {
    /// The allocation is valid, and no more objects are bound than there are.
    pub open spec fn wf(self) -> bool {
        self.allocation.wf() && self.bound <= S
    }

    /// `action` is what comes next in this state: the next object is bound to its place, or, when
    /// all are, the allocation is handed over.
    pub open spec fn calls_for(self, action: PlacementAction<S>) -> bool {
        if self.bound == S {
            action == PlacementAction::<S>::Finish(self.allocation)
        } else {
            let placement = self.allocation.obj_to_memory_assignment@[self.bound as int];
            action == PlacementAction::<S>::Bind {
                object_index: self.bound,
                memory: self.allocation.used_memories()[placement.memory_index as int].memory,
                memory_offset: placement.memory_offset,
            }
        }
    }

    /// What comes next.
    fn next_action(&self) -> (action: PlacementAction<S>)
        requires
            self.wf(),
        ensures
            self.calls_for(action),
    {
        if self.bound == S {
            PlacementAction::Finish(self.allocation)
        } else {
            let placement: MemoryPlacement = self.allocation.obj_to_memory_assignment[self.bound];
            let memories = self.allocation.get_memories();
            PlacementAction::Bind {
                object_index: self.bound,
                memory: *memories[placement.memory_index],
                memory_offset: placement.memory_offset,
            }
        }
    }
}

impl<const S: usize> PlacementState<S> {
    /// The allocation under way or the binding under way is valid.
    pub open spec fn wf(self) -> bool {
        match self {
            PlacementState::Allocating(allocating) => allocating.wf(),
            PlacementState::Binding(binding) => binding.wf(),
        }
    }

    /// The event can come in this state.
    pub open spec fn expects(self, event: PlacementEvent) -> bool {
        match (self, event) {
            (
                PlacementState::Allocating(allocating),
                PlacementEvent::Allocation(event),
            ) => allocating.expects(event),
            (PlacementState::Binding(binding), PlacementEvent::Bound) => binding.bound < S,
            (PlacementState::Binding(binding), PlacementEvent::BindFailed(_)) => binding.bound < S,
            _ => false,
        }
    }

    /// The memories that the objects have so far.
    pub open spec fn memories(self) -> Seq<DeviceMemory> {
        match self {
            PlacementState::Allocating(allocating) => allocating.memories@,
            PlacementState::Binding(binding) => memory_handles(binding.allocation.used_memories()),
        }
    }

    /// `self` comes out of `before` by an event that is no failure.
    pub open spec fn follows(self, before: PlacementState<S>, event: PlacementEvent) -> bool {
        match before {
            PlacementState::Allocating(allocating) => {
                &&& event matches PlacementEvent::Allocation(event)
                &&& match self {
                    PlacementState::Allocating(next) => {
                        next.follows(allocating, event) && !next.complete()
                    },
                    PlacementState::Binding(binding) => {
                        &&& binding.bound == 0
                        &&& exists|done: AllocationState<S>| #[trigger]
                            done.follows(allocating, event) && done.complete() && done.is_result(
                                binding.allocation,
                            )
                    },
                }
            },
            PlacementState::Binding(binding) => {
                self == PlacementState::<S>::Binding(
                    BindingState {
                        allocation: binding.allocation,
                        bound: (binding.bound + 1) as usize,
                    },
                )
            },
        }
    }

    /// `action` is what comes next in this state.
    pub open spec fn calls_for(self, action: PlacementAction<S>) -> bool {
        match self {
            PlacementState::Allocating(allocating) => {
                let t = allocating.memory_types@[allocating.memories@.len() as int];
                if allocating.priority_due() {
                    action == PlacementAction::<S>::SetPriority {
                        memory: allocating.memories@[allocating.prioritized as int],
                        priority: allocating.priority,
                    }
                } else if allocating.fits(t) {
                    action matches PlacementAction::Allocate(request) && allocating.is_request(
                        t,
                        request,
                    )
                } else {
                    action is LimitExceeded
                }
            },
            PlacementState::Binding(binding) => binding.calls_for(action),
        }
    }

    /// The out of memory error that the event brings.
    pub open spec fn failure(event: PlacementEvent) -> Option<OutOfMemoryError> {
        match event {
            PlacementEvent::Allocation(AllocationEvent::Failed(error)) => Some(error),
            PlacementEvent::BindFailed(error) => Some(error),
            _ => None,
        }
    }
}

/// Allocates the memories of a set of objects and binds each object to its place, one step at a
/// time: takes in what the device did and says what is to be done next.
pub fn allocate_and_bind_memory<const S: usize>(
    state: PlacementState<S>,
    event: PlacementEvent,
) -> (r: (PlacementState<S>, PlacementAction<S>))
    requires
        state.wf(),
        state.expects(event),
    ensures
        r.0.wf(),
        match PlacementState::<S>::failure(event) {
            Some(error) => {
                &&& r.0 == state
                &&& r.1 matches PlacementAction::Abandon { destroy, error: reported }
                &&& destroy@ == handles_to_destroy(state.memories())
                &&& reported == AllocationError::OutOfMemoryError(error)
            },
            None => r.0.follows(state, event) && r.0.calls_for(r.1),
        },
{
    match state {
        PlacementState::Allocating(allocating) => {
            let event = match event {
                PlacementEvent::Allocation(event) => event,
                // nothing else comes while memories are allocated
                _ => AllocationEvent::Started,
            };
            let (allocating, action) = allocate_memory(allocating, event);
            match action {
                AllocationAction::Allocate(request) => (
                    PlacementState::Allocating(allocating),
                    PlacementAction::Allocate(request),
                ),
                AllocationAction::SetPriority { memory, priority } => (
                    PlacementState::Allocating(allocating),
                    PlacementAction::SetPriority { memory, priority },
                ),
                AllocationAction::LimitExceeded => (
                    PlacementState::Allocating(allocating),
                    PlacementAction::LimitExceeded,
                ),
                AllocationAction::Finish(allocation) => {
                    proof {
                        law_one_memory_per_type(allocating, allocation);
                    }
                    let binding = BindingState { allocation, bound: 0 };
                    let action = binding.next_action();
                    (PlacementState::Binding(binding), action)
                },
                AllocationAction::Abandon { destroy, error } => (
                    PlacementState::Allocating(allocating),
                    PlacementAction::Abandon { destroy, error },
                ),
            }
        },
        PlacementState::Binding(binding) => {
            if let PlacementEvent::BindFailed(error) = event {
                let destroy = binding.allocation.destroy_self();
                proof {
                    let used = binding.allocation.used_memories();
                    assert(memories_to_destroy(used) =~= handles_to_destroy(memory_handles(used)));
                }
                let error = AllocationError::OutOfMemoryError(error);
                (PlacementState::Binding(binding), PlacementAction::Abandon { destroy, error })
            } else {
                let binding = BindingState {
                    allocation: binding.allocation,
                    bound: binding.bound + 1,
                };
                let action = binding.next_action();
                (PlacementState::Binding(binding), action)
            }
        },
    }
}

/// The finished allocation that binding begins with.
pub(crate) proof fn lemma_binding_begins<const S: usize>(
    allocating: AllocationState<S>,
    event: PlacementEvent,
    binding: BindingState<S>,
) -> (done: AllocationState<S>)
    requires
        allocating.wf(),
        PlacementState::Allocating(allocating).expects(event),
        PlacementState::Binding(binding).follows(PlacementState::Allocating(allocating), event),
    ensures
        done.wf(),
        done.same_plan(allocating),
        done.complete(),
        done.is_result(binding.allocation),
        binding.allocation.wf(),
        binding.bound == 0,
        event matches PlacementEvent::Allocation(event) && done.follows(allocating, event),
{
    let event = event->Allocation_0;
    let done = choose|done: AllocationState<S>| #[trigger]
        done.follows(allocating, event) && done.complete() && done.is_result(binding.allocation);
    assert(done.wf()) by {
        assert forall|k: int| 0 <= k < done.memories@.len() implies done.fits(
            #[trigger] done.memory_types@[k],
        ) by {
            assert(allocating.fits(allocating.memory_types@[k]));
        }
    }
    law_one_memory_per_type(done, binding.allocation);
    done
}

/// When the last memory is allocated, the objects are to be bound so that each lies, aligned and
/// with its whole size, inside a memory of its memory type, and no two overlap.
pub proof fn law_objects_are_bound_apart<const S: usize>(
    allocating: AllocationState<S>,
    event: PlacementEvent,
    binding: BindingState<S>,
)
    requires
        PlacementState::Allocating(allocating).wf(),
        PlacementState::Allocating(allocating).expects(event),
        PlacementState::<S>::failure(event) is None,
        PlacementState::Binding(binding).follows(PlacementState::Allocating(allocating), event),
    ensures
        binding.wf(),
        forall|i: int|
            #![trigger binding.allocation.obj_to_memory_assignment@[i]]
            0 <= i < S ==> {
                let placement = binding.allocation.obj_to_memory_assignment@[i];
                let memory = binding.allocation.memories@[placement.memory_index as int];
                &&& memory.type_index == allocating.assigned@[i]
                &&& placement.memory_offset as int % allocating.obj_reqs@[i].alignment as int == 0
                &&& placement.object_size == allocating.obj_reqs@[i].size
                &&& placement.memory_offset + placement.object_size <= memory.size
            },
        forall|i: int, j: int|
            #![trigger binding.allocation.obj_to_memory_assignment@[i],
                binding.allocation.obj_to_memory_assignment@[j]]
            0 <= i < j < S ==> {
                let first = binding.allocation.obj_to_memory_assignment@[i];
                let second = binding.allocation.obj_to_memory_assignment@[j];
                first.memory_index == second.memory_index ==> first.memory_offset
                    + first.object_size <= second.memory_offset
            },
{
    let done = lemma_binding_begins(allocating, event, binding);
    assert forall|i: int|
        #![trigger binding.allocation.obj_to_memory_assignment@[i]]
        0 <= i < S implies {
        let placement = binding.allocation.obj_to_memory_assignment@[i];
        let memory = binding.allocation.memories@[placement.memory_index as int];
        &&& memory.type_index == allocating.assigned@[i]
        &&& placement.memory_offset as int % allocating.obj_reqs@[i].alignment as int == 0
        &&& placement.object_size == allocating.obj_reqs@[i].size
        &&& placement.memory_offset + placement.object_size <= memory.size
    } by {
        law_object_placed_in_its_memory(done, binding.allocation, i);
    }
    assert forall|i: int, j: int|
        #![trigger binding.allocation.obj_to_memory_assignment@[i],
            binding.allocation.obj_to_memory_assignment@[j]]
        0 <= i < j < S implies {
        let first = binding.allocation.obj_to_memory_assignment@[i];
        let second = binding.allocation.obj_to_memory_assignment@[j];
        first.memory_index == second.memory_index ==> first.memory_offset + first.object_size
            <= second.memory_offset
    } by {
        if binding.allocation.obj_to_memory_assignment@[i].memory_index
            == binding.allocation.obj_to_memory_assignment@[j].memory_index {
            law_placed_objects_do_not_overlap(done, binding.allocation, i, j);
        }
    }
}

/// Objects are given memory through `states`: they begin without memories, and each state comes
/// out of the one before it by one of the `events`, none of which is a failure.
pub open spec fn is_placement_run<const S: usize>(
    states: Seq<PlacementState<S>>,
    events: Seq<PlacementEvent>,
) -> bool {
    &&& states.len() == events.len() + 1
    &&& states[0] matches PlacementState::Allocating(allocating) && allocating.memories@.len() == 0
    &&& forall|n: int| 0 <= n < states.len() ==> (#[trigger] states[n]).wf()
    &&& forall|n: int|
        0 <= n < events.len() ==> {
            &&& states[n].expects(#[trigger] events[n])
            &&& PlacementState::<S>::failure(events[n]) is None
            &&& states[n + 1].follows(states[n], events[n])
        }
}

/// The memory that the device allocated, if the event says so.
pub open spec fn newly_placed(event: PlacementEvent) -> Seq<DeviceMemory> {
    match event {
        PlacementEvent::Allocation(AllocationEvent::Allocated(memory)) => seq![memory],
        _ => seq![],
    }
}

/// The memories that the device allocated, in order.
pub open spec fn placed_by(events: Seq<PlacementEvent>) -> Seq<DeviceMemory>
    decreases events.len(),
{
    if events.len() == 0 {
        seq![]
    } else {
        placed_by(events.drop_last()) + newly_placed(events.last())
    }
}

/// Object `i` of the allocation, and the memory and the offset that it is bound to.
pub open spec fn bind_target<const S: usize>(allocation: AllocationSuccess<S>, i: int) -> (
    int,
    DeviceMemory,
    u64,
) {
    let placement = allocation.obj_to_memory_assignment@[i];
    (
        i,
        allocation.used_memories()[placement.memory_index as int].memory,
        placement.memory_offset,
    )
}

/// What the device bound to what, in order. Each time it is what the state called for.
pub open spec fn bound_by<const S: usize>(
    states: Seq<PlacementState<S>>,
    events: Seq<PlacementEvent>,
) -> Seq<(int, DeviceMemory, u64)>
    decreases events.len(),
{
    if events.len() == 0 {
        seq![]
    } else {
        let before = bound_by(states.drop_last(), events.drop_last());
        if events.last() is Bound {
            let binding = states[events.len() - 1]->Binding_0;
            before.push(bind_target(binding.allocation, binding.bound as int))
        } else {
            before
        }
    }
}

/// A step adds to the memories what the device allocated.
pub(crate) proof fn lemma_placement_step<const S: usize>(
    before: PlacementState<S>,
    event: PlacementEvent,
    after: PlacementState<S>,
)
    requires
        before.wf(),
        before.expects(event),
        after.follows(before, event),
    ensures
        after.memories() == before.memories() + newly_placed(event),
{
    if let PlacementState::Allocating(allocating) = before {
        if let PlacementState::Binding(binding) = after {
            let done = lemma_binding_begins(allocating, event, binding);
            assert(after.memories() =~= done.memories@);
        }
    }
    assert(after.memories() =~= before.memories() + newly_placed(event));
}

proof fn lemma_placement_run<const S: usize>(
    states: Seq<PlacementState<S>>,
    events: Seq<PlacementEvent>,
)
    requires
        is_placement_run(states, events),
    ensures
        states.last().memories() == placed_by(events),
        match states.last() {
            PlacementState::Allocating(_) => bound_by(states, events) == Seq::<
                (int, DeviceMemory, u64),
            >::empty(),
            PlacementState::Binding(binding) => bound_by(states, events) == Seq::new(
                binding.bound as nat,
                |i: int| bind_target(binding.allocation, i),
            ),
        },
    decreases events.len(),
{
    if events.len() > 0 {
        let n = events.len() - 1;
        let (init_states, init_events) = (states.drop_last(), events.drop_last());
        assert(is_placement_run(init_states, init_events)) by {
            assert forall|m: int| 0 <= m < init_events.len() implies {
                &&& init_states[m].expects(#[trigger] init_events[m])
                &&& PlacementState::<S>::failure(init_events[m]) is None
                &&& init_states[m + 1].follows(init_states[m], init_events[m])
            } by {
                assert(init_events[m] == events[m]);
            }
        }
        lemma_placement_run(init_states, init_events);
        let (before, after) = (states[n], states.last());
        assert(init_states.last() == before);
        assert(before.expects(events[n]) && after.follows(before, events[n]));
        assert(before.wf());
        lemma_placement_step(before, events[n], after);
        if let PlacementState::Binding(binding) = after {
            assert(bound_by(states, events) =~= Seq::new(
                binding.bound as nat,
                |i: int| bind_target(binding.allocation, i),
            ));
        }
    } else {
        assert(states.last() == states[0]);
        assert(states[0].memories() =~= Seq::<DeviceMemory>::empty());
    }
}

/// Nothing leaks: at each point the objects hold exactly the memories that the device allocated,
/// so that these are what a failure there frees. When all objects are bound, the finished
/// allocation frees exactly these memories, and each object was bound once, in order, to its
/// place.
pub proof fn law_bound_allocation_owns_what_was_allocated<const S: usize>(
    states: Seq<PlacementState<S>>,
    events: Seq<PlacementEvent>,
)
    requires
        is_placement_run(states, events),
    ensures
        states.last().memories() == placed_by(events),
        forall|success: AllocationSuccess<S>| #[trigger]
            states.last().calls_for(PlacementAction::Finish(success)) ==> {
                &&& memories_to_destroy(success.used_memories()) == handles_to_destroy(
                    placed_by(events),
                )
                &&& bound_by(states, events) == Seq::new(
                    S as nat,
                    |i: int| bind_target(success, i),
                )
            },
{
    lemma_placement_run(states, events);
    assert forall|success: AllocationSuccess<S>| #[trigger]
        states.last().calls_for(PlacementAction::Finish(success)) implies {
        &&& memories_to_destroy(success.used_memories()) == handles_to_destroy(placed_by(events))
        &&& bound_by(states, events) == Seq::new(S as nat, |i: int| bind_target(success, i))
    } by {
        let used = success.used_memories();
        assert(memories_to_destroy(used) =~= handles_to_destroy(memory_handles(used)));
        assert(bound_by(states, events) =~= Seq::new(S as nat, |i: int| bind_target(success, i)));
    }
}

/// An object is bound to its own place: to the memory with the index of its placement, at the
/// offset of its placement. The objects' turn comes in order, and all of them are bound before the
/// allocation is handed over.
pub proof fn law_object_is_bound_at_its_placement<const S: usize>(
    binding: BindingState<S>,
    action: PlacementAction<S>,
)
    requires
        binding.wf(),
        PlacementState::Binding(binding).calls_for(action),
    ensures
        action is Bind <==> binding.bound < S,
        action is Finish <==> binding.bound == S,
        action matches PlacementAction::Bind { object_index, memory, memory_offset } ==> {
            let placement = binding.allocation.obj_to_memory_assignment@[object_index as int];
            &&& object_index == binding.bound
            &&& memory == binding.allocation.memories@[placement.memory_index as int].memory
            &&& memory_offset == placement.memory_offset
        },
        action matches PlacementAction::Finish(success) ==> success == binding.allocation,
{
}

/// The memories that the objects have so far are those that the device gave, and what is reported
/// when it runs out of memory is that.
pub proof fn law_placement_frees_what_it_holds<const S: usize>(
    state: PlacementState<S>,
    error: OutOfMemoryError,
)
    requires
        state.wf(),
    ensures
        match state {
            PlacementState::Allocating(allocating) => state.memories() == allocating.memories@,
            PlacementState::Binding(binding) => {
                &&& state.memories().len() == binding.allocation.memory_count
                &&& forall|k: int|
                    0 <= k < binding.allocation.memory_count ==> #[trigger] state.memories()[k]
                        == binding.allocation.memories@[k].memory
            },
        },
        PlacementState::<S>::failure(PlacementEvent::BindFailed(error)) == Some(error),
        PlacementState::<S>::failure(PlacementEvent::Allocation(AllocationEvent::Failed(error)))
            == Some(error),
        forall|event: PlacementEvent| #[trigger]
            PlacementState::<S>::failure(event) is Some ==> event is BindFailed || (
            event matches PlacementEvent::Allocation(event) && event is Failed),
{
}

/// A step does only what its event says: an allocation goes on as planned, and binding counts the
/// object that was bound and changes nothing of the allocation.
pub proof fn law_placement_step_keeps_the_allocation<const S: usize>(
    before: PlacementState<S>,
    event: PlacementEvent,
    after: PlacementState<S>,
)
    requires
        before.wf(),
        before.expects(event),
        after.follows(before, event),
    ensures
        before matches PlacementState::Binding(binding) ==> {
            &&& after matches PlacementState::Binding(next)
            &&& next.allocation == binding.allocation
            &&& next.bound == binding.bound + 1
        },
        before matches PlacementState::Allocating(allocating) ==> match after {
            PlacementState::Allocating(next) => {
                &&& next.assigned == allocating.assigned
                &&& next.obj_reqs == allocating.obj_reqs
                &&& next.max_memory_allocation_size == allocating.max_memory_allocation_size
                &&& next.extensions == allocating.extensions
                &&& next.priority == allocating.priority
                &&& next.memory_types == allocating.memory_types
                &&& next.memories@ == allocating.memories@ + newly_placed(event)
            },
            PlacementState::Binding(binding) => {
                &&& binding.bound == 0
                &&& binding.allocation.memory_count == allocating.assigned@.to_set().len()
                &&& tightly_placed(
                    allocating.assigned@,
                    allocating.obj_reqs@,
                    binding.allocation,
                )
            },
        },
{
    if let PlacementState::Allocating(allocating) = before {
        match after {
            PlacementState::Allocating(next) => {
                assert(next.memories@ =~= allocating.memories@ + newly_placed(event));
            },
            PlacementState::Binding(binding) => {
                let done = lemma_binding_begins(allocating, event, binding);
                law_one_memory_per_type(done, binding.allocation);
                law_finished_allocation_is_tightly_placed(done, binding.allocation);
            },
        }
    }
}

/// Objects are given memory from the start, without a failure: event `n` leads from state `n` to
/// the next, and action `n` is what is then to be done.
pub open spec fn is_placement_action_run<const S: usize>(
    states: Seq<PlacementState<S>>,
    events: Seq<PlacementEvent>,
    actions: Seq<PlacementAction<S>>,
) -> bool {
    &&& is_placement_run(states, events)
    &&& actions.len() == events.len()
    &&& events.len() > 0
    &&& events[0] == PlacementEvent::Allocation(AllocationEvent::Started)
    &&& forall|n: int|
        0 < n < events.len() ==> #[trigger] events[n] != PlacementEvent::Allocation(
            AllocationEvent::Started,
        )
    &&& forall|n: int|
        0 <= n < actions.len() ==> states[n + 1].calls_for(#[trigger] actions[n])
}

/// The memories asked for, in order.
pub open spec fn placement_requests_in<const S: usize>(actions: Seq<PlacementAction<S>>) -> Seq<
    MemoryRequest,
>
    decreases actions.len(),
{
    if actions.len() == 0 {
        seq![]
    } else {
        match actions.last() {
            PlacementAction::Allocate(request) => placement_requests_in(actions.drop_last()).push(
                request,
            ),
            _ => placement_requests_in(actions.drop_last()),
        }
    }
}

/// The priorities to set, each with its memory, in order.
pub open spec fn placement_priorities_in<const S: usize>(actions: Seq<PlacementAction<S>>) -> Seq<
    (DeviceMemory, MemoryPriority),
>
    decreases actions.len(),
{
    if actions.len() == 0 {
        seq![]
    } else {
        match actions.last() {
            PlacementAction::SetPriority { memory, priority } => placement_priorities_in(
                actions.drop_last(),
            ).push((memory, priority)),
            _ => placement_priorities_in(actions.drop_last()),
        }
    }
}

/// What is to be bound to what, in order.
pub open spec fn binds_in<const S: usize>(actions: Seq<PlacementAction<S>>) -> Seq<
    (usize, DeviceMemory, u64),
>
    decreases actions.len(),
{
    if actions.len() == 0 {
        seq![]
    } else {
        match actions.last() {
            PlacementAction::Bind { object_index, memory, memory_offset } => binds_in(
                actions.drop_last(),
            ).push((object_index, memory, memory_offset)),
            _ => binds_in(actions.drop_last()),
        }
    }
}

/// `requests` and `priorities` asked for the memories that the allocation lists.
pub(crate) open spec fn asked_for_listed<const S: usize>(
    start: AllocationState<S>,
    allocation: AllocationSuccess<S>,
    requests: Seq<MemoryRequest>,
    priorities: Seq<(DeviceMemory, MemoryPriority)>,
) -> bool {
    &&& tightly_placed(start.assigned@, start.obj_reqs@, allocation)
    &&& requests.len() == allocation.memory_count
    &&& forall|k: int|
        0 <= k < allocation.memory_count ==> {
            &&& (#[trigger] requests[k]).info.allocation_size == allocation.memories@[k].size
            &&& requests[k].info.memory_type_index == allocation.memories@[k].type_index
            &&& requests[k].priority == if start.extensions.memory_priority {
                Some(start.priority)
            } else {
                None
            }
        }
    &&& priorities.len() == if start.extensions.pageable_device_local_memory {
        allocation.memory_count as int
    } else {
        0
    }
    &&& forall|k: int|
        0 <= k < priorities.len() ==> #[trigger] priorities[k] == (
            allocation.memories@[k].memory,
            start.priority,
        )
}

/// A finished allocation lists what it asked for.
pub(crate) proof fn lemma_listed<const S: usize>(
    start: AllocationState<S>,
    done: AllocationState<S>,
    allocation: AllocationSuccess<S>,
    requests: Seq<MemoryRequest>,
    priorities: Seq<(DeviceMemory, MemoryPriority)>,
)
    requires
        done.wf(),
        done.same_plan(start),
        done.complete(),
        done.is_result(allocation),
        asked_for(done, requests, priorities),
    ensures
        asked_for_listed(start, allocation, requests, priorities),
{
    law_one_memory_per_type(done, allocation);
    law_finished_allocation_is_tightly_placed(done, allocation);
    assert forall|k: int| 0 <= k < allocation.memory_count implies {
        &&& (#[trigger] requests[k]).info.allocation_size == allocation.memories@[k].size
        &&& requests[k].info.memory_type_index == allocation.memories@[k].type_index
        &&& requests[k].priority == if start.extensions.memory_priority {
            Some(start.priority)
        } else {
            None
        }
    } by {
        assert(done.is_request(done.memory_types@[k], requests[k]));
        assert(allocation.memories@[k].type_index == done.memory_types@[k]);
    }
}

/// What was asked of the device up to `state`.
pub(crate) open spec fn placement_asked<const S: usize>(
    start: AllocationState<S>,
    state: PlacementState<S>,
    requests: Seq<MemoryRequest>,
    priorities: Seq<(DeviceMemory, MemoryPriority)>,
    binds: Seq<(usize, DeviceMemory, u64)>,
) -> bool {
    match state {
        PlacementState::Allocating(allocating) => {
            &&& allocating.same_plan(start)
            &&& asked_for(allocating, requests, priorities)
            &&& binds.len() == 0
        },
        PlacementState::Binding(binding) => {
            &&& asked_for_listed(start, binding.allocation, requests, priorities)
            &&& binds.len() == binding.bound + if binding.bound < S {
                1int
            } else {
                0
            }
            &&& forall|k: int|
                0 <= k < binds.len() ==> {
                    let placement = binding.allocation.obj_to_memory_assignment@[k];
                    #[trigger] binds[k] == (
                        k as usize,
                        binding.allocation.memories@[placement.memory_index as int].memory,
                        placement.memory_offset,
                    )
                }
        },
    }
}

/// One step keeps the account of what was asked.
pub(crate) proof fn lemma_placement_asked_step<const S: usize>(
    start: AllocationState<S>,
    before: PlacementState<S>,
    event: PlacementEvent,
    after: PlacementState<S>,
    action: PlacementAction<S>,
    requests: Seq<MemoryRequest>,
    priorities: Seq<(DeviceMemory, MemoryPriority)>,
    binds: Seq<(usize, DeviceMemory, u64)>,
)
    requires
        before.wf(),
        after.wf(),
        before.expects(event),
        PlacementState::<S>::failure(event) is None,
        after.follows(before, event),
        after.calls_for(action),
        if event == PlacementEvent::Allocation(AllocationEvent::Started) {
            &&& before == PlacementState::Allocating(start)
            &&& start.memories@.len() == 0
            &&& requests.len() == 0
            &&& priorities.len() == 0
            &&& binds.len() == 0
        } else {
            placement_asked(start, before, requests, priorities, binds)
        },
    ensures
        placement_asked(
            start,
            after,
            if let PlacementAction::Allocate(request) = action {
                requests.push(request)
            } else {
                requests
            },
            if let PlacementAction::SetPriority { memory, priority } = action {
                priorities.push((memory, priority))
            } else {
                priorities
            },
            if let PlacementAction::Bind { object_index, memory, memory_offset } = action {
                binds.push((object_index, memory, memory_offset))
            } else {
                binds
            },
        ),
{
    if let PlacementState::Allocating(allocating) = before {
        if let PlacementState::Binding(binding) = after {
            let done = lemma_binding_begins(allocating, event, binding);
            assert(asked_for(done, requests, priorities));
            lemma_listed(start, done, binding.allocation, requests, priorities);
        }
    }
}

proof fn lemma_placement_action_run<const S: usize>(
    states: Seq<PlacementState<S>>,
    events: Seq<PlacementEvent>,
    actions: Seq<PlacementAction<S>>,
)
    requires
        is_placement_action_run(states, events, actions),
    ensures
        placement_asked(
            states[0]->Allocating_0,
            states.last(),
            placement_requests_in(actions),
            placement_priorities_in(actions),
            binds_in(actions),
        ),
    decreases actions.len(),
{
    let n = events.len() - 1;
    let (before, after) = (states[n], states[n + 1]);
    assert(states.last() == after);
    assert(before.wf() && after.wf());
    assert(before.expects(events[n]) && PlacementState::<S>::failure(events[n]) is None
        && after.follows(before, events[n]));
    assert(after.calls_for(actions[n]));
    let init = actions.drop_last();
    if n > 0 {
        let (init_states, init_events) = (states.drop_last(), events.drop_last());
        assert(is_placement_action_run(init_states, init_events, init)) by {
            assert forall|m: int| 0 <= m < init_events.len() implies {
                &&& init_states[m].expects(#[trigger] init_events[m])
                &&& PlacementState::<S>::failure(init_events[m]) is None
                &&& init_states[m + 1].follows(init_states[m], init_events[m])
            } by {
                assert(init_events[m] == events[m]);
            }
            assert forall|m: int| 0 < m < init_events.len() implies #[trigger] init_events[m]
                != PlacementEvent::Allocation(AllocationEvent::Started) by {
                assert(init_events[m] == events[m]);
            }
            assert forall|m: int| 0 <= m < init.len() implies init_states[m + 1].calls_for(
                #[trigger] init[m],
            ) by {
                assert(init[m] == actions[m]);
            }
        }
        lemma_placement_action_run(init_states, init_events, init);
        assert(init_states.last() == before);
        assert(events[n] != PlacementEvent::Allocation(AllocationEvent::Started));
    } else {
        assert(init =~= Seq::<PlacementAction<S>>::empty());
        assert(placement_requests_in(init).len() == 0);
        assert(placement_priorities_in(init).len() == 0);
        assert(binds_in(init).len() == 0);
    }
    lemma_placement_asked_step(
        states[0]->Allocating_0,
        before,
        events[n],
        after,
        actions[n],
        placement_requests_in(init),
        placement_priorities_in(init),
        binds_in(init),
    );
    assert(actions.last() == actions[n]);
}

/// In a run from start to finish the objects are placed tightly, and the device is asked for
/// exactly the memories that the allocation lists, and then to bind every object once, in order,
/// each to the memory and at the offset of its placement.
pub proof fn law_finished_run_bound_every_object_at_its_placement<const S: usize>(
    states: Seq<PlacementState<S>>,
    events: Seq<PlacementEvent>,
    actions: Seq<PlacementAction<S>>,
    success: AllocationSuccess<S>,
)
    requires
        is_placement_action_run(states, events, actions),
        actions.last() == PlacementAction::<S>::Finish(success),
    ensures
        ({
            let start = states[0]->Allocating_0;
            let requests = placement_requests_in(actions);
            let priorities = placement_priorities_in(actions);
            let binds = binds_in(actions);
            &&& tightly_placed(start.assigned@, start.obj_reqs@, success)
            &&& binds.len() == S
            &&& forall|i: int|
                0 <= i < S ==> {
                    let placement = success.obj_to_memory_assignment@[i];
                    #[trigger] binds[i] == (
                        i as usize,
                        success.memories@[placement.memory_index as int].memory,
                        placement.memory_offset,
                    )
                }
            &&& requests.len() == success.memory_count
            &&& forall|k: int|
                0 <= k < success.memory_count ==> {
                    &&& (#[trigger] requests[k]).info.allocation_size == success.memories@[k].size
                    &&& requests[k].info.memory_type_index == success.memories@[k].type_index
                    &&& requests[k].priority == if start.extensions.memory_priority {
                        Some(start.priority)
                    } else {
                        None
                    }
                }
            &&& priorities.len() == if start.extensions.pageable_device_local_memory {
                success.memory_count as int
            } else {
                0
            }
            &&& forall|k: int|
                0 <= k < priorities.len() ==> #[trigger] priorities[k] == (
                    success.memories@[k].memory,
                    start.priority,
                )
        }),
{
    lemma_placement_action_run(states, events, actions);
    let n = actions.len() - 1;
    assert(states[n + 1].calls_for(actions[n]));
    assert(states[n + 1].wf());
}

/// While memories are allocated, a memory is requested with the size to which its objects pack
/// tightly, exactly where that is not more than the device allows; where it is, it all stops.
pub proof fn law_placement_request_is_for_the_tight_packing<const S: usize>(
    allocating: AllocationState<S>,
    action: PlacementAction<S>,
    offsets: Seq<int>,
    size: int,
)
    requires
        allocating.wf(),
        !allocating.complete(),
        PlacementState::Allocating(allocating).calls_for(action),
        action !is SetPriority,
        packed_tightly(
            allocating.assigned@,
            allocating.obj_reqs@,
            allocating.memory_types@[allocating.memories@.len() as int],
            offsets,
            size,
        ),
    ensures
        action is LimitExceeded || action is Allocate,
        action is LimitExceeded <==> size > allocating.max_memory_allocation_size,
        action matches PlacementAction::Allocate(request) ==> {
            &&& request.info.allocation_size == size
            &&& request.info.memory_type_index
                == allocating.memory_types@[allocating.memories@.len() as int]
        },
{
    law_layout_is_the_tight_packing(
        allocating.assigned@,
        allocating.obj_reqs@,
        allocating.memory_types@[allocating.memories@.len() as int],
        offsets,
        size,
    );
}

} // verus!
