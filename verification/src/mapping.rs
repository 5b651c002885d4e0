//! Mapping the memories of an allocation into the host's address space.

use vstd::prelude::*;
use crate::allocation::AllocationSuccess;
use crate::boxed::into_boxed_slice;
use crate::errors::MemoryMapError;
use crate::vulkan::{DeviceMemory, MAX_MEMORY_TYPES, WHOLE_SIZE};

verus! {

/// Memories being mapped, which must be of host visible types.
#[derive(Debug)]
pub struct MappingState<const S: usize> {
    pub allocation: AllocationSuccess<S>,
    /// Addresses of the memories mapped so far.
    pub pointers: Vec<usize>,
}

/// What the device did.
#[derive(Debug, Clone, Copy)]
pub enum MappingEvent {
    /// Nothing yet.
    Started,
    /// It mapped the memory at this address.
    Mapped(usize),
    /// It could not map the memory.
    Failed(MemoryMapError),
}

/// What is to be done next.
#[derive(Debug)]
pub enum MappingAction {
    /// Map `size` bytes of the memory from `offset` on.
    MapMemory { memory: DeviceMemory, offset: u64, size: u64, flags: u32 },
    /// All memories are mapped; these are their addresses.
    Finish(Box<[usize]>),
    /// Report the error.
    Abandon(MemoryMapError),
}

impl<const S: usize> MappingState<S> {
    /// No more memories are mapped than there are, and none at address zero.
    pub open spec fn wf(self) -> bool {
        &&& self.pointers@.len() <= self.allocation.memory_count <= MAX_MEMORY_TYPES
        &&& forall|k: int| 0 <= k < self.pointers@.len() ==> #[trigger] self.pointers@[k] != 0
    }

    /// The event can come in this state.
    pub open spec fn expects(self, event: MappingEvent) -> bool {
        match event {
            MappingEvent::Started => self.pointers@.len() == 0,
            MappingEvent::Mapped(pointer) => self.pointers@.len() < self.allocation.memory_count
                && pointer != 0,
            MappingEvent::Failed(_) => self.pointers@.len() < self.allocation.memory_count,
        }
    }

    /// `action` is what comes next in this state.
    pub open spec fn calls_for(self, action: MappingAction) -> bool {
        if self.pointers@.len() == self.allocation.memory_count {
            action matches MappingAction::Finish(pointers) && pointers@ == self.pointers@
        } else {
            action == MappingAction::MapMemory {
                memory: self.allocation.used_memories()[self.pointers@.len() as int].memory,
                offset: 0,
                size: WHOLE_SIZE,
                flags: 0,
            }
        }
    }

    /// No memory is mapped yet.
    pub fn new(allocation: AllocationSuccess<S>) -> (r: MappingState<S>)
        requires
            allocation.memory_count <= MAX_MEMORY_TYPES,
        ensures
            r.wf(),
            r.allocation == allocation,
            r.pointers@ == Seq::<usize>::empty(),
    {
        MappingState { allocation, pointers: Vec::new() }
    }
}

/// Maps the memories of an allocation, each as a whole, one step at a time: takes in what the
/// device did and says what is to be done next.
pub fn map_host_visible_allocation<const S: usize>(
    state: MappingState<S>,
    event: MappingEvent,
) -> (r: (MappingState<S>, MappingAction))
    requires
        state.wf(),
        state.expects(event),
    ensures
        r.0.wf(),
        r.0.allocation == state.allocation,
        r.0.pointers@ == (match event {
            MappingEvent::Mapped(pointer) => state.pointers@.push(pointer),
            _ => state.pointers@,
        }),
        match event {
            MappingEvent::Failed(error) => r.0 == state && r.1 == MappingAction::Abandon(error),
            _ => r.0.calls_for(r.1),
        },
{
    let mut state = state;
    match event {
        MappingEvent::Started => {},
        MappingEvent::Mapped(pointer) => {
            state.pointers.push(pointer);
        },
        MappingEvent::Failed(error) => {
            return (state, MappingAction::Abandon(error));
        },
    }
    let mapped: usize = state.pointers.len();
    let memories = state.allocation.get_memories();
    let action = if mapped == memories.len() {
        MappingAction::Finish(into_boxed_slice(state.pointers.clone()))
    } else {
        MappingAction::MapMemory {
            memory: memories[mapped].memory,
            offset: 0,
            size: WHOLE_SIZE,
            flags: 0,
        }
    };
    (state, action)
}

/// A memory is mapped from its beginning to its end, so that all of its objects are, and the
/// memories' turn comes in order. When all are mapped their addresses are handed over.
pub proof fn law_memories_are_mapped_whole<const S: usize>(
    state: MappingState<S>,
    action: MappingAction,
)
    requires
        state.wf(),
        state.calls_for(action),
    ensures
        action is MapMemory <==> state.pointers@.len() < state.allocation.memory_count,
        action is Finish <==> state.pointers@.len() == state.allocation.memory_count,
        action matches MappingAction::MapMemory { memory, offset, size, flags } ==> {
            &&& memory == state.allocation.memories@[state.pointers@.len() as int].memory
            &&& offset == 0
            &&& size == 0xffff_ffff_ffff_ffff
            &&& flags == 0
        },
        action matches MappingAction::Finish(pointers) ==> pointers@ == state.pointers@,
{
}

/// The memories of an allocation are mapped from the start, without a failure: event `n` leads
/// from state `n` to the next, and action `n` is what is then to be done.
pub open spec fn is_mapping_run<const S: usize>(
    states: Seq<MappingState<S>>,
    events: Seq<MappingEvent>,
    actions: Seq<MappingAction>,
) -> bool {
    &&& states.len() == events.len() + 1
    &&& actions.len() == events.len()
    &&& events.len() > 0
    &&& events[0] is Started
    &&& states[0].pointers@.len() == 0
    &&& forall|n: int| 0 < n < events.len() ==> (#[trigger] events[n]) is Mapped
    &&& forall|n: int| 0 <= n < states.len() ==> (#[trigger] states[n]).wf()
    &&& forall|n: int|
        0 <= n < events.len() ==> {
            &&& states[n].expects(#[trigger] events[n])
            &&& states[n + 1].allocation == states[n].allocation
            &&& states[n + 1].pointers@ == (match events[n] {
                MappingEvent::Mapped(pointer) => states[n].pointers@.push(pointer),
                _ => states[n].pointers@,
            })
        }
    &&& forall|n: int|
        0 <= n < actions.len() ==> states[n + 1].calls_for(#[trigger] actions[n])
}

/// In a run from start to finish every memory of the allocation is mapped once, whole and in
/// order, and its address is the one that the device gave for it.
pub proof fn law_finished_run_mapped_every_memory<const S: usize>(
    states: Seq<MappingState<S>>,
    events: Seq<MappingEvent>,
    actions: Seq<MappingAction>,
    k: int,
)
    requires
        is_mapping_run(states, events, actions),
        0 <= k < actions.len(),
    ensures
        states[k + 1].allocation == states[0].allocation,
        states[k + 1].pointers@.len() == k,
        forall|m: int|
            0 <= m < k ==> events[m + 1] == MappingEvent::Mapped(
                #[trigger] states[k + 1].pointers@[m],
            ),
        k < states[0].allocation.memory_count ==> actions[k] == (MappingAction::MapMemory {
            memory: states[0].allocation.memories@[k].memory,
            offset: 0,
            size: 0xffff_ffff_ffff_ffff,
            flags: 0,
        }),
        actions[k] is Finish <==> k == states[0].allocation.memory_count,
        actions[k] matches MappingAction::Finish(pointers) ==> {
            &&& pointers@.len() == states[0].allocation.memory_count
            &&& forall|m: int|
                0 <= m < pointers@.len() ==> events[m + 1] == MappingEvent::Mapped(
                    #[trigger] pointers@[m],
                )
        },
    decreases k,
{
    assert(states[k].wf() && states[k + 1].wf());
    assert(states[k].expects(events[k]));
    assert(states[k + 1].calls_for(actions[k]));
    if k > 0 {
        law_finished_run_mapped_every_memory(states, events, actions, k - 1);
        assert(events[k] is Mapped);
        assert forall|m: int| 0 <= m < k implies events[m + 1] == MappingEvent::Mapped(
            #[trigger] states[k + 1].pointers@[m],
        ) by {
            if m < k - 1 {
                assert(states[k + 1].pointers@[m] == states[k].pointers@[m]);
            }
        }
    }
    law_memories_are_mapped_whole(states[k + 1], actions[k]);
}

} // verus!
