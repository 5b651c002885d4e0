//! Allocating one device memory per memory type and placing the objects in it.

use vstd::prelude::*;
use crate::errors::{AllocationError, OutOfMemoryError};
use crate::layout::{
    group_end, group_size, group_size_u64, law_layout_is_the_tight_packing, law_object_is_aligned,
    law_object_lies_in_memory, law_objects_do_not_overlap, law_round_up_is_least_multiple,
    lemma_alignment_positive, lemma_group_end_monotonic, lemma_group_end_unchanged, object_offset,
    packed_tightly, reqs_wf, round_up_u64,
};
use crate::mem_type_assignment::{
    assign_memory_type_indexes_to_objects_for_allocation, assignable, assigned_type,
    distinct_types, earliest_set, first_incompatible, first_occurrences, is_assignment,
    law_assigned_type_serves_object, law_types_come_in_order_of_first_objects,
    lemma_first_occurrences, no_set_supported, MemoryAssignmentError, UnassignedToMemoryObjectsData,
};
use crate::vulkan::{
    Destroyable, DeviceMemory, MemoryAllocateInfo, MemoryPriority, MemoryPropertyFlags,
    MemoryRequirements, MemoryType, MAX_MEMORY_TYPES,
};

verus! {

/// A device memory, its memory type and its size.
#[derive(Debug, Clone, Copy, PartialEq, Eq, Structural)]
pub struct DetailedMemory {
    pub memory: DeviceMemory,
    pub type_index: usize,
    pub size: u64,
}

impl Default for DetailedMemory {
    fn default() -> (r: DetailedMemory)
        ensures
            r == (DetailedMemory { memory: DeviceMemory::null_spec(), type_index: 0, size: 0 }),
    {
        DetailedMemory { memory: DeviceMemory::null(), type_index: 0, size: 0 }
    }
}

impl std::ops::Deref for DetailedMemory {
    type Target = DeviceMemory;

    fn deref(&self) -> (r: &DeviceMemory)
        ensures
            *r == self.memory,
    {
        &self.memory
    }
}

impl DetailedMemory {
    /// What the device frees when this memory goes.
    pub fn destroy_self(&self) -> (r: Destroyable)
        ensures
            r == Destroyable::Memory(self.memory),
    {
        Destroyable::Memory(self.memory)
    }
}

/// Where an object lies.
#[derive(Debug, Clone, Copy, PartialEq, Eq, Structural)]
pub struct MemoryPlacement {
    pub memory_index: usize,
    pub memory_offset: u64,
    pub object_size: u64,
}

impl MemoryPlacement {
    /// Offset and size are multiples of `atom`.
    pub open spec fn atom_aligned(self, atom: int) -> bool {
        self.memory_offset as int % atom == 0 && self.object_size as int % atom == 0
    }
}

impl Default for MemoryPlacement {
    fn default() -> (r: MemoryPlacement)
        ensures
            r == (MemoryPlacement { memory_index: 0, memory_offset: 0, object_size: 0 }),
    {
        MemoryPlacement { memory_index: 0, memory_offset: 0, object_size: 0 }
    }
}

/// The memories of a finished allocation and the place of each object in them.
#[derive(Debug, Clone, Copy)]
pub struct AllocationSuccess<const S: usize> {
    pub memories: [DetailedMemory; MAX_MEMORY_TYPES],
    pub memory_count: usize,
    pub obj_to_memory_assignment: [MemoryPlacement; S],
}

/// The frees of `memories`, in order.
pub open spec fn memories_to_destroy(memories: Seq<DetailedMemory>) -> Seq<Destroyable> {
    memories.map_values(|m: DetailedMemory| Destroyable::Memory(m.memory))
}

/// The frees of `memories`, in order.
pub open spec fn handles_to_destroy(memories: Seq<DeviceMemory>) -> Seq<Destroyable> {
    memories.map_values(|m: DeviceMemory| Destroyable::Memory(m))
}

/// The handles of `memories`.
pub open spec fn memory_handles(memories: Seq<DetailedMemory>) -> Seq<DeviceMemory> {
    memories.map_values(|m: DetailedMemory| m.memory)
}

impl<const S: usize> AllocationSuccess<S> {
    /// No more memories than there are memory types, and every object lies in one of them.
    pub open spec fn wf(self) -> bool {
        &&& self.memory_count <= MAX_MEMORY_TYPES
        &&& forall|i: int|
            0 <= i < S ==> (#[trigger] self.obj_to_memory_assignment@[i]).memory_index
                < self.memory_count
    }

    /// Some object lies in memory `k`.
    pub open spec fn holds_object(self, k: int) -> bool {
        exists|i: int|
            0 <= i < S && (#[trigger] self.obj_to_memory_assignment@[i]).memory_index == k
    }

    /// The memories in use.
    pub open spec fn used_memories(self) -> Seq<DetailedMemory> {
        self.memories@.take(self.memory_count as int)
    }

    /// The memories in use.
    pub fn get_memories(&self) -> (r: &[DetailedMemory])
        requires
            self.memory_count <= MAX_MEMORY_TYPES,
        ensures
            r@ == self.used_memories(),
    {
        &self.memories[0..self.memory_count]
    }

    /// The address of object `i` where the memories are mapped at `pointers`.
    pub open spec fn object_address(self, pointers: Seq<usize>, i: int) -> int {
        let placement = self.obj_to_memory_assignment@[i];
        pointers[placement.memory_index as int] + placement.memory_offset
    }

    /// The address of each object where the memories are mapped at `pointers`.
    pub fn object_addresses(&self, pointers: &[usize]) -> (r: [usize; S])
        requires
            self.wf(),
            pointers@.len() == self.memory_count,
            forall|i: int|
                0 <= i < S ==> #[trigger] self.object_address(pointers@, i) <= usize::MAX,
        ensures
            forall|i: int| 0 <= i < S ==> #[trigger] r@[i] == self.object_address(pointers@, i),
            forall|i: int|
                0 <= i < S ==> #[trigger] r@[i]
                    == pointers@[self.obj_to_memory_assignment@[i].memory_index as int]
                    + self.obj_to_memory_assignment@[i].memory_offset,
            (forall|k: int| 0 <= k < pointers@.len() ==> #[trigger] pointers@[k] != 0) ==> (
            forall|i: int| 0 <= i < S ==> #[trigger] r@[i] != 0),
    {
        let mut r: [usize; S] = [0usize; S];
        for i in 0..S
            invariant
                self.wf(),
                pointers@.len() == self.memory_count,
                forall|i: int|
                    0 <= i < S ==> #[trigger] self.object_address(pointers@, i) <= usize::MAX,
                forall|j: int|
                    0 <= j < i ==> #[trigger] r@[j] == self.object_address(pointers@, j),
        {
            let placement: MemoryPlacement = self.obj_to_memory_assignment[i];
            assert(self.object_address(pointers@, i as int) <= usize::MAX);
            r[i] = pointers[placement.memory_index] + placement.memory_offset as usize;
        }
        r
    }

    /// What the device frees when this allocation goes, in order.
    pub fn destroy_self(&self) -> (r: Vec<Destroyable>)
        requires
            self.memory_count <= MAX_MEMORY_TYPES,
        ensures
            r@ == memories_to_destroy(self.used_memories()),
    {
        let memories = self.get_memories();
        let mut r: Vec<Destroyable> = Vec::new();
        for i in 0..memories.len()
            invariant
                r@ == memories_to_destroy(memories@).take(i as int),
        {
            r.push(memories[i].destroy_self());
        }
        r
    }
}

/// An entry of `AllocationSuccess::memories` that is not in use.
pub open spec fn unused_memory() -> DetailedMemory {
    DetailedMemory { memory: DeviceMemory::null_spec(), type_index: usize::MAX, size: 0 }
}

/// Those extensions of a device that give its memories a priority.
#[derive(Debug, Clone, Copy, PartialEq, Eq, Structural)]
pub struct MemoryExtensions {
    /// `VK_EXT_memory_priority` is enabled.
    pub memory_priority: bool,
    /// `VK_EXT_pageable_device_local_memory` is loaded.
    pub pageable_device_local_memory: bool,
}

/// A device memory to allocate.
#[derive(Debug, Clone, Copy, PartialEq, Eq)]
pub struct MemoryRequest {
    pub info: MemoryAllocateInfo,
    /// The priority that the request carries.
    pub priority: Option<MemoryPriority>,
}

/// An allocation under way: the memory types of the objects are chosen, and some of the memories
/// are allocated.
#[derive(Debug)]
pub struct AllocationState<const S: usize> {
    /// Memory type of each object.
    pub assigned: [usize; S],
    pub obj_reqs: [MemoryRequirements; S],
    /// The largest allocation that the device makes.
    pub max_memory_allocation_size: u64,
    pub extensions: MemoryExtensions,
    /// The priority that each memory gets where the device takes one.
    pub priority: MemoryPriority,
    /// The memory types to allocate, in order.
    pub memory_types: Vec<usize>,
    /// The memories allocated so far, one for each of the first memory types.
    pub memories: Vec<DeviceMemory>,
    /// How many of the memories had their priority set.
    pub prioritized: usize,
}

/// What the device did.
#[derive(Debug, Clone, Copy)]
pub enum AllocationEvent {
    /// Nothing yet.
    Started,
    /// It made the requested allocation.
    Allocated(DeviceMemory),
    /// It could not make the requested allocation.
    Failed(OutOfMemoryError),
    /// It set the priority of the memory.
    PrioritySet,
}

/// What is to be done next.
#[derive(Debug)]
pub enum AllocationAction<const S: usize> {
    /// Make this allocation.
    Allocate(MemoryRequest),
    /// Set the priority of this memory.
    SetPriority { memory: DeviceMemory, priority: MemoryPriority },
    /// Stop: the next memory would be larger than any allocation that the device makes.
    LimitExceeded,
    /// All memories are allocated.
    Finish(AllocationSuccess<S>),
    /// Free what was allocated and report the error.
    Abandon { destroy: Vec<Destroyable>, error: AllocationError },
}

impl<const S: usize> AllocationState<S> {
    /// The memory of type `t` is not larger than the device allows.
    pub open spec fn fits(self, t: usize) -> bool {
        group_size(self.assigned@, self.obj_reqs@, t) <= self.max_memory_allocation_size
    }

    /// The last memory's priority is yet to be set, which the device can do.
    pub open spec fn priority_due(self) -> bool {
        self.extensions.pageable_device_local_memory && self.prioritized < self.memories@.len()
    }

    /// The memory types to allocate are those of the objects, and all memories so far were within
    /// the limit. Where the device can set priorities, all but the last memory have theirs.
    pub open spec fn wf(self) -> bool {
        &&& reqs_wf(self.obj_reqs@)
        &&& forall|i: int| 0 <= i < S ==> #[trigger] self.assigned@[i] < MAX_MEMORY_TYPES
        &&& self.memory_types@ == first_occurrences(self.assigned@)
        &&& self.memories@.len() <= self.memory_types@.len()
        &&& forall|k: int|
            0 <= k < self.memories@.len() ==> self.fits(#[trigger] self.memory_types@[k])
        &&& if self.extensions.pageable_device_local_memory {
            self.prioritized <= self.memories@.len() <= self.prioritized + 1
        } else {
            self.prioritized == 0
        }
    }

    /// All memories are allocated, and no priority is yet to be set.
    pub open spec fn complete(self) -> bool {
        self.memories@.len() == self.memory_types@.len() && !self.priority_due()
    }

    /// The next memory is one that the device is asked for.
    pub open spec fn pending(self) -> bool {
        &&& !self.priority_due()
        &&& self.memories@.len() < self.memory_types@.len()
        &&& self.fits(self.memory_types@[self.memories@.len() as int])
    }

    /// The event can come in this state.
    pub open spec fn expects(self, event: AllocationEvent) -> bool {
        match event {
            AllocationEvent::Started => self.memories@.len() == 0,
            AllocationEvent::Allocated(_) | AllocationEvent::Failed(_) => self.pending(),
            AllocationEvent::PrioritySet => self.priority_due(),
        }
    }

    /// The state after the event.
    pub open spec fn follows(self, before: AllocationState<S>, event: AllocationEvent) -> bool {
        &&& self.same_plan(before)
        &&& self.memories@ == (match event {
            AllocationEvent::Allocated(memory) => before.memories@.push(memory),
            _ => before.memories@,
        })
        &&& self.prioritized == before.prioritized + (if event is PrioritySet {
            1int
        } else {
            0
        })
    }

    /// Only the memories, and how many had their priority set, may differ.
    pub open spec fn same_plan(self, other: AllocationState<S>) -> bool {
        &&& self.assigned == other.assigned
        &&& self.obj_reqs == other.obj_reqs
        &&& self.max_memory_allocation_size == other.max_memory_allocation_size
        &&& self.extensions == other.extensions
        &&& self.priority == other.priority
        &&& self.memory_types == other.memory_types
    }

    /// `success` holds the allocated memories and places the objects in them.
    pub open spec fn is_result(self, success: AllocationSuccess<S>) -> bool {
        &&& success.memory_count == self.memories@.len()
        &&& forall|k: int|
            0 <= k < MAX_MEMORY_TYPES ==> #[trigger] success.memories@[k] == if k
                < self.memories@.len() {
                DetailedMemory {
                    memory: self.memories@[k],
                    type_index: self.memory_types@[k],
                    size: group_size(self.assigned@, self.obj_reqs@, self.memory_types@[k]) as u64,
                }
            } else {
                unused_memory()
            }
        &&& forall|i: int|
            0 <= i < S ==> self.is_placement(i, #[trigger] success.obj_to_memory_assignment@[i])
    }

    /// `placement` puts object `i` into the memory of its type, behind the objects before it.
    pub open spec fn is_placement(self, i: int, placement: MemoryPlacement) -> bool {
        &&& placement.memory_index < self.memory_types@.len()
        &&& self.memory_types@[placement.memory_index as int] == self.assigned@[i]
        &&& placement.memory_offset == object_offset(self.assigned@, self.obj_reqs@, i)
        &&& placement.object_size == self.obj_reqs@[i].size
    }

    /// `request` asks for the memory of type `t`, and carries the priority exactly where the device
    /// takes it there.
    pub open spec fn is_request(self, t: usize, request: MemoryRequest) -> bool {
        &&& request.info.allocation_size == group_size(self.assigned@, self.obj_reqs@, t)
        &&& request.info.memory_type_index == t
        &&& request.priority == if self.extensions.memory_priority {
            Some(self.priority)
        } else {
            None
        }
    }

    /// `action` is what comes next in this state.
    pub open spec fn calls_for(self, action: AllocationAction<S>) -> bool {
        if self.priority_due() {
            action == AllocationAction::<S>::SetPriority {
                memory: self.memories@[self.prioritized as int],
                priority: self.priority,
            }
        } else if self.memories@.len() == self.memory_types@.len() {
            action matches AllocationAction::Finish(success) && self.is_result(success)
        } else {
            let t = self.memory_types@[self.memories@.len() as int];
            if self.fits(t) {
                action matches AllocationAction::Allocate(request) && self.is_request(t, request)
            } else {
                action is LimitExceeded
            }
        }
    }

    /// Chooses the memory types of the objects. No memory is allocated yet.
    pub fn new<const P: usize>(
        data: UnassignedToMemoryObjectsData<'_, P, S>,
        max_memory_allocation_size: u64,
        extensions: MemoryExtensions,
        priority: MemoryPriority,
    ) -> (r: Result<AllocationState<S>, AllocationError>)
        requires
            1 <= data.mem_types@.len() <= MAX_MEMORY_TYPES,
            reqs_wf(data.obj_reqs@),
        ensures
            r == Err::<AllocationState<S>, _>(
                AllocationError::AssignmentError(MemoryAssignmentError::AllPropertiesUnsupported),
            ) <==> no_set_supported(data.mem_types@, data.mem_props@),
            forall|i: usize|
                r == Err::<AllocationState<S>, _>(
                    AllocationError::AssignmentError(
                        MemoryAssignmentError::ObjectIncompatibleWithAllProperties(i),
                    ),
                ) <==> first_incompatible(
                    data.mem_types@,
                    data.mem_props@,
                    data.obj_reqs@,
                    i as int,
                ),
            r is Ok <==> assignable(data.mem_types@, data.mem_props@, data.obj_reqs@),
            r matches Ok(state) ==> {
                &&& state.wf()
                &&& is_assignment(
                    data.mem_types@,
                    data.mem_props@,
                    data.obj_reqs@,
                    state.assigned@,
                )
                &&& state.obj_reqs == data.obj_reqs
                &&& state.max_memory_allocation_size == max_memory_allocation_size
                &&& state.extensions == extensions
                &&& state.priority == priority
                &&& state.memories@ == Seq::<DeviceMemory>::empty()
                &&& state.prioritized == 0
            },
    {
        let obj_reqs = data.obj_reqs;
        match assign_memory_type_indexes_to_objects_for_allocation(data) {
            Ok((assigned, _type_count)) => {
                let memory_types = distinct_types(&assigned);
                Ok(
                    AllocationState {
                        assigned,
                        obj_reqs,
                        max_memory_allocation_size,
                        extensions,
                        priority,
                        memory_types,
                        memories: Vec::new(),
                        prioritized: 0,
                    },
                )
            },
            Err(error) => Err(AllocationError::AssignmentError(error)),
        }
    }

    /// The finished allocation.
    fn result(&self) -> (r: AllocationSuccess<S>)
        requires
            self.wf(),
            self.memories@.len() == self.memory_types@.len(),
        ensures
            self.is_result(r),
    {
        proof {
            self.lemma_memory_types();
        }
        let mut memories: [DetailedMemory; MAX_MEMORY_TYPES] = [DetailedMemory {
            memory: DeviceMemory::null(),
            type_index: usize::MAX,
            size: 0,
        };MAX_MEMORY_TYPES];
        let mut index_of: [usize; MAX_MEMORY_TYPES] = [0usize; MAX_MEMORY_TYPES];
        for k in 0..self.memory_types.len()
            invariant
                self.wf(),
                self.memories@.len() == self.memory_types@.len(),
                self.memory_types@.len() <= MAX_MEMORY_TYPES,
                self.memory_types@.no_duplicates(),
                forall|j: int|
                    0 <= j < self.memory_types@.len() ==> #[trigger] self.memory_types@[j]
                        < MAX_MEMORY_TYPES,
                forall|j: int|
                    0 <= j < k ==> index_of@[#[trigger] self.memory_types@[j] as int] == j,
                forall|j: int|
                    0 <= j < MAX_MEMORY_TYPES ==> #[trigger] memories@[j] == if j < k {
                        DetailedMemory {
                            memory: self.memories@[j],
                            type_index: self.memory_types@[j],
                            size: group_size(
                                self.assigned@,
                                self.obj_reqs@,
                                self.memory_types@[j],
                            ) as u64,
                        }
                    } else {
                        unused_memory()
                    },
        {
            let t: usize = self.memory_types[k];
            let memory: DeviceMemory = self.memories[k];
            index_of[t] = k;
            proof {
                assert(self.fits(self.memory_types@[k as int]));
            }
            if let Some(size) = group_size_u64(&self.assigned, &self.obj_reqs, t) {
                memories[k] = DetailedMemory { memory, type_index: t, size };
            }
        }
        let mut placements: [MemoryPlacement; S] = [MemoryPlacement {
            memory_index: usize::MAX,
            memory_offset: u64::MAX,
            object_size: 0,
        };S];
        let mut ends: [u64; MAX_MEMORY_TYPES] = [0u64; MAX_MEMORY_TYPES];
        for i in 0..S
            invariant
                self.wf(),
                self.memories@.len() == self.memory_types@.len(),
                self.memory_types@.len() <= MAX_MEMORY_TYPES,
                forall|j: int|
                    0 <= j < self.memory_types@.len()
                        ==> index_of@[#[trigger] self.memory_types@[j] as int] == j,
                forall|t: usize|
                    t < MAX_MEMORY_TYPES ==> #[trigger] ends@[t as int] == group_end(
                        self.assigned@,
                        self.obj_reqs@,
                        t,
                        i as int,
                    ),
                forall|j: int| 0 <= j < i ==> self.is_placement(j, #[trigger] placements@[j]),
        {
            let t: usize = self.assigned[i];
            let ghost k = self.lemma_type_listed(i as int);
            proof {
                assert(self.fits(self.memory_types@[k]));
                lemma_alignment_positive(self.obj_reqs@[i as int]);
                lemma_group_end_monotonic(self.assigned@, self.obj_reqs@, t, i + 1, S as int);
                assert(group_end(self.assigned@, self.obj_reqs@, t, i + 1)
                    <= self.max_memory_allocation_size);
                assert(ends@[t as int] == group_end(self.assigned@, self.obj_reqs@, t, i as int));
            }
            if let Some(offset) = round_up_u64(ends[t], self.obj_reqs[i].alignment) {
                ends[t] = offset + self.obj_reqs[i].size;
                placements[i] = MemoryPlacement {
                    memory_index: index_of[t],
                    memory_offset: offset,
                    object_size: self.obj_reqs[i].size,
                };
            }
        }
        AllocationSuccess {
            memories,
            memory_count: self.memory_types.len(),
            obj_to_memory_assignment: placements,
        }
    }

    /// What comes next.
    fn next_action(&self) -> (action: AllocationAction<S>)
        requires
            self.wf(),
        ensures
            self.calls_for(action),
    {
        proof {
            self.lemma_memory_types();
        }
        if self.extensions.pageable_device_local_memory && self.prioritized < self.memories.len() {
            return AllocationAction::SetPriority {
                memory: self.memories[self.prioritized],
                priority: self.priority,
            };
        }
        if self.memories.len() == self.memory_types.len() {
            return AllocationAction::Finish(self.result());
        }
        let t: usize = self.memory_types[self.memories.len()];
        match group_size_u64(&self.assigned, &self.obj_reqs, t) {
            Some(size) if size <= self.max_memory_allocation_size => {
                AllocationAction::Allocate(
                    MemoryRequest {
                        info: MemoryAllocateInfo {
                            allocation_size: size,
                            memory_type_index: t as u32,
                        },
                        priority: if self.extensions.memory_priority {
                            Some(self.priority)
                        } else {
                            None
                        },
                    },
                )
            },
            _ => AllocationAction::LimitExceeded,
        }
    }

    /// The memory types to allocate are distinct, exist, and are those of the objects.
    proof fn lemma_memory_types(self)
        requires
            self.wf(),
        ensures
            self.memory_types@.no_duplicates(),
            self.memory_types@.len() == self.assigned@.to_set().len(),
            self.memory_types@.len() <= MAX_MEMORY_TYPES,
            forall|j: int|
                0 <= j < self.memory_types@.len() ==> #[trigger] self.memory_types@[j]
                    < MAX_MEMORY_TYPES,
    {
        lemma_first_occurrences(self.assigned@);
        assert forall|j: int| 0 <= j < self.memory_types@.len() implies
            #[trigger] self.memory_types@[j] < MAX_MEMORY_TYPES by {
            assert(self.memory_types@.to_set().contains(self.memory_types@[j]));
            assert(self.assigned@.contains(self.memory_types@[j]));
        }
        lemma_distinct_below(self.memory_types@, MAX_MEMORY_TYPES);
    }

    /// Object `i`'s memory type is one of those to allocate.
    proof fn lemma_type_listed(self, i: int) -> (k: int)
        requires
            self.wf(),
            0 <= i < S,
        ensures
            0 <= k < self.memory_types@.len(),
            self.memory_types@[k] == self.assigned@[i],
    {
        lemma_first_occurrences(self.assigned@);
        assert(self.assigned@.to_set().contains(self.assigned@[i]));
        assert(self.memory_types@.contains(self.assigned@[i]));
        choose|k: int|
            0 <= k < self.memory_types@.len() && self.memory_types@[k] == self.assigned@[i]
    }
}

/// At most `bound` distinct numbers lie below `bound`.
proof fn lemma_distinct_below(s: Seq<usize>, bound: usize)
    requires
        s.no_duplicates(),
        forall|i: int| 0 <= i < s.len() ==> #[trigger] s[i] < bound,
    ensures
        s.len() <= bound,
{
    let ints = s.map_values(|x: usize| x as int);
    assert(ints.no_duplicates());
    ints.unique_seq_to_set();
    vstd::set_lib::lemma_int_range(0, bound as int);
    assert(ints.to_set().subset_of(vstd::set_lib::set_int_range(0, bound as int)));
    vstd::set_lib::lemma_len_subset(
        ints.to_set(),
        vstd::set_lib::set_int_range(0, bound as int),
    );
}

/// Allocates the memories of a set of objects, one step at a time: takes in what the device did
/// and says what is to be done next.
pub fn allocate_memory<const S: usize>(
    state: AllocationState<S>,
    event: AllocationEvent,
) -> (r: (AllocationState<S>, AllocationAction<S>))
    requires
        state.wf(),
        state.expects(event),
    ensures
        r.0.wf(),
        r.0.follows(state, event),
        match event {
            AllocationEvent::Failed(error) => {
                &&& r.0 == state
                &&& r.1 matches AllocationAction::Abandon { destroy, error: reported }
                &&& destroy@ == handles_to_destroy(state.memories@)
                &&& reported == AllocationError::OutOfMemoryError(error)
            },
            _ => r.0.calls_for(r.1),
        },
{
    let mut state = state;
    match event {
        AllocationEvent::Started => {},
        AllocationEvent::Allocated(memory) => {
            state.memories.push(memory);
        },
        AllocationEvent::PrioritySet => {
            state.prioritized = state.prioritized + 1;
        },
        AllocationEvent::Failed(error) => {
            let ghost frees = handles_to_destroy(state.memories@);
            let mut destroy: Vec<Destroyable> = Vec::new();
            for i in 0..state.memories.len()
                invariant
                    frees == handles_to_destroy(state.memories@),
                    destroy@ == frees.take(i as int),
            {
                destroy.push(Destroyable::Memory(state.memories[i]));
            }
            return (
                state,
                AllocationAction::Abandon {
                    destroy,
                    error: AllocationError::OutOfMemoryError(error),
                },
            );
        },
    }
    let action = state.next_action();
    (state, action)
}

/// A finished allocation has one memory for each memory type among the objects: their number is
/// that of the different memory types, no two have the same type, none is larger than the device
/// allows, and none is without an object.
pub proof fn law_one_memory_per_type<const S: usize>(
    state: AllocationState<S>,
    success: AllocationSuccess<S>,
)
    requires
        state.wf(),
        state.memories@.len() == state.memory_types@.len(),
        state.is_result(success),
    ensures
        success.wf(),
        success.memory_count == state.assigned@.to_set().len(),
        forall|k: int, l: int|
            0 <= k < l < success.memory_count ==> (#[trigger] success.memories@[k]).type_index != (
            #[trigger] success.memories@[l]).type_index,
        forall|k: int|
            0 <= k < success.memory_count ==> (#[trigger] success.memories@[k]).size
                <= state.max_memory_allocation_size,
        forall|k: int| 0 <= k < success.memory_count ==> #[trigger] success.holds_object(k),
{
    state.lemma_memory_types();
    lemma_first_occurrences(state.assigned@);
    assert forall|k: int, l: int| 0 <= k < l < success.memory_count implies (
    #[trigger] success.memories@[k]).type_index != (
    #[trigger] success.memories@[l]).type_index by {
        assert(state.memory_types@[k] != state.memory_types@[l]);
    }
    assert forall|k: int| 0 <= k < success.memory_count implies (
    #[trigger] success.memories@[k]).size <= state.max_memory_allocation_size by {
        let t = state.memory_types@[k];
        assert(state.fits(t));
        lemma_group_end_monotonic(state.assigned@, state.obj_reqs@, t, 0, S as int);
    }
    assert forall|k: int| 0 <= k < success.memory_count implies #[trigger] success.holds_object(
        k,
    ) by {
        let t = state.memory_types@[k];
        assert(state.memory_types@.to_set().contains(t));
        assert(state.assigned@.contains(t));
        let i = choose|i: int| 0 <= i < S && state.assigned@[i] == t;
        let placement = success.obj_to_memory_assignment@[i];
        assert(state.is_placement(i, placement));
        assert(state.memory_types@[placement.memory_index as int] == state.memory_types@[k]);
    }
}

/// The memory that a request brought is the one that the finished allocation lists for it: of the
/// requested size and memory type, and with the handle that the device gave. The request carried
/// the priority exactly where the device takes it there.
pub proof fn law_request_becomes_memory<const S: usize>(
    state: AllocationState<S>,
    request: MemoryRequest,
    memory: DeviceMemory,
    done: AllocationState<S>,
    success: AllocationSuccess<S>,
)
    requires
        state.wf(),
        state.calls_for(AllocationAction::Allocate(request)),
        done.wf(),
        done.same_plan(state),
        done.complete(),
        done.memories@[state.memories@.len() as int] == memory,
        done.is_result(success),
    ensures
        ({
            let k = state.memories@.len() as int;
            &&& k < success.memory_count
            &&& success.memories@[k].memory == memory
            &&& success.memories@[k].size == request.info.allocation_size
            &&& success.memories@[k].type_index == request.info.memory_type_index
            &&& request.priority == if done.extensions.memory_priority {
                Some(done.priority)
            } else {
                None
            }
        }),
{
    done.lemma_memory_types();
    let k = state.memories@.len() as int;
    assert(done.memory_types@[k] < MAX_MEMORY_TYPES);
    assert(success.memories@[k].memory == done.memories@[k]);
}

/// An allocation goes through `states`: it begins without memories, and each state comes out of
/// the one before it by one of the `events`.
pub open spec fn is_run<const S: usize>(
    states: Seq<AllocationState<S>>,
    events: Seq<AllocationEvent>,
) -> bool {
    &&& states.len() == events.len() + 1
    &&& states[0].memories@.len() == 0
    &&& forall|n: int| 0 <= n < states.len() ==> (#[trigger] states[n]).wf()
    &&& forall|n: int|
        0 <= n < events.len() ==> states[n].expects(#[trigger] events[n]) && states[n + 1].follows(
            states[n],
            events[n],
        )
}

/// The memories that the device allocated, in order.
pub open spec fn allocated_by(events: Seq<AllocationEvent>) -> Seq<DeviceMemory>
    decreases events.len(),
{
    if events.len() == 0 {
        seq![]
    } else {
        match events.last() {
            AllocationEvent::Allocated(memory) => allocated_by(events.drop_last()).push(memory),
            _ => allocated_by(events.drop_last()),
        }
    }
}

/// The memories whose priority the device set, in order. Each time it is the one that the state
/// called for.
pub open spec fn prioritized_by<const S: usize>(
    states: Seq<AllocationState<S>>,
    events: Seq<AllocationEvent>,
) -> Seq<DeviceMemory>
    decreases events.len(),
{
    if events.len() == 0 {
        seq![]
    } else {
        let before = prioritized_by(states.drop_last(), events.drop_last());
        if events.last() is PrioritySet {
            let state = states[events.len() - 1];
            before.push(state.memories@[state.prioritized as int])
        } else {
            before
        }
    }
}

proof fn lemma_run<const S: usize>(states: Seq<AllocationState<S>>, events: Seq<AllocationEvent>)
    requires
        is_run(states, events),
    ensures
        states.last().same_plan(states[0]),
        states.last().memories@ == allocated_by(events),
        states.last().memories@.take(states.last().prioritized as int) == prioritized_by(
            states,
            events,
        ),
    decreases events.len(),
{
    if events.len() > 0 {
        let n = events.len() - 1;
        let (init_states, init_events) = (states.drop_last(), events.drop_last());
        assert(is_run(init_states, init_events)) by {
            assert forall|m: int| 0 <= m < init_events.len() implies init_states[m].expects(
                #[trigger] init_events[m],
            ) && init_states[m + 1].follows(init_states[m], init_events[m]) by {
                assert(init_events[m] == events[m]);
            }
        }
        lemma_run(init_states, init_events);
        let (before, after) = (states[n], states.last());
        assert(init_states.last() == before);
        assert(before.expects(events[n]) && after.follows(before, events[n]));
        assert(before.wf());
        if events[n] is PrioritySet {
            assert(after.memories@.take(after.prioritized as int) =~= before.memories@.take(
                before.prioritized as int,
            ).push(before.memories@[before.prioritized as int]));
        } else {
            assert(after.memories@.take(after.prioritized as int) =~= before.memories@.take(
                before.prioritized as int,
            ));
        }
    } else {
        assert(states.last() == states[0]);
        assert(states[0].memories@ =~= Seq::<DeviceMemory>::empty());
        assert(states[0].wf());
        assert(states[0].memories@.take(states[0].prioritized as int) =~= Seq::<
            DeviceMemory,
        >::empty());
    }
}

/// In an allocation from start to finish the device allocates exactly the memories that the result
/// lists, one after the other. Where it can set priorities it does so once for each of them, in
/// the same order, whether or not the requests carried the priority; where it cannot, never.
pub proof fn law_each_memory_gets_its_priority_once<const S: usize>(
    states: Seq<AllocationState<S>>,
    events: Seq<AllocationEvent>,
    success: AllocationSuccess<S>,
)
    requires
        is_run(states, events),
        states.last().complete(),
        states.last().is_result(success),
    ensures
        allocated_by(events) == memory_handles(success.used_memories()),
        prioritized_by(states, events) == if states[0].extensions.pageable_device_local_memory {
            allocated_by(events)
        } else {
            seq![]
        },
{
    lemma_run(states, events);
    let done = states.last();
    assert(done.wf());
    done.lemma_memory_types();
    assert(done.memories@ =~= memory_handles(success.used_memories()));
    assert(done.memories@.take(done.memories@.len() as int) =~= done.memories@);
    assert(done.memories@.take(0) =~= Seq::<DeviceMemory>::empty());
}

/// An allocation is finished exactly when there is a memory for each of the objects' different
/// memory types, and none is still to get its priority.
pub proof fn law_finished_with_last_memory_type<const S: usize>(
    state: AllocationState<S>,
    action: AllocationAction<S>,
)
    requires
        state.wf(),
        state.calls_for(action),
    ensures
        action is Finish <==> state.memories@.len() == state.assigned@.to_set().len()
            && !state.priority_due(),
{
    state.lemma_memory_types();
}

/// In a finished allocation an object lies, aligned, inside a memory of its memory type.
pub proof fn law_object_placed_in_its_memory<const S: usize>(
    state: AllocationState<S>,
    success: AllocationSuccess<S>,
    i: int,
)
    requires
        state.wf(),
        state.memories@.len() == state.memory_types@.len(),
        state.is_result(success),
        0 <= i < S,
    ensures
        ({
            let placement = success.obj_to_memory_assignment@[i];
            let memory = success.memories@[placement.memory_index as int];
            &&& placement.memory_index < success.memory_count
            &&& memory.type_index == state.assigned@[i]
            &&& placement.memory_offset as int % state.obj_reqs@[i].alignment as int == 0
            &&& placement.object_size == state.obj_reqs@[i].size
            &&& placement.memory_offset + placement.object_size <= memory.size
        }),
{
    let placement = success.obj_to_memory_assignment@[i];
    assert(state.is_placement(i, placement));
    state.lemma_memory_types();
    let k = placement.memory_index as int;
    assert(state.fits(state.memory_types@[k]));
    law_object_is_aligned(state.assigned@, state.obj_reqs@, i);
    law_object_lies_in_memory(state.assigned@, state.obj_reqs@, i);
    let memory = success.memories@[k];
    assert(memory.size == group_size(state.assigned@, state.obj_reqs@, state.assigned@[i]));
}

/// An object whose alignment and size are multiples of the device's atom is placed at a multiple
/// of it.
pub proof fn law_placement_keeps_atom_multiples<const S: usize>(
    state: AllocationState<S>,
    success: AllocationSuccess<S>,
    i: int,
    atom: int,
)
    requires
        state.wf(),
        state.memories@.len() == state.memory_types@.len(),
        state.is_result(success),
        0 <= i < S,
        atom > 0,
        state.obj_reqs@[i].alignment as int % atom == 0,
        state.obj_reqs@[i].size as int % atom == 0,
    ensures
        success.obj_to_memory_assignment@[i].atom_aligned(atom),
{
    law_object_placed_in_its_memory(state, success, i);
    lemma_alignment_positive(state.obj_reqs@[i]);
    let offset = success.obj_to_memory_assignment@[i].memory_offset as int;
    let alignment = state.obj_reqs@[i].alignment as int;
    vstd::arithmetic::div_mod::lemma_fundamental_div_mod(offset, alignment);
    vstd::arithmetic::div_mod::lemma_fundamental_div_mod(alignment, atom);
    let (q, r) = (offset / alignment, alignment / atom);
    assert(offset == (r * q) * atom) by (nonlinear_arith)
        requires
            offset == alignment * q,
            alignment == atom * r,
    ;
    vstd::arithmetic::div_mod::lemma_mod_multiples_basic(r * q, atom);
}

/// In a finished allocation two objects in one memory do not overlap.
pub proof fn law_placed_objects_do_not_overlap<const S: usize>(
    state: AllocationState<S>,
    success: AllocationSuccess<S>,
    i: int,
    j: int,
)
    requires
        state.wf(),
        state.is_result(success),
        0 <= i < j < S,
        success.obj_to_memory_assignment@[i].memory_index
            == success.obj_to_memory_assignment@[j].memory_index,
    ensures
        success.obj_to_memory_assignment@[i].memory_offset
            + success.obj_to_memory_assignment@[i].object_size
            <= success.obj_to_memory_assignment@[j].memory_offset,
{
    assert(state.is_placement(i, success.obj_to_memory_assignment@[i]));
    assert(state.is_placement(j, success.obj_to_memory_assignment@[j]));
    law_objects_do_not_overlap(state.assigned@, state.obj_reqs@, i, j);
}

/// In the host's address space, too, two objects in one memory of a finished allocation do not
/// overlap.
pub proof fn law_object_addresses_do_not_overlap<const S: usize>(
    state: AllocationState<S>,
    success: AllocationSuccess<S>,
    pointers: Seq<usize>,
    i: int,
    j: int,
)
    requires
        state.wf(),
        state.memories@.len() == state.memory_types@.len(),
        state.is_result(success),
        0 <= i < j < S,
        success.obj_to_memory_assignment@[i].memory_index
            == success.obj_to_memory_assignment@[j].memory_index,
    ensures
        success.object_address(pointers, i) + state.obj_reqs@[i].size <= success.object_address(
            pointers,
            j,
        ),
{
    law_object_placed_in_its_memory(state, success, i);
    law_placed_objects_do_not_overlap(state, success, i, j);
}

/// In a finished allocation the memory that an object lies in is of a type that may hold the
/// object and that has every property of the earliest set under which the object has a usable
/// type.
pub proof fn law_object_memory_has_properties<const S: usize>(
    types: Seq<MemoryType>,
    props: Seq<MemoryPropertyFlags>,
    state: AllocationState<S>,
    success: AllocationSuccess<S>,
    i: int,
)
    requires
        state.wf(),
        is_assignment(types, props, state.obj_reqs@, state.assigned@),
        state.memories@.len() == state.memory_types@.len(),
        state.is_result(success),
        0 <= i < S,
    ensures
        ({
            let placement = success.obj_to_memory_assignment@[i];
            let t = success.memories@[placement.memory_index as int].type_index as int;
            &&& 0 <= t < types.len()
            &&& state.obj_reqs@[i].allows(t)
            &&& exists|p: int| #[trigger]
                earliest_set(types, props, state.obj_reqs@[i], p)
                    && types[t].property_flags.includes(props[p])
        }),
{
    law_object_placed_in_its_memory(state, success, i);
    assert(assigned_type(types, props, state.obj_reqs@, i, state.assigned@[i] as int));
    law_assigned_type_serves_object(
        types,
        props,
        state.obj_reqs@,
        i,
        state.assigned@[i] as int,
    );
}

/// The memories in use are the first ones, and each is freed by its handle: none is left out, and
/// no other is freed.
pub proof fn law_used_memories_are_freed_by_handle<const S: usize>(
    allocation: AllocationSuccess<S>,
)
    requires
        allocation.memory_count <= 32,
    ensures
        allocation.used_memories().len() == allocation.memory_count,
        memory_handles(allocation.used_memories()).len() == allocation.memory_count,
        memories_to_destroy(allocation.used_memories()).len() == allocation.memory_count,
        forall|k: int|
            0 <= k < allocation.memory_count ==> #[trigger] allocation.used_memories()[k]
                == allocation.memories@[k],
        forall|k: int|
            0 <= k < allocation.memory_count ==> #[trigger] memory_handles(
                allocation.used_memories(),
            )[k] == allocation.memories@[k].memory,
        forall|k: int|
            0 <= k < allocation.memory_count ==> #[trigger] memories_to_destroy(
                allocation.used_memories(),
            )[k] == Destroyable::Memory(allocation.memories@[k].memory),
{
}

/// Memories are freed by their handles, each once and in order.
pub proof fn law_each_handle_is_freed(handles: Seq<DeviceMemory>)
    ensures
        handles_to_destroy(handles).len() == handles.len(),
        forall|k: int|
            0 <= k < handles.len() ==> #[trigger] handles_to_destroy(handles)[k]
                == Destroyable::Memory(handles[k]),
{
}

/// An object's address is that of its memory plus its offset in it.
pub proof fn law_object_address_is_memory_plus_offset<const S: usize>(
    allocation: AllocationSuccess<S>,
    pointers: Seq<usize>,
    i: int,
)
    requires
        0 <= i < S,
    ensures
        allocation.object_address(pointers, i)
            == pointers[allocation.obj_to_memory_assignment@[i].memory_index as int]
            + allocation.obj_to_memory_assignment@[i].memory_offset,
{
}

/// Entries behind the memories of a finished allocation hold no memory.
pub proof fn law_other_entries_hold_no_memory<const S: usize>(
    state: AllocationState<S>,
    success: AllocationSuccess<S>,
    k: int,
)
    requires
        state.wf(),
        state.is_result(success),
        success.memory_count <= k < 32,
    ensures
        success.memories@[k].memory.raw == 0,
        success.memories@[k].type_index == usize::MAX,
        success.memories@[k].size == 0,
{
}

/// Two objects of a finished allocation lie in one memory exactly where they have one memory type.
proof fn lemma_same_memory_same_type<const S: usize>(
    state: AllocationState<S>,
    success: AllocationSuccess<S>,
    i: int,
    k: int,
)
    requires
        state.wf(),
        state.memories@.len() == state.memory_types@.len(),
        state.is_result(success),
        0 <= i < S,
        0 <= k < S,
    ensures
        success.obj_to_memory_assignment@[i].memory_index
            == success.obj_to_memory_assignment@[k].memory_index <==> state.assigned@[i]
            == state.assigned@[k],
{
    state.lemma_memory_types();
    assert(state.is_placement(i, success.obj_to_memory_assignment@[i]));
    assert(state.is_placement(k, success.obj_to_memory_assignment@[k]));
}

/// Packing is tight: the first object of a memory lies at its beginning.
pub proof fn law_first_object_begins_its_memory<const S: usize>(
    state: AllocationState<S>,
    success: AllocationSuccess<S>,
    i: int,
)
    requires
        state.wf(),
        state.memories@.len() == state.memory_types@.len(),
        state.is_result(success),
        0 <= i < S,
        forall|k: int|
            0 <= k < i ==> (#[trigger] success.obj_to_memory_assignment@[k]).memory_index
                != success.obj_to_memory_assignment@[i].memory_index,
    ensures
        success.obj_to_memory_assignment@[i].memory_offset == 0,
{
    let (assigned, reqs) = (state.assigned@, state.obj_reqs@);
    assert(state.is_placement(i, success.obj_to_memory_assignment@[i]));
    assert forall|k: int| 0 <= k < i implies #[trigger] assigned[k] != assigned[i] by {
        assert(success.obj_to_memory_assignment@[k].memory_index
            != success.obj_to_memory_assignment@[i].memory_index);
        lemma_same_memory_same_type(state, success, i, k);
    }
    lemma_group_end_unchanged(assigned, reqs, assigned[i], 0, i);
    lemma_alignment_positive(reqs[i]);
    law_round_up_is_least_multiple(0, reqs[i].alignment as int);
    vstd::arithmetic::div_mod::lemma_small_mod(0, reqs[i].alignment as nat);
}

/// Packing is tight: an object begins at or behind the end of the object before it in its memory,
/// and behind it by less than its own alignment.
pub proof fn law_next_object_follows_at_once<const S: usize>(
    state: AllocationState<S>,
    success: AllocationSuccess<S>,
    j: int,
    i: int,
)
    requires
        state.wf(),
        state.memories@.len() == state.memory_types@.len(),
        state.is_result(success),
        0 <= j < i < S,
        success.obj_to_memory_assignment@[j].memory_index
            == success.obj_to_memory_assignment@[i].memory_index,
        forall|k: int|
            j < k < i ==> (#[trigger] success.obj_to_memory_assignment@[k]).memory_index
                != success.obj_to_memory_assignment@[i].memory_index,
    ensures
        ({
            let (before, object) = (
                success.obj_to_memory_assignment@[j],
                success.obj_to_memory_assignment@[i],
            );
            let end = before.memory_offset + before.object_size;
            &&& before.object_size == state.obj_reqs@[j].size
            &&& end <= object.memory_offset < end + state.obj_reqs@[i].alignment
            &&& object.memory_offset as int % state.obj_reqs@[i].alignment as int == 0
        }),
{
    let (assigned, reqs) = (state.assigned@, state.obj_reqs@);
    let t = assigned[i];
    assert(state.is_placement(j, success.obj_to_memory_assignment@[j]));
    assert(state.is_placement(i, success.obj_to_memory_assignment@[i]));
    lemma_same_memory_same_type(state, success, i, j);
    assert forall|k: int| j + 1 <= k < i implies #[trigger] assigned[k] != t by {
        assert(success.obj_to_memory_assignment@[k].memory_index
            != success.obj_to_memory_assignment@[i].memory_index);
        lemma_same_memory_same_type(state, success, i, k);
    }
    lemma_group_end_unchanged(assigned, reqs, t, j + 1, i);
    assert(group_end(assigned, reqs, t, j + 1) == object_offset(assigned, reqs, j) + reqs[j].size);
    lemma_alignment_positive(reqs[i]);
    law_round_up_is_least_multiple(group_end(assigned, reqs, t, i), reqs[i].alignment as int);
}

/// Packing is tight: a memory ends with its last object.
pub proof fn law_memory_ends_with_its_last_object<const S: usize>(
    state: AllocationState<S>,
    success: AllocationSuccess<S>,
    i: int,
)
    requires
        state.wf(),
        state.memories@.len() == state.memory_types@.len(),
        state.is_result(success),
        0 <= i < S,
        forall|k: int|
            i < k < S ==> (#[trigger] success.obj_to_memory_assignment@[k]).memory_index
                != success.obj_to_memory_assignment@[i].memory_index,
    ensures
        success.memories@[success.obj_to_memory_assignment@[i].memory_index as int].size
            == success.obj_to_memory_assignment@[i].memory_offset
            + success.obj_to_memory_assignment@[i].object_size,
{
    let (assigned, reqs) = (state.assigned@, state.obj_reqs@);
    let t = assigned[i];
    let place = success.obj_to_memory_assignment@[i];
    assert(state.is_placement(i, place));
    assert forall|k: int| i + 1 <= k < S implies #[trigger] assigned[k] != t by {
        assert(success.obj_to_memory_assignment@[k].memory_index != place.memory_index);
        lemma_same_memory_same_type(state, success, i, k);
    }
    lemma_group_end_unchanged(assigned, reqs, t, i + 1, S as int);
    assert(group_end(assigned, reqs, t, i + 1) == object_offset(assigned, reqs, i) + reqs[i].size);
    state.lemma_memory_types();
    assert(state.fits(state.memory_types@[place.memory_index as int]));
    assert(success.memories@[place.memory_index as int].size == group_size(assigned, reqs, t));
}

/// The memories come in the order of the objects that are first placed in them: before an object
/// stands one in each memory before its own.
pub proof fn law_memories_come_in_order_of_first_objects<const S: usize>(
    state: AllocationState<S>,
    success: AllocationSuccess<S>,
    i: int,
    l: int,
)
    requires
        state.wf(),
        state.memories@.len() == state.memory_types@.len(),
        state.is_result(success),
        0 <= i < S,
        0 <= l < success.obj_to_memory_assignment@[i].memory_index,
    ensures
        exists|j: int|
            0 <= j < i && (#[trigger] success.obj_to_memory_assignment@[j]).memory_index == l,
{
    let places = success.obj_to_memory_assignment@;
    state.lemma_memory_types();
    let k = law_types_come_in_order_of_first_objects(state.assigned@, i);
    assert(state.is_placement(i, places[i]));
    assert(k == places[i].memory_index);
    assert(state.assigned@.take(i).contains(state.memory_types@[l]));
    let j = choose|j: int|
        0 <= j < i && state.assigned@.take(i)[j] == state.memory_types@[l];
    assert(state.is_placement(j, places[j]));
    assert(places[j].memory_index == l);
}

/// A memory is requested with the size to which its objects pack tightly, and exactly where that
/// is not more than the device allows; where it is, allocating stops.
pub proof fn law_request_is_for_the_tight_packing<const S: usize>(
    state: AllocationState<S>,
    action: AllocationAction<S>,
    offsets: Seq<int>,
    size: int,
)
    requires
        state.wf(),
        state.calls_for(action),
        action is Allocate || action is LimitExceeded,
        packed_tightly(
            state.assigned@,
            state.obj_reqs@,
            state.memory_types@[state.memories@.len() as int],
            offsets,
            size,
        ),
    ensures
        state.memories@.len() < state.memory_types@.len(),
        action is LimitExceeded <==> size > state.max_memory_allocation_size,
        action matches AllocationAction::Allocate(request) ==> {
            &&& request.info.allocation_size == size
            &&& request.info.memory_type_index
                == state.memory_types@[state.memories@.len() as int]
        },
{
    law_layout_is_the_tight_packing(
        state.assigned@,
        state.obj_reqs@,
        state.memory_types@[state.memories@.len() as int],
        offsets,
        size,
    );
}

/// An allocation runs from its start, without a failure: event `n` takes it from state `n` to the
/// next, and action `n` is what is then to be done.
pub open spec fn is_action_run<const S: usize>(
    states: Seq<AllocationState<S>>,
    events: Seq<AllocationEvent>,
    actions: Seq<AllocationAction<S>>,
) -> bool {
    &&& is_run(states, events)
    &&& actions.len() == events.len()
    &&& events.len() > 0
    &&& events[0] is Started
    &&& forall|n: int| 0 < n < events.len() ==> (#[trigger] events[n]) !is Started
    &&& forall|n: int| 0 <= n < events.len() ==> (#[trigger] events[n]) !is Failed
    &&& forall|n: int|
        0 <= n < actions.len() ==> states[n + 1].calls_for(#[trigger] actions[n])
}

/// The memories asked for, in order.
pub open spec fn requests_in<const S: usize>(actions: Seq<AllocationAction<S>>) -> Seq<
    MemoryRequest,
>
    decreases actions.len(),
{
    if actions.len() == 0 {
        seq![]
    } else {
        match actions.last() {
            AllocationAction::Allocate(request) => requests_in(actions.drop_last()).push(request),
            _ => requests_in(actions.drop_last()),
        }
    }
}

/// The priorities to set, each with its memory, in order.
pub open spec fn priorities_in<const S: usize>(actions: Seq<AllocationAction<S>>) -> Seq<
    (DeviceMemory, MemoryPriority),
>
    decreases actions.len(),
{
    if actions.len() == 0 {
        seq![]
    } else {
        match actions.last() {
            AllocationAction::SetPriority { memory, priority } => priorities_in(
                actions.drop_last(),
            ).push((memory, priority)),
            _ => priorities_in(actions.drop_last()),
        }
    }
}

/// `requests` and `priorities` are what is asked of the device up to `state`, what it calls for
/// included.
pub(crate) open spec fn asked_for<const S: usize>(
    state: AllocationState<S>,
    requests: Seq<MemoryRequest>,
    priorities: Seq<(DeviceMemory, MemoryPriority)>,
) -> bool {
    &&& requests.len() == state.memories@.len() + if state.pending() {
        1int
    } else {
        0
    }
    &&& priorities.len() == state.prioritized + if state.priority_due() {
        1int
    } else {
        0
    }
    &&& forall|k: int|
        0 <= k < requests.len() ==> state.is_request(
            state.memory_types@[k],
            #[trigger] requests[k],
        )
    &&& forall|k: int|
        0 <= k < priorities.len() ==> #[trigger] priorities[k] == (
            state.memories@[k],
            state.priority,
        )
}

proof fn lemma_action_run<const S: usize>(
    states: Seq<AllocationState<S>>,
    events: Seq<AllocationEvent>,
    actions: Seq<AllocationAction<S>>,
)
    requires
        is_action_run(states, events, actions),
    ensures
        asked_for(states.last(), requests_in(actions), priorities_in(actions)),
    decreases actions.len(),
{
    let n = events.len() - 1;
    let (before, after) = (states[n], states[n + 1]);
    assert(states.last() == after);
    assert(before.wf() && after.wf());
    assert(before.expects(events[n]) && after.follows(before, events[n]));
    assert(after.calls_for(actions[n]));
    let init = actions.drop_last();
    if n > 0 {
        let (init_states, init_events) = (states.drop_last(), events.drop_last());
        assert(is_action_run(init_states, init_events, init)) by {
            assert forall|m: int| 0 <= m < init_events.len() implies init_states[m].expects(
                #[trigger] init_events[m],
            ) && init_states[m + 1].follows(init_states[m], init_events[m]) by {
                assert(init_events[m] == events[m]);
            }
            assert forall|m: int| 0 < m < init_events.len() implies (
            #[trigger] init_events[m]) !is Started by {
                assert(init_events[m] == events[m]);
            }
            assert forall|m: int| 0 <= m < init_events.len() implies (
            #[trigger] init_events[m]) !is Failed by {
                assert(init_events[m] == events[m]);
            }
            assert forall|m: int| 0 <= m < init.len() implies init_states[m + 1].calls_for(
                #[trigger] init[m],
            ) by {
                assert(init[m] == actions[m]);
            }
        }
        lemma_action_run(init_states, init_events, init);
        assert(init_states.last() == before);
        assert(init.last() == actions[n - 1]);
        assert(before.calls_for(actions[n - 1]));
        assert(events[n] !is Started && events[n] !is Failed);
    } else {
        assert(init =~= Seq::<AllocationAction<S>>::empty());
        assert(requests_in(init).len() == 0);
        assert(priorities_in(init).len() == 0);
    }
}

/// In an allocation from start to finish the objects are placed tightly, and the device is asked
/// for exactly the memories that the result lists: as often, in order, with their sizes and memory
/// types, and with the priority exactly where it takes one. It is asked to set the priority of each
/// of them once, in order, where it can, and of none where it cannot.
pub proof fn law_finished_run_asked_for_what_the_result_lists<const S: usize>(
    states: Seq<AllocationState<S>>,
    events: Seq<AllocationEvent>,
    actions: Seq<AllocationAction<S>>,
    success: AllocationSuccess<S>,
)
    requires
        is_action_run(states, events, actions),
        actions.last() == AllocationAction::<S>::Finish(success),
    ensures
        ({
            let start = states[0];
            let requests = requests_in(actions);
            let priorities = priorities_in(actions);
            &&& tightly_placed(start.assigned@, start.obj_reqs@, success)
            &&& requests.len() == success.memory_count
            &&& success.memory_count == start.assigned@.to_set().len()
            &&& forall|k: int|
                0 <= k < success.memory_count ==> {
                    let memory = success.memories@[k];
                    &&& (#[trigger] requests[k]).info.allocation_size == memory.size
                    &&& requests[k].info.memory_type_index == memory.type_index
                    &&& requests[k].priority == if start.extensions.memory_priority {
                        Some(start.priority)
                    } else {
                        None
                    }
                    &&& memory.memory == allocated_by(events)[k]
                }
            &&& priorities.len() == if start.extensions.pageable_device_local_memory {
                success.memory_count as int
            } else {
                0
            }
            &&& forall|k: int|
                0 <= k < priorities.len() ==> #[trigger] priorities[k] == (
                    success.memories@[k].memory,
                    start.priority,
                )
        }),
{
    lemma_action_run(states, events, actions);
    lemma_run(states, events);
    let done = states.last();
    let n = actions.len() - 1;
    assert(states[n + 1] == done);
    assert(done.calls_for(actions[n]));
    assert(done.wf());
    assert(done.is_result(success));
    done.lemma_memory_types();
    law_one_memory_per_type(done, success);
    law_finished_allocation_is_tightly_placed(done, success);
    let requests = requests_in(actions);
    assert forall|k: int| 0 <= k < success.memory_count implies {
        let memory = success.memories@[k];
        &&& (#[trigger] requests[k]).info.allocation_size == memory.size
        &&& requests[k].info.memory_type_index == memory.type_index
        &&& requests[k].priority == if states[0].extensions.memory_priority {
            Some(states[0].priority)
        } else {
            None
        }
        &&& memory.memory == allocated_by(events)[k]
    } by {
        assert(done.is_request(done.memory_types@[k], requests[k]));
        assert(success.memories@[k].memory == done.memories@[k]);
    }
}

/// Objects `i` and `j` lie in one memory.
pub open spec fn in_one_memory<const S: usize>(
    success: AllocationSuccess<S>,
    i: int,
    j: int,
) -> bool {
    success.obj_to_memory_assignment@[i].memory_index
        == success.obj_to_memory_assignment@[j].memory_index
}

/// No object before `i` lies in its memory.
pub open spec fn first_in_memory<const S: usize>(success: AllocationSuccess<S>, i: int) -> bool {
    forall|k: int| 0 <= k < i ==> !#[trigger] in_one_memory(success, k, i)
}

/// `j` is the last object before `i` that lies in its memory.
pub open spec fn next_in_memory<const S: usize>(
    success: AllocationSuccess<S>,
    j: int,
    i: int,
) -> bool {
    &&& in_one_memory(success, j, i)
    &&& forall|k: int| j < k < i ==> !#[trigger] in_one_memory(success, k, i)
}

/// No object behind `i` lies in its memory.
pub open spec fn last_in_memory<const S: usize>(success: AllocationSuccess<S>, i: int) -> bool {
    forall|k: int| i < k < S ==> !#[trigger] in_one_memory(success, k, i)
}

/// Each object lies, with its size and aligned, in a memory of its memory type. The memories have
/// different types. The first object of a memory begins it, each other one begins less than its
/// alignment behind the end of the one before it, and the last one ends the memory.
pub open spec fn tightly_placed<const S: usize>(
    assigned: Seq<usize>,
    reqs: Seq<MemoryRequirements>,
    success: AllocationSuccess<S>,
) -> bool {
    let places = success.obj_to_memory_assignment@;
    &&& success.memory_count <= 32
    &&& forall|i: int|
        0 <= i < S ==> {
            &&& (#[trigger] places[i]).memory_index < success.memory_count
            &&& success.memories@[places[i].memory_index as int].type_index == assigned[i]
            &&& places[i].object_size == reqs[i].size
            &&& places[i].memory_offset as int % reqs[i].alignment as int == 0
        }
    &&& forall|k: int, l: int|
        0 <= k < l < success.memory_count ==> (#[trigger] success.memories@[k]).type_index != (
        #[trigger] success.memories@[l]).type_index
    &&& forall|i: int|
        0 <= i < S && #[trigger] first_in_memory(success, i) ==> places[i].memory_offset == 0
    &&& forall|j: int, i: int|
        0 <= j < i < S && #[trigger] next_in_memory(success, j, i) ==> places[j].memory_offset
            + places[j].object_size <= places[i].memory_offset < places[j].memory_offset
            + places[j].object_size + reqs[i].alignment
    &&& forall|i: int|
        0 <= i < S && #[trigger] last_in_memory(success, i)
            ==> success.memories@[places[i].memory_index as int].size == places[i].memory_offset
            + places[i].object_size
}

/// A finished allocation places its objects tightly.
pub proof fn law_finished_allocation_is_tightly_placed<const S: usize>(
    state: AllocationState<S>,
    success: AllocationSuccess<S>,
)
    requires
        state.wf(),
        state.memories@.len() == state.memory_types@.len(),
        state.is_result(success),
    ensures
        tightly_placed(state.assigned@, state.obj_reqs@, success),
{
    let places = success.obj_to_memory_assignment@;
    let reqs = state.obj_reqs@;
    law_one_memory_per_type(state, success);
    assert forall|i: int| 0 <= i < S implies {
        &&& (#[trigger] places[i]).memory_index < success.memory_count
        &&& success.memories@[places[i].memory_index as int].type_index == state.assigned@[i]
        &&& places[i].object_size == reqs[i].size
        &&& places[i].memory_offset as int % reqs[i].alignment as int == 0
    } by {
        law_object_placed_in_its_memory(state, success, i);
    }
    assert forall|i: int| 0 <= i < S && #[trigger] first_in_memory(
        success,
        i,
    ) implies places[i].memory_offset == 0 by {
        assert forall|k: int| 0 <= k < i implies (
        #[trigger] success.obj_to_memory_assignment@[k]).memory_index
            != success.obj_to_memory_assignment@[i].memory_index by {
            assert(!in_one_memory(success, k, i));
        }
        law_first_object_begins_its_memory(state, success, i);
    }
    assert forall|j: int, i: int| 0 <= j < i < S && #[trigger] next_in_memory(
        success,
        j,
        i,
    ) implies places[j].memory_offset + places[j].object_size <= places[i].memory_offset
        < places[j].memory_offset + places[j].object_size + reqs[i].alignment by {
        assert forall|k: int| j < k < i implies (
        #[trigger] success.obj_to_memory_assignment@[k]).memory_index
            != success.obj_to_memory_assignment@[i].memory_index by {
            assert(!in_one_memory(success, k, i));
        }
        law_next_object_follows_at_once(state, success, j, i);
    }
    assert forall|i: int| 0 <= i < S && #[trigger] last_in_memory(
        success,
        i,
    ) implies success.memories@[places[i].memory_index as int].size == places[i].memory_offset
        + places[i].object_size by {
        assert forall|k: int| i < k < S implies (
        #[trigger] success.obj_to_memory_assignment@[k]).memory_index
            != success.obj_to_memory_assignment@[i].memory_index by {
            assert(!in_one_memory(success, k, i));
        }
        law_memory_ends_with_its_last_object(state, success, i);
    }
}

/// A step changes nothing that was planned. It adds the memory that the device gave, behind the
/// others, or counts a priority that was set.
pub proof fn law_allocation_step_keeps_the_plan<const S: usize>(
    before: AllocationState<S>,
    event: AllocationEvent,
    after: AllocationState<S>,
)
    requires
        after.follows(before, event),
    ensures
        after.assigned == before.assigned,
        after.obj_reqs == before.obj_reqs,
        after.max_memory_allocation_size == before.max_memory_allocation_size,
        after.extensions == before.extensions,
        after.priority == before.priority,
        after.memory_types == before.memory_types,
        event matches AllocationEvent::Allocated(memory) ==> {
            &&& after.memories@.len() == before.memories@.len() + 1
            &&& after.memories@.last() == memory
        },
        event !is Allocated ==> after.memories@.len() == before.memories@.len(),
        forall|k: int|
            0 <= k < before.memories@.len() ==> #[trigger] after.memories@[k]
                == before.memories@[k],
        after.prioritized == before.prioritized + if event is PrioritySet {
            1int
        } else {
            0
        },
{
}

} // verus!
