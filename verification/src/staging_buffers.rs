//! Staging buffers that hold data on its way to device memory.

use vstd::prelude::*;
use crate::allocation::{handles_to_destroy, memories_to_destroy, memory_handles};
use crate::create_objs::{create_buffer, exclusive_buffer};
use crate::errors::{
    DeviceMemoryInitializationError, HostAllocationError, HostMemorySyncError, OutOfMemoryError,
};
use crate::host_memory::HostMemory;
use crate::mapped_host_obj::{HostMemorySync, MappedHostBuffer};
use crate::vulkan::{
    Buffer, BufferCreateInfo, BufferUsageFlags, Destroyable, DeviceMemory, MappedMemoryRange,
    MemoryPriority, MemoryPropertyFlags, HOST_COHERENT, HOST_VISIBLE, MAX_MEMORY_TYPES,
    TRANSFER_SRC,
};

verus! {

/// The destructions of `buffers`, in order.
pub open spec fn buffers_to_destroy(buffers: Seq<Buffer>) -> Seq<Destroyable> {
    buffers.map_values(|b: Buffer| Destroyable::Buffer(b))
}

/// What a staging buffer for data of this size is created as.
pub open spec fn staging_buffer_info(size: u64) -> BufferCreateInfo {
    exclusive_buffer(size, BufferUsageFlags { bits: TRANSFER_SRC })
}

/// The properties that staging memory may have: coherent if possible, and host visible at least.
pub open spec fn staging_properties() -> Seq<MemoryPropertyFlags> {
    seq![
        MemoryPropertyFlags { bits: HOST_VISIBLE | HOST_COHERENT },
        MemoryPropertyFlags { bits: HOST_VISIBLE },
    ]
}

/// The bits of the priority of staging memory, one half.
pub const STAGING_PRIORITY: u32 = 0x3f00_0000;

/// Appends the destructions of `buffers` to `destroy`.
fn destroy_buffers(destroy: &mut Vec<Destroyable>, buffers: &[Buffer])
    ensures
        final(destroy)@ == old(destroy)@ + buffers_to_destroy(buffers@),
{
    for i in 0..buffers.len()
        invariant
            destroy@ == old(destroy)@ + buffers_to_destroy(buffers@).take(i as int),
    {
        destroy.push(Destroyable::Buffer(buffers[i]));
    }
    proof {
        assert(buffers_to_destroy(buffers@).take(buffers@.len() as int) =~= buffers_to_destroy(
            buffers@,
        ));
    }
}

/// Staging buffers filled with data, and their memories. They are to be destroyed once the
/// commands that read them have finished.
#[derive(Debug)]
#[must_use]
pub struct SingleUseStagingBuffers<const S: usize> {
    pub buffers: [Buffer; S],
    memories: [DeviceMemory; MAX_MEMORY_TYPES],
    memory_count: usize,
}

impl<const S: usize> SingleUseStagingBuffers<S> {
    /// No more memories than there are memory types.
    pub closed spec fn wf(self) -> bool {
        self.memory_count <= MAX_MEMORY_TYPES
    }

    /// The staging buffers.
    pub closed spec fn staged(self) -> Seq<Buffer> {
        self.buffers@
    }

    /// The memories that the buffers lie in.
    pub closed spec fn used_memories(self) -> Seq<DeviceMemory> {
        self.memories@.take(self.memory_count as int)
    }

    /// The staging buffers.
    pub fn get_buffers(&self) -> (r: &[Buffer; S])
        ensures
            r@ == self.staged(),
    {
        &self.buffers
    }

    /// What the device destroys when the staging buffers go: the buffers, then their memories.
    pub fn destroy_self(&self) -> (r: Vec<Destroyable>)
        requires
            self.wf(),
        ensures
            r@ == buffers_to_destroy(self.staged()) + handles_to_destroy(self.used_memories()),
    {
        let mut destroy: Vec<Destroyable> = Vec::new();
        destroy_buffers(&mut destroy, &self.buffers);
        let ghost buffers = destroy@;
        for k in 0..self.memory_count
            invariant
                self.wf(),
                destroy@ == buffers + handles_to_destroy(self.used_memories()).take(k as int),
        {
            destroy.push(Destroyable::Memory(self.memories[k]));
        }
        proof {
            assert(handles_to_destroy(self.used_memories()).take(self.memory_count as int)
                =~= handles_to_destroy(self.used_memories()));
        }
        destroy
    }
}

/// Staging buffers being made.
#[derive(Debug)]
pub struct StagingState<const S: usize> {
    /// Size of the data of each buffer.
    pub sizes: [u64; S],
    /// The buffers created so far.
    pub buffers: Vec<Buffer>,
    /// The buffers' memory, once they have it.
    pub host: Option<HostMemory<S>>,
    /// How many buffers hold their data.
    pub written: usize,
}

/// What was done.
#[derive(Debug, Clone, Copy)]
pub enum StagingEvent<const S: usize> {
    /// Nothing yet.
    Started,
    /// The buffer was created.
    BufferCreated(Buffer),
    /// The buffer could not be created.
    BufferFailed(OutOfMemoryError),
    /// The buffers have memory, which is mapped.
    HostMemoryReady(HostMemory<S>),
    /// The buffers could not be given memory, and hold none.
    HostMemoryFailed(HostAllocationError),
    /// The data was copied and, where demanded, flushed.
    Written,
    /// The data could not be flushed.
    FlushFailed(HostMemorySyncError),
}

/// What is to be done next.
#[derive(Debug)]
pub enum StagingAction<const S: usize> {
    /// Create a buffer.
    CreateBuffer(BufferCreateInfo),
    /// Allocate memory with the earliest possible of these sets of properties for the buffers,
    /// bind it and map it.
    AllocateHostMemory {
        buffers: [Buffer; S],
        mem_props: [MemoryPropertyFlags; 2],
        priority: MemoryPriority,
    },
    /// Copy `size` bytes of data number `index` to the buffer, then do what `sync` says.
    Write {
        index: usize,
        target: MappedHostBuffer<u8>,
        size: u64,
        sync: Option<HostMemorySync>,
    },
    /// Unmap the memories. The staging buffers are ready.
    Finish { unmap: Vec<DeviceMemory>, staging: SingleUseStagingBuffers<S> },
    /// Destroy what was made and report the error.
    Abandon { destroy: Vec<Destroyable>, error: DeviceMemoryInitializationError },
}

impl<const S: usize> StagingState<S> {
    /// The steps come in order: all buffers are created, then they get memory, then data.
    pub open spec fn wf(self) -> bool {
        &&& S > 0
        &&& self.buffers@.len() <= S
        &&& self.written <= S
        &&& match self.host {
            Some(host) => self.buffers@.len() == S && host.serves(self.sizes@, self.buffers@),
            None => self.written == 0,
        }
    }

    /// The event can come in this state.
    pub open spec fn expects(self, event: StagingEvent<S>) -> bool {
        match event {
            StagingEvent::Started => self.buffers@.len() == 0,
            StagingEvent::BufferCreated(_) | StagingEvent::BufferFailed(_) => self.buffers@.len()
                < S,
            StagingEvent::HostMemoryReady(host) => self.buffers@.len() == S && self.host is None
                && host.serves(self.sizes@, self.buffers@),
            StagingEvent::HostMemoryFailed(_) => self.buffers@.len() == S && self.host is None,
            StagingEvent::Written | StagingEvent::FlushFailed(_) => self.host is Some
                && self.written < S,
        }
    }

    /// The state after the event.
    pub open spec fn follows(self, before: StagingState<S>, event: StagingEvent<S>) -> bool {
        &&& self.sizes == before.sizes
        &&& self.buffers@ == (match event {
            StagingEvent::BufferCreated(buffer) => before.buffers@.push(buffer),
            _ => before.buffers@,
        })
        &&& self.host == (match event {
            StagingEvent::HostMemoryReady(host) => Some(host),
            _ => before.host,
        })
        &&& self.written == before.written + (if event is Written {
            1int
        } else {
            0
        })
    }

    /// Everything made so far: the buffers, then their memories.
    pub open spec fn made(self) -> Seq<Destroyable> {
        buffers_to_destroy(self.buffers@) + match self.host {
            Some(host) => memories_to_destroy(host.allocation.used_memories()),
            None => seq![],
        }
    }

    /// What the next buffer is created as.
    pub open spec fn buffer_info(self) -> BufferCreateInfo {
        staging_buffer_info(self.sizes@[self.buffers@.len() as int])
    }

    /// `action` is what comes next in this state.
    pub open spec fn calls_for(self, action: StagingAction<S>) -> bool {
        if self.buffers@.len() < S {
            action == StagingAction::<S>::CreateBuffer(self.buffer_info())
        } else if self.host is None {
            &&& action matches StagingAction::AllocateHostMemory { buffers, mem_props, priority }
            &&& buffers@ == self.buffers@
            &&& mem_props@ == staging_properties()
            &&& priority.bits == 0x3f00_0000
        } else if self.written < S {
            let object = self.host->0.objects@[self.written as int];
            let target = object.as_buffer::<u8>();
            action == StagingAction::<S>::Write {
                index: self.written,
                target,
                size: self.sizes@[self.written as int],
                sync: if target.mem_host_coherent {
                    None
                } else {
                    Some(HostMemorySync::Flush(target.range()))
                },
            }
        } else {
            let memories = memory_handles(self.host->0.allocation.used_memories());
            &&& action matches StagingAction::Finish { unmap, staging }
            &&& unmap@ == memories
            &&& staging.wf()
            &&& staging.staged() == self.buffers@
            &&& staging.used_memories() == memories
        }
    }

    /// The error that the event is reported as.
    pub open spec fn failure(event: StagingEvent<S>) -> Option<DeviceMemoryInitializationError> {
        match event {
            StagingEvent::BufferFailed(error) => Some(
                DeviceMemoryInitializationError::GenericOutOfMemory(error),
            ),
            StagingEvent::HostMemoryFailed(error) => Some(
                DeviceMemoryInitializationError::AllocationError(error),
            ),
            StagingEvent::FlushFailed(error) => Some(
                DeviceMemoryInitializationError::MemoryFlushFailed(error),
            ),
            _ => None,
        }
    }

    /// Nothing is made yet for data of these sizes.
    pub fn new(sizes: [u64; S]) -> (r: StagingState<S>)
        requires
            S > 0,
        ensures
            r.wf(),
            r.sizes == sizes,
            r.buffers@ == Seq::<Buffer>::empty(),
            r.host is None,
            r.written == 0,
    {
        StagingState { sizes, buffers: Vec::new(), host: None, written: 0 }
    }

    /// The created buffers.
    fn buffer_array(&self) -> (r: [Buffer; S])
        requires
            self.buffers@.len() == S,
        ensures
            r@ == self.buffers@,
    {
        let mut r: [Buffer; S] = [Buffer { raw: 0 };S];
        for i in 0..S
            invariant
                self.buffers@.len() == S,
                forall|j: int| 0 <= j < i ==> #[trigger] r@[j] == self.buffers@[j],
        {
            r[i] = self.buffers[i];
        }
        proof {
            assert(r@ =~= self.buffers@);
        }
        r
    }

    /// What is to be destroyed if the staging buffers are given up now.
    fn destroy_made(&self) -> (r: Vec<Destroyable>)
        requires
            self.wf(),
        ensures
            r@ == self.made(),
    {
        let mut destroy: Vec<Destroyable> = Vec::new();
        destroy_buffers(&mut destroy, self.buffers.as_slice());
        if let Some(host) = &self.host {
            let mut memories: Vec<Destroyable> = host.allocation.destroy_self();
            destroy.append(&mut memories);
        }
        destroy
    }

    /// The finished staging buffers.
    fn finish(&self, host: &HostMemory<S>) -> (action: StagingAction<S>)
        requires
            self.wf(),
            self.host == Some(*host),
            self.written == S,
        ensures
            self.calls_for(action),
    {
        let allocation = &host.allocation;
        let mut unmap: Vec<DeviceMemory> = Vec::new();
        let mut memories: [DeviceMemory; MAX_MEMORY_TYPES] = [
            DeviceMemory::null();MAX_MEMORY_TYPES];
        for k in 0..MAX_MEMORY_TYPES
            invariant
                forall|j: int|
                    0 <= j < k ==> #[trigger] memories@[j] == allocation.memories@[j].memory,
        {
            memories[k] = allocation.memories[k].memory;
        }
        let used = allocation.get_memories();
        for k in 0..used.len()
            invariant
                unmap@ == memory_handles(used@).take(k as int),
        {
            unmap.push(used[k].memory);
        }
        let staging = SingleUseStagingBuffers {
            buffers: self.buffer_array(),
            memories,
            memory_count: allocation.memory_count,
        };
        proof {
            assert(unmap@ =~= memory_handles(allocation.used_memories()));
            assert(staging.used_memories() =~= memory_handles(allocation.used_memories()));
        }
        StagingAction::Finish { unmap, staging }
    }

    /// What comes next.
    fn next_action(&self) -> (action: StagingAction<S>)
        requires
            self.wf(),
        ensures
            self.calls_for(action),
    {
        if self.buffers.len() < S {
            let size: u64 = self.sizes[self.buffers.len()];
            return StagingAction::CreateBuffer(
                create_buffer(size, BufferUsageFlags { bits: TRANSFER_SRC }),
            );
        }
        match &self.host {
            None => {
                let mem_props: [MemoryPropertyFlags; 2] = [
                    MemoryPropertyFlags { bits: HOST_VISIBLE | HOST_COHERENT },
                    MemoryPropertyFlags { bits: HOST_VISIBLE },
                ];
                StagingAction::AllocateHostMemory {
                    buffers: self.buffer_array(),
                    mem_props,
                    priority: MemoryPriority { bits: STAGING_PRIORITY },
                }
            },
            Some(host) => {
                if self.written == S {
                    return self.finish(host);
                }
                let target: MappedHostBuffer<u8> = host.objects[self.written].into_buffer();
                let sync = target.flush_memory_range();
                StagingAction::Write {
                    index: self.written,
                    target,
                    size: self.sizes[self.written],
                    sync,
                }
            },
        }
    }
}

/// Makes staging buffers and fills them with data, one step at a time: takes in what was done and
/// says what is to be done next.
pub fn create_single_use_staging_buffers<const S: usize>(
    state: StagingState<S>,
    event: StagingEvent<S>,
) -> (r: (StagingState<S>, StagingAction<S>))
    requires
        state.wf(),
        state.expects(event),
    ensures
        r.0.wf(),
        r.0.follows(state, event),
        match StagingState::failure(event) {
            Some(error) => {
                &&& r.0 == state
                &&& r.1 matches StagingAction::Abandon { destroy, error: reported }
                &&& destroy@ == state.made()
                &&& reported == error
            },
            None => r.0.calls_for(r.1),
        },
{
    let mut state = state;
    let error = match event {
        StagingEvent::Started => None,
        StagingEvent::BufferCreated(buffer) => {
            state.buffers.push(buffer);
            None
        },
        StagingEvent::BufferFailed(error) => Some(DeviceMemoryInitializationError::from(error)),
        StagingEvent::HostMemoryReady(host) => {
            state.host = Some(host);
            None
        },
        StagingEvent::HostMemoryFailed(error) => Some(DeviceMemoryInitializationError::from(error)),
        StagingEvent::Written => {
            state.written = state.written + 1;
            None
        },
        StagingEvent::FlushFailed(error) => Some(DeviceMemoryInitializationError::from(error)),
    };
    let action = match error {
        Some(error) => StagingAction::Abandon { destroy: state.destroy_made(), error },
        None => state.next_action(),
    };
    (state, action)
}

/// Data goes to the buffer of its own number: a write of data `index` is of that data's size, to a
/// mapped range that belongs to that buffer and holds it, where the buffer was placed. It is
/// flushed exactly where the memory is not coherent. The data comes in order.
pub proof fn law_data_goes_to_its_buffer<const S: usize>(
    state: StagingState<S>,
    index: usize,
    target: MappedHostBuffer<u8>,
    size: u64,
    sync: Option<HostMemorySync>,
)
    requires
        state.wf(),
        state.calls_for(StagingAction::Write { index, target, size, sync }),
    ensures
        index == state.written,
        index < S,
        target.buffer == state.buffers@[index as int],
        size == state.sizes@[index as int],
        size <= target.buffer_size,
        target.wf(),
        ({
            let allocation = state.host->0.allocation;
            let placement = allocation.obj_to_memory_assignment@[index as int];
            target.range() == MappedMemoryRange {
                memory: allocation.used_memories()[placement.memory_index as int].memory,
                offset: placement.memory_offset,
                size: placement.object_size,
            }
        }),
        sync == if target.mem_host_coherent {
            None
        } else {
            Some(HostMemorySync::Flush(target.range()))
        },
{
    let host = state.host->0;
    assert(host.objects@[index as int].handle == state.buffers@[index as int].raw);
    assert(host.in_place(index as int));
}

/// What was made grows with each buffer and with the memory, and by nothing else.
pub proof fn law_made_keeps_count<const S: usize>(
    before: StagingState<S>,
    event: StagingEvent<S>,
    after: StagingState<S>,
)
    requires
        before.wf(),
        before.expects(event),
        after.follows(before, event),
    ensures
        after.made() == before.made() + match event {
            StagingEvent::BufferCreated(buffer) => seq![Destroyable::Buffer(buffer)],
            StagingEvent::HostMemoryReady(host) => memories_to_destroy(
                host.allocation.used_memories(),
            ),
            _ => seq![],
        },
{
    match event {
        StagingEvent::BufferCreated(buffer) => {
            assert(buffers_to_destroy(after.buffers@) =~= buffers_to_destroy(before.buffers@).push(
                Destroyable::Buffer(buffer),
            ));
            assert(after.made() =~= before.made() + seq![Destroyable::Buffer(buffer)]);
        },
        StagingEvent::HostMemoryReady(host) => {
            assert(after.made() =~= before.made() + memories_to_destroy(
                host.allocation.used_memories(),
            ));
        },
        _ => {
            assert(after.made() =~= before.made() + Seq::<Destroyable>::empty());
        },
    }
}

/// Nothing leaks: destroying finished staging buffers destroys all that was made for them, as
/// giving them up at the last step would have done.
pub proof fn law_staging_buffers_own_all_that_was_made<const S: usize>(
    state: StagingState<S>,
    unmap: Vec<DeviceMemory>,
    staging: SingleUseStagingBuffers<S>,
)
    requires
        state.wf(),
        state.calls_for(StagingAction::Finish { unmap, staging }),
    ensures
        buffers_to_destroy(staging.staged()) + handles_to_destroy(staging.used_memories())
            == state.made(),
        staging.staged().len() == S,
{
    let memories = state.host->0.allocation.used_memories();
    assert(handles_to_destroy(memory_handles(memories)) =~= memories_to_destroy(memories));
}

/// Memory with either set of staging properties is host visible, and with the preferred one it is
/// coherent too.
pub proof fn law_staging_memory_is_host_visible(flags: MemoryPropertyFlags, p: int)
    requires
        0 <= p < staging_properties().len(),
        flags.includes(staging_properties()[p]),
    ensures
        flags.includes(MemoryPropertyFlags { bits: HOST_VISIBLE }),
        p == 0 ==> flags.includes(MemoryPropertyFlags { bits: HOST_COHERENT }),
{
    let bits = flags.bits;
    assert(bits & (0x2u32 | 0x4u32) == 0x2u32 | 0x4u32 ==> bits & 0x2u32 == 0x2u32 && bits & 0x4u32
        == 0x4u32) by (bit_vector);
}

/// Staging buffers are made through `states`: it begins with nothing, and each state comes out of
/// the one before it by one of the `events`, none of which is a failure.
pub open spec fn is_staging_run<const S: usize>(
    states: Seq<StagingState<S>>,
    events: Seq<StagingEvent<S>>,
) -> bool {
    &&& states.len() == events.len() + 1
    &&& states[0].buffers@.len() == 0
    &&& forall|n: int| 0 <= n < states.len() ==> (#[trigger] states[n]).wf()
    &&& forall|n: int|
        0 <= n < events.len() ==> {
            &&& states[n].expects(#[trigger] events[n])
            &&& StagingState::failure(events[n]) is None
            &&& states[n + 1].follows(states[n], events[n])
        }
}

/// What the device made, in order.
pub open spec fn made_by<const S: usize>(events: Seq<StagingEvent<S>>) -> Seq<Destroyable>
    decreases events.len(),
{
    if events.len() == 0 {
        seq![]
    } else {
        made_by(events.drop_last()) + match events.last() {
            StagingEvent::BufferCreated(buffer) => seq![Destroyable::Buffer(buffer)],
            StagingEvent::HostMemoryReady(host) => memories_to_destroy(
                host.allocation.used_memories(),
            ),
            _ => seq![],
        }
    }
}

/// The buffers that the device created, in order, and what each was created as: what the state
/// called for.
pub open spec fn created_by<const S: usize>(
    states: Seq<StagingState<S>>,
    events: Seq<StagingEvent<S>>,
) -> Seq<(BufferCreateInfo, Buffer)>
    decreases events.len(),
{
    if events.len() == 0 {
        seq![]
    } else {
        let before = created_by(states.drop_last(), events.drop_last());
        match events.last() {
            StagingEvent::BufferCreated(buffer) => {
                before.push((states[events.len() - 1].buffer_info(), buffer))
            },
            _ => before,
        }
    }
}

/// The numbers of the data that was written, in order. Each time it is what the state called for.
pub open spec fn written_by<const S: usize>(
    states: Seq<StagingState<S>>,
    events: Seq<StagingEvent<S>>,
) -> Seq<int>
    decreases events.len(),
{
    if events.len() == 0 {
        seq![]
    } else {
        let before = written_by(states.drop_last(), events.drop_last());
        if events.last() is Written {
            before.push(states[events.len() - 1].written as int)
        } else {
            before
        }
    }
}

/// The buffers of a state, each with what it is created as.
spec fn created<const S: usize>(state: StagingState<S>) -> Seq<(BufferCreateInfo, Buffer)> {
    Seq::new(
        state.buffers@.len(),
        |i: int| (staging_buffer_info(state.sizes@[i]), state.buffers@[i]),
    )
}

proof fn lemma_staging_run<const S: usize>(
    states: Seq<StagingState<S>>,
    events: Seq<StagingEvent<S>>,
)
    requires
        is_staging_run(states, events),
    ensures
        states.last().sizes == states[0].sizes,
        states.last().made() == made_by(events),
        created_by(states, events) == created(states.last()),
        written_by(states, events) == Seq::new(states.last().written as nat, |i: int| i),
    decreases events.len(),
{
    let after = states.last();
    if events.len() > 0 {
        let n = events.len() - 1;
        let (init_states, init_events) = (states.drop_last(), events.drop_last());
        assert(is_staging_run(init_states, init_events)) by {
            assert forall|m: int| 0 <= m < init_events.len() implies {
                &&& init_states[m].expects(#[trigger] init_events[m])
                &&& StagingState::failure(init_events[m]) is None
                &&& init_states[m + 1].follows(init_states[m], init_events[m])
            } by {
                assert(init_events[m] == events[m]);
            }
        }
        lemma_staging_run(init_states, init_events);
        let before = states[n];
        assert(init_states.last() == before);
        assert(before.expects(events[n]) && after.follows(before, events[n]));
        assert(before.wf());
        law_made_keeps_count(before, events[n], after);
        if let StagingEvent::BufferCreated(buffer) = events[n] {
            assert(created(after) =~= created(before).push((before.buffer_info(), buffer)));
        } else {
            assert(created(after) =~= created(before));
        }
        assert(written_by(states, events) =~= Seq::new(after.written as nat, |i: int| i));
    } else {
        assert(after == states[0]);
        assert(after.wf());
        assert(after.made() =~= Seq::<Destroyable>::empty());
        assert(created(after) =~= Seq::<(BufferCreateInfo, Buffer)>::empty());
        assert(written_by(states, events) =~= Seq::new(after.written as nat, |i: int| i));
    }
}

/// Nothing leaks: at each point what is there to destroy is exactly what the device made. Finished
/// staging buffers own exactly that; they were created one for each data, with its size and in
/// order, and each data was written once, in order.
pub proof fn law_staging_run_owns_what_was_made<const S: usize>(
    states: Seq<StagingState<S>>,
    events: Seq<StagingEvent<S>>,
    unmap: Vec<DeviceMemory>,
    staging: SingleUseStagingBuffers<S>,
)
    requires
        is_staging_run(states, events),
    ensures
        states.last().made() == made_by(events),
        states.last().calls_for(StagingAction::Finish { unmap, staging }) ==> {
            &&& buffers_to_destroy(staging.staged()) + handles_to_destroy(staging.used_memories())
                == made_by(events)
            &&& created_by(states, events) == Seq::new(
                S as nat,
                |i: int| (staging_buffer_info(states[0].sizes@[i]), staging.staged()[i]),
            )
            &&& written_by(states, events) == Seq::new(S as nat, |i: int| i)
        },
{
    lemma_staging_run(states, events);
    let last = states.last();
    assert(last.wf());
    if last.calls_for(StagingAction::Finish { unmap, staging }) {
        law_staging_buffers_own_all_that_was_made(last, unmap, staging);
        assert(created_by(states, events) =~= Seq::new(
            S as nat,
            |i: int| (staging_buffer_info(states[0].sizes@[i]), staging.staged()[i]),
        ));
    }
}

/// Buffers are destroyed by their handles, each once and in order.
pub proof fn law_each_buffer_is_destroyed(buffers: Seq<Buffer>)
    ensures
        buffers_to_destroy(buffers).len() == buffers.len(),
        forall|k: int|
            0 <= k < buffers.len() ==> #[trigger] buffers_to_destroy(buffers)[k]
                == Destroyable::Buffer(buffers[k]),
{
}

/// What is destroyed if the staging buffers are given up is every buffer created so far and, where
/// they have memory, every memory of the allocation, and nothing else.
pub proof fn law_all_that_was_made_is_destroyed<const S: usize>(state: StagingState<S>)
    requires
        state.wf(),
    ensures
        state.made().len() == state.buffers@.len() + match state.host {
            Some(host) => host.allocation.memory_count as int,
            None => 0,
        },
        forall|k: int|
            0 <= k < state.buffers@.len() ==> #[trigger] state.made()[k] == Destroyable::Buffer(
                state.buffers@[k],
            ),
        state.host matches Some(host) ==> forall|k: int|
            0 <= k < host.allocation.memory_count ==> Destroyable::Memory(
                (#[trigger] host.allocation.memories@[k]).memory,
            ) == state.made()[state.buffers@.len() + k],
{
    if let Some(host) = state.host {
        assert forall|k: int| 0 <= k < host.allocation.memory_count implies Destroyable::Memory(
            (#[trigger] host.allocation.memories@[k]).memory,
        ) == state.made()[state.buffers@.len() + k] by {
            assert(host.allocation.used_memories()[k] == host.allocation.memories@[k]);
        }
    }
}

/// What went wrong is reported as what it is.
pub proof fn law_staging_failures_are_reported<const S: usize>(
    out_of_memory: OutOfMemoryError,
    allocation: HostAllocationError,
    sync: HostMemorySyncError,
    buffer: Buffer,
    host: HostMemory<S>,
)
    ensures
        StagingState::<S>::failure(StagingEvent::BufferFailed(out_of_memory)) == Some(
            DeviceMemoryInitializationError::GenericOutOfMemory(out_of_memory),
        ),
        StagingState::<S>::failure(StagingEvent::HostMemoryFailed(allocation)) == Some(
            DeviceMemoryInitializationError::AllocationError(allocation),
        ),
        StagingState::<S>::failure(StagingEvent::FlushFailed(sync)) == Some(
            DeviceMemoryInitializationError::MemoryFlushFailed(sync),
        ),
        StagingState::<S>::failure(StagingEvent::Started) is None,
        StagingState::<S>::failure(StagingEvent::BufferCreated(buffer)) is None,
        StagingState::<S>::failure(StagingEvent::HostMemoryReady(host)) is None,
        StagingState::<S>::failure(StagingEvent::Written) is None,
{
}

/// A step does only what its event says: it adds the buffer that was created behind the others,
/// takes over the memory that the buffers got, or counts the data that was written.
pub proof fn law_staging_step_keeps_everything_else<const S: usize>(
    before: StagingState<S>,
    event: StagingEvent<S>,
    after: StagingState<S>,
)
    requires
        after.follows(before, event),
    ensures
        after.sizes == before.sizes,
        event matches StagingEvent::BufferCreated(buffer) ==> {
            &&& after.buffers@.len() == before.buffers@.len() + 1
            &&& after.buffers@.last() == buffer
        },
        event !is BufferCreated ==> after.buffers@.len() == before.buffers@.len(),
        forall|k: int|
            0 <= k < before.buffers@.len() ==> #[trigger] after.buffers@[k] == before.buffers@[k],
        event matches StagingEvent::HostMemoryReady(host) ==> after.host == Some(host),
        event !is HostMemoryReady ==> after.host == before.host,
        after.written == before.written + if event is Written {
            1int
        } else {
            0
        },
{
}

/// First each buffer is created, with the size of its data, for one queue family, as a source of
/// transfers. Then memory is asked for all of them at once, coherent before merely host visible.
pub proof fn law_staging_buffers_are_created_and_given_memory<const S: usize>(
    state: StagingState<S>,
    action: StagingAction<S>,
)
    requires
        state.wf(),
        state.calls_for(action),
    ensures
        action is CreateBuffer <==> state.buffers@.len() < S,
        action is AllocateHostMemory <==> state.buffers@.len() == S && state.host is None,
        action matches StagingAction::CreateBuffer(info) ==> {
            &&& info.size == state.sizes@[state.buffers@.len() as int]
            &&& info.usage.bits == 0x1
            &&& info.flags == 0
            &&& info.sharing_mode is Exclusive
            &&& info.queue_family_index_count == 0
        },
        action matches StagingAction::AllocateHostMemory { buffers, mem_props, priority } ==> {
            &&& forall|i: int| 0 <= i < S ==> #[trigger] buffers@[i] == state.buffers@[i]
            &&& mem_props@.len() == 2
            &&& mem_props@[0].bits == 0x6
            &&& mem_props@[1].bits == 0x2
            &&& priority.bits == 0x3f00_0000
        },
{
    assert(0x2u32 | 0x4u32 == 0x6u32) by (bit_vector);
}

/// Once the buffers have memory, data is written to each mapped buffer in turn, all of its bytes,
/// and flushed over the buffer's whole range unless the memory is coherent. Only when all is
/// written are the staging buffers handed over, and every memory is unmapped.
pub proof fn law_staging_buffers_are_filled_and_handed_over<const S: usize>(
    state: StagingState<S>,
    action: StagingAction<S>,
)
    requires
        state.wf(),
        state.calls_for(action),
    ensures
        action is Write <==> state.host is Some && state.written < S,
        action is Finish <==> state.host is Some && state.written == S,
        action matches StagingAction::Write { index, target, size, sync } ==> {
            let object = state.host->0.objects@[index as int];
            &&& index == state.written
            &&& size == state.sizes@[index as int]
            &&& target.buffer == state.buffers@[index as int]
            &&& target.data_ptr == object.data_ptr
            &&& target.memory == object.memory
            &&& target.buffer_offset == object.obj_offset
            &&& target.buffer_size == object.obj_size
            &&& target.mem_host_coherent == object.mem_host_coherent
            &&& object.mem_host_coherent ==> sync is None
            &&& !object.mem_host_coherent ==> (sync matches Some(HostMemorySync::Flush(range))
                && range.memory == object.memory && range.offset == object.obj_offset
                && range.size == object.obj_size)
        },
        action matches StagingAction::Finish { unmap, staging } ==> {
            let allocation = state.host->0.allocation;
            &&& unmap@.len() == allocation.memory_count
            &&& staging.used_memories().len() == allocation.memory_count
            &&& forall|k: int|
                0 <= k < allocation.memory_count ==> {
                    &&& (#[trigger] allocation.memories@[k]).memory == unmap@[k]
                    &&& allocation.memories@[k].memory == staging.used_memories()[k]
                }
            &&& staging.staged().len() == S
            &&& forall|i: int|
                0 <= i < S ==> #[trigger] staging.staged()[i] == state.buffers@[i]
        },
{
    if let StagingAction::Write { index, target, size, sync } = action {
        law_data_goes_to_its_buffer(state, index, target, size, sync);
    }
    if let StagingAction::Finish { unmap, staging } = action {
        let allocation = state.host->0.allocation;
        assert forall|k: int| 0 <= k < allocation.memory_count implies {
            &&& (#[trigger] allocation.memories@[k]).memory == unmap@[k]
            &&& allocation.memories@[k].memory == staging.used_memories()[k]
        } by {
            assert(allocation.used_memories()[k] == allocation.memories@[k]);
        }
    }
}

/// Staging buffers are made from the start, without a failure: event `n` leads from state `n` to
/// the next, and action `n` is what is then to be done.
pub open spec fn is_staging_action_run<const S: usize>(
    states: Seq<StagingState<S>>,
    events: Seq<StagingEvent<S>>,
    actions: Seq<StagingAction<S>>,
) -> bool {
    &&& is_staging_run(states, events)
    &&& actions.len() == events.len()
    &&& events.len() > 0
    &&& events[0] is Started
    &&& forall|n: int| 0 < n < events.len() ==> (#[trigger] events[n]) !is Started
    &&& forall|n: int|
        0 <= n < actions.len() ==> states[n + 1].calls_for(#[trigger] actions[n])
}

/// The buffers to create, in order.
pub open spec fn creations_in<const S: usize>(actions: Seq<StagingAction<S>>) -> Seq<
    BufferCreateInfo,
>
    decreases actions.len(),
{
    if actions.len() == 0 {
        seq![]
    } else {
        match actions.last() {
            StagingAction::CreateBuffer(info) => creations_in(actions.drop_last()).push(info),
            _ => creations_in(actions.drop_last()),
        }
    }
}

/// How often memory is asked for.
pub open spec fn allocations_in<const S: usize>(actions: Seq<StagingAction<S>>) -> nat
    decreases actions.len(),
{
    if actions.len() == 0 {
        0
    } else {
        allocations_in(actions.drop_last()) + if actions.last() is AllocateHostMemory {
            1nat
        } else {
            0nat
        }
    }
}

/// Which data is written to which buffer, and how much of it, in order.
pub open spec fn writes_in<const S: usize>(actions: Seq<StagingAction<S>>) -> Seq<
    (usize, Buffer, u64),
>
    decreases actions.len(),
{
    if actions.len() == 0 {
        seq![]
    } else {
        match actions.last() {
            StagingAction::Write { index, target, size, sync } => writes_in(
                actions.drop_last(),
            ).push((index, target.buffer, size)),
            _ => writes_in(actions.drop_last()),
        }
    }
}

/// What was asked for up to `state`, what it calls for included.
spec fn staging_asked<const S: usize>(
    state: StagingState<S>,
    creations: Seq<BufferCreateInfo>,
    allocations: nat,
    writes: Seq<(usize, Buffer, u64)>,
) -> bool {
    &&& creations.len() == if state.buffers@.len() < S {
        state.buffers@.len() + 1
    } else {
        S as nat
    }
    &&& forall|k: int|
        0 <= k < creations.len() ==> {
            &&& (#[trigger] creations[k]).size == state.sizes@[k]
            &&& creations[k].usage.bits == 0x1
            &&& creations[k].flags == 0
            &&& creations[k].sharing_mode is Exclusive
        }
    &&& allocations == if state.buffers@.len() < S {
        0nat
    } else {
        1nat
    }
    &&& writes.len() == if state.host is None {
        0
    } else if state.written < S {
        state.written + 1
    } else {
        S as int
    }
    &&& forall|k: int|
        0 <= k < writes.len() ==> #[trigger] writes[k] == (
            k as usize,
            state.buffers@[k],
            state.sizes@[k],
        )
}

proof fn lemma_staging_action_run<const S: usize>(
    states: Seq<StagingState<S>>,
    events: Seq<StagingEvent<S>>,
    actions: Seq<StagingAction<S>>,
)
    requires
        is_staging_action_run(states, events, actions),
    ensures
        staging_asked(
            states.last(),
            creations_in(actions),
            allocations_in(actions),
            writes_in(actions),
        ),
    decreases actions.len(),
{
    let n = events.len() - 1;
    let (before, after) = (states[n], states[n + 1]);
    assert(states.last() == after);
    assert(before.wf() && after.wf());
    assert(before.expects(events[n]) && StagingState::failure(events[n]) is None && after.follows(
        before,
        events[n],
    ));
    assert(after.calls_for(actions[n]));
    let init = actions.drop_last();
    if n > 0 {
        let (init_states, init_events) = (states.drop_last(), events.drop_last());
        assert(is_staging_action_run(init_states, init_events, init)) by {
            assert forall|m: int| 0 <= m < init_events.len() implies {
                &&& init_states[m].expects(#[trigger] init_events[m])
                &&& StagingState::failure(init_events[m]) is None
                &&& init_states[m + 1].follows(init_states[m], init_events[m])
            } by {
                assert(init_events[m] == events[m]);
            }
            assert forall|m: int| 0 < m < init_events.len() implies (
            #[trigger] init_events[m]) !is Started by {
                assert(init_events[m] == events[m]);
            }
            assert forall|m: int| 0 <= m < init.len() implies init_states[m + 1].calls_for(
                #[trigger] init[m],
            ) by {
                assert(init[m] == actions[m]);
            }
        }
        lemma_staging_action_run(init_states, init_events, init);
        assert(init_states.last() == before);
        assert(events[n] !is Started);
    } else {
        assert(init =~= Seq::<StagingAction<S>>::empty());
        assert(creations_in(init).len() == 0);
        assert(allocations_in(init) == 0);
        assert(writes_in(init).len() == 0);
    }
    assert(actions.last() == actions[n]);
    law_staging_buffers_are_created_and_given_memory(after, actions[n]);
    law_staging_buffers_are_filled_and_handed_over(after, actions[n]);
}

/// In a run from start to finish one buffer is created for each data, with its size, memory is
/// asked for once, and each data is written once, whole, to its own buffer, all in order.
pub proof fn law_finished_run_wrote_all_data_to_its_buffers<const S: usize>(
    states: Seq<StagingState<S>>,
    events: Seq<StagingEvent<S>>,
    actions: Seq<StagingAction<S>>,
    unmap: Vec<DeviceMemory>,
    staging: SingleUseStagingBuffers<S>,
)
    requires
        is_staging_action_run(states, events, actions),
        actions.last() == (StagingAction::<S>::Finish { unmap, staging }),
    ensures
        creations_in(actions).len() == S,
        forall|i: int|
            0 <= i < S ==> {
                &&& (#[trigger] creations_in(actions)[i]).size == states[0].sizes@[i]
                &&& creations_in(actions)[i].usage.bits == 0x1
                &&& creations_in(actions)[i].sharing_mode is Exclusive
            },
        allocations_in(actions) == 1,
        writes_in(actions).len() == S,
        forall|i: int|
            0 <= i < S ==> #[trigger] writes_in(actions)[i] == (
                i as usize,
                staging.staged()[i],
                states[0].sizes@[i],
            ),
{
    lemma_staging_action_run(states, events, actions);
    lemma_staging_run(states, events);
    let n = actions.len() - 1;
    let last = states[n + 1];
    assert(states.last() == last);
    assert(last.wf());
    assert(last.calls_for(actions[n]));
    law_staging_buffers_are_filled_and_handed_over(last, actions[n]);
}

} // verus!
