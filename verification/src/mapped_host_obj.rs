//! Buffers and images whose memory the host has mapped.

use core::marker::PhantomData;
use vstd::layout::size_of;
use vstd::prelude::*;
use crate::allocation::AllocationSuccess;
use crate::boxed::into_boxed_slice;
use crate::memory_bound::{BoundObject, MemoryBound, MemoryBoundType};
use crate::vulkan::{
    Buffer, Destroyable, DeviceMemory, Image, MappedMemoryRange, MemoryPropertyFlags,
    HOST_COHERENT, HOST_VISIBLE,
};

verus! {

/// What is to be done to a mapped range so that host and device see the same bytes.
#[derive(Debug, Clone, Copy, PartialEq, Eq, Structural)]
pub enum HostMemorySync {
    /// Make the host's writes visible to the device.
    Flush(MappedMemoryRange),
    /// Make the device's writes visible to the host.
    Invalidate(MappedMemoryRange),
}

/// A buffer or an image, and the address that its memory is mapped at.
///
/// Offset and size should be multiples of the device's `nonCoherentAtomSize`.
#[derive(Debug, Clone, Copy, PartialEq, Eq, Structural)]
pub struct MappedHostObject {
    pub handle: u64,
    pub object_type: MemoryBoundType,
    pub data_ptr: usize,
    pub memory: DeviceMemory,
    pub mem_host_coherent: bool,
    pub obj_offset: u64,
    pub obj_size: u64,
}

/// The memory type of the memory that object `i` lies in.
pub open spec fn object_type_index<const S: usize>(
    allocation: AllocationSuccess<S>,
    i: int,
) -> usize {
    allocation.used_memories()[allocation.obj_to_memory_assignment@[i].memory_index
        as int].type_index
}

/// The mapped object that object `i` of the allocation becomes.
pub open spec fn mapped_object<const S: usize>(
    allocation: AllocationSuccess<S>,
    mem_props: Seq<MemoryPropertyFlags>,
    handle: u64,
    object_type: MemoryBoundType,
    mapped_ptr: usize,
    i: int,
) -> MappedHostObject {
    let placement = allocation.obj_to_memory_assignment@[i];
    MappedHostObject {
        handle,
        object_type,
        data_ptr: mapped_ptr,
        memory: allocation.used_memories()[placement.memory_index as int].memory,
        mem_host_coherent: mem_props[object_type_index(allocation, i) as int].includes(
            MemoryPropertyFlags { bits: HOST_COHERENT },
        ),
        obj_offset: placement.memory_offset,
        obj_size: placement.object_size,
    }
}

/// The objects of an allocation, given by kind and handle.
pub(crate) fn mapped_objects<const P: usize, const S: usize>(
    allocation: &AllocationSuccess<S>,
    mem_props: &[MemoryPropertyFlags; P],
    objs: &[BoundObject; S],
    mapped_ptrs: &[usize; S],
) -> (r: [MappedHostObject; S])
    requires
        allocation.wf(),
        forall|i: int|
            0 <= i < S ==> #[trigger] object_type_index(*allocation, i) < P
                && mem_props@[object_type_index(*allocation, i) as int].includes(
                MemoryPropertyFlags { bits: HOST_VISIBLE },
            ),
    ensures
        forall|i: int|
            0 <= i < S ==> #[trigger] r@[i] == mapped_object(
                *allocation,
                mem_props@,
                objs@[i].handle,
                objs@[i].object_type,
                mapped_ptrs@[i],
                i,
            ),
{
    let mut result: [MappedHostObject; S] = [MappedHostObject {
        handle: 0,
        object_type: MemoryBoundType::Buffer,
        data_ptr: 0,
        memory: DeviceMemory::null(),
        mem_host_coherent: false,
        obj_offset: 0,
        obj_size: 0,
    };S];
    let memories = allocation.get_memories();
    for i in 0..S
        invariant
            allocation.wf(),
            memories@ == allocation.used_memories(),
            forall|i: int|
                0 <= i < S ==> #[trigger] object_type_index(*allocation, i) < P
                    && mem_props@[object_type_index(*allocation, i) as int].includes(
                    MemoryPropertyFlags { bits: HOST_VISIBLE },
                ),
            forall|j: int|
                0 <= j < i ==> #[trigger] result@[j] == mapped_object(
                    *allocation,
                    mem_props@,
                    objs@[j].handle,
                    objs@[j].object_type,
                    mapped_ptrs@[j],
                    j,
                ),
    {
        let placement = allocation.obj_to_memory_assignment[i];
        let memory = memories[placement.memory_index];
        assert(memory.type_index == object_type_index(*allocation, i as int));
        let mem_host_coherent: bool = mem_props[memory.type_index].contains(
            MemoryPropertyFlags { bits: HOST_COHERENT },
        );
        result[i] = MappedHostObject {
            handle: objs[i].handle,
            object_type: objs[i].object_type,
            data_ptr: mapped_ptrs[i],
            memory: memory.memory,
            mem_host_coherent,
            obj_offset: placement.memory_offset,
            obj_size: placement.object_size,
        };
    }
    result
}

impl MappedHostObject {
    /// The object is mapped somewhere.
    pub open spec fn wf(self) -> bool {
        self.data_ptr != 0
    }

    /// Offset and size are multiples of `atom`.
    pub open spec fn atom_aligned(self, atom: int) -> bool {
        self.obj_offset as int % atom == 0 && self.obj_size as int % atom == 0
    }

    /// What the device destroys when the object goes.
    pub open spec fn destroyed(self) -> Destroyable {
        match self.object_type {
            MemoryBoundType::Buffer => Destroyable::Buffer(Buffer { raw: self.handle }),
            MemoryBoundType::Image => Destroyable::Image(Image { raw: self.handle }),
        }
    }

    /// The objects of an allocation. `mem_props` holds the properties of each memory type, which
    /// must be host visible for the types in use; `mapped_ptrs` the address of each object, never
    /// null.
    pub fn from_allocation<const P: usize, const S: usize>(
        allocation: &AllocationSuccess<S>,
        mem_props: [MemoryPropertyFlags; P],
        objs: &[&dyn MemoryBound; S],
        mapped_ptrs: [usize; S],
    ) -> (r: [MappedHostObject; S])
        requires
            allocation.wf(),
            forall|i: int|
                0 <= i < S ==> #[trigger] object_type_index(*allocation, i) < P
                    && mem_props@[object_type_index(*allocation, i) as int].includes(
                    MemoryPropertyFlags { bits: HOST_VISIBLE },
                ),
            forall|i: int| 0 <= i < S ==> #[trigger] mapped_ptrs@[i] != 0,
        ensures
            forall|i: int|
                0 <= i < S ==> #[trigger] r@[i] == mapped_object(
                    *allocation,
                    mem_props@,
                    objs@[i].handle(),
                    objs@[i].kind(),
                    mapped_ptrs@[i],
                    i,
                ),
            forall|i: int| 0 <= i < S ==> (#[trigger] r@[i]).wf(),
            forall|i: int|
                0 <= i < S ==> {
                    let placement = allocation.obj_to_memory_assignment@[i];
                    let memory = allocation.memories@[placement.memory_index as int];
                    &&& (#[trigger] r@[i]).handle == objs@[i].handle()
                    &&& r@[i].object_type == objs@[i].kind()
                    &&& r@[i].data_ptr == mapped_ptrs@[i]
                    &&& r@[i].memory == memory.memory
                    &&& r@[i].mem_host_coherent == (mem_props@[memory.type_index as int].bits
                        & 0x4 != 0)
                    &&& r@[i].obj_offset == placement.memory_offset
                    &&& r@[i].obj_size == placement.object_size
                },
    {
        let mut bound: [BoundObject; S] = [BoundObject {
            object_type: MemoryBoundType::Buffer,
            handle: 0,
        };S];
        for i in 0..S
            invariant
                forall|j: int|
                    0 <= j < i ==> #[trigger] bound@[j] == (BoundObject {
                        object_type: objs@[j].kind(),
                        handle: objs@[j].handle(),
                    }),
        {
            bound[i] = BoundObject {
                object_type: objs[i].object_type(),
                handle: objs[i].object_handle(),
            };
        }
        let r = mapped_objects(allocation, &mem_props, &bound, &mapped_ptrs);
        proof {
            assert forall|i: int| 0 <= i < S implies {
                let placement = allocation.obj_to_memory_assignment@[i];
                let memory = allocation.memories@[placement.memory_index as int];
                &&& (#[trigger] r@[i]).memory == memory.memory
                &&& r@[i].mem_host_coherent == (mem_props@[memory.type_index as int].bits & 0x4
                    != 0)
            } by {
                law_mapped_object_has_the_properties_of_its_memory(
                    *allocation,
                    mem_props@,
                    bound@[i],
                    mapped_ptrs@[i],
                    i,
                );
            }
        }
        r
    }

    /// The object as a buffer.
    pub open spec fn as_buffer<T>(self) -> MappedHostBuffer<T> {
        MappedHostBuffer {
            buffer: Buffer { raw: self.handle },
            data_ptr: self.data_ptr,
            memory: self.memory,
            mem_host_coherent: self.mem_host_coherent,
            buffer_offset: self.obj_offset,
            buffer_size: self.obj_size,
            element: PhantomData,
        }
    }

    /// The object, which is a buffer, as one.
    pub fn into_buffer<T>(self) -> (r: MappedHostBuffer<T>)
        requires
            self.object_type is Buffer,
        ensures
            r == self.as_buffer::<T>(),
    {
        MappedHostBuffer {
            buffer: Buffer { raw: self.handle },
            data_ptr: self.data_ptr,
            memory: self.memory,
            mem_host_coherent: self.mem_host_coherent,
            buffer_offset: self.obj_offset,
            buffer_size: self.obj_size,
            element: PhantomData,
        }
    }

    /// The object as an image.
    pub open spec fn as_image(self) -> MappedHostImage {
        MappedHostImage {
            image: Image { raw: self.handle },
            data_ptr: self.data_ptr,
            memory: self.memory,
            mem_host_coherent: self.mem_host_coherent,
            image_offset: self.obj_offset,
            image_size: self.obj_size,
        }
    }

    /// The object, which is an image, as one.
    pub fn into_image(self) -> (r: MappedHostImage)
        requires
            self.object_type is Image,
        ensures
            r == self.as_image(),
    {
        MappedHostImage {
            image: Image { raw: self.handle },
            data_ptr: self.data_ptr,
            memory: self.memory,
            mem_host_coherent: self.mem_host_coherent,
            image_offset: self.obj_offset,
            image_size: self.obj_size,
        }
    }

    /// What the device destroys when the object goes.
    pub fn destroy_self(&self) -> (r: Destroyable)
        ensures
            r == self.destroyed(),
    {
        match self.object_type {
            MemoryBoundType::Buffer => Destroyable::Buffer(Buffer { raw: self.handle }),
            MemoryBoundType::Image => Destroyable::Image(Image { raw: self.handle }),
        }
    }
}

/// `memory` with `src` written over its beginning.
pub open spec fn overwritten<T>(memory: Seq<T>, src: Seq<T>) -> Seq<T> {
    src + memory.skip(src.len() as int)
}

/// Writes the first `count` elements of `src` over the beginning of `memory`.
fn overwrite<T: Copy>(memory: &mut [T], src: &[T], count: usize)
    requires
        count <= src@.len(),
        count <= old(memory)@.len(),
    ensures
        final(memory)@ == overwritten(old(memory)@, src@.take(count as int)),
{
    let mut i: usize = 0;
    while i < count
        invariant
            i <= count <= src@.len(),
            count <= old(memory)@.len(),
            memory@ == src@.take(i as int) + old(memory)@.skip(i as int),
        decreases count - i,
    {
        let ghost before = memory@;
        memory[i] = src[i];
        i += 1;
        proof {
            assert(memory@ =~= before.update(i - 1, src@[i - 1]));
            assert(memory@ =~= src@.take(i as int) + old(memory)@.skip(i as int));
        }
    }
}

/// A buffer of elements of type `T`, and the address that its memory is mapped at.
///
/// Offset and size are multiples of the device's `nonCoherentAtomSize`.
#[derive(Debug)]
pub struct MappedHostBuffer<T> {
    pub buffer: Buffer,
    pub data_ptr: usize,
    pub memory: DeviceMemory,
    pub mem_host_coherent: bool,
    pub buffer_offset: u64,
    pub buffer_size: u64,
    pub element: PhantomData<T>,
}

impl<T> Clone for MappedHostBuffer<T> {
    fn clone(&self) -> (r: MappedHostBuffer<T>)
        ensures
            r == *self,
    {
        MappedHostBuffer {
            buffer: self.buffer,
            data_ptr: self.data_ptr,
            memory: self.memory,
            mem_host_coherent: self.mem_host_coherent,
            buffer_offset: self.buffer_offset,
            buffer_size: self.buffer_size,
            element: PhantomData,
        }
    }
}

impl<T> Copy for MappedHostBuffer<T> {

}

impl<T> MappedHostBuffer<T> {
    /// The buffer is mapped somewhere.
    pub open spec fn wf(self) -> bool {
        self.data_ptr != 0
    }

    /// Offset and size are multiples of `atom`.
    pub open spec fn atom_aligned(self, atom: int) -> bool {
        self.buffer_offset as int % atom == 0 && self.buffer_size as int % atom == 0
    }

    /// The buffer's range of its memory.
    pub open spec fn range(self) -> MappedMemoryRange {
        MappedMemoryRange {
            memory: self.memory,
            offset: self.buffer_offset,
            size: self.buffer_size,
        }
    }

    /// The buffer's range of its memory.
    pub fn memory_range(&self) -> (r: MappedMemoryRange)
        ensures
            r == self.range(),
    {
        MappedMemoryRange {
            memory: self.memory,
            offset: self.buffer_offset,
            size: self.buffer_size,
        }
    }

    /// What makes the host's writes visible to the device. Coherent memory needs nothing.
    pub fn flush_memory_range(&self) -> (r: Option<HostMemorySync>)
        ensures
            r == if self.mem_host_coherent {
                None
            } else {
                Some(HostMemorySync::Flush(self.range()))
            },
    {
        if !self.mem_host_coherent {
            Some(HostMemorySync::Flush(self.memory_range()))
        } else {
            None
        }
    }

    /// What makes the device's writes visible to the host. Coherent memory needs nothing.
    pub fn invalidate_memory_range(&self) -> (r: Option<HostMemorySync>)
        ensures
            r == if self.mem_host_coherent {
                None
            } else {
                Some(HostMemorySync::Invalidate(self.range()))
            },
    {
        if !self.mem_host_coherent {
            Some(HostMemorySync::Invalidate(self.memory_range()))
        } else {
            None
        }
    }

    /// What the device destroys when the buffer goes.
    pub fn destroy_self(&self) -> (r: Destroyable)
        ensures
            r == Destroyable::Buffer(self.buffer),
    {
        Destroyable::Buffer(self.buffer)
    }

    /// Copies `size_bytes` bytes of `src` to the beginning of the buffer's mapped bytes `memory`.
    pub fn copy_to_buffer_memory_ptr(&self, memory: &mut [u8], src: &[u8], size_bytes: usize)
        requires
            size_bytes <= self.buffer_size,
            size_bytes <= src@.len(),
            size_bytes <= old(memory)@.len(),
        ensures
            final(memory)@ == overwritten(old(memory)@, src@.take(size_bytes as int)),
    {
        overwrite(memory, src, size_bytes);
    }
}

impl<T: Copy> MappedHostBuffer<T> {
    /// Copies `src` to the beginning of the buffer's mapped elements `memory`.
    pub fn copy_to_buffer_memory(&self, memory: &mut [T], src: &[T])
        requires
            size_of::<T>() * src@.len() <= self.buffer_size,
            src@.len() <= old(memory)@.len(),
        ensures
            final(memory)@ == overwritten(old(memory)@, src@),
    {
        let count: usize = src.len();
        overwrite(memory, src, count);
        proof {
            assert(src@.take(count as int) =~= src@);
        }
    }

    /// Copies the first `count` of the buffer's mapped elements `memory`.
    pub fn read_to_box(&self, memory: &[T], count: usize) -> (r: Box<[T]>)
        requires
            count <= memory@.len(),
        ensures
            r@ == memory@.take(count as int),
    {
        let mut values: Vec<T> = Vec::with_capacity(count);
        for i in 0..count
            invariant
                count <= memory@.len(),
                values@ == memory@.take(i as int),
        {
            values.push(memory[i]);
        }
        into_boxed_slice(values)
    }
}

impl<T> std::ops::Deref for MappedHostBuffer<T> {
    type Target = Buffer;

    fn deref(&self) -> (r: &Buffer)
        ensures
            *r == self.buffer,
    {
        &self.buffer
    }
}

/// An image, and the address that its memory is mapped at.
///
/// Offset and size are multiples of the device's `nonCoherentAtomSize`.
#[derive(Debug, Clone, Copy, PartialEq, Eq, Structural)]
pub struct MappedHostImage {
    pub image: Image,
    pub data_ptr: usize,
    pub memory: DeviceMemory,
    pub mem_host_coherent: bool,
    pub image_offset: u64,
    pub image_size: u64,
}

impl MappedHostImage {
    /// The image is mapped somewhere.
    pub open spec fn wf(self) -> bool {
        self.data_ptr != 0
    }

    /// Offset and size are multiples of `atom`.
    pub open spec fn atom_aligned(self, atom: int) -> bool {
        self.image_offset as int % atom == 0 && self.image_size as int % atom == 0
    }

    /// The image's range of its memory.
    pub open spec fn range(self) -> MappedMemoryRange {
        MappedMemoryRange { memory: self.memory, offset: self.image_offset, size: self.image_size }
    }

    /// Copies `src` to the beginning of the image's mapped bytes `memory`.
    pub fn copy_to_image_memory(&self, memory: &mut [u8], src: &[u8])
        requires
            src@.len() <= old(memory)@.len(),
        ensures
            final(memory)@ == overwritten(old(memory)@, src@),
    {
        let count: usize = src.len();
        overwrite(memory, src, count);
        proof {
            assert(src@.take(count as int) =~= src@);
        }
    }

    /// Copies `size_bytes` bytes of `src` to the beginning of the image's mapped bytes `memory`.
    pub fn copy_to_image_memory_ptr(&self, memory: &mut [u8], src: &[u8], size_bytes: usize)
        requires
            size_bytes <= src@.len(),
            size_bytes <= old(memory)@.len(),
        ensures
            final(memory)@ == overwritten(old(memory)@, src@.take(size_bytes as int)),
    {
        overwrite(memory, src, size_bytes);
    }

    /// The image's range of its memory.
    pub fn memory_range(&self) -> (r: MappedMemoryRange)
        ensures
            r == self.range(),
    {
        MappedMemoryRange { memory: self.memory, offset: self.image_offset, size: self.image_size }
    }

    /// What makes the host's writes visible to the device. Coherent memory needs nothing.
    pub fn flush_memory_range(&self) -> (r: Option<HostMemorySync>)
        ensures
            r == if self.mem_host_coherent {
                None
            } else {
                Some(HostMemorySync::Flush(self.range()))
            },
    {
        if !self.mem_host_coherent {
            Some(HostMemorySync::Flush(self.memory_range()))
        } else {
            None
        }
    }

    /// What makes the device's writes visible to the host. Coherent memory needs nothing.
    pub fn invalidate_memory_range(&self) -> (r: Option<HostMemorySync>)
        ensures
            r == if self.mem_host_coherent {
                None
            } else {
                Some(HostMemorySync::Invalidate(self.range()))
            },
    {
        if !self.mem_host_coherent {
            Some(HostMemorySync::Invalidate(self.memory_range()))
        } else {
            None
        }
    }

    /// What the device destroys when the image goes.
    pub fn destroy_self(&self) -> (r: Destroyable)
        ensures
            r == Destroyable::Image(self.image),
    {
        Destroyable::Image(self.image)
    }
}

impl std::ops::Deref for MappedHostImage {
    type Target = Image;

    fn deref(&self) -> (r: &Image)
        ensures
            *r == self.image,
    {
        &self.image
    }
}

/// Reading back as many elements as were written gives what was written, and the elements behind
/// them are as before.
pub proof fn law_read_gives_back_what_was_written<T>(memory: Seq<T>, src: Seq<T>)
    requires
        src.len() <= memory.len(),
    ensures
        overwritten(memory, src).take(src.len() as int) == src,
        overwritten(memory, src).skip(src.len() as int) == memory.skip(src.len() as int),
        overwritten(memory, src).len() == memory.len(),
{
    assert(overwritten(memory, src).take(src.len() as int) =~= src);
    assert(overwritten(memory, src).skip(src.len() as int) =~= memory.skip(src.len() as int));
}

/// A mapped object has offset and size in multiples of the device's atom exactly where its
/// placement has. Taken as a buffer or an image it keeps them, and so does the range that is then
/// flushed or invalidated.
pub proof fn law_mapped_objects_keep_atom_multiples<T, const S: usize>(
    allocation: AllocationSuccess<S>,
    mem_props: Seq<MemoryPropertyFlags>,
    handle: u64,
    object_type: MemoryBoundType,
    mapped_ptr: usize,
    i: int,
    atom: int,
)
    requires
        0 <= i < S,
        atom > 0,
    ensures
        ({
            let object = mapped_object(allocation, mem_props, handle, object_type, mapped_ptr, i);
            let aligned = allocation.obj_to_memory_assignment@[i].atom_aligned(atom);
            &&& object.atom_aligned(atom) == aligned
            &&& object.as_buffer::<T>().atom_aligned(atom) == aligned
            &&& object.as_buffer::<T>().range().atom_aligned(atom) == aligned
            &&& object.as_image().atom_aligned(atom) == aligned
            &&& object.as_image().range().atom_aligned(atom) == aligned
        }),
{
}

/// An object taken as what it is keeps its address and its memory range, and the device destroys
/// the same thing.
pub proof fn law_conversion_keeps_range_and_destruction<T>(object: MappedHostObject)
    ensures
        object.object_type is Buffer ==> {
            &&& object.destroyed() == Destroyable::Buffer(object.as_buffer::<T>().buffer)
            &&& object.as_buffer::<T>().wf() == object.wf()
            &&& object.as_buffer::<T>().range() == (MappedMemoryRange {
                memory: object.memory,
                offset: object.obj_offset,
                size: object.obj_size,
            })
        },
        object.object_type is Image ==> {
            &&& object.destroyed() == Destroyable::Image(object.as_image().image)
            &&& object.as_image().wf() == object.wf()
            &&& object.as_image().range() == (MappedMemoryRange {
                memory: object.memory,
                offset: object.obj_offset,
                size: object.obj_size,
            })
        },
{
}

/// A mapped object is the object that it was made of, at the address that it was given, in the
/// range of the memory that it was placed in. It counts as coherent exactly where the type of that
/// memory has the coherent bit.
pub proof fn law_mapped_object_has_the_properties_of_its_memory<const S: usize>(
    allocation: AllocationSuccess<S>,
    mem_props: Seq<MemoryPropertyFlags>,
    bound: BoundObject,
    mapped_ptr: usize,
    i: int,
)
    requires
        allocation.wf(),
        0 <= i < S,
    ensures
        ({
            let object = mapped_object(
                allocation,
                mem_props,
                bound.handle,
                bound.object_type,
                mapped_ptr,
                i,
            );
            let placement = allocation.obj_to_memory_assignment@[i];
            let memory = allocation.memories@[placement.memory_index as int];
            &&& object.handle == bound.handle
            &&& object.object_type == bound.object_type
            &&& object.data_ptr == mapped_ptr
            &&& object.memory == memory.memory
            &&& object.mem_host_coherent == (mem_props[memory.type_index as int].bits & 0x4 != 0)
            &&& object.obj_offset == placement.memory_offset
            &&& object.obj_size == placement.object_size
        }),
{
    let placement = allocation.obj_to_memory_assignment@[i];
    let memory = allocation.memories@[placement.memory_index as int];
    assert(allocation.used_memories()[placement.memory_index as int] == memory);
    let bits = mem_props[memory.type_index as int].bits;
    assert(bits & 0x4u32 == 0x4u32 <==> bits & 0x4u32 != 0u32) by (bit_vector);
}

/// An object taken as a buffer or an image keeps every part of it, and its range is that of its
/// memory. What the device destroys is the handle of the object, as what it is.
pub proof fn law_conversion_keeps_every_part<T>(object: MappedHostObject)
    ensures
        ({
            let buffer = object.as_buffer::<T>();
            &&& buffer.buffer.raw == object.handle
            &&& buffer.data_ptr == object.data_ptr
            &&& buffer.memory == object.memory
            &&& buffer.mem_host_coherent == object.mem_host_coherent
            &&& buffer.buffer_offset == object.obj_offset
            &&& buffer.buffer_size == object.obj_size
        }),
        ({
            let image = object.as_image();
            &&& image.image.raw == object.handle
            &&& image.data_ptr == object.data_ptr
            &&& image.memory == object.memory
            &&& image.mem_host_coherent == object.mem_host_coherent
            &&& image.image_offset == object.obj_offset
            &&& image.image_size == object.obj_size
        }),
        object.object_type is Buffer ==> (object.destroyed() matches Destroyable::Buffer(buffer)
            && buffer.raw == object.handle),
        object.object_type is Image ==> (object.destroyed() matches Destroyable::Image(image)
            && image.raw == object.handle),
{
}

/// The range of a buffer or an image is its memory, its offset and its size.
pub proof fn law_range_is_memory_offset_and_size<T>(
    buffer: MappedHostBuffer<T>,
    image: MappedHostImage,
)
    ensures
        buffer.range().memory == buffer.memory,
        buffer.range().offset == buffer.buffer_offset,
        buffer.range().size == buffer.buffer_size,
        image.range().memory == image.memory,
        image.range().offset == image.image_offset,
        image.range().size == image.image_size,
{
}

/// Writing puts each element of the source at its own index, and leaves every element behind the
/// source as it is.
pub proof fn law_write_puts_each_element_at_its_index<T>(memory: Seq<T>, src: Seq<T>)
    requires
        src.len() <= memory.len(),
    ensures
        overwritten(memory, src).len() == memory.len(),
        forall|k: int|
            0 <= k < memory.len() ==> #[trigger] overwritten(memory, src)[k] == if k < src.len() {
                src[k]
            } else {
                memory[k]
            },
{
}

} // verus!
