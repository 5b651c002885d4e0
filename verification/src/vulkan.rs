//! The Vulkan values that placement decisions read, as plain data.

use ash::vk;
use vstd::arithmetic::power2::is_pow2;
use vstd::prelude::*;

verus! {

/// The largest number of memory types that a physical device has.
pub const MAX_MEMORY_TYPES: usize = 32;

/// Property bit of memory that the host can map.
pub const HOST_VISIBLE: u32 = 0x2;

/// Property bit of memory whose mapped ranges need no flush and no invalidation.
pub const HOST_COHERENT: u32 = 0x4;

/// Use bit of a buffer that transfers read from.
pub const TRANSFER_SRC: u32 = 0x1;

/// As the size of a range: up to the end of the memory.
pub const WHOLE_SIZE: u64 = u64::MAX;

/// A set of memory properties, one per bit.
#[derive(Debug, Clone, Copy, PartialEq, Eq, Structural)]
pub struct MemoryPropertyFlags {
    pub bits: u32,
}

/// `vk::MemoryPropertyFlags::contains`: every bit of `wanted` is a bit of `flags`.
#[verifier::external_body]
fn flags_contain(flags: u32, wanted: u32) -> (r: bool)
    ensures
        r == (flags & wanted == wanted),
{
    vk::MemoryPropertyFlags::from_raw(flags).contains(vk::MemoryPropertyFlags::from_raw(wanted))
}

impl MemoryPropertyFlags {
    /// Every property of `other` is one of `self`.
    pub open spec fn includes(self, other: MemoryPropertyFlags) -> bool {
        self.bits & other.bits == other.bits
    }

    /// Whether every property of `other` is one of `self`.
    pub fn contains(self, other: MemoryPropertyFlags) -> (r: bool)
        ensures
            r == self.includes(other),
            r == (self.bits & other.bits == other.bits),
    {
        flags_contain(self.bits, other.bits)
    }
}

/// A memory type of a physical device: its properties and the heap it draws from.
#[derive(Debug, Clone, Copy, PartialEq, Eq, Structural)]
pub struct MemoryType {
    pub property_flags: MemoryPropertyFlags,
    pub heap_index: u32,
}

/// What a buffer or an image demands of the memory it is bound to.
#[derive(Debug, Clone, Copy, PartialEq, Eq, Structural)]
pub struct MemoryRequirements {
    pub size: u64,
    pub alignment: u64,
    /// Bit `t` is set where memory type `t` may hold the object.
    pub memory_type_bits: u32,
}

/// Bit `t` of `mask` is set.
pub open spec fn bit(mask: u32, t: int) -> bool {
    0 <= t < 32 && (mask >> (t as u32)) & 1 == 1
}

impl MemoryRequirements {
    /// The alignment is a power of two, as it is on every Vulkan device.
    pub open spec fn wf(self) -> bool {
        is_pow2(self.alignment as int)
    }

    /// Memory type `t` may hold the object.
    pub open spec fn allows(self, t: int) -> bool {
        bit(self.memory_type_bits, t)
    }
}

/// Handle of a device memory allocation.
#[derive(Debug, Clone, Copy, PartialEq, Eq, Structural)]
pub struct DeviceMemory {
    pub raw: u64,
}

impl DeviceMemory {
    /// The handle of no allocation.
    pub open spec fn null_spec() -> DeviceMemory {
        DeviceMemory { raw: 0 }
    }

    /// The handle of no allocation.
    pub fn null() -> (r: DeviceMemory)
        ensures
            r == Self::null_spec(),
    {
        DeviceMemory { raw: 0 }
    }
}

/// Handle of a buffer.
#[derive(Debug, Clone, Copy, PartialEq, Eq, Structural)]
pub struct Buffer {
    pub raw: u64,
}

/// Handle of an image.
#[derive(Debug, Clone, Copy, PartialEq, Eq, Structural)]
pub struct Image {
    pub raw: u64,
}

/// Something that the device is to destroy or free.
#[derive(Debug, Clone, Copy, PartialEq, Eq, Structural)]
pub enum Destroyable {
    Memory(DeviceMemory),
    Buffer(Buffer),
    Image(Image),
}

/// A device memory allocation to make.
#[derive(Debug, Clone, Copy, PartialEq, Eq, Structural)]
pub struct MemoryAllocateInfo {
    pub allocation_size: u64,
    pub memory_type_index: u32,
}

/// A set of buffer uses, one per bit.
#[derive(Debug, Clone, Copy, PartialEq, Eq, Structural)]
pub struct BufferUsageFlags {
    pub bits: u32,
}

/// Whether one queue family or several use an object at a time.
#[derive(Debug, Clone, Copy, PartialEq, Eq, Structural)]
pub enum SharingMode {
    Exclusive,
    Concurrent,
}

/// A buffer to create.
#[derive(Debug, Clone, Copy, PartialEq, Eq, Structural)]
pub struct BufferCreateInfo {
    pub flags: u32,
    pub size: u64,
    pub usage: BufferUsageFlags,
    pub sharing_mode: SharingMode,
    pub queue_family_index_count: u32,
}

/// The priority of a memory, as the bits of the 32-bit number that the device takes.
#[derive(Debug, Clone, Copy, PartialEq, Eq, Structural)]
pub struct MemoryPriority {
    pub bits: u32,
}

/// A range of a mapped memory.
#[derive(Debug, Clone, Copy, PartialEq, Eq, Structural)]
pub struct MappedMemoryRange {
    pub memory: DeviceMemory,
    pub offset: u64,
    pub size: u64,
}

impl MappedMemoryRange {
    /// Offset and size are multiples of `atom`.
    pub open spec fn atom_aligned(self, atom: int) -> bool {
        self.offset as int % atom == 0 && self.size as int % atom == 0
    }
}

/// A set of properties has those of another exactly where it has each of its bits.
pub proof fn law_includes_is_every_bit(flags: MemoryPropertyFlags, other: MemoryPropertyFlags)
    ensures
        flags.includes(other) <==> forall|t: u32|
            t < 32 && #[trigger] (other.bits >> t) & 1 == 1 ==> (flags.bits >> t) & 1 == 1,
{
    let (a, b) = (flags.bits, other.bits);
    if flags.includes(other) {
        assert forall|t: u32| t < 32 && #[trigger] (other.bits >> t) & 1 == 1 implies (flags.bits
            >> t) & 1 == 1 by {
            assert((a >> t) & 1 == 1) by (bit_vector)
                requires
                    t < 32,
                    a & b == b,
                    (b >> t) & 1 == 1,
            ;
        }
    }
    if forall|t: u32| t < 32 && #[trigger] (b >> t) & 1 == 1 ==> (a >> t) & 1 == 1 {
        lemma_bits_below(a, b, 32);
    }
}

/// Where the first `n` bits of `b` are bits of `a`, what `b` has and `a` has not begins behind
/// them.
proof fn lemma_bits_below(a: u32, b: u32, n: u32)
    requires
        n <= 32,
        forall|t: u32| t < n && #[trigger] (b >> t) & 1 == 1 ==> (a >> t) & 1 == 1,
    ensures
        n == 32 ==> a & b == b,
        n < 32 ==> ((b & !a) >> n) << n == b & !a,
    decreases n,
{
    if n > 0 {
        let m = (n - 1) as u32;
        lemma_bits_below(a, b, m);
        assert((b >> m) & 1 == 1 ==> (a >> m) & 1 == 1);
        if n == 32 {
            assert(a & b == b) by (bit_vector)
                requires
                    m == 31,
                    ((b & !a) >> m) << m == b & !a,
                    (b >> m) & 1 == 1 ==> (a >> m) & 1 == 1,
            ;
        } else {
            assert(((b & !a) >> n) << n == b & !a) by (bit_vector)
                requires
                    n < 32,
                    m < 32,
                    n == m + 1,
                    ((b & !a) >> m) << m == b & !a,
                    (b >> m) & 1 == 1 ==> (a >> m) & 1 == 1,
            ;
        }
    } else {
        assert(((b & !a) >> 0u32) << 0u32 == b & !a) by (bit_vector);
    }
}

} // verus!
