//! Objects that device memory is bound to.

use vstd::prelude::*;
use crate::vulkan::{Buffer, Image};

verus! {

/// The kinds of objects that memory is bound to.
#[derive(Debug, Clone, Copy, PartialEq, Eq, Structural)]
pub enum MemoryBoundType {
    Buffer,
    Image,
}

/// The kind and the handle of an object that memory is bound to.
#[derive(Debug, Clone, Copy, PartialEq, Eq, Structural)]
pub struct BoundObject {
    pub object_type: MemoryBoundType,
    pub handle: u64,
}

/// An object that memory is bound to.
pub trait MemoryBound {
    /// The object's kind.
    spec fn kind(&self) -> MemoryBoundType;

    /// The object's handle.
    spec fn handle(&self) -> u64;

    /// The object's kind.
    fn object_type(&self) -> (r: MemoryBoundType)
        ensures
            r == self.kind(),
    ;

    /// The object's handle.
    fn object_handle(&self) -> (r: u64)
        ensures
            r == self.handle(),
    ;
}

impl MemoryBound for Buffer {
    open spec fn kind(&self) -> MemoryBoundType {
        MemoryBoundType::Buffer
    }

    open spec fn handle(&self) -> u64 {
        self.raw
    }

    fn object_type(&self) -> (r: MemoryBoundType) {
        MemoryBoundType::Buffer
    }

    fn object_handle(&self) -> (r: u64) {
        self.raw
    }
}

impl MemoryBound for Image {
    open spec fn kind(&self) -> MemoryBoundType {
        MemoryBoundType::Image
    }

    open spec fn handle(&self) -> u64 {
        self.raw
    }

    fn object_type(&self) -> (r: MemoryBoundType) {
        MemoryBoundType::Image
    }

    fn object_handle(&self) -> (r: u64) {
        self.raw
    }
}

/// Buffers and images are known by their kind and by their handle.
pub proof fn law_objects_are_known_by_kind_and_handle(buffer: Buffer, image: Image)
    ensures
        buffer.kind() is Buffer,
        buffer.handle() == buffer.raw,
        image.kind() is Image,
        image.handle() == image.raw,
{
}

} // verus!
