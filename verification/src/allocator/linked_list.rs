//! The header that describes one region of the heap.
use vstd::prelude::*;
use super::LinkedListAllocator;

verus! {

/// Bytes that one header takes at the start of the region it describes.
pub const HEADER_SIZE: usize = 32;

/// One contiguous region of the heap: a header at `address`, followed by
/// `size` usable bytes.
#[derive(Debug, Clone, Copy, PartialEq, Eq, Structural)]
pub struct LinkedAllocatorNode {
    /// Usable bytes that follow the header.
    pub size: usize,
    /// Whether the usable bytes are free.
    pub free: bool,
    /// Address of the header of the next node in the chain.
    pub next: Option<usize>,
    /// Address of this node's header.
    pub address: usize,
}

impl LinkedAllocatorNode {
    /// Address of the first usable byte.
    pub open spec fn start(&self) -> int {
        self.address + HEADER_SIZE
    }

    /// Address one past the last usable byte.
    pub open spec fn limit(&self) -> int {
        self.address + HEADER_SIZE + self.size
    }

    /// The header and the usable bytes lie below the end of the address space.
    pub open spec fn in_bounds(&self) -> bool {
        self.limit() <= usize::MAX
    }

    /// A free node without successor for a region of `size` bytes, header
    /// included. It is not placed yet: its address is 0.
    pub fn new(size: usize) -> (node: Self)
        requires
            size >= HEADER_SIZE,
        ensures
            node == (LinkedAllocatorNode { size: (size - HEADER_SIZE) as usize, free: true, next: None, address: 0 }),
    {
        LinkedAllocatorNode { size: size - HEADER_SIZE, free: true, next: None, address: 0 }
    }

    /// Address of the first usable byte.
    pub fn start_address(&self) -> (address: usize)
        requires
            self.in_bounds(),
        ensures
            address == self.start(),
    {
        self.address + HEADER_SIZE
    }

    /// Address of the last usable byte; for an empty node this is the byte
    /// before the first usable one.
    pub fn end_address(&self) -> (address: usize)
        requires
            self.in_bounds(),
        ensures
            address == self.limit() - 1,
    {
        self.address + HEADER_SIZE - 1 + self.size
    }

    /// A cursor over the chain that begins at this node.
    pub fn as_iter(&self) -> (iter: LinkedAllocatorIter)
        ensures
            iter.position() == Some(self.address),
    {
        LinkedAllocatorIter { current: Some(self.address) }
    }
}

/// A cursor over the chain of nodes of a heap, in link order.
pub struct LinkedAllocatorIter {
    current: Option<usize>,
}

impl LinkedAllocatorIter {
    /// Address of the header that the next step reads, if any.
    pub closed spec fn position(&self) -> Option<usize> {
        self.current
    }

    /// Reads the node at the cursor in `heap` and moves the cursor to its
    /// successor. A cursor that stands on no node of `heap` yields nothing
    /// and stays where it is.
    pub fn next(&mut self, heap: &LinkedListAllocator) -> (node: Option<LinkedAllocatorNode>)
        ensures
            node == match old(self).position() {
                Some(address) => heap.node_at_spec(address),
                None => None,
            },
            final(self).position() == match node {
                Some(n) => n.next,
                None => old(self).position(),
            },
    {
        match self.current {
            None => None,
            Some(address) => {
                match heap.node_at(address) {
                    None => None,
                    Some(n) => {
                        self.current = n.next;
                        Some(n)
                    },
                }
            },
        }
    }
}

} // verus!
