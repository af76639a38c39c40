//! The free-list heap allocator.
//!
//! The heap is one region of memory cut into nodes. Each node is a header
//! followed by usable bytes; the nodes tile the region without gaps and are
//! chained in address order. The allocator keeps the headers in a table in
//! chain order instead of writing them into the memory they describe.
use vstd::prelude::*;
use vstd::arithmetic::div_mod::{lemma_fundamental_div_mod, lemma_mod_bound, lemma_mod_multiples_basic};

pub mod history;
pub mod linked_list;

pub use self::linked_list::{LinkedAllocatorIter, LinkedAllocatorNode, HEADER_SIZE};

use self::history::{allocations, lemma_allocate_adds, lemma_deallocate_removes};

verus! {

/// Why an operation on the heap was refused. Each of these is fatal to a
/// kernel: the caller is expected to halt.
#[derive(Debug, Clone, Copy, PartialEq, Eq, Structural)]
pub enum HeapError {
    /// The heap was used before `init`.
    NotInitialized,
    /// `init` was called on a heap that already has its region.
    AlreadyInitialized,
    /// The first node has a successor or reaches past the address space.
    InvalidRegion,
    /// An allocation asked for an alignment of zero.
    ZeroAlignment,
    /// No free node has room for the allocation.
    OutOfMemory,
    /// No node begins at the address handed to `deallocate`.
    UnknownPointer,
}

/// Node `i` ends where node `i + 1` begins and links to it, and the two are
/// not both free.
pub open spec fn joined(s: Seq<LinkedAllocatorNode>, i: int) -> bool {
    &&& s[i].limit() == s[i + 1].address
    &&& s[i].next == Some(s[i + 1].address)
    &&& !(s[i].free && s[i + 1].free)
}

/// The chain invariant: every node lies in the address space, each node
/// ends where its successor's header begins and links to it, the last node
/// links to nothing, and no two neighbours are both free.
pub open spec fn chain_wf(s: Seq<LinkedAllocatorNode>) -> bool {
    &&& forall|i: int| 0 <= i < s.len() ==> (#[trigger] s[i]).in_bounds()
    &&& forall|i: int| 0 <= i < s.len() - 1 ==> #[trigger] joined(s, i)
    &&& s.len() > 0 ==> s.last().next is None
}

/// Where the header of an allocation of `size` bytes aligned to `align`
/// goes when the allocation ends flush with the end of `n`.
#[verifier::opaque]
pub open spec fn flush_position(n: LinkedAllocatorNode, size: int, align: int) -> int {
    (n.limit() - size) / align * align - HEADER_SIZE
}

/// Where it goes when a gap is left behind the allocation: low enough for
/// the header of a leftover node to follow the allocation.
#[verifier::opaque]
pub open spec fn padded_position(n: LinkedAllocatorNode, size: int, align: int) -> int {
    (n.limit() - size - HEADER_SIZE) / align * align - HEADER_SIZE
}

/// Whether rounding down to `align` moves the allocation away from the end
/// of `n`, so that a leftover node must fill the gap.
pub open spec fn needs_padding(n: LinkedAllocatorNode, size: int, align: int) -> bool {
    flush_position(n, size, align) != n.limit() - size - HEADER_SIZE
}

/// Address of the header of the allocation inside `n`.
pub open spec fn position(n: LinkedAllocatorNode, size: int, align: int) -> int {
    if needs_padding(n, size, align) {
        padded_position(n, size, align)
    } else {
        flush_position(n, size, align)
    }
}

/// Whether `n` can take the allocation: it is free and the new header does
/// not begin before the first usable byte of `n`.
pub open spec fn fits(n: LinkedAllocatorNode, size: int, align: int) -> bool {
    n.free && position(n, size, align) >= n.start()
}

/// Index of the first node at or after `from` that can take the allocation,
/// or the length of the chain if there is none.
pub open spec fn first_fit_from(s: Seq<LinkedAllocatorNode>, from: int, size: int, align: int) -> int
    decreases s.len() - from,
{
    if from < 0 || from >= s.len() {
        s.len() as int
    } else if fits(s[from], size, align) {
        from
    } else {
        first_fit_from(s, from + 1, size, align)
    }
}

/// Index of the first node of the chain that can take the allocation, or
/// the length of the chain.
pub open spec fn first_fit(s: Seq<LinkedAllocatorNode>, size: int, align: int) -> int {
    first_fit_from(s, 0, size, align)
}

/// What is left of `n` in front of the allocation: the same header, shrunk
/// to the bytes before the new header and linked to it.
pub open spec fn shrunk_node(n: LinkedAllocatorNode, size: int, align: int) -> LinkedAllocatorNode {
    LinkedAllocatorNode {
        size: (position(n, size, align) - n.start()) as usize,
        free: true,
        next: Some(position(n, size, align) as usize),
        address: n.address,
    }
}

/// The node of the allocation itself.
pub open spec fn used_node(n: LinkedAllocatorNode, size: int, align: int) -> LinkedAllocatorNode {
    LinkedAllocatorNode {
        size: size as usize,
        free: false,
        next: if needs_padding(n, size, align) {
            Some((position(n, size, align) + HEADER_SIZE + size) as usize)
        } else {
            n.next
        },
        address: position(n, size, align) as usize,
    }
}

/// The free node that fills the gap between the allocation and the end of
/// `n`.
pub open spec fn leftover_node(n: LinkedAllocatorNode, size: int, align: int) -> LinkedAllocatorNode {
    LinkedAllocatorNode {
        size: (n.limit() - (position(n, size, align) + 2 * HEADER_SIZE + size)) as usize,
        free: true,
        next: n.next,
        address: (position(n, size, align) + HEADER_SIZE + size) as usize,
    }
}

/// The chain after the allocation was carved out of node `i`.
pub open spec fn carve(s: Seq<LinkedAllocatorNode>, i: int, size: int, align: int) -> Seq<LinkedAllocatorNode> {
    let t = s.update(i, shrunk_node(s[i], size, align)).insert(i + 1, used_node(s[i], size, align));
    if needs_padding(s[i], size, align) {
        t.insert(i + 2, leftover_node(s[i], size, align))
    } else {
        t
    }
}

/// What `allocate` returns on the chain `s`.
pub open spec fn allocate_result(s: Seq<LinkedAllocatorNode>, size: int, align: int) -> Result<usize, HeapError> {
    if s.len() == 0 {
        Err(HeapError::NotInitialized)
    } else if align == 0 {
        Err(HeapError::ZeroAlignment)
    } else if first_fit(s, size, align) >= s.len() {
        Err(HeapError::OutOfMemory)
    } else {
        Ok((position(s[first_fit(s, size, align)], size, align) + HEADER_SIZE) as usize)
    }
}

/// The chain that `allocate` leaves behind.
pub open spec fn allocate_chain(s: Seq<LinkedAllocatorNode>, size: int, align: int) -> Seq<LinkedAllocatorNode> {
    if allocate_result(s, size, align) is Ok {
        carve(s, first_fit(s, size, align), size, align)
    } else {
        s
    }
}

/// Index of the first node at or after `from` whose usable bytes begin at
/// `ptr`, or the length of the chain if there is none.
pub open spec fn find_from(s: Seq<LinkedAllocatorNode>, from: int, ptr: int) -> int
    decreases s.len() - from,
{
    if from < 0 || from >= s.len() {
        s.len() as int
    } else if s[from].start() == ptr {
        from
    } else {
        find_from(s, from + 1, ptr)
    }
}

/// Index of the node whose usable bytes begin at `ptr`, or the length of
/// the chain.
pub open spec fn find(s: Seq<LinkedAllocatorNode>, ptr: int) -> int {
    find_from(s, 0, ptr)
}

/// Whether freeing node `i` absorbs its successor: there is one, it is free
/// and it begins where node `i` ends.
pub open spec fn merges_forward(s: Seq<LinkedAllocatorNode>, i: int) -> bool {
    i + 1 < s.len() && s[i + 1].free && s[i].limit() == s[i + 1].address
}

/// Whether freeing node `i` lets its predecessor absorb it: there is one,
/// it is free and it ends where node `i` begins.
pub open spec fn merges_backward(s: Seq<LinkedAllocatorNode>, i: int) -> bool {
    i > 0 && s[i - 1].free && s[i - 1].limit() == s[i].address
}

/// Node `i` once it is free and has absorbed its successor where
/// `merges_forward` holds.
pub open spec fn freed_node(s: Seq<LinkedAllocatorNode>, i: int) -> LinkedAllocatorNode {
    if merges_forward(s, i) {
        LinkedAllocatorNode {
            size: (s[i].size + s[i + 1].size + HEADER_SIZE) as usize,
            free: true,
            next: s[i + 1].next,
            address: s[i].address,
        }
    } else {
        LinkedAllocatorNode { size: s[i].size, free: true, next: s[i].next, address: s[i].address }
    }
}

/// The chain after node `i` was freed and merged with its free neighbours.
pub open spec fn release(s: Seq<LinkedAllocatorNode>, i: int) -> Seq<LinkedAllocatorNode> {
    let n = freed_node(s, i);
    let t = if merges_forward(s, i) {
        s.update(i, n).remove(i + 1)
    } else {
        s.update(i, n)
    };
    if merges_backward(s, i) {
        t.update(
            i - 1,
            LinkedAllocatorNode {
                size: (s[i - 1].size + n.size + HEADER_SIZE) as usize,
                free: true,
                next: n.next,
                address: s[i - 1].address,
            },
        ).remove(i)
    } else {
        t
    }
}

/// What `deallocate` returns on the chain `s`.
pub open spec fn deallocate_result(s: Seq<LinkedAllocatorNode>, ptr: int) -> Result<(), HeapError> {
    if s.len() == 0 {
        Err(HeapError::NotInitialized)
    } else if find(s, ptr) >= s.len() {
        Err(HeapError::UnknownPointer)
    } else {
        Ok(())
    }
}

/// The chain that `deallocate` leaves behind.
pub open spec fn deallocate_chain(s: Seq<LinkedAllocatorNode>, ptr: int) -> Seq<LinkedAllocatorNode> {
    if deallocate_result(s, ptr) is Ok {
        release(s, find(s, ptr))
    } else {
        s
    }
}

/// Whether a first node can open a heap at `address`: it has no successor
/// and its bytes lie in the address space.
pub open spec fn valid_region(address: usize, node: LinkedAllocatorNode) -> bool {
    node.next is None && address + HEADER_SIZE + node.size <= usize::MAX
}

/// The free-list heap: the chain of nodes of one region of memory.
pub struct LinkedListAllocator {
    nodes: Vec<LinkedAllocatorNode>,
}

impl View for LinkedListAllocator {
    type V = Seq<LinkedAllocatorNode>;

    /// The nodes in chain order; empty before `init`.
    closed spec fn view(&self) -> Seq<LinkedAllocatorNode> {
        self.nodes@
    }
}

/// Rounding `x` down to a multiple of `a` gives a multiple of `a` that is at
/// most `x` and more than `x - a`.
pub proof fn lemma_round_down(x: int, a: int)
    requires
        a > 0,
    ensures
        x / a * a <= x,
        x - a < x / a * a,
        (x / a * a) % a == 0,
{
    lemma_fundamental_div_mod(x, a);
    lemma_mod_bound(x, a);
    lemma_mod_multiples_basic(x / a, a);
    assert(a * (x / a) == x / a * a) by (nonlinear_arith);
}

/// `first_fit_from` returns an index from `from` on; the node there fits,
/// and no node before it, from `from` on, does.
pub proof fn lemma_first_fit_from(s: Seq<LinkedAllocatorNode>, from: int, size: int, align: int)
    requires
        0 <= from <= s.len(),
    ensures
        from <= first_fit_from(s, from, size, align) <= s.len(),
        first_fit_from(s, from, size, align) < s.len() ==> fits(
            s[first_fit_from(s, from, size, align)],
            size,
            align,
        ),
        forall|j: int| from <= j < first_fit_from(s, from, size, align) ==> !fits(#[trigger] s[j], size, align),
    decreases s.len() - from,
{
    if from < s.len() && !fits(s[from], size, align) {
        lemma_first_fit_from(s, from + 1, size, align);
    }
}

/// `find_from` returns an index from `from` on; the usable bytes of the
/// node there begin at `ptr`, and those of no node before it, from `from`
/// on, do.
pub proof fn lemma_find_from(s: Seq<LinkedAllocatorNode>, from: int, ptr: int)
    requires
        0 <= from <= s.len(),
    ensures
        from <= find_from(s, from, ptr) <= s.len(),
        find_from(s, from, ptr) < s.len() ==> s[find_from(s, from, ptr)].start() == ptr,
        forall|j: int| from <= j < find_from(s, from, ptr) ==> (#[trigger] s[j]).start() != ptr,
    decreases s.len() - from,
{
    if from < s.len() && s[from].start() != ptr {
        lemma_find_from(s, from + 1, ptr);
    }
}

/// In a well-formed chain the addresses grow: a node ends at or before the
/// header of every later node, and each node in between takes at least a
/// header's width.
pub proof fn lemma_chain_ordered(s: Seq<LinkedAllocatorNode>, i: int, j: int)
    requires
        chain_wf(s),
        0 <= i < j < s.len(),
    ensures
        s[i].limit() <= s[j].address,
        s[i].address + HEADER_SIZE * (j - i) <= s[j].address,
    decreases j - i,
{
    if i + 1 < j {
        lemma_chain_ordered(s, i, j - 1);
        assert(joined(s, j - 1));
    } else {
        assert(joined(s, i));
    }
}

/// An allocation that fits lies inside the node it is carved from, at an
/// aligned address, and leaves room for its own header in front of it.
pub proof fn lemma_position(n: LinkedAllocatorNode, size: int, align: int)
    requires
        n.in_bounds(),
        size >= 0,
        align > 0,
        fits(n, size, align),
    ensures
        n.start() <= position(n, size, align),
        (position(n, size, align) + HEADER_SIZE) % align == 0,
        needs_padding(n, size, align) ==> position(n, size, align) + 2 * HEADER_SIZE + size <= n.limit(),
        !needs_padding(n, size, align) ==> position(n, size, align) + HEADER_SIZE + size == n.limit(),
{
    reveal(flush_position);
    reveal(padded_position);
    lemma_round_down(n.limit() - size, align);
    lemma_round_down(n.limit() - size - HEADER_SIZE, align);
}

/// Carving an allocation out of a node that fits keeps the chain
/// well-formed.
pub proof fn lemma_carve_wf(s: Seq<LinkedAllocatorNode>, i: int, size: int, align: int)
    requires
        chain_wf(s),
        0 <= i < s.len(),
        0 <= size <= usize::MAX,
        align > 0,
        fits(s[i], size, align),
    ensures
        chain_wf(carve(s, i, size, align)),
{
    let n = s[i];
    lemma_position(n, size, align);
    let t = carve(s, i, size, align);
    let k: int = if needs_padding(n, size, align) { 2 } else { 1 };
    assert(t.len() == s.len() + k);
    assert forall|j: int| 0 <= j < t.len() implies (#[trigger] t[j]).in_bounds() by {
        if j < i {
            assert(t[j] == s[j]);
        } else if j > i + k {
            assert(t[j] == s[j - k]);
        }
    }
    assert forall|j: int| 0 <= j < t.len() - 1 implies #[trigger] joined(t, j) by {
        if j < i - 1 {
            assert(joined(s, j));
        } else if j == i - 1 {
            assert(joined(s, j));
        } else if j > i + k {
            assert(joined(s, j - k));
        } else if j == i + k {
            assert(joined(s, i));
        }
    }
    if i == s.len() - 1 {
        assert(t.last().next is None);
    } else {
        assert(t.last() == s.last());
    }
}

/// Freeing a node and merging it with its free neighbours keeps the chain
/// well-formed.
pub proof fn lemma_release_wf(s: Seq<LinkedAllocatorNode>, i: int)
    requires
        chain_wf(s),
        0 <= i < s.len(),
    ensures
        chain_wf(release(s, i)),
        release(s, i).len() <= s.len(),
{
    let t = release(s, i);
    let f: int = if merges_forward(s, i) { 1 } else { 0 };
    let b: int = if merges_backward(s, i) { 1 } else { 0 };
    let a = i - b;
    if i + 1 < s.len() {
        assert(joined(s, i));
    }
    if i > 0 {
        assert(joined(s, i - 1));
    }
    if i + f + 1 < s.len() {
        assert(joined(s, i + f));
    }
    if a > 0 {
        assert(joined(s, a - 1));
    }
    assert(t.len() == s.len() - f - b);
    assert forall|j: int| 0 <= j < t.len() implies (#[trigger] t[j]).in_bounds() by {
        if j < a {
            assert(t[j] == s[j]);
        } else if j > a {
            assert(t[j] == s[j + f + b]);
        } else {
            assert(s[i + f].in_bounds());
        }
    }
    assert forall|j: int| 0 <= j < t.len() - 1 implies #[trigger] joined(t, j) by {
        if j < a - 1 {
            assert(joined(s, j));
        } else if j == a - 1 {
            assert(joined(s, j));
        } else if j > a {
            assert(joined(s, j + f + b));
        } else {
            assert(t[j + 1] == s[i + f + 1]);
        }
    }
    if a == t.len() - 1 {
        assert(i + f == s.len() - 1);
    } else {
        assert(t.last() == s.last());
    }
}

impl LinkedAllocatorNode {
    /// Address of the header of an allocation of `size` bytes aligned to
    /// `align` inside this node, if the node can take it.
    pub fn place(&self, size: usize, align: usize) -> (header: Option<usize>)
        requires
            self.in_bounds(),
            align > 0,
        ensures
            header is Some == fits(*self, size as int, align as int),
            header matches Some(p) ==> p == position(*self, size as int, align as int),
    {
        proof {
            reveal(flush_position);
            reveal(padded_position);
            lemma_round_down(self.limit() - size, align as int);
            lemma_round_down(self.limit() - size - HEADER_SIZE, align as int);
        }
        if !self.free {
            return None;
        }
        let limit: usize = self.address + HEADER_SIZE + self.size;
        if size > limit {
            return None;
        }
        let room: usize = limit - size;
        let flush: usize = room / align * align;
        let body: usize = if flush == room {
            flush
        } else if room < HEADER_SIZE {
            return None;
        } else {
            (room - HEADER_SIZE) / align * align
        };
        if body < HEADER_SIZE || body - HEADER_SIZE < self.address + HEADER_SIZE {
            return None;
        }
        Some(body - HEADER_SIZE)
    }
}

impl LinkedListAllocator {
    #[verifier::type_invariant]
    spec fn inv(self) -> bool {
        chain_wf(self.nodes@)
    }

    /// Whether `init` has given the heap its region.
    pub open spec fn initialized(&self) -> bool {
        self@.len() > 0
    }

    /// The node whose header lies at `address`, if there is one.
    pub open spec fn node_at_spec(&self, address: usize) -> Option<LinkedAllocatorNode> {
        if exists|i: int| 0 <= i < self@.len() && (#[trigger] self@[i]).address == address {
            Some(self@[choose|i: int| 0 <= i < self@.len() && (#[trigger] self@[i]).address == address])
        } else {
            None
        }
    }

    /// A heap without a region.
    pub fn new() -> (heap: LinkedListAllocator)
        ensures
            heap@ == Seq::<LinkedAllocatorNode>::empty(),
    {
        LinkedListAllocator { nodes: Vec::new() }
    }

    /// Gives the heap its region: `node`, placed at `address`, becomes the
    /// only node of the chain.
    pub fn init(&mut self, address: usize, node: LinkedAllocatorNode) -> (r: Result<(), HeapError>)
        ensures
            r == (if old(self).initialized() {
                Err::<(), HeapError>(HeapError::AlreadyInitialized)
            } else if !valid_region(address, node) {
                Err(HeapError::InvalidRegion)
            } else {
                Ok(())
            }),
            r is Ok ==> final(self)@ == seq![
                LinkedAllocatorNode { size: node.size, free: node.free, next: None, address },
            ],
            r is Err ==> final(self)@ == old(self)@,
    {
        if self.nodes.len() > 0 {
            return Err(HeapError::AlreadyInitialized);
        }
        if node.next.is_some() || address > usize::MAX - HEADER_SIZE || node.size > usize::MAX
            - HEADER_SIZE - address {
            return Err(HeapError::InvalidRegion);
        }
        let first = LinkedAllocatorNode { size: node.size, free: node.free, next: None, address };
        let mut nodes: Vec<LinkedAllocatorNode> = Vec::new();
        nodes.push(first);
        assert(nodes@ =~= seq![first]);
        self.nodes = nodes;
        Ok(())
    }

    /// The first node of the chain.
    pub fn nodes_mut(&self) -> (head: Option<LinkedAllocatorNode>)
        ensures
            head == (if self.initialized() {
                Some(self@[0])
            } else {
                None
            }),
    {
        if self.nodes.len() > 0 {
            Some(self.nodes[0])
        } else {
            None
        }
    }

    /// Number of nodes in the chain.
    pub fn node_count(&self) -> (count: usize)
        ensures
            count == self@.len(),
    {
        self.nodes.len()
    }

    /// The node whose header lies at `address`, if there is one.
    pub fn node_at(&self, address: usize) -> (node: Option<LinkedAllocatorNode>)
        ensures
            node == self.node_at_spec(address),
            node matches Some(n) ==> n.address == address && self@.contains(n),
    {
        let mut i: usize = 0;
        while i < self.nodes.len()
            invariant
                i <= self.nodes@.len(),
                forall|j: int| 0 <= j < i ==> (#[trigger] self.nodes@[j]).address != address,
            decreases self.nodes@.len() - i,
        {
            if self.nodes[i].address == address {
                proof {
                    use_type_invariant(self);
                    let c = choose|k: int| 0 <= k < self@.len() && (#[trigger] self@[k]).address == address;
                    if c < i {
                        lemma_chain_ordered(self@, c, i as int);
                    } else if c > i {
                        lemma_chain_ordered(self@, i as int, c);
                    }
                }
                return Some(self.nodes[i]);
            }
            i += 1;
        }
        None
    }

    /// Cuts the allocation whose header goes to `header` out of node `i`.
    fn carve_node(&mut self, i: usize, size: usize, align: usize, header: usize)
        requires
            i < old(self)@.len(),
            align > 0,
            fits(old(self)@[i as int], size as int, align as int),
            header == position(old(self)@[i as int], size as int, align as int),
        ensures
            final(self)@ == carve(old(self)@, i as int, size as int, align as int),
            chain_wf(final(self)@),
    {
        proof {
            use_type_invariant(&*self);
            lemma_position(self.nodes@[i as int], size as int, align as int);
            lemma_carve_wf(self.nodes@, i as int, size as int, align as int);
            if i > 0 {
                lemma_chain_ordered(self.nodes@, 0, i as int);
            }
        }
        let node = self.nodes[i];
        let padded = header + HEADER_SIZE + size != node.address + HEADER_SIZE + node.size;
        let mut nodes: Vec<LinkedAllocatorNode> = Vec::new();
        core::mem::swap(&mut nodes, &mut self.nodes);
        nodes.set(
            i,
            LinkedAllocatorNode {
                size: header - (node.address + HEADER_SIZE),
                free: true,
                next: Some(header),
                address: node.address,
            },
        );
        nodes.insert(
            i + 1,
            LinkedAllocatorNode {
                size,
                free: false,
                next: if padded {
                    Some(header + HEADER_SIZE + size)
                } else {
                    node.next
                },
                address: header,
            },
        );
        if padded {
            nodes.insert(
                i + 2,
                LinkedAllocatorNode {
                    size: node.address + HEADER_SIZE + node.size - (header + 2 * HEADER_SIZE + size),
                    free: true,
                    next: node.next,
                    address: header + HEADER_SIZE + size,
                },
            );
        }
        self.nodes = nodes;
    }

    /// Allocates `size` bytes at an address that is a multiple of `align`.
    ///
    /// The nodes are tried in chain order; the first free node with room
    /// takes the allocation at its upper end. The node shrinks to the bytes
    /// in front of the new header, the allocation gets a node of its own,
    /// and where rounding down to `align` leaves a gap behind the
    /// allocation, a free node fills it. The address returned is that of the
    /// first usable byte of the allocation's node.
    ///
    /// The bytes of the allocation lie in a node that was free, the chain
    /// grows by at most two nodes, and the allocation is one more
    /// outstanding allocation: no other begins at its address.
    pub fn allocate(&mut self, size: usize, align: usize) -> (r: Result<usize, HeapError>)
        ensures
            r == allocate_result(old(self)@, size as int, align as int),
            final(self)@ == allocate_chain(old(self)@, size as int, align as int),
            final(self)@.len() <= old(self)@.len() + 2,
            chain_wf(final(self)@),
            r matches Ok(ptr) ==> {
                let n = old(self)@[first_fit(old(self)@, size as int, align as int)];
                &&& ptr as int % align as int == 0
                &&& n.free
                &&& n.start() + HEADER_SIZE <= ptr
                &&& ptr + size <= n.limit()
                &&& allocations(final(self)@) == allocations(old(self)@).insert((ptr as int, size as int))
                &&& forall|n: int| !allocations(old(self)@).contains((ptr as int, n))
            },
    {
        proof {
            use_type_invariant(&*self);
        }
        if self.nodes.len() == 0 {
            return Err(HeapError::NotInitialized);
        }
        if align == 0 {
            return Err(HeapError::ZeroAlignment);
        }
        let mut i: usize = 0;
        while i < self.nodes.len()
            invariant
                *self == *old(self),
                chain_wf(self.nodes@),
                align > 0,
                i <= self.nodes@.len(),
                first_fit_from(self.nodes@, i as int, size as int, align as int) == first_fit(
                    self.nodes@,
                    size as int,
                    align as int,
                ),
            decreases self.nodes@.len() - i,
        {
            let node = self.nodes[i];
            if let Some(header) = node.place(size, align) {
                proof {
                    lemma_position(node, size as int, align as int);
                    lemma_allocate_adds(self@, size, align);
                }
                self.carve_node(i, size, align, header);
                return Ok(header + HEADER_SIZE);
            }
            i += 1;
        }
        Err(HeapError::OutOfMemory)
    }
    /// Frees node `i` and merges it with the free neighbours that it
    /// touches.
    fn release_node(&mut self, i: usize)
        requires
            i < old(self)@.len(),
        ensures
            final(self)@ == release(old(self)@, i as int),
            chain_wf(final(self)@),
            final(self)@.len() <= old(self)@.len(),
    {
        proof {
            use_type_invariant(&*self);
            lemma_release_wf(self.nodes@, i as int);
            if i + 1 < self.nodes@.len() {
                assert(joined(self.nodes@, i as int));
                assert(self.nodes@[i + 1].in_bounds());
                lemma_chain_ordered(self.nodes@, 0, i + 1);
            }
            if i > 0 {
                assert(joined(self.nodes@, i - 1));
            }
        }
        let mut nodes: Vec<LinkedAllocatorNode> = Vec::new();
        core::mem::swap(&mut nodes, &mut self.nodes);
        let mut node = nodes[i];
        node.free = true;
        if i < nodes.len() - 1 {
            let next = nodes[i + 1];
            if next.free && node.address + HEADER_SIZE + node.size == next.address {
                node.next = next.next;
                node.size = node.size + next.size + HEADER_SIZE;
                nodes.remove(i + 1);
            }
        }
        nodes.set(i, node);
        if i > 0 {
            let previous = nodes[i - 1];
            if previous.free && previous.address + HEADER_SIZE + previous.size == node.address {
                nodes.set(
                    i - 1,
                    LinkedAllocatorNode {
                        size: previous.size + node.size + HEADER_SIZE,
                        free: true,
                        next: node.next,
                        address: previous.address,
                    },
                );
                nodes.remove(i);
            }
        }
        assert(nodes@ =~= release(old(self)@, i as int));
        self.nodes = nodes;
    }

    /// Frees the allocation whose usable bytes begin at `ptr`.
    ///
    /// The node is marked free. Where its successor is free and begins
    /// where the node ends, the node absorbs it, header included; where its
    /// predecessor is free and ends where the node begins, the predecessor
    /// absorbs the node in the same way. The first node has no predecessor.
    /// `size` and `align` are those of the allocation and decide nothing.
    ///
    /// Freeing an outstanding allocation takes it from the outstanding
    /// allocations and leaves the others; freeing at the first byte of a
    /// free node changes nothing.
    pub fn deallocate(&mut self, ptr: usize, size: usize, align: usize) -> (r: Result<(), HeapError>)
        ensures
            r == deallocate_result(old(self)@, ptr as int),
            final(self)@ == deallocate_chain(old(self)@, ptr as int),
            final(self)@.len() <= old(self)@.len(),
            chain_wf(final(self)@),
            r is Ok ==> {
                let n = old(self)@[find(old(self)@, ptr as int)];
                if n.free {
                    final(self)@ == old(self)@
                } else {
                    allocations(final(self)@) == allocations(old(self)@).remove((ptr as int, n.size as int))
                }
            },
    {
        proof {
            use_type_invariant(&*self);
        }
        if self.nodes.len() == 0 {
            return Err(HeapError::NotInitialized);
        }
        let mut i: usize = 0;
        while i < self.nodes.len()
            invariant
                *self == *old(self),
                chain_wf(self.nodes@),
                i <= self.nodes@.len(),
                find_from(self.nodes@, i as int, ptr as int) == find(self.nodes@, ptr as int),
            decreases self.nodes@.len() - i,
        {
            let node = self.nodes[i];
            if node.address + HEADER_SIZE == ptr {
                proof {
                    lemma_deallocate_removes(self@, ptr);
                }
                self.release_node(i);
                return Ok(());
            }
            i += 1;
        }
        Err(HeapError::UnknownPointer)
    }
}

} // verus!
