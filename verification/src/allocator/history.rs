//! What holds of a heap over a whole run of allocations and frees.
//!
//! A well-formed chain is determined by the region it tiles and by the
//! allocations that are outstanding in it. So whenever the outstanding
//! allocations are those of an earlier moment, the chain is the chain of
//! that moment, whatever happened in between and in whatever order.
use vstd::prelude::*;
use super::linked_list::{LinkedAllocatorNode, HEADER_SIZE};
use super::{
    allocate_chain, allocate_result, carve, chain_wf, deallocate_chain, deallocate_result, find, first_fit,
    joined, lemma_carve_wf, lemma_chain_ordered, lemma_find_from, lemma_first_fit_from, lemma_position,
    lemma_release_wf, merges_backward, merges_forward, needs_padding, release, used_node,
};

verus! {

/// The allocations that are outstanding in a chain: the first usable byte
/// and the size of every node that is in use.
pub open spec fn allocations(s: Seq<LinkedAllocatorNode>) -> Set<(int, int)> {
    Set::new(
        |a: (int, int)|
            exists|i: int| 0 <= i < s.len() && !(#[trigger] s[i]).free && s[i].start() == a.0 && s[i].size == a.1,
    )
}

/// Whether two chains tile the same region of memory.
pub open spec fn same_region(s: Seq<LinkedAllocatorNode>, t: Seq<LinkedAllocatorNode>) -> bool {
    &&& s.len() > 0
    &&& t.len() > 0
    &&& s[0].address == t[0].address
    &&& s.last().limit() == t.last().limit()
}

/// One call on a heap.
pub enum HeapCall {
    /// `allocate(size, align)`.
    Allocate {
        /// Bytes asked for.
        size: usize,
        /// Alignment asked for.
        align: usize,
    },
    /// `deallocate(ptr, ..)`.
    Deallocate {
        /// Address handed in.
        ptr: usize,
    },
}

/// The chain after one call.
pub open spec fn step(s: Seq<LinkedAllocatorNode>, call: HeapCall) -> Seq<LinkedAllocatorNode> {
    match call {
        HeapCall::Allocate { size, align } => allocate_chain(s, size as int, align as int),
        HeapCall::Deallocate { ptr } => deallocate_chain(s, ptr as int),
    }
}

/// The chain after a run of calls, made in order.
pub open spec fn run(s: Seq<LinkedAllocatorNode>, calls: Seq<HeapCall>) -> Seq<LinkedAllocatorNode>
    decreases calls.len(),
{
    if calls.len() == 0 {
        s
    } else {
        step(run(s, calls.drop_last()), calls.last())
    }
}

/// In a well-formed chain no two nodes begin at the same address.
pub proof fn lemma_addresses_differ(s: Seq<LinkedAllocatorNode>, i: int, j: int)
    requires
        chain_wf(s),
        0 <= i < s.len(),
        0 <= j < s.len(),
        s[i].address == s[j].address,
    ensures
        i == j,
{
    if i < j {
        lemma_chain_ordered(s, i, j);
    } else if j < i {
        lemma_chain_ordered(s, j, i);
    }
}

/// Every node of a well-formed chain ends at or before the end of the
/// region, and only the last node ends there.
pub proof fn lemma_ends_inside(s: Seq<LinkedAllocatorNode>, i: int)
    requires
        chain_wf(s),
        0 <= i < s.len(),
    ensures
        s[i].limit() <= s.last().limit(),
        s[i].limit() == s.last().limit() ==> i == s.len() - 1,
{
    if i < s.len() - 1 {
        lemma_chain_ordered(s, i, s.len() - 1);
    }
}

/// Two well-formed chains over the same region with the same outstanding
/// allocations agree on their first `n` nodes, and have that many.
proof fn lemma_prefix(s: Seq<LinkedAllocatorNode>, t: Seq<LinkedAllocatorNode>, n: int)
    requires
        chain_wf(s),
        chain_wf(t),
        same_region(s, t),
        allocations(s) == allocations(t),
        0 <= n <= s.len(),
    ensures
        n <= t.len(),
        forall|j: int| 0 <= j < n ==> s[j] == t[j],
    decreases n,
{
    if n > 0 {
        lemma_prefix(s, t, n - 1);
        let i = n - 1;
        // The node exists in both chains and begins at the same address.
        if i > 0 {
            assert(s[i - 1] == t[i - 1]);
            assert(joined(s, i - 1));
            lemma_ends_inside(t, i - 1);
            lemma_ends_inside(s, i);
            assert(i < t.len());
            assert(joined(t, i - 1));
        }
        assert(s[i].address == t[i].address);
        lemma_same_node(s, t, i);
        lemma_same_node(t, s, i);
        if s[i].free && t[i].free {
            lemma_same_limit(s, t, i);
            lemma_same_limit(t, s, i);
        }
        lemma_ends_inside(s, i);
        lemma_ends_inside(t, i);
        if i < s.len() - 1 {
            assert(joined(s, i));
        }
        if i < t.len() - 1 {
            assert(joined(t, i));
        }
    }
}

/// Where node `i` of `s` is in use and node `i` of `t` begins at the same
/// address, node `i` of `t` is in use too, with the same size.
proof fn lemma_same_node(s: Seq<LinkedAllocatorNode>, t: Seq<LinkedAllocatorNode>, i: int)
    requires
        chain_wf(s),
        chain_wf(t),
        allocations(s) == allocations(t),
        0 <= i < s.len(),
        i < t.len(),
        s[i].address == t[i].address,
    ensures
        !s[i].free ==> !t[i].free && t[i].size == s[i].size,
{
    if !s[i].free {
        let a = (s[i].start(), s[i].size as int);
        assert(allocations(s).contains(a));
        assert(allocations(t).contains(a));
        let j = choose|j: int| 0 <= j < t.len() && !(#[trigger] t[j]).free && t[j].start() == a.0 && t[j].size == a.1;
        lemma_addresses_differ(t, i, j);
    }
}

/// Where node `i` is free in both chains and begins at the same address,
/// node `i` of `s` does not end before node `i` of `t`.
proof fn lemma_same_limit(s: Seq<LinkedAllocatorNode>, t: Seq<LinkedAllocatorNode>, i: int)
    requires
        chain_wf(s),
        chain_wf(t),
        same_region(s, t),
        allocations(s) == allocations(t),
        0 <= i < s.len(),
        i < t.len(),
        s[i].address == t[i].address,
        s[i].free,
        t[i].free,
    ensures
        s[i].limit() >= t[i].limit(),
{
    if s[i].limit() < t[i].limit() {
        lemma_ends_inside(t, i);
        lemma_ends_inside(s, i);
        // Node `i` is not the last of `s`; the next one is in use.
        assert(i < s.len() - 1);
        assert(joined(s, i));
        let a = (s[i + 1].start(), s[i + 1].size as int);
        assert(allocations(s).contains(a));
        assert(allocations(t).contains(a));
        let j = choose|j: int| 0 <= j < t.len() && !(#[trigger] t[j]).free && t[j].start() == a.0 && t[j].size == a.1;
        if j < i {
            lemma_chain_ordered(t, j, i);
        } else if j > i {
            lemma_chain_ordered(t, i, j);
        }
    }
}

/// A well-formed chain is determined by its region and its outstanding
/// allocations.
pub proof fn lemma_chain_determined(s: Seq<LinkedAllocatorNode>, t: Seq<LinkedAllocatorNode>)
    requires
        chain_wf(s),
        chain_wf(t),
        same_region(s, t),
        allocations(s) == allocations(t),
    ensures
        s == t,
{
    lemma_prefix(s, t, s.len() as int);
    lemma_prefix(t, s, t.len() as int);
    assert(s =~= t);
}

/// A heap without outstanding allocations is one free node that spans the
/// whole region, less its header, and has no successor.
pub proof fn lemma_all_free(s: Seq<LinkedAllocatorNode>)
    requires
        chain_wf(s),
        s.len() > 0,
        allocations(s) == Set::<(int, int)>::empty(),
    ensures
        s.len() == 1,
        s[0].free,
        s[0].next is None,
        s[0].size == s.last().limit() - s[0].address - HEADER_SIZE,
{
    assert forall|i: int| 0 <= i < s.len() implies (#[trigger] s[i]).free by {
        if !s[i].free {
            assert(allocations(s).contains((s[i].start(), s[i].size as int)));
        }
    }
    if s.len() > 1 {
        assert(joined(s, 0));
        assert(s[0].free && s[1].free);
    }
}

/// A call keeps the chain well-formed and its region the same.
pub proof fn lemma_step(s: Seq<LinkedAllocatorNode>, call: HeapCall)
    requires
        chain_wf(s),
    ensures
        chain_wf(step(s, call)),
        s.len() > 0 ==> same_region(s, step(s, call)),
        s.len() == 0 ==> step(s, call) == s,
{
    match call {
        HeapCall::Allocate { size, align } => {
            if allocate_result(s, size as int, align as int) is Ok {
                let i = first_fit(s, size as int, align as int);
                lemma_first_fit_from(s, 0, size as int, align as int);
                lemma_carve_wf(s, i, size as int, align as int);
                lemma_position(s[i], size as int, align as int);
                let t = carve(s, i, size as int, align as int);
                assert(t[0].address == s[0].address);
                if i < s.len() - 1 {
                    assert(t.last() == s.last());
                }
            }
        },
        HeapCall::Deallocate { ptr } => {
            if deallocate_result(s, ptr as int) is Ok {
                let i = find(s, ptr as int);
                lemma_find_from(s, 0, ptr as int);
                lemma_release_wf(s, i);
                lemma_release_region(s, i);
            }
        },
    }
}

/// Freeing a node keeps the region of the chain.
proof fn lemma_release_region(s: Seq<LinkedAllocatorNode>, i: int)
    requires
        chain_wf(s),
        0 <= i < s.len(),
    ensures
        same_region(s, release(s, i)),
{
    let t = release(s, i);
    lemma_release_wf(s, i);
    let f: int = if merges_forward(s, i) { 1 } else { 0 };
    let b: int = if merges_backward(s, i) { 1 } else { 0 };
    assert(t.len() == s.len() - f - b);
    if i + 1 < s.len() {
        assert(joined(s, i));
    }
    if i > 0 {
        assert(joined(s, i - 1));
    }
    assert(t[0].address == s[0].address);
    if i + f < s.len() - 1 {
        assert(t.last() == s.last());
    } else {
        assert(t.last().limit() == s.last().limit());
    }
}

/// A run of calls keeps the chain well-formed and its region the same.
pub proof fn lemma_run(s: Seq<LinkedAllocatorNode>, calls: Seq<HeapCall>)
    requires
        chain_wf(s),
    ensures
        chain_wf(run(s, calls)),
        s.len() > 0 ==> same_region(s, run(s, calls)),
    decreases calls.len(),
{
    if calls.len() > 0 {
        lemma_run(s, calls.drop_last());
        lemma_step(run(s, calls.drop_last()), calls.last());
    }
}

/// Whenever a run of calls on an initialized heap leaves the outstanding
/// allocations as they were at its start, it leaves the whole chain as it
/// was: the nodes, their sizes and their number, in whatever order the
/// calls were made.
pub proof fn lemma_balanced_run(s: Seq<LinkedAllocatorNode>, calls: Seq<HeapCall>)
    requires
        chain_wf(s),
        s.len() > 0,
        allocations(run(s, calls)) == allocations(s),
    ensures
        run(s, calls) == s,
{
    lemma_run(s, calls);
    lemma_chain_determined(run(s, calls), s);
}

/// A run of calls on a heap of one free node that leaves nothing
/// outstanding ends with that one free node: it spans the region less its
/// header and has no successor.
pub proof fn lemma_run_returns_to_one_node(first: LinkedAllocatorNode, calls: Seq<HeapCall>)
    requires
        first.in_bounds(),
        first.free,
        first.next is None,
        allocations(run(seq![first], calls)) == Set::<(int, int)>::empty(),
    ensures
        run(seq![first], calls) == seq![first],
{
    let s = seq![first];
    assert(chain_wf(s));
    assert(allocations(s) =~= Set::<(int, int)>::empty());
    lemma_balanced_run(s, calls);
}

/// An allocation adds one node in use, at an address where no allocation
/// was outstanding, and changes no other outstanding allocation; a refused
/// allocation changes nothing. The chain grows by at most two nodes.
pub proof fn lemma_allocate_adds(s: Seq<LinkedAllocatorNode>, size: usize, align: usize)
    requires
        chain_wf(s),
    ensures
        allocate_chain(s, size as int, align as int).len() <= s.len() + 2,
        match allocate_result(s, size as int, align as int) {
            Ok(ptr) => {
                &&& allocations(allocate_chain(s, size as int, align as int)) == allocations(s).insert(
                    (ptr as int, size as int),
                )
                &&& forall|n: int| !allocations(s).contains((ptr as int, n))
            },
            Err(_) => allocate_chain(s, size as int, align as int) == s,
        },
{
    if let Ok(ptr) = allocate_result(s, size as int, align as int) {
        let i = first_fit(s, size as int, align as int);
        lemma_first_fit_from(s, 0, size as int, align as int);
        lemma_position(s[i], size as int, align as int);
        lemma_carve_wf(s, i, size as int, align as int);
        let t = carve(s, i, size as int, align as int);
        let k: int = if needs_padding(s[i], size as int, align as int) { 2 } else { 1 };
        assert(t.len() == s.len() + k);
        assert(t[i + 1] == used_node(s[i], size as int, align as int));
        assert forall|n: int| !allocations(s).contains((ptr as int, n)) by {
            if allocations(s).contains((ptr as int, n)) {
                let j = choose|j: int| 0 <= j < s.len() && !(#[trigger] s[j]).free && s[j].start() == ptr && s[j].size == n;
                if j < i {
                    lemma_chain_ordered(s, j, i);
                } else if j > i {
                    lemma_chain_ordered(s, i, j);
                }
            }
        }
        assert forall|a: (int, int)| allocations(t).contains(a) <==> allocations(s).insert(
            (ptr as int, size as int),
        ).contains(a) by {
            if allocations(t).contains(a) {
                let j = choose|j: int| 0 <= j < t.len() && !(#[trigger] t[j]).free && t[j].start() == a.0 && t[j].size == a.1;
                if j < i {
                    assert(t[j] == s[j]);
                    assert(!s[j].free && s[j].start() == a.0 && s[j].size == a.1);
                } else if j > i + k {
                    assert(t[j] == s[j - k]);
                    assert(!s[j - k].free && s[j - k].start() == a.0 && s[j - k].size == a.1);
                }
            }
            if allocations(s).contains(a) {
                let j = choose|j: int| 0 <= j < s.len() && !(#[trigger] s[j]).free && s[j].start() == a.0 && s[j].size == a.1;
                if j < i {
                    assert(t[j] == s[j]);
                    assert(!t[j].free && t[j].start() == a.0 && t[j].size == a.1);
                } else {
                    assert(t[j + k] == s[j]);
                    assert(!t[j + k].free && t[j + k].start() == a.0 && t[j + k].size == a.1);
                }
            }
            if a == (ptr as int, size as int) {
                assert(!t[i + 1].free && t[i + 1].start() == a.0 && t[i + 1].size == a.1);
            }
        }
        assert(allocations(t) =~= allocations(s).insert((ptr as int, size as int)));
    }
}

/// Freeing an outstanding allocation removes it and changes no other
/// outstanding allocation. Freeing at the start of a node that is free
/// already changes nothing, and so does a refused call.
pub proof fn lemma_deallocate_removes(s: Seq<LinkedAllocatorNode>, ptr: usize)
    requires
        chain_wf(s),
    ensures
        deallocate_chain(s, ptr as int).len() <= s.len(),
        match deallocate_result(s, ptr as int) {
            Ok(()) => if s[find(s, ptr as int)].free {
                deallocate_chain(s, ptr as int) == s
            } else {
                allocations(deallocate_chain(s, ptr as int)) == allocations(s).remove(
                    (ptr as int, s[find(s, ptr as int)].size as int),
                )
            },
            Err(_) => deallocate_chain(s, ptr as int) == s,
        },
{
    if deallocate_result(s, ptr as int) is Ok {
        let i = find(s, ptr as int);
        lemma_find_from(s, 0, ptr as int);
        lemma_release_wf(s, i);
        let t = release(s, i);
        let f: int = if merges_forward(s, i) { 1 } else { 0 };
        let b: int = if merges_backward(s, i) { 1 } else { 0 };
        if i + 1 < s.len() {
            assert(joined(s, i));
        }
        if i > 0 {
            assert(joined(s, i - 1));
        }
        assert(t.len() == s.len() - f - b);
        if s[i].free {
            assert(f == 0 && b == 0);
            assert(t =~= s);
        } else {
            let gone = (ptr as int, s[i].size as int);
            assert forall|a: (int, int)| allocations(t).contains(a) <==> allocations(s).remove(gone).contains(
                a,
            ) by {
                if allocations(t).contains(a) {
                    let j = choose|j: int| 0 <= j < t.len() && !(#[trigger] t[j]).free && t[j].start() == a.0 && t[j].size == a.1;
                    if j < i - b {
                        assert(t[j] == s[j]);
                        assert(!s[j].free && s[j].start() == a.0 && s[j].size == a.1);
                        lemma_chain_ordered(s, j, i);
                    } else if j > i - b {
                        assert(t[j] == s[j + f + b]);
                        assert(!s[j + f + b].free && s[j + f + b].start() == a.0 && s[j + f + b].size == a.1);
                        lemma_chain_ordered(s, i, j + f + b);
                    }
                }
                if allocations(s).remove(gone).contains(a) {
                    let j = choose|j: int| 0 <= j < s.len() && !(#[trigger] s[j]).free && s[j].start() == a.0 && s[j].size == a.1;
                    if j < i {
                        assert(j < i - b);
                        assert(t[j] == s[j]);
                        assert(!t[j].free && t[j].start() == a.0 && t[j].size == a.1);
                    } else if j > i {
                        assert(j > i + f);
                        assert(t[j - f - b] == s[j]);
                        assert(!t[j - f - b].free && t[j - f - b].start() == a.0 && t[j - f - b].size == a.1);
                    }
                }
            }
            assert(allocations(t) =~= allocations(s).remove(gone));
        }
    }
}

} // verus!
