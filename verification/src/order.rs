//! The heap order on a sequence of nodes, and the facts the sifting loops rest on.
//!
//! Position `i` has its parent at `(i - 1) / 2` and its children at `2 * i + 1` and
//! `2 * i + 2`. A sequence is in heap order when no node is earlier than its parent.

use vstd::prelude::*;

verus! {

/// One position of the heap array: a deadline and the slot that holds the rest of
/// the entry.
#[derive(Clone, Copy, Debug)]
pub struct Node {
    pub deadline: u64,
    pub slot: usize,
}

/// The position above `i`.
pub open spec fn parent(i: int) -> int {
    (i - 1) / 2
}

/// The node at `i` is not earlier than its parent.
pub open spec fn above_le(s: Seq<Node>, i: int) -> bool {
    s[parent(i)].deadline <= s[i].deadline
}

/// The node at `i` is not earlier than its grandparent.
pub open spec fn grand_le(s: Seq<Node>, i: int) -> bool {
    s[parent(parent(i))].deadline <= s[i].deadline
}

/// Every node is at or after its parent.
pub open spec fn is_heap(s: Seq<Node>) -> bool {
    forall|i: int| 1 <= i < s.len() ==> #[trigger] above_le(s, i)
}

/// Heap order everywhere but around `hole`: nothing is claimed between `hole` and its
/// parent, nor between `hole` and its children, but the children of `hole` are at or
/// after the parent of `hole`.
pub open spec fn heap_except(s: Seq<Node>, hole: int) -> bool {
    &&& forall|i: int|
        1 <= i < s.len() && i != hole && parent(i) != hole ==> #[trigger] above_le(s, i)
    &&& forall|i: int|
        1 <= i < s.len() && parent(i) == hole && hole > 0 ==> #[trigger] grand_le(s, i)
}

/// The children of `hole` are at or after it.
pub open spec fn below_ok(s: Seq<Node>, hole: int) -> bool {
    forall|i: int| 1 <= i < s.len() && parent(i) == hole ==> #[trigger] above_le(s, i)
}

/// `hole` is at or after its parent.
pub open spec fn above_ok(s: Seq<Node>, hole: int) -> bool {
    hole > 0 ==> above_le(s, hole)
}

/// In a heap the root is the earliest node.
pub proof fn lemma_root_is_earliest(s: Seq<Node>, i: int)
    requires
        is_heap(s),
        0 <= i < s.len(),
    ensures
        s[0].deadline <= s[i].deadline,
    decreases i,
{
    if i > 0 {
        assert(above_le(s, i));
        lemma_root_is_earliest(s, parent(i));
    }
}

/// A sequence that is in order around the hole too is a heap.
pub proof fn lemma_hole_closed(s: Seq<Node>, hole: int)
    requires
        heap_except(s, hole),
        below_ok(s, hole),
        above_ok(s, hole),
    ensures
        is_heap(s),
{
}

/// A heap is in order around any hole.
pub proof fn lemma_heap_has_no_hole(s: Seq<Node>, hole: int)
    requires
        is_heap(s),
        0 <= hole < s.len(),
    ensures
        heap_except(s, hole),
        below_ok(s, hole),
        above_ok(s, hole),
{
    assert forall|i: int| 1 <= i < s.len() && parent(i) == hole && hole > 0 implies #[trigger] grand_le(
        s,
        i,
    ) by {
        assert(above_le(s, i));
        assert(above_le(s, hole));
    }
}

} // verus!
