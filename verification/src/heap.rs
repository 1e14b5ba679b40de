//! The deadline heap: pending entries, earliest first.

use vstd::prelude::*;
use crate::order::{Node, parent, above_le, grand_le, is_heap, heap_except, below_ok, above_ok};
use crate::order::{lemma_root_is_earliest, lemma_hole_closed, lemma_heap_has_no_hole};
use crate::entry::{EntryId, Pending, Fired, Entries, due, later, earliest, is_next, ascending, fires, none_premature};
use crate::entry::lemma_earliest_is_next;

verus! {

/// One row of the slot table. A slot is taken while it holds a token. Its generation
/// counts how often it was given up; an id names the slot together with the
/// generation in which it was taken, so an id of an earlier generation names nothing.
struct Slot<W> {
    generation: u64,
    /// Where the entry's node stands in the heap array. Means nothing while the
    /// slot is not taken.
    pos: usize,
    token: Option<W>,
}

/// The heap array, the slot table, and the slots that can be taken again.
///
/// A slot whose generation has reached the last value of `u64` is never put on the
/// free list: it could not tell its next entry from the one before.
struct Core<W> {
    order: Vec<Node>,
    slots: Vec<Slot<W>>,
    free: Vec<usize>,
}

impl<W> Core<W> {
    /// Nodes and taken slots point at each other.
    spec fn linked(&self) -> bool {
        &&& forall|i: int|
            0 <= i < self.order@.len() ==> {
                let s = (#[trigger] self.order@[i]).slot as int;
                &&& s < self.slots@.len()
                &&& self.slots@[s].token is Some
                &&& self.slots@[s].pos == i
            }
        &&& forall|s: int|
            0 <= s < self.slots@.len() && (#[trigger] self.slots@[s]).token is Some ==> {
                &&& self.slots@[s].pos < self.order@.len()
                &&& self.order@[self.slots@[s].pos as int].slot == s
                &&& self.slots@[s].generation < u64::MAX
            }
    }

    /// The two hold the same entries: nodes may stand elsewhere in the heap array,
    /// but every slot has the token, the generation and the node it has in `other`.
    spec fn same_entries(&self, other: &Self) -> bool {
        &&& self.slots@.len() == other.slots@.len()
        &&& self.free@ == other.free@
        &&& forall|s: int|
            0 <= s < self.slots@.len() ==> {
                &&& (#[trigger] self.slots@[s]).token == other.slots@[s].token
                &&& self.slots@[s].generation == other.slots@[s].generation
                &&& self.slots@[s].token is Some ==> self.order@[self.slots@[s].pos as int]
                    == other.order@[other.slots@[s].pos as int]
            }
    }

    /// Exchanges the nodes at `i` and `j` and tells their slots.
    fn swap_nodes(&mut self, i: usize, j: usize)
        requires
            old(self).linked(),
            i < old(self).order@.len(),
            j < old(self).order@.len(),
        ensures
            final(self).linked(),
            final(self).order@ == old(self).order@.update(i as int, old(self).order@[j as int]).update(
                j as int,
                old(self).order@[i as int],
            ),
            final(self).same_entries(old(self)),
    {
        let a = self.order[i];
        let b = self.order[j];
        self.order[i] = b;
        self.order[j] = a;
        self.slots[b.slot].pos = i;
        self.slots[a.slot].pos = j;
    }

    /// Moves the node at `start` up until its parent is not later than it.
    fn sift_up(&mut self, start: usize)
        requires
            old(self).linked(),
            start < old(self).order@.len(),
            heap_except(old(self).order@, start as int),
            below_ok(old(self).order@, start as int),
        ensures
            final(self).linked(),
            final(self).same_entries(old(self)),
            final(self).order@.len() == old(self).order@.len(),
            is_heap(final(self).order@),
    {
        let mut i: usize = start;
        while i > 0 && self.order[(i - 1) / 2].deadline > self.order[i].deadline
            invariant
                self.linked(),
                self.same_entries(old(self)),
                self.order@.len() == old(self).order@.len(),
                i < self.order@.len(),
                heap_except(self.order@, i as int),
                below_ok(self.order@, i as int),
            decreases i,
        {
            let p: usize = (i - 1) / 2;
            let ghost before = self.order@;
            self.swap_nodes(i, p);
            proof {
                let after = self.order@;
                assert forall|j: int|
                    1 <= j < after.len() && parent(j) == p implies #[trigger] above_le(after, j) by {
                    if j != i {
                        assert(above_le(before, j));
                    }
                }
                assert forall|j: int|
                    1 <= j < after.len() && j != p && parent(j) != p implies #[trigger] above_le(
                    after,
                    j,
                ) by {
                    if parent(j) == i {
                        assert(grand_le(before, j));
                    } else {
                        assert(above_le(before, j));
                    }
                }
                assert forall|j: int|
                    1 <= j < after.len() && parent(j) == p && p > 0 implies #[trigger] grand_le(
                    after,
                    j,
                ) by {
                    assert(above_le(before, p as int));
                    if j != i {
                        assert(above_le(before, j));
                    }
                }
            }
            i = p;
        }
        proof {
            lemma_hole_closed(self.order@, i as int);
        }
    }

    /// Moves the node at `start` down until no child is earlier than it.
    fn sift_down(&mut self, start: usize)
        requires
            old(self).linked(),
            start < old(self).order@.len(),
            heap_except(old(self).order@, start as int),
            above_ok(old(self).order@, start as int),
        ensures
            final(self).linked(),
            final(self).same_entries(old(self)),
            final(self).order@.len() == old(self).order@.len(),
            is_heap(final(self).order@),
    {
        let n: usize = self.order.len();
        let mut i: usize = start;
        let mut settled: bool = false;
        while !settled
            invariant
                self.linked(),
                self.same_entries(old(self)),
                self.order@.len() == n,
                n == old(self).order@.len(),
                i < n,
                heap_except(self.order@, i as int),
                above_ok(self.order@, i as int),
                settled ==> below_ok(self.order@, i as int),
            decreases n - i, if settled { 0int } else { 1int },
        {
            if n < 2 || i > (n - 2) / 2 {
                settled = true;
            } else {
                let left: usize = 2 * i + 1;
                let mut child: usize = left;
                if left + 1 < n && self.order[left + 1].deadline < self.order[left].deadline {
                    child = left + 1;
                }
                if self.order[i].deadline <= self.order[child].deadline {
                    settled = true;
                    assert(below_ok(self.order@, i as int));
                } else {
                    let ghost before = self.order@;
                    self.swap_nodes(i, child);
                    proof {
                        let after = self.order@;
                        assert forall|j: int|
                            1 <= j < after.len() && j != child && parent(j) != child implies #[trigger] above_le(
                            after,
                            j,
                        ) by {
                            if j == i {
                                assert(grand_le(before, child as int));
                            } else if parent(j) != i {
                                assert(above_le(before, j));
                            }
                        }
                        assert forall|j: int|
                            1 <= j < after.len() && parent(j) == child && child > 0 implies #[trigger] grand_le(
                            after,
                            j,
                        ) by {
                            assert(above_le(before, j));
                        }
                    }
                    i = child;
                }
            }
        }
        proof {
            lemma_hole_closed(self.order@, i as int);
        }
    }

    /// The free list names slots that are not taken and can be taken again, each once.
    spec fn free_ok(&self) -> bool {
        &&& forall|k: int|
            0 <= k < self.free@.len() ==> {
                let s = (#[trigger] self.free@[k]) as int;
                &&& s < self.slots@.len()
                &&& self.slots@[s].token is None
                &&& self.slots@[s].generation < u64::MAX
            }
        &&& forall|j: int, k: int| 0 <= j < k < self.free@.len() ==> self.free@[j] != self.free@[k]
    }

    /// `id` names a slot that is taken, in the generation in which it was taken.
    spec fn holds(&self, id: EntryId) -> bool {
        &&& id.slot < self.slots@.len()
        &&& self.slots@[id.slot as int].token is Some
        &&& self.slots@[id.slot as int].generation == id.generation
    }

    /// The pending entries, by id.
    spec fn view(&self) -> Entries<W> {
        Map::new(
            |id: EntryId| self.holds(id),
            |id: EntryId|
                Pending {
                    deadline: self.order@[self.slots@[id.slot as int].pos as int].deadline,
                    token: self.slots@[id.slot as int].token->0,
                },
        )
    }

    /// The ids handed out so far: those of earlier generations of a slot, and those
    /// that are pending.
    spec fn issued(&self) -> Set<EntryId> {
        Set::new(
            |id: EntryId|
                id.slot < self.slots@.len() && (id.generation < self.slots@[id.slot as int].generation
                    || self.holds(id)),
        )
    }

    /// There are as many pending entries as nodes.
    spec fn counted(&self) -> bool {
        &&& self.view().dom().finite()
        &&& self.view().dom().len() == self.order@.len()
    }

    /// What every operation keeps: the links, the free list, the heap order and the
    /// count.
    spec fn wf(&self) -> bool {
        &&& self.linked()
        &&& self.free_ok()
        &&& is_heap(self.order@)
        &&& self.counted()
    }

    /// Moving nodes about changes neither what is pending nor what was handed out.
    proof fn lemma_same_entries(&self, other: &Self)
        requires
            self.same_entries(other),
        ensures
            self.view() == other.view(),
            self.issued() == other.issued(),
            other.free_ok() ==> self.free_ok(),
    {
        assert forall|id: EntryId| self.holds(id) == other.holds(id) by {}
        assert(self.view() =~= other.view());
        assert(self.issued() =~= other.issued());
    }

    /// Nothing pending, nothing handed out.
    fn new() -> (core: Self)
        ensures
            core.wf(),
            core.view() == Map::<EntryId, Pending<W>>::empty(),
            core.issued() == Set::<EntryId>::empty(),
    {
        let core = Core { order: Vec::new(), slots: Vec::new(), free: Vec::new() };
        assert(core.view() =~= Map::<EntryId, Pending<W>>::empty());
        core
    }

    /// Adds an entry and gives it an id that no entry had before.
    fn register(&mut self, deadline: u64, token: W) -> (id: EntryId)
        requires
            old(self).wf(),
        ensures
            final(self).wf(),
            !old(self).issued().contains(id),
            !old(self).view().contains_key(id),
            final(self).view() == old(self).view().insert(id, Pending { deadline, token }),
            final(self).issued() == old(self).issued().insert(id),
    {
        let pos: usize = self.order.len();
        let slot: usize;
        let generation: u64;
        match self.free.pop() {
            Some(s) => {
                slot = s;
                generation = self.slots[s].generation;
                self.slots[s].pos = pos;
                self.slots[s].token = Some(token);
            },
            None => {
                slot = self.slots.len();
                generation = 0;
                self.slots.push(Slot { generation: 0, pos, token: Some(token) });
            },
        }
        self.order.push(Node { deadline, slot });
        let id = EntryId { slot, generation };
        let ghost mid = *self;
        proof {
            assert(self.view() =~= old(self).view().insert(id, Pending { deadline, token }));
            assert forall|j: int|
                1 <= j < self.order@.len() && j != pos && parent(j) != pos implies #[trigger] above_le(
                self.order@,
                j,
            ) by {
                assert(above_le(old(self).order@, j));
            }
        }
        self.sift_up(pos);
        proof {
            self.lemma_same_entries(&mid);
        }
        id
    }

    /// The id of the entry whose node stands at `pos`.
    spec fn id_at(&self, pos: int) -> EntryId {
        EntryId {
            slot: self.order@[pos].slot,
            generation: self.slots@[self.order@[pos].slot as int].generation,
        }
    }

    /// Every pending entry has its node somewhere in the heap array, and the other
    /// way round.
    proof fn lemma_positions(&self)
        requires
            self.linked(),
        ensures
            forall|i: int|
                0 <= i < self.order@.len() ==> {
                    &&& self.view().contains_key(#[trigger] self.id_at(i))
                    &&& self.view()[self.id_at(i)].deadline == self.order@[i].deadline
                },
            forall|id: EntryId| #[trigger]
                self.view().contains_key(id) ==> {
                    &&& 0 <= self.slots@[id.slot as int].pos < self.order@.len()
                    &&& self.id_at(self.slots@[id.slot as int].pos as int) == id
                },
    {
    }

    /// The earliest deadline, if anything is pending.
    fn peek_min(&self) -> (next: Option<u64>)
        requires
            self.wf(),
        ensures
            is_next(self.view(), next),
            next is Some <==> self.order@.len() > 0,
            next is Some ==> next->0 == self.order@[0].deadline,
    {
        proof {
            self.lemma_positions();
        }
        if self.order.len() == 0 {
            None
        } else {
            let t = self.order[0].deadline;
            proof {
                assert(self.view().contains_key(self.id_at(0)));
                assert forall|id: EntryId| #[trigger] self.view().contains_key(id) implies t
                    <= self.view()[id].deadline by {
                    lemma_root_is_earliest(self.order@, self.slots@[id.slot as int].pos as int);
                }
            }
            Some(t)
        }
    }

    /// Takes out the entry whose node stands at `pos`.
    fn remove_at(&mut self, pos: usize) -> (out: Fired<W>)
        requires
            old(self).wf(),
            pos < old(self).order@.len(),
        ensures
            final(self).wf(),
            out.id == old(self).id_at(pos as int),
            old(self).view().contains_key(out.id),
            old(self).view()[out.id] == (Pending { deadline: out.deadline, token: out.token }),
            final(self).view() == old(self).view().remove(out.id),
            final(self).issued() == old(self).issued(),
            final(self).order@.len() == old(self).order@.len() - 1,
    {
        proof {
            old(self).lemma_positions();
        }
        let last: usize = self.order.len() - 1;
        let node = self.order[pos];
        let ghost id = old(self).id_at(pos as int);
        self.swap_nodes(pos, last);
        proof {
            self.lemma_same_entries(old(self));
        }
        self.order.pop();
        let generation: u64 = self.slots[node.slot].generation;
        let token = self.slots[node.slot].token.take();
        self.slots[node.slot].generation = generation + 1;
        if generation + 1 < u64::MAX {
            self.free.push(node.slot);
        }
        let ghost mid = *self;
        proof {
            assert(self.view() =~= old(self).view().remove(id)) by {
                assert forall|other: EntryId| self.holds(other) == (old(self).holds(other) && other
                    != id) by {}
            }
            if pos < last {
                lemma_heap_has_no_hole(old(self).order@, pos as int);
                let before = old(self).order@;
                let now = self.order@;
                assert forall|j: int|
                    1 <= j < now.len() && j != pos && parent(j) != pos implies #[trigger] above_le(
                    now,
                    j,
                ) by {
                    assert(above_le(before, j));
                }
                assert forall|j: int|
                    1 <= j < now.len() && parent(j) == pos && pos > 0 implies #[trigger] grand_le(
                    now,
                    j,
                ) by {
                    assert(grand_le(before, j));
                }
            } else {
                assert forall|j: int| 1 <= j < self.order@.len() implies #[trigger] above_le(
                    self.order@,
                    j,
                ) by {
                    assert(above_le(old(self).order@, j));
                }
            }
        }
        if pos < last {
            if pos > 0 && self.order[pos].deadline < self.order[(pos - 1) / 2].deadline {
                proof {
                    let now = self.order@;
                    assert forall|j: int| 1 <= j < now.len() && parent(j) == pos implies #[trigger] above_le(
                        now,
                        j,
                    ) by {
                        assert(grand_le(now, j));
                    }
                }
                self.sift_up(pos);
            } else {
                self.sift_down(pos);
            }
            proof {
                self.lemma_same_entries(&mid);
            }
        }
        Fired { id: EntryId { slot: node.slot, generation }, deadline: node.deadline, token: token.unwrap() }
    }

    /// Takes out the entry that `id` names, if it is still pending.
    fn cancel(&mut self, id: EntryId) -> (taken: Option<Pending<W>>)
        requires
            old(self).wf(),
        ensures
            final(self).wf(),
            taken == (if old(self).view().contains_key(id) {
                Some(old(self).view()[id])
            } else {
                None
            }),
            final(self).view() == old(self).view().remove(id),
            final(self).issued() == old(self).issued(),
    {
        if id.slot >= self.slots.len() {
            return None;
        }
        if self.slots[id.slot].generation != id.generation || self.slots[id.slot].token.is_none() {
            return None;
        }
        let pos: usize = self.slots[id.slot].pos;
        let out = self.remove_at(pos);
        Some(Pending { deadline: out.deadline, token: out.token })
    }

    /// Takes out every entry whose deadline is reached at `now`, earliest first.
    fn advance_to(&mut self, now: u64) -> (fired: Vec<Fired<W>>)
        requires
            old(self).wf(),
        ensures
            final(self).wf(),
            fires(fired@, due(old(self).view(), now)),
            ascending(fired@),
            due(old(self).view(), now).dom().finite(),
            fired@.len() == due(old(self).view(), now).dom().len(),
            final(self).view() == later(old(self).view(), now),
            final(self).issued() == old(self).issued(),
    {
        let mut fired: Vec<Fired<W>> = Vec::new();
        let ghost mut gone: Set<EntryId> = Set::empty();
        let ghost start = old(self).view();
        while self.order.len() > 0 && self.order[0].deadline <= now
            invariant
                self.wf(),
                self.issued() == old(self).issued(),
                start == old(self).view(),
                self.view() == start.remove_keys(gone),
                gone.finite(),
                gone.len() == fired@.len(),
                forall|id: EntryId| #[trigger]
                    gone.contains(id) ==> {
                        &&& start.contains_key(id)
                        &&& start[id].deadline <= now
                        &&& exists|i: int| 0 <= i < fired@.len() && (#[trigger] fired@[i]).id == id
                    },
                forall|i: int|
                    0 <= i < fired@.len() ==> {
                        &&& gone.contains((#[trigger] fired@[i]).id)
                        &&& start[fired@[i].id].deadline == fired@[i].deadline
                        &&& start[fired@[i].id].token == fired@[i].token
                    },
                forall|i: int, j: int| 0 <= i < j < fired@.len() ==> fired@[i].id != fired@[j].id,
                ascending(fired@),
                forall|i: int, id: EntryId|
                    0 <= i < fired@.len() && #[trigger] self.view().contains_key(id) ==> (
                    #[trigger] fired@[i]).deadline <= self.view()[id].deadline,
            decreases self.order@.len(),
        {
            let ghost before = self.view();
            let ghost earlier = fired@;
            let ghost root = self.order@;
            proof {
                self.lemma_positions();
                assert forall|id: EntryId| #[trigger] before.contains_key(id) implies root[0].deadline
                    <= before[id].deadline by {
                    lemma_root_is_earliest(root, self.slots@[id.slot as int].pos as int);
                }
            }
            let out = self.remove_at(0);
            proof {
                let more = gone.insert(out.id);
                assert forall|id: EntryId| #[trigger] more.contains(id) implies {
                    &&& start.contains_key(id)
                    &&& start[id].deadline <= now
                    &&& exists|i: int|
                        0 <= i < earlier.push(out).len() && (#[trigger] earlier.push(out)[i]).id == id
                } by {
                    if id == out.id {
                        assert(earlier.push(out)[earlier.len() as int].id == id);
                    } else {
                        let i = choose|i: int| 0 <= i < earlier.len() && (#[trigger] earlier[i]).id == id;
                        assert(earlier.push(out)[i].id == id);
                    }
                }
                gone = more;
            }
            fired.push(out);
            proof {
                assert(ascending(fired@));
            }
        }
        proof {
            self.lemma_positions();
            let end = self.view();
            assert forall|id: EntryId| #[trigger] end.contains_key(id) implies end[id].deadline
                > now by {
                lemma_root_is_earliest(self.order@, self.slots@[id.slot as int].pos as int);
            }
            let owed = due(start, now);
            assert(owed.dom() =~= gone) by {
                assert forall|id: EntryId| owed.dom().contains(id) implies gone.contains(id) by {
                    assert(!end.contains_key(id));
                }
            }
        }
        fired
    }
}

/// What one tick took out of the heap, and when the next one is owed.
#[derive(Debug)]
pub struct Advance<W> {
    /// The entries whose deadline was reached, earliest first. The caller wakes
    /// their tokens in this order.
    pub fired: Vec<Fired<W>>,
    /// The earliest deadline still pending, which lies after the time of the tick,
    /// or `None` if nothing is pending.
    pub next: Option<u64>,
}

/// The pending deadlines of one scheduler, each with the token to wake when it is
/// reached.
///
/// The heap is a binary min-heap on the deadline; a slot table beside it finds
/// an entry by its id, so that registering, cancelling and taking the earliest
/// entry each cost a logarithmic number of steps.
pub struct DeadlineHeap<W> {
    core: Core<W>,
}

impl<W> View for DeadlineHeap<W> {
    type V = Entries<W>;

    /// The pending entries, by id.
    closed spec fn view(&self) -> Entries<W> {
        self.core.view()
    }
}

impl<W> DeadlineHeap<W> {
    /// Holds of every heap: the array is in heap order, and it and the slot table
    /// agree on what is pending.
    #[verifier::type_invariant]
    spec fn well_formed(&self) -> bool {
        self.core.wf()
    }

    /// Every id that this heap has handed out so far, pending or not.
    pub closed spec fn issued(&self) -> Set<EntryId> {
        self.core.issued()
    }

    /// Whatever is pending has an id that was handed out.
    pub proof fn lemma_pending_are_issued(&self)
        ensures
            self@.dom().subset_of(self.issued()),
    {
    }

    /// An empty heap.
    pub fn new() -> (heap: Self)
        ensures
            heap@ == Map::<EntryId, Pending<W>>::empty(),
            heap.issued() == Set::<EntryId>::empty(),
    {
        DeadlineHeap { core: Core::new() }
    }

    /// Registers `token` to be woken at `deadline` and returns the entry's id. The id
    /// is one that this heap never handed out before.
    pub fn register(&mut self, deadline: u64, token: W) -> (id: EntryId)
        ensures
            !old(self).issued().contains(id),
            !old(self)@.contains_key(id),
            final(self)@ == old(self)@.insert(id, Pending { deadline, token }),
            final(self).issued() == old(self).issued().insert(id),
    {
        proof {
            use_type_invariant(&*self);
        }
        let mut core = Core::new();
        std::mem::swap(&mut core, &mut self.core);
        let id = core.register(deadline, token);
        self.core = core;
        id
    }

    /// Removes the entry that `id` names and returns it, if it is still pending. An
    /// id whose entry has fired or was cancelled before names nothing: the heap is
    /// left as it was and `None` comes back.
    pub fn cancel(&mut self, id: EntryId) -> (taken: Option<Pending<W>>)
        ensures
            taken == (if old(self)@.contains_key(id) {
                Some(old(self)@[id])
            } else {
                None
            }),
            final(self)@ == old(self)@.remove(id),
            final(self).issued() == old(self).issued(),
    {
        proof {
            use_type_invariant(&*self);
        }
        let mut core = Core::new();
        std::mem::swap(&mut core, &mut self.core);
        let taken = core.cancel(id);
        self.core = core;
        taken
    }

    /// The earliest pending deadline, or `None` if nothing is pending. Nothing is
    /// removed.
    pub fn peek_min(&self) -> (next: Option<u64>)
        ensures
            next == earliest(self@),
            is_next(self@, next),
    {
        proof {
            use_type_invariant(&*self);
            lemma_earliest_is_next(self@);
        }
        self.core.peek_min()
    }

    /// Removes every entry whose deadline is at or before `now` and returns them,
    /// earliest first, with the earliest deadline that is left.
    pub fn advance_to(&mut self, now: u64) -> (tick: Advance<W>)
        ensures
            fires(tick.fired@, due(old(self)@, now)),
            none_premature(tick.fired@, now),
            ascending(tick.fired@),
            due(old(self)@, now).dom().finite(),
            tick.fired@.len() == due(old(self)@, now).dom().len(),
            final(self)@ == later(old(self)@, now),
            tick.next == earliest(final(self)@),
            is_next(final(self)@, tick.next),
            tick.next matches Some(t) ==> now < t,
            final(self).issued() == old(self).issued(),
    {
        proof {
            use_type_invariant(&*self);
        }
        let mut core = Core::new();
        std::mem::swap(&mut core, &mut self.core);
        let fired = core.advance_to(now);
        let next = core.peek_min();
        proof {
            lemma_earliest_is_next(core.view());
        }
        self.core = core;
        Advance { fired, next }
    }

    /// The number of pending entries.
    pub fn len(&self) -> (n: usize)
        ensures
            self@.dom().finite(),
            n == self@.dom().len(),
    {
        proof {
            use_type_invariant(&*self);
        }
        self.core.order.len()
    }

    /// Whether nothing is pending.
    pub fn is_empty(&self) -> (empty: bool)
        ensures
            empty <==> self@ == Map::<EntryId, Pending<W>>::empty(),
    {
        proof {
            use_type_invariant(&*self);
            if self.core.order@.len() == 0 {
                assert(self@ =~= Map::<EntryId, Pending<W>>::empty());
            }
        }
        self.core.order.len() == 0
    }
}

} // verus!
