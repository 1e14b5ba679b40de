//! Entries as contracts see them: what is pending, what is due, what a tick fires.

use vstd::prelude::*;

verus! {

/// Names one registration. An id is handed out once and never again, so a cancel
/// that comes after its entry has fired finds nothing and does nothing.
#[derive(Clone, Copy, Debug, PartialEq, Eq, Hash, Structural)]
pub struct EntryId {
    pub(crate) slot: usize,
    pub(crate) generation: u64,
}

/// What the heap holds for one id: when to wake, and whom.
#[derive(Debug)]
pub struct Pending<W> {
    /// The instant at or after which the entry fires.
    pub deadline: u64,
    /// What is woken when it does.
    pub token: W,
}

/// One entry that a tick has taken out of the heap because its deadline was reached.
/// The caller wakes `token`.
#[derive(Debug)]
pub struct Fired<W> {
    /// The id that the registration was given.
    pub id: EntryId,
    /// The deadline that it asked for.
    pub deadline: u64,
    /// The token that it left.
    pub token: W,
}

/// Ids mapped to what is pending for them: the model of a heap.
pub type Entries<W> = Map<EntryId, Pending<W>>;

/// The entries of `m` whose deadline is reached at `now`.
pub open spec fn due<W>(m: Entries<W>, now: u64) -> Entries<W> {
    Map::new(|id: EntryId| m.contains_key(id) && m[id].deadline <= now, |id: EntryId| m[id])
}

/// The entries of `m` whose deadline lies after `now`.
pub open spec fn later<W>(m: Entries<W>, now: u64) -> Entries<W> {
    Map::new(|id: EntryId| m.contains_key(id) && m[id].deadline > now, |id: EntryId| m[id])
}

/// `t` is the deadline of some entry of `m`, and no entry of `m` is earlier.
pub open spec fn is_earliest<W>(m: Entries<W>, t: u64) -> bool {
    &&& exists|id: EntryId| #[trigger] m.contains_key(id) && m[id].deadline == t
    &&& forall|id: EntryId| #[trigger] m.contains_key(id) ==> t <= m[id].deadline
}

/// `next` is the earliest deadline of `m`, or `None` where `m` holds nothing.
pub open spec fn is_next<W>(m: Entries<W>, next: Option<u64>) -> bool {
    match next {
        Some(t) => is_earliest(m, t),
        None => forall|id: EntryId| !#[trigger] m.contains_key(id),
    }
}

/// The earliest deadline of `m`, or `None` where `m` holds nothing.
pub open spec fn earliest<W>(m: Entries<W>) -> Option<u64> {
    if exists|t: u64| is_earliest(m, t) {
        Some(choose|t: u64| is_earliest(m, t))
    } else {
        None
    }
}

/// The deadlines of `fired` never go down from one position to the next.
pub open spec fn ascending<W>(fired: Seq<Fired<W>>) -> bool {
    forall|i: int, j: int| 0 <= i <= j < fired.len() ==> fired[i].deadline <= fired[j].deadline
}

/// Nothing in `fired` had a deadline after `now`.
pub open spec fn none_premature<W>(fired: Seq<Fired<W>>, now: u64) -> bool {
    forall|i: int| 0 <= i < fired.len() ==> (#[trigger] fired[i]).deadline <= now
}

/// `fired` lists the entries of `m` and nothing else, each of them once.
pub open spec fn fires<W>(fired: Seq<Fired<W>>, m: Entries<W>) -> bool {
    &&& forall|i: int, j: int| 0 <= i < j < fired.len() ==> fired[i].id != fired[j].id
    &&& forall|i: int|
        0 <= i < fired.len() ==> {
            &&& m.contains_key((#[trigger] fired[i]).id)
            &&& m[fired[i].id].deadline == fired[i].deadline
            &&& m[fired[i].id].token == fired[i].token
        }
    &&& forall|id: EntryId| #[trigger]
        m.contains_key(id) ==> exists|i: int| 0 <= i < fired.len() && (#[trigger] fired[i]).id == id
}

/// No two deadlines are both the earliest.
pub proof fn lemma_earliest_unique<W>(m: Entries<W>, a: u64, b: u64)
    requires
        is_earliest(m, a),
        is_earliest(m, b),
    ensures
        a == b,
{
    let ia = choose|id: EntryId| #[trigger] m.contains_key(id) && m[id].deadline == a;
    let ib = choose|id: EntryId| #[trigger] m.contains_key(id) && m[id].deadline == b;
    assert(a <= m[ib].deadline && b <= m[ia].deadline);
}

/// Where an entry is pending at `t`, some deadline is the earliest.
pub proof fn lemma_some_is_earliest<W>(m: Entries<W>, id: EntryId, t: u64)
    requires
        m.contains_key(id),
        m[id].deadline == t,
    ensures
        exists|e: u64| is_earliest(m, e),
    decreases t,
{
    if forall|other: EntryId| #[trigger] m.contains_key(other) ==> t <= m[other].deadline {
        assert(is_earliest(m, t));
    } else {
        let other = choose|other: EntryId| #[trigger] m.contains_key(other) && m[other].deadline < t;
        lemma_some_is_earliest(m, other, m[other].deadline);
    }
}

/// `earliest` is what `is_next` describes, and nothing else is.
pub proof fn lemma_earliest_is_next<W>(m: Entries<W>)
    ensures
        is_next(m, earliest(m)),
        forall|next: Option<u64>| is_next(m, next) ==> next == earliest(m),
{
    if !(exists|t: u64| is_earliest(m, t)) {
        assert forall|id: EntryId| !#[trigger] m.contains_key(id) by {
            if m.contains_key(id) {
                lemma_some_is_earliest(m, id, m[id].deadline);
            }
        }
    }
    assert forall|next: Option<u64>| is_next(m, next) implies next == earliest(m) by {
        match next {
            Some(t) => {
                lemma_earliest_unique(m, t, earliest(m)->0);
            },
            None => {
                if exists|t: u64| is_earliest(m, t) {
                    let t = choose|t: u64| is_earliest(m, t);
                    let id = choose|id: EntryId| #[trigger] m.contains_key(id) && m[id].deadline == t;
                    assert(m.contains_key(id));
                }
            },
        }
    }
}

} // verus!
