//! What holds of every heap and every tick, stated over the models that the
//! contracts of the heap and the scheduler use.

use vstd::prelude::*;
use crate::entry::{EntryId, Pending, Fired, Entries, due, later, earliest, is_earliest, ascending, fires, none_premature};
use crate::entry::{lemma_earliest_is_next, lemma_earliest_unique};
use crate::driver::{Phase, Signal};
use crate::time::remaining;

verus! {

/// A cancel of `id` on the entries `m` takes an entry out.
pub open spec fn cancel_takes<W>(m: Entries<W>, id: EntryId) -> bool {
    m.contains_key(id)
}

/// A tick at `now` on the entries `m` fires the entry `id`.
pub open spec fn tick_fires<W>(m: Entries<W>, id: EntryId, now: u64) -> bool {
    due(m, now).contains_key(id)
}

/// Firing order: what a tick at `now` fires is every entry whose deadline is at or
/// before `now`, each once and as it was registered, in an order in which deadlines
/// never go down; every entry with a later deadline stays, unchanged, and nothing
/// else does.
pub proof fn law_firing_order<W>(m: Entries<W>, now: u64, fired: Seq<Fired<W>>)
    requires
        fires(fired, due(m, now)),
        ascending(fired),
    ensures
        forall|id: EntryId|
            m.contains_key(id) && m[id].deadline <= now ==> exists|i: int|
                0 <= i < fired.len() && (#[trigger] fired[i]).id == id,
        forall|i: int|
            0 <= i < fired.len() ==> {
                &&& m.contains_key((#[trigger] fired[i]).id)
                &&& m[fired[i].id] == (Pending { deadline: fired[i].deadline, token: fired[i].token })
                &&& fired[i].deadline <= now
            },
        forall|i: int, j: int| 0 <= i < j < fired.len() ==> fired[i].id != fired[j].id,
        forall|i: int, j: int| 0 <= i <= j < fired.len() ==> fired[i].deadline <= fired[j].deadline,
        forall|id: EntryId|
            m.contains_key(id) && m[id].deadline > now ==> later(m, now).contains_key(id) && later(
                m,
                now,
            )[id] == m[id],
        forall|id: EntryId| #[trigger]
            later(m, now).contains_key(id) ==> m.contains_key(id) && m[id].deadline > now,
{
    let owed = due(m, now);
    assert forall|id: EntryId| m.contains_key(id) && m[id].deadline <= now implies exists|i: int|
        0 <= i < fired.len() && (#[trigger] fired[i]).id == id by {
        assert(owed.contains_key(id));
    }
}

/// No premature fire: a tick at `now` fires nothing whose deadline lies after `now`,
/// and an entry with such a deadline is not among what it fires.
pub proof fn law_no_premature_fire<W>(m: Entries<W>, now: u64, fired: Seq<Fired<W>>)
    requires
        fires(fired, due(m, now)),
    ensures
        none_premature(fired, now),
        forall|i: int|
            0 <= i < fired.len() ==> !(m.contains_key((#[trigger] fired[i]).id) && now
                < m[fired[i].id].deadline),
        forall|id: EntryId| m.contains_key(id) && now < m[id].deadline ==> !tick_fires(m, id, now),
{
}

/// Cancel against fire: of a cancel of `id` and the tick that would fire it, whichever
/// comes first has the entry and the other finds nothing. If the cancel is first it
/// takes the entry and the tick does not fire it; if the tick is first it fires the
/// entry and the cancel takes nothing and leaves the heap as it was.
pub proof fn law_cancel_or_fire<W>(m: Entries<W>, id: EntryId, now: u64)
    requires
        m.contains_key(id),
        m[id].deadline <= now,
    ensures
        cancel_takes(m, id) && !tick_fires(m.remove(id), id, now),
        tick_fires(m, id, now) && !cancel_takes(later(m, now), id),
        later(m, now).remove(id) == later(m, now),
{
}

/// A late registration: an entry that is registered after a tick at `now`, with a
/// deadline that `now` has passed already, was not part of that tick, and the next
/// tick, at whatever time `next` from `now` on, fires it.
pub proof fn law_late_registration<W>(
    m: Entries<W>,
    now: u64,
    id: EntryId,
    deadline: u64,
    token: W,
    next: u64,
)
    requires
        !m.contains_key(id),
        deadline <= now,
        now <= next,
    ensures
        !tick_fires(m, id, now),
        tick_fires(later(m, now).insert(id, Pending { deadline, token }), id, next),
{
}

/// Ids are not handed out twice: once an id has been handed out and names nothing
/// pending any more, a registration, which is given an id never handed out, does not
/// bring it back.
pub proof fn law_ids_are_not_reused<W>(
    m: Entries<W>,
    issued: Set<EntryId>,
    stale: EntryId,
    fresh: EntryId,
    entry: Pending<W>,
)
    requires
        m.dom().subset_of(issued),
        issued.contains(stale),
        !m.contains_key(stale),
        !issued.contains(fresh),
    ensures
        !m.insert(fresh, entry).contains_key(stale),
        issued.insert(fresh).contains(stale),
        m.insert(fresh, entry).dom().subset_of(issued.insert(fresh)),
{
}

/// A stale cancel: an id that names nothing pending leaves every entry where it is.
pub proof fn law_stale_cancel<W>(m: Entries<W>, id: EntryId)
    requires
        !m.contains_key(id),
    ensures
        m.remove(id) == m,
{
}

/// Early wake: a driver armed for `armed` over the entries `m` is told to wake early
/// by a registration with an earlier `deadline`, and is armed for `deadline` from
/// then on: it sleeps no longer than the time left to `deadline`, and its tick at any
/// `now` at or after `deadline` fires the new entry, also where `now` is before
/// `armed`.
pub proof fn law_early_wake<W>(
    m: Entries<W>,
    armed: u64,
    id: EntryId,
    deadline: u64,
    token: W,
    now: u64,
)
    requires
        (Phase::Armed { wake_at: armed }).covers(m),
        !m.contains_key(id),
        deadline < armed,
        deadline <= now,
    ensures
        ({
            let before = Phase::Armed { wake_at: armed };
            let with_new = m.insert(id, Pending { deadline, token });
            let after = before.after_schedule(deadline, earliest(with_new));
            &&& before.signal_on_schedule(deadline) == Signal::EarlyWake
            &&& after == Phase::Armed { wake_at: deadline }
            &&& after.covers(with_new)
            &&& forall|t: u64| after.timeout(t) == Some(remaining(deadline, t))
            &&& tick_fires(with_new, id, now)
            &&& !later(with_new, now).contains_key(id)
        }),
{
}

/// An armed driver that covers its entries stays so through a registration.
pub proof fn law_never_oversleeps<W>(
    m: Entries<W>,
    phase: Phase,
    id: EntryId,
    deadline: u64,
    token: W,
)
    requires
        phase.covers(m),
        !m.contains_key(id),
    ensures
        ({
            let with_new = m.insert(id, Pending { deadline, token });
            let after = phase.after_schedule(deadline, earliest(with_new));
            &&& after is Armed
            &&& after.covers(with_new)
            &&& after->wake_at <= deadline
        }),
{
    let with_new = m.insert(id, Pending { deadline, token });
    lemma_earliest_is_next(with_new);
    assert(with_new.contains_key(id));
}

/// Idle and restart: a tick that leaves nothing pending leaves the driver idle; the
/// first registration after that is told to start a driver and arms the phase for
/// its own deadline; a registration that follows it is not told to start another;
/// and the tick of the new driver at any `now` at or after the deadline fires the
/// new entry.
pub proof fn law_idle_restart<W>(id: EntryId, deadline: u64, token: W, second: u64, now: u64)
    requires
        deadline <= now,
    ensures
        ({
            let nothing = Map::<EntryId, Pending<W>>::empty();
            let idle = Phase::resting(earliest(nothing));
            let with_new = nothing.insert(id, Pending { deadline, token });
            let armed = idle.after_schedule(deadline, earliest(with_new));
            &&& idle == Phase::Idle
            &&& idle.signal_on_schedule(deadline) == Signal::Start
            &&& armed == Phase::Armed { wake_at: deadline }
            &&& armed.signal_on_schedule(second) != Signal::Start
            &&& armed.after_schedule(second, earliest(with_new)) is Armed
            &&& tick_fires(with_new, id, now)
        }),
{
    let nothing = Map::<EntryId, Pending<W>>::empty();
    let with_new = nothing.insert(id, Pending { deadline, token });
    lemma_earliest_is_next(nothing);
    lemma_earliest_is_next(with_new);
    assert(with_new.contains_key(id));
    lemma_earliest_unique(with_new, deadline, earliest(with_new)->0);
}

} // verus!
