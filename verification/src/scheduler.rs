//! The scheduler: the deadline heap together with the phase of its driver.
//!
//! One value of `Scheduler` is the whole state that registrations, cancellations and
//! the driver share. Whoever shares it keeps it behind one lock and holds the lock
//! for the length of one call, never across a sleep or a callback.

use vstd::prelude::*;
use crate::entry::{EntryId, Pending, Fired, Entries, due, later, earliest, is_earliest, is_next, ascending, fires, none_premature};
use crate::heap::{DeadlineHeap, Advance};
use crate::driver::{Phase, Signal, Rearm, rearm, rearm_for, DEFAULT_WAKE_LIMIT};

verus! {

/// The outcome of a registration.
#[derive(Clone, Copy, Debug)]
pub struct Scheduled {
    /// Names the new entry, for a later cancel.
    pub id: EntryId,
    /// What the caller owes the driver.
    pub signal: Signal,
}

/// The outcome of a cancellation.
#[derive(Debug)]
pub struct Cancelled<W> {
    /// The entry that was removed, or `None` if the id named nothing any more.
    pub entry: Option<Pending<W>>,
    /// What the caller owes the driver.
    pub signal: Signal,
}

/// The outcome of one callback of the single-threaded driver.
#[derive(Debug)]
pub struct Callback<W> {
    /// The entries whose deadline was reached, earliest first. The callback wakes
    /// their tokens in this order.
    pub fired: Vec<Fired<W>>,
    /// The earliest deadline still pending.
    pub next: Option<u64>,
    /// Whether the callback asks the host for a successor.
    pub rearm: Rearm,
}

/// What cancelling asks of the caller: the driver is woken if the entry that left was
/// the one it is armed for and no other entry is pending for that time.
pub open spec fn signal_on_cancel<W>(phase: Phase, taken: Option<Pending<W>>, left: Entries<W>) -> Signal {
    match (phase, taken) {
        (Phase::Armed { wake_at }, Some(entry)) => if entry.deadline == wake_at && !is_earliest(
            left,
            wake_at,
        ) {
            Signal::EarlyWake
        } else {
            Signal::Quiet
        },
        _ => Signal::Quiet,
    }
}

/// The deadline heap and the phase of the driver that serves it.
pub struct Scheduler<W> {
    heap: DeadlineHeap<W>,
    phase: Phase,
    wake_limit: usize,
}

impl<W> View for Scheduler<W> {
    type V = Entries<W>;

    /// The pending entries, by id.
    closed spec fn view(&self) -> Entries<W> {
        self.heap@
    }
}

impl<W> Scheduler<W> {
    /// Holds of every scheduler: an armed driver wakes no later than the earliest
    /// pending deadline.
    #[verifier::type_invariant]
    spec fn never_oversleeps(&self) -> bool {
        self.phase.covers(self.heap@)
    }

    /// Where the driver rests.
    pub closed spec fn spec_phase(&self) -> Phase {
        self.phase
    }

    /// Every id that this scheduler has handed out so far, pending or not.
    pub closed spec fn issued(&self) -> Set<EntryId> {
        self.heap.issued()
    }

    /// The number of live references above which a callback arms no successor.
    pub closed spec fn spec_wake_limit(&self) -> usize {
        self.wake_limit
    }

    /// Whatever is pending has an id that was handed out.
    pub proof fn lemma_pending_are_issued(&self)
        ensures
            self@.dom().subset_of(self.issued()),
    {
        self.heap.lemma_pending_are_issued();
    }

    /// A scheduler with nothing pending, no driver running and the default limit on
    /// live references.
    pub fn new() -> (scheduler: Self)
        ensures
            scheduler@ == Map::<EntryId, Pending<W>>::empty(),
            scheduler.issued() == Set::<EntryId>::empty(),
            scheduler.spec_phase() == Phase::Idle,
            scheduler.spec_wake_limit() == DEFAULT_WAKE_LIMIT,
    {
        Scheduler { heap: DeadlineHeap::new(), phase: Phase::Idle, wake_limit: DEFAULT_WAKE_LIMIT }
    }

    /// As `new`, with `wake_limit` as the limit on live references.
    pub fn with_wake_limit(wake_limit: usize) -> (scheduler: Self)
        ensures
            scheduler@ == Map::<EntryId, Pending<W>>::empty(),
            scheduler.issued() == Set::<EntryId>::empty(),
            scheduler.spec_phase() == Phase::Idle,
            scheduler.spec_wake_limit() == wake_limit,
    {
        Scheduler { heap: DeadlineHeap::new(), phase: Phase::Idle, wake_limit }
    }

    /// Where the driver rests. An armed driver wakes no later than the earliest
    /// pending deadline.
    #[verifier::when_used_as_spec(spec_phase)]
    pub fn phase(&self) -> (phase: Phase)
        ensures
            phase == self.spec_phase(),
            phase.covers(self@),
    {
        proof {
            use_type_invariant(&*self);
        }
        self.phase
    }

    /// The number of live references above which a callback arms no successor.
    #[verifier::when_used_as_spec(spec_wake_limit)]
    pub fn wake_limit(&self) -> (limit: usize)
        ensures
            limit == self.spec_wake_limit(),
    {
        self.wake_limit
    }

    /// The earliest pending deadline, or `None` if nothing is pending.
    pub fn peek_min(&self) -> (next: Option<u64>)
        ensures
            next == earliest(self@),
            is_next(self@, next),
    {
        self.heap.peek_min()
    }

    /// The number of pending entries.
    pub fn len(&self) -> (n: usize)
        ensures
            self@.dom().finite(),
            n == self@.dom().len(),
    {
        self.heap.len()
    }

    /// Whether nothing is pending.
    pub fn is_empty(&self) -> (empty: bool)
        ensures
            empty <==> self@ == Map::<EntryId, Pending<W>>::empty(),
    {
        self.heap.is_empty()
    }

    /// Registers `token` to be woken at `deadline`.
    ///
    /// The signal tells the caller what the driver needs: `Start` if none runs (this
    /// call has then armed the phase, so that of several registrations only the first
    /// is told to start one), `EarlyWake` if the driver sleeps towards a later time
    /// than `deadline`, and `Quiet` otherwise.
    pub fn schedule(&mut self, deadline: u64, token: W) -> (scheduled: Scheduled)
        ensures
            !old(self).issued().contains(scheduled.id),
            !old(self)@.contains_key(scheduled.id),
            final(self)@ == old(self)@.insert(scheduled.id, Pending { deadline, token }),
            final(self).issued() == old(self).issued().insert(scheduled.id),
            scheduled.signal == old(self).spec_phase().signal_on_schedule(deadline),
            final(self).spec_phase() == old(self).spec_phase().after_schedule(
                deadline,
                earliest(final(self)@),
            ),
            final(self).spec_wake_limit() == old(self).spec_wake_limit(),
    {
        proof {
            use_type_invariant(&*self);
        }
        let mut heap = DeadlineHeap::new();
        std::mem::swap(&mut heap, &mut self.heap);
        let id = heap.register(deadline, token);
        let signal = match self.phase {
            Phase::Idle => {
                self.phase = match heap.peek_min() {
                    Some(t) => Phase::Armed { wake_at: t },
                    None => Phase::Idle,
                };
                Signal::Start
            },
            Phase::Armed { wake_at } => {
                if deadline < wake_at {
                    self.phase = Phase::Armed { wake_at: deadline };
                    Signal::EarlyWake
                } else {
                    Signal::Quiet
                }
            },
        };
        self.heap = heap;
        Scheduled { id, signal }
    }

    /// Removes the entry that `id` names, if it is still pending; an id whose entry
    /// has fired or was cancelled before changes nothing. The phase stays as it is:
    /// only the driver itself goes idle.
    pub fn cancel(&mut self, id: EntryId) -> (cancelled: Cancelled<W>)
        ensures
            cancelled.entry == (if old(self)@.contains_key(id) {
                Some(old(self)@[id])
            } else {
                None
            }),
            final(self)@ == old(self)@.remove(id),
            final(self).issued() == old(self).issued(),
            cancelled.signal == signal_on_cancel(old(self).spec_phase(), cancelled.entry, final(self)@),
            final(self).spec_phase() == old(self).spec_phase(),
            final(self).spec_wake_limit() == old(self).spec_wake_limit(),
    {
        proof {
            use_type_invariant(&*self);
        }
        let mut heap = DeadlineHeap::new();
        std::mem::swap(&mut heap, &mut self.heap);
        let entry = heap.cancel(id);
        let mut signal = Signal::Quiet;
        match self.phase {
            Phase::Armed { wake_at } => {
                match &entry {
                    Some(taken) => {
                        if taken.deadline == wake_at {
                            let next = heap.peek_min();
                            match next {
                                Some(t) => {
                                    if t != wake_at {
                                        signal = Signal::EarlyWake;
                                    }
                                },
                                None => {
                                    signal = Signal::EarlyWake;
                                },
                            }
                        }
                    },
                    None => {},
                }
            },
            Phase::Idle => {},
        }
        self.heap = heap;
        Cancelled { entry, signal }
    }

    /// Takes back the registration `id` after the driver that it asked for could not
    /// be started: the entry leaves the heap and comes back to the caller, who
    /// hands the failure on, and the phase is idle, so that the next registration
    /// asks for a driver again. Nothing is retried here.
    pub fn start_failed(&mut self, id: EntryId) -> (entry: Option<Pending<W>>)
        ensures
            entry == (if old(self)@.contains_key(id) {
                Some(old(self)@[id])
            } else {
                None
            }),
            final(self)@ == old(self)@.remove(id),
            final(self).issued() == old(self).issued(),
            final(self).spec_phase() == Phase::Idle,
            final(self).spec_wake_limit() == old(self).spec_wake_limit(),
    {
        self.phase = Phase::Idle;
        let mut heap = DeadlineHeap::new();
        std::mem::swap(&mut heap, &mut self.heap);
        let entry = heap.cancel(id);
        self.heap = heap;
        entry
    }

    /// Settles the phase as a driver does when it starts: armed for the earliest
    /// pending deadline, or idle if nothing is pending.
    pub fn start(&mut self) -> (phase: Phase)
        ensures
            phase == Phase::resting(earliest(old(self)@)),
            final(self).spec_phase() == phase,
            final(self)@ == old(self)@,
            final(self).issued() == old(self).issued(),
            final(self).spec_wake_limit() == old(self).spec_wake_limit(),
    {
        let next = self.heap.peek_min();
        let phase = match next {
            Some(t) => Phase::Armed { wake_at: t },
            None => Phase::Idle,
        };
        self.phase = phase;
        phase
    }

    /// How long the driver sleeps from `now` before its next tick: the time left to
    /// its wake time, zero where that has passed. `None` when the driver is idle.
    pub fn wait_timeout(&self, now: u64) -> (timeout: Option<u64>)
        ensures
            timeout == self.spec_phase().timeout(now),
    {
        self.phase.wait_timeout(now)
    }

    /// One tick of the blocking driver, woken by its timeout or by a signal: fires
    /// every entry whose deadline is at or before `now`, earliest first, and settles
    /// armed for the earliest deadline that is left, or idle if none is.
    pub fn on_wake(&mut self, now: u64) -> (tick: Advance<W>)
        ensures
            fires(tick.fired@, due(old(self)@, now)),
            none_premature(tick.fired@, now),
            ascending(tick.fired@),
            due(old(self)@, now).dom().finite(),
            tick.fired@.len() == due(old(self)@, now).dom().len(),
            final(self)@ == later(old(self)@, now),
            tick.next == earliest(final(self)@),
            is_next(final(self)@, tick.next),
            tick.next matches Some(t) ==> now < t,
            final(self).spec_phase() == Phase::resting(tick.next),
            final(self).issued() == old(self).issued(),
            final(self).spec_wake_limit() == old(self).spec_wake_limit(),
    {
        let mut heap = DeadlineHeap::new();
        std::mem::swap(&mut heap, &mut self.heap);
        let advance = heap.advance_to(now);
        self.phase = match advance.next {
            Some(t) => Phase::Armed { wake_at: t },
            None => Phase::Idle,
        };
        self.heap = heap;
        advance
    }

    /// One callback of the single-threaded driver: fires every entry whose deadline
    /// is at or before `now`, earliest first, and decides about a successor.
    ///
    /// `live_refs` is the number of references to the shared driver state that are
    /// alive. Above the scheduler's limit the callback arms nothing. It then leaves
    /// the phase idle, as it does when nothing is pending, so that the next
    /// registration is told to start the chain again.
    pub fn on_callback(&mut self, now: u64, live_refs: usize) -> (callback: Callback<W>)
        ensures
            fires(callback.fired@, due(old(self)@, now)),
            none_premature(callback.fired@, now),
            ascending(callback.fired@),
            due(old(self)@, now).dom().finite(),
            callback.fired@.len() == due(old(self)@, now).dom().len(),
            final(self)@ == later(old(self)@, now),
            callback.next == earliest(final(self)@),
            is_next(final(self)@, callback.next),
            callback.next matches Some(t) ==> now < t,
            callback.rearm == rearm_for(callback.next, now, live_refs, old(self).spec_wake_limit()),
            final(self).spec_phase() == Phase::after_callback(callback.rearm, callback.next),
            final(self).issued() == old(self).issued(),
            final(self).spec_wake_limit() == old(self).spec_wake_limit(),
    {
        let mut heap = DeadlineHeap::new();
        std::mem::swap(&mut heap, &mut self.heap);
        let advance = heap.advance_to(now);
        let decision = rearm(advance.next, now, live_refs, self.wake_limit);
        self.phase = match decision {
            Rearm::After { delay } => match advance.next {
                Some(t) => Phase::Armed { wake_at: t },
                None => Phase::Idle,
            },
            Rearm::Dormant => Phase::Idle,
            Rearm::Throttled => Phase::Idle,
        };
        self.heap = heap;
        Callback { fired: advance.fired, next: advance.next, rearm: decision }
    }
}

} // verus!
