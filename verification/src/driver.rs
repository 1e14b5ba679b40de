//! What a driver decides: when it sleeps, when a registration has to wake it, and
//! whether a callback arms the next one.
//!
//! A driver is `Idle` while nothing keeps it running, and `Armed` while it sleeps
//! towards a wake time. A tick in between fires what is due and settles in one of the
//! two again.

use vstd::prelude::*;
use crate::entry::{EntryId, Entries};
use crate::time::{remaining, delay_until};

verus! {

/// How many live references to the shared driver state a callback tolerates before
/// it declines to arm a successor, unless the scheduler is made with another limit.
pub const DEFAULT_WAKE_LIMIT: usize = 20;

/// Where the driver rests between ticks.
#[derive(Clone, Copy, Debug, PartialEq, Eq, Structural)]
pub enum Phase {
    /// No driver runs: no thread sleeps and no callback is on its way.
    Idle,
    /// The driver sleeps and wakes by itself at `wake_at`.
    Armed { wake_at: u64 },
}

/// What the caller of a registration or a cancellation owes the driver.
#[derive(Clone, Copy, Debug, PartialEq, Eq, Structural)]
pub enum Signal {
    /// Nothing: the driver wakes in time by itself.
    Quiet,
    /// The sleeping driver has to be woken now, to look at the heap again.
    EarlyWake,
    /// No driver runs: the caller starts one.
    Start,
}

/// What a callback of the single-threaded driver does about its successor.
#[derive(Clone, Copy, Debug, PartialEq, Eq, Structural)]
pub enum Rearm {
    /// Ask the host for one more callback, `delay` from now.
    After { delay: u64 },
    /// Nothing is pending: the chain ends here.
    Dormant,
    /// Too many references to the driver state are alive: this callback arms
    /// nothing and leaves it to the others.
    Throttled,
}

impl Signal {
    /// The delay of the callback that this signal asks of a single-threaded host:
    /// a start and an early wake both ask for one at once, a quiet signal for none.
    pub open spec fn spec_callback_delay(self) -> Option<u64> {
        match self {
            Signal::Quiet => None,
            Signal::EarlyWake => Some(0),
            Signal::Start => Some(0),
        }
    }

    /// The delay of the callback that this signal asks of a single-threaded host, if
    /// it asks for one. Such a callback is always handed to the host with a delay of
    /// zero and never run from within the registration.
    #[verifier::when_used_as_spec(spec_callback_delay)]
    pub fn callback_delay(self) -> (delay: Option<u64>)
        ensures
            delay == self.spec_callback_delay(),
    {
        match self {
            Signal::Quiet => None,
            Signal::EarlyWake => Some(0),
            Signal::Start => Some(0),
        }
    }
}

impl Phase {
    /// The phase after a tick that left `next` as the earliest pending deadline.
    pub open spec fn resting(next: Option<u64>) -> Phase {
        match next {
            Some(t) => Phase::Armed { wake_at: t },
            None => Phase::Idle,
        }
    }

    /// The phase after an entry with `deadline` was registered in this phase, `next`
    /// being the earliest deadline that is pending with it: an idle driver is armed
    /// for `next`, an armed one for no later than `deadline`.
    pub open spec fn after_schedule(self, deadline: u64, next: Option<u64>) -> Phase {
        match self {
            Phase::Idle => Phase::resting(next),
            Phase::Armed { wake_at } => Phase::Armed {
                wake_at: if deadline < wake_at {
                    deadline
                } else {
                    wake_at
                },
            },
        }
    }

    /// What registering an entry with `deadline` in this phase asks of the caller.
    pub open spec fn signal_on_schedule(self, deadline: u64) -> Signal {
        match self {
            Phase::Idle => Signal::Start,
            Phase::Armed { wake_at } => if deadline < wake_at {
                Signal::EarlyWake
            } else {
                Signal::Quiet
            },
        }
    }

    /// An armed driver wakes no later than the earliest entry of `m`.
    pub open spec fn covers<W>(self, m: Entries<W>) -> bool {
        match self {
            Phase::Idle => true,
            Phase::Armed { wake_at } => forall|id: EntryId| #[trigger]
                m.contains_key(id) ==> wake_at <= m[id].deadline,
        }
    }

    /// How long a driver in this phase sleeps from `now`; `None` when it is idle.
    pub open spec fn timeout(self, now: u64) -> Option<u64> {
        match self {
            Phase::Idle => None,
            Phase::Armed { wake_at } => Some(remaining(wake_at, now)),
        }
    }

    /// The phase that a callback leaves behind which decided `rearm` with `next` as
    /// the earliest pending deadline: armed only if it asked for a successor.
    pub open spec fn after_callback(rearm: Rearm, next: Option<u64>) -> Phase {
        match rearm {
            Rearm::After { delay } => Phase::resting(next),
            Rearm::Dormant => Phase::Idle,
            Rearm::Throttled => Phase::Idle,
        }
    }

    /// How long the driver sleeps from `now` before its next tick, clamped to zero
    /// where the wake time has passed; `None` when the driver is idle and ends.
    pub fn wait_timeout(self, now: u64) -> (timeout: Option<u64>)
        ensures
            timeout == self.timeout(now),
    {
        match self {
            Phase::Idle => None,
            Phase::Armed { wake_at } => Some(delay_until(wake_at, now)),
        }
    }
}

/// What a callback decides when, after its tick at `now`, `next` is the earliest
/// pending deadline and `live_refs` references to the driver state are alive.
pub open spec fn rearm_for(next: Option<u64>, now: u64, live_refs: usize, limit: usize) -> Rearm {
    if live_refs > limit {
        Rearm::Throttled
    } else {
        match next {
            Some(t) => Rearm::After { delay: remaining(t, now) },
            None => Rearm::Dormant,
        }
    }
}

/// Decides whether a callback arms a successor, and after what delay.
///
/// With more than `limit` live references nothing is armed. Otherwise an empty heap
/// ends the chain, and a pending deadline asks for a callback after the time left
/// to it, which is zero where the deadline has passed already: the successor is
/// always handed to the host and never run from within this callback.
pub fn rearm(next: Option<u64>, now: u64, live_refs: usize, limit: usize) -> (decision: Rearm)
    ensures
        decision == rearm_for(next, now, live_refs, limit),
{
    if live_refs > limit {
        Rearm::Throttled
    } else {
        match next {
            Some(t) => Rearm::After { delay: delay_until(t, now) },
            None => Rearm::Dormant,
        }
    }
}

} // verus!
