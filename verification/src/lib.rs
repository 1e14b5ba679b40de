//! A deadline scheduler.
//!
//! Many tasks ask to be woken at a time of their choice; the scheduler keeps their
//! deadlines in a heap and tells a driver when to tick next, so that one timer of
//! the platform serves them all.
//!
//! * `time`: instants and durations, and the clamping of sleeps.
//! * `entry`: ids and entries, and the models that contracts are stated over.
//! * `heap`: the heap of pending deadlines, with registering, cancelling and the
//!   tick that fires what is due.
//! * `driver`: the phases of a driver and the decisions between them.
//! * `scheduler`: heap and phase together, as registrations and drivers share them.
//! * `laws`: what holds of every heap and every tick.
//!
//! The library never sleeps, locks or wakes anything itself. A tick hands back the
//! tokens of the entries it fired, in firing order, and the caller wakes them.

mod order;
pub mod time;
pub mod entry;
pub mod heap;
pub mod driver;
pub mod scheduler;
pub mod laws;
