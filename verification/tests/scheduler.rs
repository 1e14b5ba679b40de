use deadline_scheduler::driver::{Phase, Rearm, Signal, DEFAULT_WAKE_LIMIT};
use deadline_scheduler::scheduler::Scheduler;

const MS: u64 = 1_000_000;

#[test]
fn new_scheduler_is_idle_and_empty() {
    let scheduler: Scheduler<u8> = Scheduler::new();
    assert_eq!(scheduler.phase(), Phase::Idle);
    assert!(scheduler.is_empty());
    assert_eq!(scheduler.len(), 0);
    assert_eq!(scheduler.peek_min(), None);
    assert_eq!(scheduler.wait_timeout(0), None);
    assert_eq!(scheduler.wake_limit(), DEFAULT_WAKE_LIMIT);
    assert_eq!(Scheduler::<u8>::with_wake_limit(3).wake_limit(), 3);
}

#[test]
fn first_registration_starts_the_driver() {
    let mut scheduler = Scheduler::new();
    let first = scheduler.schedule(100 * MS, 'a');
    assert_eq!(first.signal, Signal::Start);
    assert_eq!(scheduler.phase(), Phase::Armed { wake_at: 100 * MS });
    assert_eq!(scheduler.wait_timeout(40 * MS), Some(60 * MS));
}

#[test]
fn only_one_registration_is_told_to_start() {
    let mut scheduler = Scheduler::new();
    let mut starts = 0;
    for token in 0..10u64 {
        if scheduler.schedule(50 * MS + token, token).signal == Signal::Start {
            starts += 1;
        }
    }
    assert_eq!(starts, 1);
}

#[test]
fn earlier_deadline_wakes_a_sleeping_driver() {
    let mut scheduler = Scheduler::new();
    scheduler.schedule(100 * MS, "late");
    let early = scheduler.schedule(30 * MS, "early");
    assert_eq!(early.signal, Signal::EarlyWake);
    assert_eq!(scheduler.phase(), Phase::Armed { wake_at: 30 * MS });
    assert_eq!(scheduler.wait_timeout(10 * MS), Some(20 * MS));
    let tick = scheduler.on_wake(30 * MS);
    assert_eq!(tick.fired.len(), 1);
    assert_eq!(tick.fired[0].id, early.id);
    assert_eq!(tick.fired[0].token, "early");
    assert_eq!(tick.next, Some(100 * MS));
    assert_eq!(scheduler.phase(), Phase::Armed { wake_at: 100 * MS });
}

#[test]
fn later_or_equal_deadline_is_quiet() {
    let mut scheduler = Scheduler::new();
    scheduler.schedule(30 * MS, 1u8);
    assert_eq!(scheduler.schedule(30 * MS, 2u8).signal, Signal::Quiet);
    assert_eq!(scheduler.schedule(90 * MS, 3u8).signal, Signal::Quiet);
    assert_eq!(scheduler.phase(), Phase::Armed { wake_at: 30 * MS });
}

#[test]
fn idle_then_restart_exactly_once() {
    let mut scheduler = Scheduler::new();
    assert_eq!(scheduler.schedule(10 * MS, 1u8).signal, Signal::Start);
    let tick = scheduler.on_wake(10 * MS);
    assert_eq!(tick.fired.len(), 1);
    assert_eq!(tick.next, None);
    assert_eq!(scheduler.phase(), Phase::Idle);
    assert_eq!(scheduler.wait_timeout(10 * MS), None);
    let again = scheduler.schedule(25 * MS, 2u8);
    assert_eq!(again.signal, Signal::Start);
    assert_eq!(scheduler.schedule(26 * MS, 3u8).signal, Signal::Quiet);
    assert_eq!(scheduler.phase(), Phase::Armed { wake_at: 25 * MS });
    let tick = scheduler.on_wake(25 * MS);
    assert_eq!(tick.fired.len(), 1);
    assert_eq!(tick.fired[0].id, again.id);
    assert_eq!(tick.fired[0].token, 2);
}

#[test]
fn wake_before_the_deadline_fires_nothing() {
    let mut scheduler = Scheduler::new();
    scheduler.schedule(10 * MS, 1u8);
    let tick = scheduler.on_wake(10 * MS - 1);
    assert!(tick.fired.is_empty());
    assert_eq!(tick.next, Some(10 * MS));
    assert_eq!(scheduler.phase(), Phase::Armed { wake_at: 10 * MS });
    assert_eq!(scheduler.wait_timeout(10 * MS - 1), Some(1));
}

#[test]
fn cancel_of_the_armed_entry_wakes_the_driver() {
    let mut scheduler = Scheduler::new();
    let early = scheduler.schedule(10 * MS, 'e');
    let late = scheduler.schedule(90 * MS, 'l');
    let cancelled = scheduler.cancel(early.id);
    assert_eq!(cancelled.entry.map(|e| (e.deadline, e.token)), Some((10 * MS, 'e')));
    assert_eq!(cancelled.signal, Signal::EarlyWake);
    assert_eq!(scheduler.phase(), Phase::Armed { wake_at: 10 * MS });
    let tick = scheduler.on_wake(0);
    assert!(tick.fired.is_empty());
    assert_eq!(scheduler.phase(), Phase::Armed { wake_at: 90 * MS });
    let last = scheduler.cancel(late.id);
    assert_eq!(last.signal, Signal::EarlyWake);
    assert!(scheduler.is_empty());
    let tick = scheduler.on_wake(0);
    assert_eq!(tick.next, None);
    assert_eq!(scheduler.phase(), Phase::Idle);
}

#[test]
fn cancel_elsewhere_is_quiet() {
    let mut scheduler = Scheduler::new();
    let early = scheduler.schedule(10 * MS, 'e');
    let twin = scheduler.schedule(10 * MS, 't');
    let late = scheduler.schedule(90 * MS, 'l');
    assert_eq!(scheduler.cancel(late.id).signal, Signal::Quiet);
    assert_eq!(scheduler.cancel(early.id).signal, Signal::Quiet);
    assert_eq!(scheduler.cancel(early.id).signal, Signal::Quiet);
    assert!(scheduler.cancel(early.id).entry.is_none());
    assert_eq!(scheduler.cancel(twin.id).signal, Signal::EarlyWake);
}

#[test]
fn cancel_on_an_idle_scheduler_is_quiet() {
    let mut scheduler = Scheduler::new();
    let only = scheduler.schedule(10 * MS, 1u8);
    scheduler.on_wake(10 * MS);
    let stale = scheduler.cancel(only.id);
    assert!(stale.entry.is_none());
    assert_eq!(stale.signal, Signal::Quiet);
    assert_eq!(scheduler.phase(), Phase::Idle);
}

#[test]
fn start_arms_for_the_earliest_or_goes_idle() {
    let mut scheduler = Scheduler::new();
    assert_eq!(scheduler.start(), Phase::Idle);
    let a = scheduler.schedule(40 * MS, 1u8);
    scheduler.schedule(20 * MS, 2u8);
    assert_eq!(scheduler.start(), Phase::Armed { wake_at: 20 * MS });
    scheduler.on_wake(20 * MS);
    scheduler.cancel(a.id);
    assert_eq!(scheduler.phase(), Phase::Armed { wake_at: 40 * MS });
    assert_eq!(scheduler.start(), Phase::Idle);
    assert_eq!(scheduler.phase(), Phase::Idle);
}

#[test]
fn failed_start_hands_the_registration_back() {
    let mut scheduler = Scheduler::new();
    let asked = scheduler.schedule(40 * MS, "token");
    assert_eq!(asked.signal, Signal::Start);
    let back = scheduler.start_failed(asked.id).expect("the registration is taken back");
    assert_eq!(back.deadline, 40 * MS);
    assert_eq!(back.token, "token");
    assert!(scheduler.is_empty());
    assert_eq!(scheduler.phase(), Phase::Idle);
    assert_eq!(scheduler.schedule(50 * MS, "next").signal, Signal::Start);
}

#[test]
fn callback_arms_a_successor_for_the_next_deadline() {
    let mut scheduler = Scheduler::new();
    scheduler.schedule(10 * MS, 'a');
    scheduler.schedule(35 * MS, 'b');
    let callback = scheduler.on_callback(12 * MS, 2);
    assert_eq!(callback.fired.len(), 1);
    assert_eq!(callback.fired[0].token, 'a');
    assert_eq!(callback.next, Some(35 * MS));
    assert_eq!(callback.rearm, Rearm::After { delay: 23 * MS });
    assert_eq!(scheduler.phase(), Phase::Armed { wake_at: 35 * MS });
}

#[test]
fn callback_ends_the_chain_on_an_empty_heap() {
    let mut scheduler = Scheduler::new();
    scheduler.schedule(10 * MS, 'a');
    let callback = scheduler.on_callback(10 * MS, 2);
    assert_eq!(callback.fired.len(), 1);
    assert_eq!(callback.rearm, Rearm::Dormant);
    assert_eq!(scheduler.phase(), Phase::Idle);
    assert_eq!(scheduler.schedule(20 * MS, 'b').signal, Signal::Start);
}

#[test]
fn throttled_callback_still_fires_and_leaves_restart_to_the_next_registration() {
    let mut scheduler = Scheduler::with_wake_limit(4);
    scheduler.schedule(10 * MS, 'a');
    scheduler.schedule(50 * MS, 'b');
    let callback = scheduler.on_callback(10 * MS, 5);
    assert_eq!(callback.fired.len(), 1);
    assert_eq!(callback.fired[0].token, 'a');
    assert_eq!(callback.next, Some(50 * MS));
    assert_eq!(callback.rearm, Rearm::Throttled);
    assert_eq!(scheduler.phase(), Phase::Idle);
    let later = scheduler.schedule(70 * MS, 'c');
    assert_eq!(later.signal, Signal::Start);
    assert_eq!(scheduler.phase(), Phase::Armed { wake_at: 50 * MS });
    let callback = scheduler.on_callback(70 * MS, 4);
    let tokens: Vec<char> = callback.fired.iter().map(|f| f.token).collect();
    assert_eq!(tokens, vec!['b', 'c']);
    assert_eq!(callback.rearm, Rearm::Dormant);
}
