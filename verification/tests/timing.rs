use deadline_scheduler::driver::{rearm, Phase, Rearm, Signal, DEFAULT_WAKE_LIMIT};
use deadline_scheduler::time::{delay_until, timeout_millis, NANOS_PER_MILLI};

#[test]
fn delay_is_the_time_left() {
    assert_eq!(delay_until(50, 20), 30);
    assert_eq!(delay_until(u64::MAX, 0), u64::MAX);
}

#[test]
fn delay_is_zero_once_the_deadline_has_passed() {
    assert_eq!(delay_until(20, 20), 0);
    assert_eq!(delay_until(20, 50), 0);
    assert_eq!(delay_until(0, u64::MAX), 0);
}

#[test]
fn timeout_drops_the_fraction_of_a_millisecond() {
    assert_eq!(NANOS_PER_MILLI, 1_000_000);
    assert_eq!(timeout_millis(0), 0);
    assert_eq!(timeout_millis(999_999), 0);
    assert_eq!(timeout_millis(1_000_000), 1);
    assert_eq!(timeout_millis(5_999_999), 5);
    assert_eq!(timeout_millis(100 * NANOS_PER_MILLI), 100);
}

#[test]
fn timeout_too_long_for_the_host_is_zero() {
    let edge = (i32::MAX as u64) * NANOS_PER_MILLI;
    assert_eq!(timeout_millis(edge), i32::MAX);
    assert_eq!(timeout_millis(edge + NANOS_PER_MILLI - 1), i32::MAX);
    assert_eq!(timeout_millis(edge + NANOS_PER_MILLI), 0);
    assert_eq!(timeout_millis(u64::MAX), 0);
}

#[test]
fn rearm_after_the_time_left() {
    assert_eq!(rearm(Some(80), 30, 2, 20), Rearm::After { delay: 50 });
}

#[test]
fn rearm_with_zero_delay_for_a_deadline_that_has_passed() {
    assert_eq!(rearm(Some(30), 30, 2, 20), Rearm::After { delay: 0 });
    assert_eq!(rearm(Some(10), 30, 2, 20), Rearm::After { delay: 0 });
}

#[test]
fn rearm_goes_dormant_on_an_empty_heap() {
    assert_eq!(rearm(None, 30, 2, 20), Rearm::Dormant);
}

#[test]
fn rearm_is_throttled_above_the_limit_only() {
    assert_eq!(DEFAULT_WAKE_LIMIT, 20);
    assert_eq!(rearm(Some(80), 30, 20, DEFAULT_WAKE_LIMIT), Rearm::After { delay: 50 });
    assert_eq!(rearm(Some(80), 30, 21, DEFAULT_WAKE_LIMIT), Rearm::Throttled);
    assert_eq!(rearm(None, 30, 21, DEFAULT_WAKE_LIMIT), Rearm::Throttled);
    assert_eq!(rearm(Some(80), 30, 1, 0), Rearm::Throttled);
    assert_eq!(rearm(Some(80), 30, 0, 0), Rearm::After { delay: 50 });
}

#[test]
fn idle_driver_has_no_timeout() {
    assert_eq!(Phase::Idle.wait_timeout(0), None);
    assert_eq!(Phase::Idle.wait_timeout(u64::MAX), None);
}

#[test]
fn armed_driver_sleeps_the_time_left() {
    let armed = Phase::Armed { wake_at: 70 };
    assert_eq!(armed.wait_timeout(30), Some(40));
    assert_eq!(armed.wait_timeout(70), Some(0));
    assert_eq!(armed.wait_timeout(90), Some(0));
}

#[test]
fn signals_ask_for_an_immediate_callback_or_none() {
    assert_eq!(Signal::Quiet.callback_delay(), None);
    assert_eq!(Signal::EarlyWake.callback_delay(), Some(0));
    assert_eq!(Signal::Start.callback_delay(), Some(0));
}
