use slint_omarchy::toast::{SavedToastTimer, NANOS_PER_SEC, TIMEOUT_NANOS};

const SEC: u64 = NANOS_PER_SEC;

#[test]
fn pause_preserves_remaining_time_and_replacement_restarts_it() {
    let now: u64 = 1_000 * SEC;
    let mut timer = SavedToastTimer::default();
    timer.restart(now, false);
    timer.set_paused(now + 2 * SEC, true);
    assert!(!timer.expired(now + 20 * SEC));
    timer.set_paused(now + 20 * SEC, false);
    assert!(!timer.expired(now + 23 * SEC));
    assert!(timer.expired(now + 24 * SEC));

    timer.restart(now + 25 * SEC, false);
    assert!(!timer.expired(now + 30 * SEC));
    assert!(timer.expired(now + 31 * SEC));
}

#[test]
fn dismiss_clears_paused_state_for_the_next_notification() {
    let now: u64 = 1_000 * SEC;
    let mut timer = SavedToastTimer::default();
    timer.restart(now, true);
    timer.dismiss();
    timer.restart(now + SEC, false);
    assert!(timer.expired(now + 7 * SEC));
}

#[test]
fn restarted_timer_expires_exactly_at_the_timeout() {
    let mut timer = SavedToastTimer::new();
    timer.restart(0, false);
    assert!(!timer.expired(TIMEOUT_NANOS - 1));
    assert!(timer.expired(TIMEOUT_NANOS));
}

#[test]
fn paused_timer_never_expires() {
    let mut timer = SavedToastTimer::new();
    timer.restart(5, true);
    assert!(!timer.expired(u64::MAX));
    timer.set_paused(10, false);
    assert!(!timer.expired(10 + TIMEOUT_NANOS - 1));
    assert!(timer.expired(10 + TIMEOUT_NANOS));
}

#[test]
fn idle_timer_ignores_pause_requests() {
    let mut timer = SavedToastTimer::new();
    timer.set_paused(0, true);
    timer.set_paused(1, false);
    assert!(!timer.expired(u64::MAX));
}

#[test]
fn pausing_after_the_deadline_leaves_no_time() {
    let mut timer = SavedToastTimer::new();
    timer.restart(0, false);
    timer.set_paused(TIMEOUT_NANOS + 1, true);
    timer.set_paused(TIMEOUT_NANOS + 2, false);
    assert!(!timer.expired(u64::MAX));
}
