use portweave::reconnect::{
    retry_delay, PendingRetry, ReconnectTracker, RetryDecision, MAX_RETRY_DELAY,
    STABLE_CONNECTION_TIME,
};

fn new_id() -> u128 {
    uuid::Uuid::new_v4().as_u128()
}

const NOW: u64 = 1_000_000;

#[test]
fn schedules_only_when_the_retry_is_due() {
    let mut tracker = ReconnectTracker::default();
    let id = new_id();
    let now = NOW;

    assert_eq!(
        tracker.after_exit(id, 3, 5, 2_000, now),
        RetryDecision::Scheduled { attempt: 1, delay: 5 }
    );
    assert!(tracker.take_due(now + 4_000).is_empty());
    assert_eq!(tracker.take_due(now + 5_000), vec![(id, 1)]);
}

#[test]
fn exhausts_the_configured_attempt_budget() {
    let mut tracker = ReconnectTracker::default();
    let id = new_id();
    let now = NOW;

    tracker.mark_started(id, Some(3));
    assert_eq!(
        tracker.after_exit(id, 3, 5, 1_000, now),
        RetryDecision::Exhausted { attempts: 3 }
    );
    assert!(tracker.pending(id).is_none());
}

#[test]
fn failed_process_spawns_consume_retry_attempts() {
    let mut tracker = ReconnectTracker::default();
    let id = new_id();
    let now = NOW;
    let interval = 5;

    assert_eq!(
        tracker.after_start_failure(id, 0, 2, interval, now),
        RetryDecision::Scheduled { attempt: 1, delay: interval }
    );
    assert_eq!(
        tracker.after_start_failure(id, 1, 2, interval, now),
        RetryDecision::Scheduled { attempt: 2, delay: 10 }
    );
    assert_eq!(
        tracker.after_start_failure(id, 2, 2, interval, now),
        RetryDecision::Exhausted { attempts: 2 }
    );
}

#[test]
fn stable_connection_receives_a_fresh_retry_budget() {
    let mut tracker = ReconnectTracker::default();
    let id = new_id();
    let now = NOW;

    tracker.mark_started(id, Some(3));
    assert_eq!(
        tracker.after_exit(id, 3, 5, STABLE_CONNECTION_TIME, now),
        RetryDecision::Scheduled { attempt: 1, delay: 5 }
    );
}

#[test]
fn cancelling_removes_pending_and_active_retry_state() {
    let mut tracker = ReconnectTracker::default();
    let id = new_id();
    let now = NOW;

    tracker.after_start_failure(id, 0, 3, 5, now);
    assert!(tracker.contains(id));
    tracker.cancel(id);
    assert!(!tracker.contains(id));

    tracker.mark_started(id, Some(1));
    assert!(tracker.contains(id));
    tracker.cancel(id);
    assert!(!tracker.contains(id));
}

#[test]
fn retry_delay_doubles_until_the_five_minute_cap() {
    let initial = 5;
    let delays: Vec<_> = (1..=10).map(|attempt| retry_delay(initial, attempt)).collect();

    assert_eq!(delays, vec![5, 10, 20, 40, 80, 160, 300, 300, 300, 300]);
}

#[test]
fn retry_delay_edges() {
    assert_eq!(retry_delay(0, 1), 1);
    assert_eq!(retry_delay(0, 0), 1);
    assert_eq!(retry_delay(7, 0), 7);
    assert_eq!(retry_delay(1_000, 1), MAX_RETRY_DELAY);
    assert_eq!(retry_delay(u64::MAX, 2), MAX_RETRY_DELAY);
    assert_eq!(retry_delay(1, 9), 256);
    assert_eq!(retry_delay(1, 10), MAX_RETRY_DELAY);
    assert_eq!(retry_delay(1, u16::MAX), MAX_RETRY_DELAY);
}

#[test]
fn a_retry_just_before_the_stable_time_keeps_counting() {
    let mut tracker = ReconnectTracker::new();
    let id = 42;
    tracker.mark_started(id, Some(2));
    assert_eq!(tracker.active_attempt(id), Some(2));
    assert_eq!(
        tracker.after_exit(id, 5, 3, STABLE_CONNECTION_TIME - 1, NOW),
        RetryDecision::Scheduled { attempt: 3, delay: 12 }
    );
    assert_eq!(tracker.active_attempt(id), None);
    assert_eq!(
        tracker.pending(id),
        Some(&PendingRetry { attempt: 3, due_at: NOW + 12_000, delay: 12 })
    );
}

#[test]
fn take_due_hands_out_due_retries_in_id_order_once() {
    let mut tracker = ReconnectTracker::new();
    tracker.after_start_failure(30, 0, 3, 5, NOW);
    tracker.after_start_failure(10, 0, 3, 5, NOW);
    tracker.after_start_failure(20, 1, 3, 5, NOW);
    assert_eq!(tracker.take_due(NOW + 5_000), vec![(10, 1), (30, 1)]);
    assert!(tracker.take_due(NOW + 5_000).is_empty());
    assert!(tracker.contains(20));
    assert_eq!(tracker.take_due(NOW + 10_000), vec![(20, 2)]);
    assert!(!tracker.contains(20));
}

#[test]
fn a_manual_start_clears_the_active_attempt() {
    let mut tracker = ReconnectTracker::new();
    tracker.after_start_failure(7, 0, 3, 5, NOW);
    tracker.mark_started(7, None);
    assert!(tracker.pending(7).is_none());
    assert!(!tracker.contains(7));
}

#[test]
fn a_zero_budget_never_retries() {
    let mut tracker = ReconnectTracker::new();
    assert_eq!(
        tracker.after_exit(1, 0, 5, 0, NOW),
        RetryDecision::Exhausted { attempts: 0 }
    );
    assert!(!tracker.contains(1));
}
