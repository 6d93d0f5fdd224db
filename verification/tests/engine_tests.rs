//! The retry policy, the decisions of the retry loop and the record of a run.
use taskforge::clock::UtcTime;
use taskforge::engine::executor::{attempt_to_record, attempt_to_record_at, ExecutionAttempt};
use taskforge::engine::supervisor::{after_attempt, RetryAction, RetryState, DUE_WINDOW_SECS, TICK_INTERVAL_SECS};
use taskforge::engine::RetryPolicy;
use taskforge::types::{Schedule, Task};

fn make_task(id: &str, max_retries: u32, timeout_seconds: u32) -> Task {
    Task {
        id: id.to_string(),
        name: id.to_string(),
        command: format!("echo {}", id),
        schedule: Schedule::EveryMinutes(5),
        timeout_seconds,
        max_retries,
        enabled: true,
    }
}

/// Runs the retry loop on the given outcomes; returns the number of runs
/// and the delays waited, in milliseconds.
fn run_loop(policy: &RetryPolicy, outcomes: &[bool]) -> (usize, Vec<u64>) {
    let mut state = RetryState::start();
    let mut delays = Vec::new();
    for (i, ok) in outcomes.iter().enumerate() {
        let (next, action) = after_attempt(policy, state, *ok);
        state = next;
        match action {
            RetryAction::Finish => return (i + 1, delays),
            RetryAction::RetryAfter(d) => delays.push(d),
        }
    }
    (outcomes.len(), delays)
}

// ---------------------------------------------------------------------------
// Retry policy
// ---------------------------------------------------------------------------

#[test]
fn test_no_retry() {
    let policy = RetryPolicy::no_retry();
    assert!(!policy.should_retry(0));
}

#[test]
fn test_should_retry_within_limit() {
    let policy = RetryPolicy::new(3);
    assert!(policy.should_retry(0));
    assert!(policy.should_retry(1));
    assert!(policy.should_retry(2));
    assert!(!policy.should_retry(3));
}

#[test]
fn test_backoff_doubles() {
    let policy = RetryPolicy::new(5);
    let d1 = policy.delay_for(1);
    let d2 = policy.delay_for(2);
    let d3 = policy.delay_for(3);
    assert_eq!(d2, d1 * 2);
    assert_eq!(d3, d2 * 2);
}

#[test]
fn test_backoff_capped_at_max() {
    let policy = RetryPolicy::new(10);
    let d_high = policy.delay_for(10);
    assert_eq!(d_high, policy.max_delay);
}

#[test]
fn test_delay_for_attempt_zero() {
    let policy = RetryPolicy::new(3);
    assert_eq!(policy.delay_for(0), 0);
}

#[test]
fn test_backoff_sequence_of_default_policy() {
    let policy = RetryPolicy::new(6);
    let delays: Vec<u64> = (1..=6).map(|a| policy.delay_for(a)).collect();
    assert_eq!(delays, vec![5_000, 10_000, 20_000, 40_000, 60_000, 60_000]);
}

#[test]
fn test_backoff_saturates_on_huge_base() {
    let policy = RetryPolicy { max_retries: 3, base_delay: u64::MAX / 2, max_delay: u64::MAX };
    assert_eq!(policy.delay_for(1), u64::MAX / 2);
    assert_eq!(policy.delay_for(3), u64::MAX);
    assert_eq!(policy.delay_for(u32::MAX), u64::MAX);
}

#[test]
fn test_backoff_exponent_capped_at_31() {
    let policy = RetryPolicy { max_retries: 40, base_delay: 1, max_delay: u64::MAX };
    assert_eq!(policy.delay_for(32), 1u64 << 31);
    assert_eq!(policy.delay_for(40), 1u64 << 31);
}

#[test]
fn test_default_policy_has_no_retry() {
    let policy = RetryPolicy::default();
    assert_eq!(policy.max_retries, 0);
    assert_eq!(policy.base_delay, 5_000);
    assert_eq!(policy.max_delay, 60_000);
}

// ---------------------------------------------------------------------------
// The retry loop
// ---------------------------------------------------------------------------

#[test]
fn test_success_finishes_at_once() {
    let policy = RetryPolicy::new(3);
    assert_eq!(run_loop(&policy, &[true, true]), (1, vec![]));
}

#[test]
fn test_failures_exhaust_max_retries() {
    let policy = RetryPolicy::new(2);
    let (runs, delays) = run_loop(&policy, &[false, false, false, false]);
    assert_eq!(runs, 3);
    assert_eq!(delays, vec![5_000, 10_000]);
}

#[test]
fn test_no_retry_runs_once() {
    let policy = RetryPolicy::new(0);
    assert_eq!(run_loop(&policy, &[false, true]), (1, vec![]));
}

#[test]
fn test_eventual_success_stops_retries() {
    let policy = RetryPolicy::new(3);
    assert_eq!(run_loop(&policy, &[false, false, true, false]), (3, vec![5_000, 10_000]));
}

#[test]
fn test_supervisor_timing_constants() {
    assert_eq!(TICK_INTERVAL_SECS, 60);
    assert_eq!(DUE_WINDOW_SECS, 65);
}

// ---------------------------------------------------------------------------
// Attempts and records
// ---------------------------------------------------------------------------

#[test]
fn test_finished_attempt_success_is_exit_zero() {
    let ok = ExecutionAttempt::finished("out".to_string(), String::new(), Some(0));
    assert!(ok.success);
    assert!(!ok.timed_out);
    let failed = ExecutionAttempt::finished(String::new(), "err".to_string(), Some(1));
    assert!(!failed.success);
    let killed = ExecutionAttempt::finished(String::new(), String::new(), None);
    assert!(!killed.success);
}

#[test]
fn test_timed_out_attempt_message() {
    let task = make_task("slow", 0, 1);
    let a = ExecutionAttempt::timed_out(&task);
    assert!(a.timed_out);
    assert!(!a.success);
    assert_eq!(a.exit_code, None);
    assert_eq!(a.stderr, "Tâche 'slow' tuée après 1s (timeout)");
    assert!(a.stderr.contains("timeout"));
}

#[test]
fn test_spawn_and_wait_failures() {
    let a = ExecutionAttempt::spawn_failed("No such file");
    assert_eq!(a.stderr, "Impossible de lancer la commande : No such file");
    assert!(!a.success);
    let b = ExecutionAttempt::wait_failed("interrupted");
    assert_eq!(b.stderr, "Erreur d'attente du processus : interrupted");
    assert_eq!(b.exit_code, None);
}

#[test]
fn test_attempt_to_record_at_copies_the_run() {
    let task = make_task("ping", 0, 10);
    let start = UtcTime { secs: 1_700_000_000, nanos: 5 };
    let end = UtcTime { secs: 1_700_000_001, nanos: 0 };
    let attempt = ExecutionAttempt::finished("pong\n".to_string(), String::new(), Some(0));
    let r = attempt_to_record_at(&task, attempt, start, end);
    assert_eq!(r.task_id, "ping");
    assert_eq!(r.start_time, start);
    assert_eq!(r.end_time, Some(end));
    assert_eq!(r.exit_code, Some(0));
    assert_eq!(r.stdout, "pong\n");
    assert!(r.success);
}

#[test]
fn test_attempt_to_record_ends_now() {
    let task = make_task("ts", 0, 10);
    let start = UtcTime { secs: 1_000_000_000, nanos: 0 };
    let attempt = ExecutionAttempt::finished(String::new(), String::new(), Some(0));
    let r = attempt_to_record(&task, attempt, start);
    let end = r.end_time.unwrap();
    assert!(end.secs >= start.secs);
    assert!(end.nanos < 1_000_000_000);
}
