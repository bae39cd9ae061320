use snippet_stage::sandbox::{
    judge, on_infra_failure, EngineQueue, ExecutionOutcome, ExitStatus, RetryDecision, RetryPolicy, SpecStatus,
};

fn run(stdout: &[u8], exit: ExitStatus, elapsed: u64) -> ExecutionOutcome {
    ExecutionOutcome { stdout: stdout.to_vec(), exit, elapsed_micros: elapsed }
}

#[test]
fn judge_pass_ignores_trailing_newline() {
    let r = judge(&run(b"3628800\n", ExitStatus::Exited { code: 0 }, 1446300), &b"3628800".to_vec());
    assert_eq!(r.status, SpecStatus::Pass);
    assert_eq!(r.elapsed_micros, 1446300);
}

#[test]
fn judge_mismatch_fails() {
    let r = judge(&run(b"3628801\n", ExitStatus::Exited { code: 0 }, 10), &b"3628800".to_vec());
    assert_eq!(r.status, SpecStatus::Fail);
}

#[test]
fn judge_timeout_passes_through() {
    let r = judge(&run(b"3628800", ExitStatus::TimedOut, 5_000_000), &b"3628800".to_vec());
    assert_eq!(r.status, SpecStatus::Timeout);
}

#[test]
fn judge_nonzero_exit_is_error() {
    let r = judge(&run(b"3628800", ExitStatus::Exited { code: 101 }, 10), &b"3628800".to_vec());
    assert_eq!(r.status, SpecStatus::Error);
}

#[test]
fn judge_infra_failure_is_error() {
    let r = judge(&run(b"", ExitStatus::InfraFailure, 0), &b"".to_vec());
    assert_eq!(r.status, SpecStatus::Error);
}

#[test]
fn retry_backs_off_then_gives_up() {
    let p = RetryPolicy { max_attempts: 4, base_delay_ms: 100, max_delay_ms: 1000 };
    assert_eq!(on_infra_failure(&p, 1), RetryDecision::RetryAfter { delay_ms: 100 });
    assert_eq!(on_infra_failure(&p, 2), RetryDecision::RetryAfter { delay_ms: 200 });
    assert_eq!(on_infra_failure(&p, 3), RetryDecision::RetryAfter { delay_ms: 400 });
    assert_eq!(on_infra_failure(&p, 4), RetryDecision::GiveUp);
    assert_eq!(on_infra_failure(&p, 9), RetryDecision::GiveUp);
}

#[test]
fn retry_delay_is_capped() {
    let p = RetryPolicy { max_attempts: 10, base_delay_ms: 300, max_delay_ms: 1000 };
    assert_eq!(on_infra_failure(&p, 2), RetryDecision::RetryAfter { delay_ms: 600 });
    assert_eq!(on_infra_failure(&p, 3), RetryDecision::RetryAfter { delay_ms: 1000 });
    let q = RetryPolicy { max_attempts: 70, base_delay_ms: u64::MAX, max_delay_ms: u64::MAX };
    assert_eq!(on_infra_failure(&q, 65), RetryDecision::RetryAfter { delay_ms: u64::MAX });
}

#[test]
fn engine_queue_is_fifo() {
    let mut q = EngineQueue::new(2);
    assert!(q.enqueue(1));
    assert!(q.enqueue(2));
    assert!(!q.enqueue(3));
    assert!(!q.enqueue(4));
    assert_eq!(q.finish(2), Some(3));
    assert_eq!(q.finish(1), Some(4));
    assert_eq!(q.finish(3), None);
    assert_eq!(q.finish(99), None);
    assert!(q.enqueue(5));
}

#[test]
fn engine_queue_without_workers_only_waits() {
    let mut q = EngineQueue::new(0);
    assert!(!q.enqueue(1));
    assert_eq!(q.finish(1), None);
}

#[test]
fn engine_queue_abandon_only_waiting_runs() {
    let mut q = EngineQueue::new(1);
    assert!(q.enqueue(1));
    assert!(!q.enqueue(2));
    assert!(!q.enqueue(3));
    assert!(!q.abandon(1));
    assert!(q.abandon(2));
    assert!(!q.abandon(2));
    assert_eq!(q.finish(1), Some(3));
    assert_eq!(q.finish(3), None);
}
