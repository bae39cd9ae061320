use snippet_stage::pipeline::{
    AuditKind, LookupError, Pipeline, PromoteError, StagingState, SubmitError, VerifyError,
};
use snippet_stage::programs::{factorial, fib};
use snippet_stage::sandbox::{ExecutionOutcome, ExitStatus, SpecStatus};

const FACTORIAL_SRC: &[u8] =
    b"fn factorial(n: u64) -> u64 {\n    if n <= 1 { 1 } else { n * factorial(n-1) }\n}\nfn main() {\n    println!(\"{}\", factorial(10));\n}\n";
const FIB_SRC: &[u8] = b"fn fib(n: u32) -> u64 {\n    let (mut a, mut b) = (0u64, 1u64);\n    for _ in 0..n { let t = a + b; a = b; b = t; }\n    a\n}\nfn main() {\n    println!(\"{}\", fib(20));\n}\n";

fn b(s: &str) -> Vec<u8> {
    s.as_bytes().to_vec()
}

fn deployment() -> Pipeline {
    let mut p = Pipeline::new();
    assert!(p.register_engine(&b("rust"), &b("RUST-d")));
    p
}

fn clean_run(stdout: String, elapsed: u64) -> ExecutionOutcome {
    ExecutionOutcome { stdout: stdout.into_bytes(), exit: ExitStatus::Exited { code: 0 }, elapsed_micros: elapsed }
}

fn submit(p: &mut Pipeline, slot: &str, label: &str, src: &[u8], id: u64, now: u64) -> Result<u64, SubmitError> {
    p.submit(&b("rust"), &b("RUST-d"), &b(slot), &b(label), &src.to_vec(), id, now)
}

#[test]
fn factorial_scenario() {
    let mut p = deployment();
    let x = submit(&mut p, "d2", "Factorial", FACTORIAL_SRC, 0x55ce4f44ddcf, 1000).unwrap();
    assert_eq!(x, 0x55ce4f44ddcf);
    let out = clean_run(format!("{}\n", factorial(10)), 1446300);
    assert_eq!(out.stdout, b("3628800\n"));
    let r = p.verify(x, &out, &b("3628800"), 1002).unwrap();
    assert_eq!(r.status, SpecStatus::Pass);
    assert!(r.elapsed_micros > 0);
    let v = p.current_version(&b("rust"), &b("d2"));
    assert_eq!(v, 0);
    let ev = p.promote(x, v, 1003).unwrap();
    assert_eq!(ev.staging_id, x);
    assert_eq!(ev.outgoing_staging_id, None);
    let slot = p.get_slot(&b("rust"), &b("d2")).unwrap();
    assert_eq!(slot.active_staging_id, x);
    assert_eq!(slot.history.len(), 1);
    assert_eq!(slot.version, 1);
    let hx = p.staging_status(x).unwrap().content_hash;
    assert_eq!(slot.active_hash, hx);

    let y = submit(&mut p, "d2", "Factorial", FACTORIAL_SRC, 0xb585241b6a80, 9000).unwrap();
    assert_ne!(x, y);
    let sy = p.staging_status(y).unwrap();
    assert_eq!(sy.content_hash, hx);
    assert_eq!(sy.state, StagingState::Staged);
    let ry = p.verify(y, &clean_run(format!("{}\n", factorial(10)), 2899800), &b("3628800"), 9003).unwrap();
    assert_eq!(ry.status, SpecStatus::Pass);
    assert_ne!(ry.elapsed_micros, r.elapsed_micros);
    let ev2 = p.promote(y, 1, 9004).unwrap();
    assert_eq!(ev2.outgoing_staging_id, Some(x));
    let slot = p.get_slot(&b("rust"), &b("d2")).unwrap();
    assert_eq!(slot.active_staging_id, y);
    assert_eq!(slot.history.len(), 2);
    assert_eq!(slot.version, 2);
    assert_eq!(slot.history[0].staging_id, x);
    assert_eq!(slot.history[1].staging_id, y);
    assert_eq!(p.attempts_with_hash(hx), vec![x, y]);
    assert_eq!(p.fetch_source(hx), Some(b(std::str::from_utf8(FACTORIAL_SRC).unwrap().trim_end())));
}

#[test]
fn fibonacci_scenario() {
    let mut p = deployment();
    let x = submit(&mut p, "d2", "Factorial", FACTORIAL_SRC, 1, 10).unwrap();
    p.verify(x, &clean_run(format!("{}\n", factorial(10)), 100), &b("3628800"), 11).unwrap();
    p.promote_if_passing(x, 12).unwrap();

    let f = submit(&mut p, "d3", "Fibonacci", FIB_SRC, 0x4473040f34c9, 20).unwrap();
    let out = clean_run(format!("{}\n", fib(20)), 1105100);
    assert_eq!(out.stdout, b("6765\n"));
    assert_eq!(p.verify(f, &out, &b("6765"), 21).unwrap().status, SpecStatus::Pass);
    let ev = p.promote(f, 0, 22).unwrap();
    assert_eq!(ev.outgoing_staging_id, None);
    let d3 = p.get_slot(&b("rust"), &b("d3")).unwrap();
    assert_eq!(d3.active_staging_id, f);
    assert_eq!(d3.version, 1);
    let d2 = p.get_slot(&b("rust"), &b("d2")).unwrap();
    assert_eq!(d2.active_staging_id, x);
    assert_eq!(d2.version, 1);
    assert_eq!(d2.history.len(), 1);
}

#[test]
fn timeout_scenario() {
    let mut p = deployment();
    let x = submit(&mut p, "d4", "Loop", b"fn main() { loop {} }", 5, 10).unwrap();
    let out = ExecutionOutcome { stdout: b("6765"), exit: ExitStatus::TimedOut, elapsed_micros: 5_000_000 };
    let r = p.verify(x, &out, &b("6765"), 20).unwrap();
    assert_eq!(r.status, SpecStatus::Timeout);
    assert_eq!(p.promote(x, 0, 21), Err(PromoteError::VerificationMismatch));
    assert_eq!(p.promote_if_passing(x, 22), Err(PromoteError::VerificationMismatch));
    assert_eq!(p.staging_status(x).unwrap().state, StagingState::VerifiedFail);
    assert_eq!(p.get_slot(&b("rust"), &b("d4")).err(), Some(LookupError::UnknownSlot));
}

#[test]
fn second_verify_is_refused() {
    let mut p = deployment();
    let x = submit(&mut p, "d2", "Factorial", FACTORIAL_SRC, 3, 10).unwrap();
    let first = p.verify(x, &clean_run(b_str("3628800"), 7), &b("3628800"), 11).unwrap();
    let again = p.verify(x, &clean_run(b_str("0"), 9), &b("3628800"), 12);
    assert_eq!(again, Err(VerifyError::AlreadyVerified));
    assert_eq!(p.staging_status(x).unwrap().spec_result, Some(first));
}

fn b_str(s: &str) -> String {
    s.to_string()
}

#[test]
fn failed_attempt_is_not_promoted() {
    let mut p = deployment();
    let x = submit(&mut p, "d2", "Factorial", FACTORIAL_SRC, 3, 10).unwrap();
    assert_eq!(p.promote(x, 0, 11), Err(PromoteError::VerificationMismatch));
    let r = p.verify(x, &clean_run(b_str("42"), 7), &b("3628800"), 12).unwrap();
    assert_eq!(r.status, SpecStatus::Fail);
    assert_eq!(p.promote(x, 0, 13), Err(PromoteError::VerificationMismatch));
    let err = ExecutionOutcome { stdout: b(""), exit: ExitStatus::Exited { code: 1 }, elapsed_micros: 3 };
    let y = submit(&mut p, "d2", "Factorial", FACTORIAL_SRC, 4, 10).unwrap();
    assert_eq!(p.verify(y, &err, &b("3628800"), 14).unwrap().status, SpecStatus::Error);
    assert_eq!(p.promote(y, 0, 15), Err(PromoteError::VerificationMismatch));
}

#[test]
fn stale_version_loses_the_race() {
    let mut p = deployment();
    let mut ids = Vec::new();
    for id in 10..13u64 {
        submit(&mut p, "d2", "Factorial", FACTORIAL_SRC, id, 10).unwrap();
        p.verify(id, &clean_run(b_str("3628800"), id), &b("3628800"), 11).unwrap();
        ids.push(id);
    }
    let v = p.current_version(&b("rust"), &b("d2"));
    assert!(p.promote(ids[0], v, 20).is_ok());
    assert_eq!(p.promote(ids[1], v, 21), Err(PromoteError::StaleSlotVersion { current: 1 }));
    assert_eq!(p.promote(ids[2], v, 22), Err(PromoteError::StaleSlotVersion { current: 1 }));
    let slot = p.get_slot(&b("rust"), &b("d2")).unwrap();
    assert_eq!(slot.version, 1);
    assert_eq!(slot.history.len(), 1);
    assert_eq!(slot.active_staging_id, ids[0]);
    assert!(p.promote(ids[1], 1, 23).is_ok());
    assert_eq!(p.get_slot(&b("rust"), &b("d2")).unwrap().version, 2);
}

#[test]
fn promotion_is_not_repeated() {
    let mut p = deployment();
    let x = submit(&mut p, "d2", "Factorial", FACTORIAL_SRC, 3, 10).unwrap();
    p.verify(x, &clean_run(b_str("3628800"), 7), &b("3628800"), 11).unwrap();
    p.promote(x, 0, 12).unwrap();
    assert_eq!(p.promote(x, 1, 13), Err(PromoteError::AlreadyPromoted));
    assert_eq!(p.get_slot(&b("rust"), &b("d2")).unwrap().history.len(), 1);
    let st = p.staging_status(x).unwrap();
    assert_eq!(st.state, StagingState::Promoted);
    assert_eq!(st.promoted_at, Some(12));
}

#[test]
fn promoted_at_never_precedes_creation() {
    let mut p = deployment();
    let x = submit(&mut p, "d2", "Factorial", FACTORIAL_SRC, 3, 500).unwrap();
    p.verify(x, &clean_run(b_str("3628800"), 7), &b("3628800"), 501).unwrap();
    let ev = p.promote(x, 0, 100).unwrap();
    assert_eq!(ev.promoted_at, 500);
}

#[test]
fn unknown_engine_is_refused() {
    let mut p = deployment();
    let r = p.submit(&b("rust"), &b("RUST-x"), &b("d2"), &b("F"), &b("fn main() {}"), 1, 1);
    assert_eq!(r, Err(SubmitError::InvalidEngine));
    let r = p.submit(&b("python"), &b("RUST-d"), &b("d2"), &b("F"), &b("fn main() {}"), 1, 1);
    assert_eq!(r, Err(SubmitError::InvalidEngine));
    assert_eq!(p.staging_count(), 0);
}

#[test]
fn registering_an_engine_twice() {
    let mut p = deployment();
    assert!(!p.register_engine(&b("rust"), &b("RUST-d")));
    assert!(p.register_engine(&b("python"), &b("PY-a")));
    assert!(p.submit(&b("python"), &b("PY-a"), &b("a1"), &b("F"), &b("print(1)"), 1, 1).is_ok());
}

#[test]
fn staging_id_reuse_is_refused() {
    let mut p = deployment();
    submit(&mut p, "d2", "Factorial", FACTORIAL_SRC, 7, 1).unwrap();
    assert_eq!(submit(&mut p, "d3", "Fibonacci", FIB_SRC, 7, 2), Err(SubmitError::DuplicateStagingId));
    assert_eq!(p.staging_count(), 1);
}

#[test]
fn unknown_ids_are_reported() {
    let mut p = deployment();
    assert_eq!(p.staging_status(1), Err(LookupError::UnknownStagingId));
    assert_eq!(p.verify(1, &clean_run(b_str("1"), 1), &b("1"), 1), Err(VerifyError::UnknownStagingId));
    assert_eq!(p.promote(1, 0, 1), Err(PromoteError::UnknownStagingId));
    assert_eq!(p.promote_if_passing(1, 1), Err(PromoteError::UnknownStagingId));
}

#[test]
fn normalized_sources_share_a_hash() {
    let mut p = deployment();
    submit(&mut p, "d2", "Factorial", b"fn main() {}\r\n", 1, 1).unwrap();
    submit(&mut p, "d2", "Factorial", b"fn main() {}   \n\n", 2, 2).unwrap();
    let h1 = p.staging_status(1).unwrap().content_hash;
    let h2 = p.staging_status(2).unwrap().content_hash;
    assert_eq!(h1, h2);
    assert_eq!(p.attempts_with_hash(h1), vec![1, 2]);
    assert_eq!(p.fetch_source(h1), Some(b("fn main() {}")));
}

#[test]
fn audit_log_records_each_step() {
    let mut p = deployment();
    let x = submit(&mut p, "d2", "Factorial", FACTORIAL_SRC, 3, 10).unwrap();
    p.verify(x, &clean_run(b_str("3628800"), 7), &b("3628800"), 11).unwrap();
    p.promote(x, 0, 12).unwrap();
    let log = p.audit_log();
    let kinds: Vec<AuditKind> = log.iter().map(|e| e.kind).collect();
    assert_eq!(kinds, vec![AuditKind::StagingCreated, AuditKind::ExecutionCompleted, AuditKind::Promoted]);
    let times: Vec<u64> = log.iter().map(|e| e.timestamp).collect();
    assert_eq!(times, vec![10, 11, 12]);
    assert!(log.iter().all(|e| e.staging_id == x));
}
