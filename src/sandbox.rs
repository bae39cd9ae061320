//! What the execution sandboxes report, how a report is judged, and the
//! scheduling decisions around the sandboxes: retry of infrastructure
//! failures and per-engine FIFO admission.

use vstd::prelude::*;
use crate::content::{strip_trailing_blanks, trim_end, bytes_equal};

verus! {

/// How a sandboxed run ended.
#[derive(Debug, Clone, Copy, PartialEq, Eq, Structural)]
pub enum ExitStatus {
    /// The program ran to the end with this exit code.
    Exited { code: i32 },
    /// The wall-clock bound was hit and the run was killed.
    TimedOut,
    /// No sandbox could be provisioned, after every retry.
    InfraFailure,
}

/// What a sandbox hands back for one run.
pub struct ExecutionOutcome {
    pub stdout: Vec<u8>,
    pub exit: ExitStatus,
    pub elapsed_micros: u64,
}

/// The verdict attached to a staging attempt.
#[derive(Debug, Clone, Copy, PartialEq, Eq, Structural)]
pub enum SpecStatus {
    Pass,
    Fail,
    Timeout,
    Error,
}

/// A verdict together with the time the run took.
#[derive(Debug, Clone, Copy, PartialEq, Eq, Structural)]
pub struct SpecResult {
    pub status: SpecStatus,
    pub elapsed_micros: u64,
}

/// The verdict on a run: timeouts and failed runs pass through as they are;
/// a clean run passes exactly when its output, without trailing blanks,
/// is the expected output without trailing blanks.
pub open spec fn judged_status(exit: ExitStatus, stdout: Seq<u8>, expected: Seq<u8>) -> SpecStatus {
    match exit {
        ExitStatus::TimedOut => SpecStatus::Timeout,
        ExitStatus::InfraFailure => SpecStatus::Error,
        ExitStatus::Exited { code } => if code != 0 {
            SpecStatus::Error
        } else if trim_end(stdout) == trim_end(expected) {
            SpecStatus::Pass
        } else {
            SpecStatus::Fail
        },
    }
}

/// Judges a run against the expected output.
pub fn judge(outcome: &ExecutionOutcome, expected: &Vec<u8>) -> (r: SpecResult)
    ensures
        r.status == judged_status(outcome.exit, outcome.stdout@, expected@),
        r.elapsed_micros == outcome.elapsed_micros,
{
    let status = match outcome.exit {
        ExitStatus::TimedOut => SpecStatus::Timeout,
        ExitStatus::InfraFailure => SpecStatus::Error,
        ExitStatus::Exited { code } => {
            if code != 0 {
                SpecStatus::Error
            } else {
                let mut got = outcome.stdout.clone();
                assert(got@ == outcome.stdout@);
                strip_trailing_blanks(&mut got);
                let mut want = expected.clone();
                assert(want@ == expected@);
                strip_trailing_blanks(&mut want);
                if bytes_equal(&got, &want) {
                    SpecStatus::Pass
                } else {
                    SpecStatus::Fail
                }
            }
        },
    };
    SpecResult { status, elapsed_micros: outcome.elapsed_micros }
}

/// How provisioning failures are retried.
#[derive(Debug, Clone, Copy, PartialEq, Eq, Structural)]
pub struct RetryPolicy {
    /// Attempts in all, the first included.
    pub max_attempts: u32,
    /// Wait before the second attempt, in milliseconds.
    pub base_delay_ms: u64,
    /// Longest wait between attempts, in milliseconds.
    pub max_delay_ms: u64,
}

/// What to do after a failed provisioning attempt.
#[derive(Debug, Clone, Copy, PartialEq, Eq, Structural)]
pub enum RetryDecision {
    RetryAfter { delay_ms: u64 },
    GiveUp,
}

pub open spec fn min_nat(a: nat, b: nat) -> nat {
    if a <= b {
        a
    } else {
        b
    }
}

/// The wait after the `k + 1`-th failure: the base delay doubled `k` times,
/// never above the cap.
pub open spec fn backoff_delay(base: nat, cap: nat, k: nat) -> nat
    decreases k,
{
    if k == 0 {
        min_nat(base, cap)
    } else {
        min_nat(cap, 2 * backoff_delay(base, cap, (k - 1) as nat))
    }
}

/// The decision after `failed` attempts have failed to provision a sandbox.
pub open spec fn retry_decision(policy: RetryPolicy, failed: nat) -> RetryDecision {
    if failed >= policy.max_attempts {
        RetryDecision::GiveUp
    } else {
        RetryDecision::RetryAfter {
            delay_ms: backoff_delay(
                policy.base_delay_ms as nat,
                policy.max_delay_ms as nat,
                (failed - 1) as nat,
            ) as u64,
        }
    }
}

proof fn lemma_backoff_bounded(base: nat, cap: nat, k: nat)
    ensures
        backoff_delay(base, cap, k) <= cap,
    decreases k,
{
    if k > 0 {
        lemma_backoff_bounded(base, cap, (k - 1) as nat);
    }
}

/// Decides whether to try provisioning again after `failed` failures
/// (`failed >= 1`), and how long to wait first.
pub fn on_infra_failure(policy: &RetryPolicy, failed: u32) -> (r: RetryDecision)
    requires
        failed >= 1,
    ensures
        r == retry_decision(*policy, failed as nat),
{
    if failed >= policy.max_attempts {
        return RetryDecision::GiveUp;
    }
    let cap = policy.max_delay_ms;
    let mut delay: u64 = if policy.base_delay_ms <= cap {
        policy.base_delay_ms
    } else {
        cap
    };
    let mut k: u32 = 0;
    while k < failed - 1
        invariant
            k <= failed - 1,
            delay as nat == backoff_delay(policy.base_delay_ms as nat, cap as nat, k as nat),
        decreases failed - 1 - k,
    {
        proof {
            lemma_backoff_bounded(policy.base_delay_ms as nat, cap as nat, k as nat);
        }
        delay = if delay <= cap / 2 {
            2 * delay
        } else {
            cap
        };
        k = k + 1;
    }
    RetryDecision::RetryAfter { delay_ms: delay }
}

/// The runs of one engine: at most `capacity` at once, the rest waiting in
/// arrival order.
pub struct EngineQueue {
    capacity: usize,
    running: Vec<u64>,
    waiting: Vec<u64>,
}

impl EngineQueue {
    pub closed spec fn capacity_spec(&self) -> nat {
        self.capacity as nat
    }

    /// Staging ids whose runs are under way.
    pub closed spec fn running_spec(&self) -> Seq<u64> {
        self.running@
    }

    /// Staging ids waiting for a worker, oldest first.
    pub closed spec fn waiting_spec(&self) -> Seq<u64> {
        self.waiting@
    }

    /// No more runs than workers, and nobody waits while a worker is free.
    pub open spec fn wf(&self) -> bool {
        &&& self.running_spec().len() <= self.capacity_spec()
        &&& self.waiting_spec().len() > 0 ==> self.running_spec().len() == self.capacity_spec()
    }

    pub fn new(capacity: usize) -> (q: EngineQueue)
        ensures
            q.wf(),
            q.capacity_spec() == capacity,
            q.running_spec() == Seq::<u64>::empty(),
            q.waiting_spec() == Seq::<u64>::empty(),
    {
        EngineQueue { capacity, running: Vec::new(), waiting: Vec::new() }
    }

    /// Hands in a run: it starts at once if a worker is free (the result is
    /// `true`), else it waits behind the earlier ones.
    pub fn enqueue(&mut self, staging_id: u64) -> (started: bool)
        requires
            old(self).wf(),
        ensures
            final(self).wf(),
            final(self).capacity_spec() == old(self).capacity_spec(),
            started == (old(self).running_spec().len() < old(self).capacity_spec()),
            started ==> final(self).running_spec() == old(self).running_spec().push(staging_id)
                && final(self).waiting_spec() == old(self).waiting_spec(),
            !started ==> final(self).running_spec() == old(self).running_spec()
                && final(self).waiting_spec() == old(self).waiting_spec().push(staging_id),
    {
        if self.running.len() < self.capacity {
            self.running.push(staging_id);
            true
        } else {
            self.waiting.push(staging_id);
            false
        }
    }

    /// Records that the run of `staging_id` is over; the oldest waiting run,
    /// if any, takes its worker and is returned.
    pub fn finish(&mut self, staging_id: u64) -> (next: Option<u64>)
        requires
            old(self).wf(),
        ensures
            final(self).wf(),
            final(self).capacity_spec() == old(self).capacity_spec(),
            !old(self).running_spec().contains(staging_id) ==> next is None && *final(self)
                == *old(self),
            old(self).running_spec().contains(staging_id) ==> exists|i: int|
                0 <= i < old(self).running_spec().len() && old(self).running_spec()[i]
                    == staging_id && (forall|k: int|
                    0 <= k < i ==> old(self).running_spec()[k] != staging_id) && {
                    let rest = old(self).running_spec().remove(i);
                    if old(self).waiting_spec().len() == 0 {
                        next is None && final(self).running_spec() == rest
                            && final(self).waiting_spec() == old(self).waiting_spec()
                    } else {
                        next == Some(old(self).waiting_spec()[0]) && final(self).running_spec()
                            == rest.push(old(self).waiting_spec()[0])
                            && final(self).waiting_spec() == old(self).waiting_spec().drop_first()
                    }
                },
    {
        let mut i: usize = 0;
        while i < self.running.len()
            invariant
                i <= self.running.len(),
                forall|k: int| 0 <= k < i ==> self.running@[k] != staging_id,
            ensures
                i <= self.running.len(),
                forall|k: int| 0 <= k < i ==> self.running@[k] != staging_id,
                i < self.running.len() ==> self.running@[i as int] == staging_id,
            decreases self.running.len() - i,
        {
            if self.running[i] == staging_id {
                break;
            }
            i = i + 1;
        }
        if i == self.running.len() {
            return None;
        }
        let ghost found = i as int;
        let ghost before = self.running@;
        assert(before[found] == staging_id);
        assert(before.contains(staging_id));
        self.running.remove(i);
        assert(self.running@ == before.remove(found));
        if self.waiting.len() > 0 {
            let n = self.waiting.remove(0);
            self.running.push(n);
            assert(self.waiting@ == old(self).waiting@.drop_first());
            assert(self.running@ == before.remove(found).push(n));
            return Some(n);
        }
        None
    }
    /// Withdraws a run that is still waiting; one under way cannot be
    /// withdrawn. The result says whether it was found waiting.
    pub fn abandon(&mut self, staging_id: u64) -> (removed: bool)
        requires
            old(self).wf(),
        ensures
            final(self).wf(),
            final(self).capacity_spec() == old(self).capacity_spec(),
            final(self).running_spec() == old(self).running_spec(),
            removed == old(self).waiting_spec().contains(staging_id),
            !removed ==> final(self).waiting_spec() == old(self).waiting_spec(),
            removed ==> exists|i: int|
                0 <= i < old(self).waiting_spec().len() && old(self).waiting_spec()[i]
                    == staging_id && (forall|k: int|
                    0 <= k < i ==> old(self).waiting_spec()[k] != staging_id)
                    && final(self).waiting_spec() == old(self).waiting_spec().remove(i),
    {
        let mut i: usize = 0;
        while i < self.waiting.len()
            invariant
                i <= self.waiting.len(),
                forall|k: int| 0 <= k < i ==> self.waiting@[k] != staging_id,
            ensures
                i <= self.waiting.len(),
                forall|k: int| 0 <= k < i ==> self.waiting@[k] != staging_id,
                i < self.waiting.len() ==> self.waiting@[i as int] == staging_id,
            decreases self.waiting.len() - i,
        {
            if self.waiting[i] == staging_id {
                break;
            }
            i = i + 1;
        }
        if i == self.waiting.len() {
            return false;
        }
        let ghost before = self.waiting@;
        assert(before[i as int] == staging_id);
        assert(before.contains(staging_id));
        self.waiting.remove(i);
        true
    }
}

} // verus!
