//! Bounded-retry execution policy.
//!
//! A [`RetryPolicy`] is an immutable pair of a maximum attempt count and a
//! fixed inter-attempt delay — deliberately fixed, not exponential.  The
//! executor here is the policy's decision core: it consumes the sequence of
//! results the attempts would produce, stops at the first success, and
//! after exhaustion surfaces the error of the final attempt.  The
//! surrounding process performs the actual calls and sleeps; between two
//! attempts it sleeps exactly once.

use vstd::prelude::*;

verus! {

/// Immutable retry configuration: at least one attempt, and a fixed delay
/// in milliseconds between consecutive attempts.
#[derive(Debug, Clone, Copy, PartialEq, Eq, Structural)]
pub struct RetryPolicy {
    pub max_attempts: u32,
    pub delay_ms: u64,
}

impl RetryPolicy {
    /// A policy is well-formed when it allows at least one attempt.
    pub open spec fn wf(&self) -> bool {
        self.max_attempts >= 1
    }

    /// Build a policy; at least one attempt must be allowed.
    pub fn new(max_attempts: u32, delay_ms: u64) -> (r: RetryPolicy)
        requires
            max_attempts >= 1,
        ensures
            r == (RetryPolicy { max_attempts, delay_ms }),
            r.wf(),
    {
        RetryPolicy { max_attempts, delay_ms }
    }

    /// After a failure at 1-based attempt `attempt`, whether another
    /// attempt (preceded by one delay) follows.
    pub fn should_retry(&self, attempt: u32) -> (r: bool)
        ensures
            r == (attempt < self.max_attempts),
    {
        attempt < self.max_attempts
    }
}

/// What one run of the retry executor observed: the surfaced result, how
/// many times the operation ran, and how many inter-attempt delays elapsed.
pub struct RetryRun<T, E> {
    pub result: Result<T, E>,
    pub attempts: u32,
    pub delays: u32,
}

/// Run an operation under a retry policy.  `outcomes[k]` is the result the
/// operation produces when invoked for the `k+1`-th time; at least
/// `max_attempts` entries must be supplied so that every attempt the policy
/// allows is covered.
///
/// On the first success the executor stops at once — no further attempts
/// and no further delay.  When every allowed attempt fails, the error of
/// the final attempt is surfaced; earlier errors are not retained.
#[verifier::loop_isolation(false)]
pub fn execute_with_retry<T, E>(policy: &RetryPolicy, outcomes: Vec<Result<T, E>>) -> (r: RetryRun<
    T,
    E,
>)
    requires
        policy.wf(),
        outcomes@.len() >= policy.max_attempts,
    ensures
        1 <= r.attempts <= policy.max_attempts,
        r.delays == r.attempts - 1,
        forall|k: int| 0 <= k < r.attempts - 1 ==> outcomes@[k] is Err,
        r.result == outcomes@[r.attempts - 1],
        r.result is Ok || r.attempts == policy.max_attempts,
{
    let ghost orig = outcomes@;
    let mut rest = outcomes;
    let mut k: u32 = 0;
    while k + 1 < policy.max_attempts
        invariant
            policy.wf(),
            0 <= k < policy.max_attempts,
            orig.len() >= policy.max_attempts,
            rest@ == orig.subrange(k as int, orig.len() as int),
            forall|j: int| 0 <= j < k ==> orig[j] is Err,
        decreases policy.max_attempts - k,
    {
        let cur = rest.remove(0);
        assert(cur == orig[k as int]);
        match cur {
            Ok(v) => {
                return RetryRun { result: Ok(v), attempts: k + 1, delays: k };
            },
            Err(_) => {
                k = k + 1;
            },
        }
        proof {
            assert(rest@ =~= orig.subrange(k as int, orig.len() as int));
        }
    }
    let cur = rest.remove(0);
    assert(cur == orig[k as int]);
    RetryRun { result: cur, attempts: k + 1, delays: k }
}

} // verus!
