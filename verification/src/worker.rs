//! Ingestion worker: the cycle state machine an orchestrator drives.
//!
//! A worker binds a scheduler and a retry policy to one ingestion job.  Its
//! control flow is the four-phase machine below: it fetches immediately on
//! start, persists after a successful fetch, goes to waiting after the
//! persist attempt (success or failure) or after a retry-exhausted fetch,
//! and fetches again on the scheduler's wake.  No event ends the loop: a
//! cycle's total failure is logged by the surrounding process and the
//! machine simply waits for the next wake.

use vstd::prelude::*;

use crate::retry::RetryPolicy;
use crate::schedule::{Scheduler, MAX_SCHED_SECS};

verus! {

/// Where a worker stands in its cycle.
#[derive(Debug, Clone, Copy, PartialEq, Eq, Structural)]
pub enum WorkerPhase {
    Idle,
    Fetching,
    Persisting,
    Waiting,
}

/// What happened to move a worker between phases.
#[derive(Debug, Clone, Copy, PartialEq, Eq, Structural)]
pub enum WorkerEvent {
    Start,
    FetchSucceeded,
    FetchFailed,
    StoreFinished,
    SchedulerWake,
}

/// The cycle transitions: fetch immediately on start, persist on a
/// successful fetch, wait after a failed fetch or after the persist
/// attempt, fetch again on wake.  Any other pairing leaves the phase
/// unchanged.
pub open spec fn spec_step(phase: WorkerPhase, event: WorkerEvent) -> WorkerPhase {
    match (phase, event) {
        (WorkerPhase::Idle, WorkerEvent::Start) => WorkerPhase::Fetching,
        (WorkerPhase::Fetching, WorkerEvent::FetchSucceeded) => WorkerPhase::Persisting,
        (WorkerPhase::Fetching, WorkerEvent::FetchFailed) => WorkerPhase::Waiting,
        (WorkerPhase::Persisting, WorkerEvent::StoreFinished) => WorkerPhase::Waiting,
        (WorkerPhase::Waiting, WorkerEvent::SchedulerWake) => WorkerPhase::Fetching,
        _ => phase,
    }
}

/// Orchestrates one ingestion job: holds the scheduler, the retry policy
/// and the machine's current phase.  The surrounding process owns the
/// actual run loop; it feeds events in and performs the fetch, store and
/// sleep actions the phases call for.
pub struct IngestionWorker<S: Scheduler> {
    pub scheduler: S,
    pub policy: RetryPolicy,
    pub phase: WorkerPhase,
}

impl<S: Scheduler> IngestionWorker<S> {
    /// A worker's scheduler and policy stay within bounds.
    pub open spec fn wf(&self) -> bool {
        self.scheduler.wf() && self.policy.wf()
    }

    /// Bind a job's worker: a scheduler, a maximum retry count (at least
    /// one) and the fixed delay between retries.  A new worker is idle.
    pub fn new(scheduler: S, max_retries: u32, retry_delay_ms: u64) -> (r: IngestionWorker<S>)
        requires
            scheduler.wf(),
            max_retries >= 1,
        ensures
            r.wf(),
            r.scheduler == scheduler,
            r.policy == (RetryPolicy { max_attempts: max_retries, delay_ms: retry_delay_ms }),
            r.phase == WorkerPhase::Idle,
    {
        IngestionWorker {
            scheduler,
            policy: RetryPolicy::new(max_retries, retry_delay_ms),
            phase: WorkerPhase::Idle,
        }
    }

    /// Feed one event into the cycle machine.
    pub fn advance(&mut self, event: WorkerEvent)
        ensures
            final(self).phase == spec_step(old(self).phase, event),
            final(self).scheduler == old(self).scheduler,
            final(self).policy == old(self).policy,
    {
        let next = match (self.phase, event) {
            (WorkerPhase::Idle, WorkerEvent::Start) => WorkerPhase::Fetching,
            (WorkerPhase::Fetching, WorkerEvent::FetchSucceeded) => WorkerPhase::Persisting,
            (WorkerPhase::Fetching, WorkerEvent::FetchFailed) => WorkerPhase::Waiting,
            (WorkerPhase::Persisting, WorkerEvent::StoreFinished) => WorkerPhase::Waiting,
            (WorkerPhase::Waiting, WorkerEvent::SchedulerWake) => WorkerPhase::Fetching,
            (p, _) => p,
        };
        self.phase = next;
    }

    /// When the waiting phase ends, given the current wall time.
    pub fn next_wake(&self, now_secs: i64) -> (r: i64)
        requires
            self.wf(),
            0 <= now_secs <= MAX_SCHED_SECS,
        ensures
            r == self.scheduler.spec_next_wake(now_secs as int),
            now_secs <= r,
    {
        self.scheduler.next_wake(now_secs)
    }
}

/// However a cycle ends — store finished, or the fetch failed even after
/// retries — the machine is back at `Fetching` two events later, ready for
/// the wake after the next one: no cycle outcome can end the loop.
pub proof fn lemma_cycle_never_terminates()
    ensures
        spec_step(
            spec_step(WorkerPhase::Persisting, WorkerEvent::StoreFinished),
            WorkerEvent::SchedulerWake,
        ) == WorkerPhase::Fetching,
        spec_step(
            spec_step(WorkerPhase::Fetching, WorkerEvent::FetchFailed),
            WorkerEvent::SchedulerWake,
        ) == WorkerPhase::Fetching,
{
}

} // verus!
