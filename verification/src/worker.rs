//! The life of a job in the hands of one worker, and what follows a failure.
//!
//! A worker does the slow work itself: claiming, reading, proving, writing.
//! After each piece of work it reports how the work ended and is told where
//! it stands and what to do next.

use crate::artifacts::RetrievalError;
use crate::builder::BuildOutcome;
use crate::completion::{Completion, PersistenceError};
use crate::job::{JobStatus, JobTable, JobView};
use crate::manager::{NotFoundError, OutputArtifacts, PreparedJob, ProvingError};
use vstd::prelude::*;

verus! {

/// The kinds of failure that an attempt can end in.
#[derive(Clone, Copy, Debug, PartialEq, Eq, Hash, Structural)]
pub enum Failure {
    /// An input blob could be read in no format.
    Retrieval,
    /// An input blob or a key was missing.
    NotFound,
    /// The proving function failed.
    Proving,
    /// The transaction that records the outcome did not commit.
    Persistence,
    /// Another worker had built the same jobs first.
    Conflict,
}

/// Where a worker stands with the job it holds.
#[derive(Clone, Copy, Debug, PartialEq, Eq, Hash, Structural)]
pub enum WorkerState {
    Idle,
    Claimed(usize),
    Preparing(usize),
    Processing(usize),
    Persisting(usize),
    Successful(usize),
    Failed(usize, Failure),
}

/// How the work of a state ended.
#[derive(Clone, Copy, Debug, PartialEq, Eq, Hash, Structural)]
pub enum Outcome {
    /// The claim was won: the worker holds this job.
    Won(usize),
    /// There was nothing to claim.
    Nothing,
    /// The work of the state is done.
    Done,
    /// The work of the state failed.
    Failed(Failure),
}

/// The work that a state asks of the worker.
#[derive(Clone, Copy, Debug, PartialEq, Eq, Hash, Structural)]
pub enum Action {
    /// Try to claim a queued job.
    Claim,
    /// Go on with the job that was claimed.
    Begin(usize),
    /// Fetch the inputs and the setup data of the job.
    Prepare(usize),
    /// Run the proving function on the prepared job.
    Process(usize),
    /// Write the outputs and record the completion.
    Persist(usize),
    /// Let go of the job; it has completed.
    Release(usize),
    /// Record the failed attempt.
    RecordFailure(usize, Failure),
}

/// The work that `state` asks for.
pub open spec fn spec_action(state: WorkerState) -> Action {
    match state {
        WorkerState::Idle => Action::Claim,
        WorkerState::Claimed(id) => Action::Begin(id),
        WorkerState::Preparing(id) => Action::Prepare(id),
        WorkerState::Processing(id) => Action::Process(id),
        WorkerState::Persisting(id) => Action::Persist(id),
        WorkerState::Successful(id) => Action::Release(id),
        WorkerState::Failed(id, failure) => Action::RecordFailure(id, failure),
    }
}

/// The state that follows `state` when its work ends as `outcome`; `None`
/// where the outcome does not belong to the state.
///
/// An idle worker claims. A job that was claimed is prepared, processed and
/// persisted, in this order. A failure in any of the three ends the attempt,
/// with one exception: a conflict while persisting means that another worker
/// has committed the same result, and the job has completed. From the end of
/// an attempt the worker goes back to idle.
pub open spec fn spec_step(state: WorkerState, outcome: Outcome) -> Option<WorkerState> {
    match (state, outcome) {
        (WorkerState::Idle, Outcome::Won(id)) => Some(WorkerState::Claimed(id)),
        (WorkerState::Idle, Outcome::Nothing) => Some(WorkerState::Idle),
        (WorkerState::Claimed(id), Outcome::Done) => Some(WorkerState::Preparing(id)),
        (WorkerState::Preparing(id), Outcome::Done) => Some(WorkerState::Processing(id)),
        (WorkerState::Preparing(id), Outcome::Failed(f)) => Some(WorkerState::Failed(id, f)),
        (WorkerState::Processing(id), Outcome::Done) => Some(WorkerState::Persisting(id)),
        (WorkerState::Processing(id), Outcome::Failed(f)) => Some(WorkerState::Failed(id, f)),
        (WorkerState::Persisting(id), Outcome::Done) => Some(WorkerState::Successful(id)),
        (WorkerState::Persisting(id), Outcome::Failed(f)) => if f == Failure::Conflict {
            Some(WorkerState::Successful(id))
        } else {
            Some(WorkerState::Failed(id, f))
        },
        (WorkerState::Successful(_), Outcome::Done) => Some(WorkerState::Idle),
        (WorkerState::Failed(_, _), Outcome::Done) => Some(WorkerState::Idle),
        _ => None,
    }
}

/// The work that `state` asks of the worker.
pub fn action(state: WorkerState) -> (a: Action)
    ensures
        a == spec_action(state),
{
    match state {
        WorkerState::Idle => Action::Claim,
        WorkerState::Claimed(id) => Action::Begin(id),
        WorkerState::Preparing(id) => Action::Prepare(id),
        WorkerState::Processing(id) => Action::Process(id),
        WorkerState::Persisting(id) => Action::Persist(id),
        WorkerState::Successful(id) => Action::Release(id),
        WorkerState::Failed(id, failure) => Action::RecordFailure(id, failure),
    }
}

/// Moves a worker on after the work of its state has ended.
pub fn step(state: WorkerState, outcome: Outcome) -> (next: Option<WorkerState>)
    ensures
        next == spec_step(state, outcome),
{
    match state {
        WorkerState::Idle => match outcome {
            Outcome::Won(id) => Some(WorkerState::Claimed(id)),
            Outcome::Nothing => Some(WorkerState::Idle),
            _ => None,
        },
        WorkerState::Claimed(id) => match outcome {
            Outcome::Done => Some(WorkerState::Preparing(id)),
            _ => None,
        },
        WorkerState::Preparing(id) => match outcome {
            Outcome::Done => Some(WorkerState::Processing(id)),
            Outcome::Failed(f) => Some(WorkerState::Failed(id, f)),
            _ => None,
        },
        WorkerState::Processing(id) => match outcome {
            Outcome::Done => Some(WorkerState::Persisting(id)),
            Outcome::Failed(f) => Some(WorkerState::Failed(id, f)),
            _ => None,
        },
        WorkerState::Persisting(id) => match outcome {
            Outcome::Done => Some(WorkerState::Successful(id)),
            Outcome::Failed(f) => match f {
                Failure::Conflict => Some(WorkerState::Successful(id)),
                _ => Some(WorkerState::Failed(id, f)),
            },
            _ => None,
        },
        WorkerState::Successful(_) => match outcome {
            Outcome::Done => Some(WorkerState::Idle),
            _ => None,
        },
        WorkerState::Failed(_, _) => match outcome {
            Outcome::Done => Some(WorkerState::Idle),
            _ => None,
        },
    }
}

/// How loading the inputs of a job ended: content that could be read in no
/// format is a retrieval failure.
pub fn after_load<T>(result: &Result<T, RetrievalError>) -> (outcome: Outcome)
    ensures
        outcome == match result {
            Ok(_) => Outcome::Done,
            Err(_) => Outcome::Failed(Failure::Retrieval),
        },
{
    match result {
        Ok(_) => Outcome::Done,
        Err(_) => Outcome::Failed(Failure::Retrieval),
    }
}

/// How preparing a job ended. A missing input or setup key may turn up
/// later: the job is worth another attempt. A row that is out of shape will
/// not get better: it counts as content that cannot be read.
pub fn after_prepare(result: &Result<PreparedJob, NotFoundError>) -> (outcome: Outcome)
    ensures
        outcome == match result {
            Ok(_) => Outcome::Done,
            Err(NotFoundError::Malformed) => Outcome::Failed(Failure::Retrieval),
            Err(_) => Outcome::Failed(Failure::NotFound),
        },
{
    match result {
        Ok(_) => Outcome::Done,
        Err(NotFoundError::Malformed) => Outcome::Failed(Failure::Retrieval),
        Err(_) => Outcome::Failed(Failure::NotFound),
    }
}

/// How processing a job ended.
pub fn after_process(result: &Result<OutputArtifacts, ProvingError>) -> (outcome: Outcome)
    ensures
        outcome == match result {
            Ok(_) => Outcome::Done,
            Err(_) => Outcome::Failed(Failure::Proving),
        },
{
    match result {
        Ok(_) => Outcome::Done,
        Err(_) => Outcome::Failed(Failure::Proving),
    }
}

/// How persisting a job ended. A completion that was recorded while another
/// worker had built the next jobs first is a conflict, which is no failure
/// of the job. A completion that was not recorded is a failure of
/// persistence.
pub fn after_persist(result: &Result<Completion, PersistenceError>) -> (outcome: Outcome)
    ensures
        outcome == match result {
            Ok(Completion::Recorded(BuildOutcome::Conflict)) => Outcome::Failed(
                Failure::Conflict,
            ),
            Ok(_) => Outcome::Done,
            Err(_) => Outcome::Failed(Failure::Persistence),
        },
{
    match result {
        Ok(Completion::Recorded(BuildOutcome::Conflict)) => Outcome::Failed(Failure::Conflict),
        Ok(_) => Outcome::Done,
        Err(_) => Outcome::Failed(Failure::Persistence),
    }
}

/// What an error of a store counts as in `state`: while preparing, the
/// input was not found; while persisting, the outcome was not persisted. In
/// the other states no store is at work for the job.
pub fn store_error_in(state: WorkerState) -> (outcome: Option<Outcome>)
    ensures
        outcome == match state {
            WorkerState::Preparing(_) => Some(Outcome::Failed(Failure::NotFound)),
            WorkerState::Persisting(_) => Some(Outcome::Failed(Failure::Persistence)),
            _ => None,
        },
{
    match state {
        WorkerState::Preparing(_) => Some(Outcome::Failed(Failure::NotFound)),
        WorkerState::Persisting(_) => Some(Outcome::Failed(Failure::Persistence)),
        _ => None,
    }
}

/// The job that a worker in `state` holds.
pub open spec fn held_job(state: WorkerState) -> Option<usize> {
    match state {
        WorkerState::Idle => None,
        WorkerState::Claimed(id) => Some(id),
        WorkerState::Preparing(id) => Some(id),
        WorkerState::Processing(id) => Some(id),
        WorkerState::Persisting(id) => Some(id),
        WorkerState::Successful(id) => Some(id),
        WorkerState::Failed(id, _) => Some(id),
    }
}

/// A worker never swaps the job it holds: a step keeps the job, takes one
/// when the worker was idle, or lets it go at the end of the attempt.
pub proof fn lemma_step_keeps_job(state: WorkerState, outcome: Outcome)
    requires
        spec_step(state, outcome) is Some,
    ensures
        ({
            let next = spec_step(state, outcome)->0;
            held_job(state) is Some && held_job(next) is Some ==> held_job(state) == held_job(next)
        }),
        held_job(state) is None ==> state == WorkerState::Idle,
        spec_step(state, outcome)->0 == WorkerState::Idle && state != WorkerState::Idle ==> (state
            is Successful || state is Failed),
{
}

/// How often and how soon a failed job is tried again.
#[derive(Clone, Copy, Debug, PartialEq, Eq, Hash, Structural)]
pub struct RetryPolicy {
    /// A job that has failed this many times stays failed.
    pub max_attempts: u32,
    /// The pause after the first failure, in milliseconds.
    pub base_delay_ms: u64,
    /// The longest pause, in milliseconds.
    pub max_delay_ms: u64,
}

/// What follows a failed attempt.
#[derive(Clone, Copy, Debug, PartialEq, Eq, Hash, Structural)]
pub enum RetryDecision {
    /// The job is queued again and may be claimed after this many
    /// milliseconds.
    RetryAfter(u64),
    /// The job stays failed until somebody steps in.
    GiveUp,
    /// Nothing failed that needs another attempt.
    NotNeeded,
}

/// `base`, doubled `times` times.
pub open spec fn doubled(base: nat, times: nat) -> nat
    decreases times,
{
    if times == 0 {
        base
    } else {
        2 * doubled(base, (times - 1) as nat)
    }
}

/// The pause before the attempt that follows `failures` failed ones: the
/// base pause doubled with every failure after the first, and never more
/// than the longest pause.
pub open spec fn spec_backoff(policy: RetryPolicy, failures: nat) -> nat {
    let raw = doubled(policy.base_delay_ms as nat, (failures - 1) as nat);
    if failures == 0 {
        0
    } else if raw <= policy.max_delay_ms {
        raw
    } else {
        policy.max_delay_ms as nat
    }
}

/// What follows a failure of kind `failure` on a job that has now failed
/// `attempts` times.
///
/// Content that cannot be read will not become readable: the job stays
/// failed. A conflict is no failure of the job. Every other failure is worth
/// another attempt while the job has failed fewer times than the policy
/// allows; a failed proof is tried again at once, a failure of storage after
/// a pause.
pub open spec fn spec_decide(failure: Failure, attempts: u32, policy: RetryPolicy)
    -> RetryDecision {
    match failure {
        Failure::Conflict => RetryDecision::NotNeeded,
        Failure::Retrieval => RetryDecision::GiveUp,
        Failure::Proving => if attempts < policy.max_attempts {
            RetryDecision::RetryAfter(0)
        } else {
            RetryDecision::GiveUp
        },
        _ => if attempts < policy.max_attempts {
            RetryDecision::RetryAfter(spec_backoff(policy, attempts as nat) as u64)
        } else {
            RetryDecision::GiveUp
        },
    }
}

/// Doubling never makes a pause shorter.
pub proof fn lemma_doubled_grows(base: nat, times: nat)
    ensures
        doubled(base, times) >= base,
        doubled(base, times + 1) >= doubled(base, times),
    decreases times,
{
    if times > 0 {
        lemma_doubled_grows(base, (times - 1) as nat);
    }
}

/// The pause before the attempt that follows `failures` failed ones.
pub fn backoff(policy: RetryPolicy, failures: u32) -> (delay: u64)
    ensures
        delay == spec_backoff(policy, failures as nat),
        delay <= policy.max_delay_ms,
{
    if failures == 0 {
        return 0;
    }
    if policy.base_delay_ms >= policy.max_delay_ms {
        proof {
            lemma_doubled_grows(policy.base_delay_ms as nat, (failures - 1) as nat);
        }
        return policy.max_delay_ms;
    }
    let max = policy.max_delay_ms;
    let mut delay = policy.base_delay_ms;
    let mut i: u32 = 1;
    while i < failures
        invariant
            1 <= i <= failures,
            max == policy.max_delay_ms,
            delay <= max,
            delay as nat == if doubled(policy.base_delay_ms as nat, (i - 1) as nat) <= max {
                doubled(policy.base_delay_ms as nat, (i - 1) as nat)
            } else {
                max as nat
            },
        decreases failures - i,
    {
        proof {
            lemma_doubled_grows(policy.base_delay_ms as nat, (i - 1) as nat);
        }
        if delay >= max - delay {
            delay = max;
        } else {
            delay = delay + delay;
        }
        i += 1;
    }
    delay
}

/// What follows a failure of kind `failure` on a job that has now failed
/// `attempts` times.
pub fn decide_retry(failure: Failure, attempts: u32, policy: RetryPolicy) -> (decision:
    RetryDecision)
    ensures
        decision == spec_decide(failure, attempts, policy),
{
    match failure {
        Failure::Conflict => RetryDecision::NotNeeded,
        Failure::Retrieval => RetryDecision::GiveUp,
        Failure::Proving => if attempts < policy.max_attempts {
            RetryDecision::RetryAfter(0)
        } else {
            RetryDecision::GiveUp
        },
        _ => if attempts < policy.max_attempts {
            RetryDecision::RetryAfter(backoff(policy, attempts))
        } else {
            RetryDecision::GiveUp
        },
    }
}

/// What is done with a job that has been in progress for long.
#[derive(Clone, Copy, Debug, PartialEq, Eq, Hash, Structural)]
pub enum StuckPolicy {
    /// Nothing: somebody has to look at it.
    Manual,
    /// The job is queued again once it has been held for this many
    /// milliseconds.
    RequeueAfter(u64),
}

/// Whether a job that has been held for `held_ms` milliseconds is to be
/// taken from its worker.
pub open spec fn spec_is_stuck(policy: StuckPolicy, held_ms: u64) -> bool {
    match policy {
        StuckPolicy::Manual => false,
        StuckPolicy::RequeueAfter(timeout_ms) => held_ms >= timeout_ms,
    }
}

/// Whether a job that has been held for `held_ms` milliseconds is to be
/// taken from its worker.
pub fn is_stuck(policy: StuckPolicy, held_ms: u64) -> (stuck: bool)
    ensures
        stuck == spec_is_stuck(policy, held_ms),
{
    match policy {
        StuckPolicy::Manual => false,
        StuckPolicy::RequeueAfter(timeout_ms) => held_ms >= timeout_ms,
    }
}

/// The attempt count of a job after one more failure.
pub open spec fn bumped(attempts: u32) -> u32 {
    if attempts < u32::MAX {
        (attempts + 1) as u32
    } else {
        u32::MAX
    }
}

/// The table after the failure of an attempt at job `id` has been settled.
pub open spec fn settled(rows: Seq<JobView>, id: usize, failure: Failure, policy: RetryPolicy)
    -> Seq<JobView> {
    if failure == Failure::Conflict || id >= rows.len() || rows[id as int].status
        != JobStatus::InProgress {
        rows
    } else {
        let attempts = bumped(rows[id as int].attempts);
        let status = if spec_decide(failure, attempts, policy) is RetryAfter {
            JobStatus::Queued
        } else {
            JobStatus::Failed
        };
        rows.update(id as int, rows[id as int].moved_to(status, attempts))
    }
}

impl JobTable {
    /// Settles the failure of an attempt at job `id`, in one transaction.
    ///
    /// A conflict changes nothing. Any other failure of a job in progress
    /// counts as one more failed attempt; the job is queued again when the
    /// policy allows another attempt and stays failed when it does not. A job
    /// that is not in progress is left alone and `None` is returned.
    pub fn settle_failure(&mut self, id: usize, failure: Failure, policy: RetryPolicy) -> (decision:
        Option<RetryDecision>)
        requires
            old(self).wf(),
        ensures
            final(self).wf(),
            final(self)@ == settled(old(self)@, id, failure, policy),
            decision == if failure == Failure::Conflict {
                Some(RetryDecision::NotNeeded)
            } else if id < old(self)@.len() && old(self)@[id as int].status
                == JobStatus::InProgress {
                Some(spec_decide(failure, bumped(old(self)@[id as int].attempts), policy))
            } else {
                None
            },
    {
        match failure {
            Failure::Conflict => {
                return Some(RetryDecision::NotNeeded);
            },
            _ => {},
        }
        if !self.record_failure(id) {
            return None;
        }
        assert(self@.len() == self.rows@.len());
        let attempts = self.rows[id].attempts;
        assert(self@[id as int] == self.rows@[id as int]@);
        assert(attempts == bumped(old(self)@[id as int].attempts));
        let decision = decide_retry(failure, attempts, policy);
        match decision {
            RetryDecision::RetryAfter(_) => {
                // The ceiling was checked by the decision: any job that has
                // failed may go back.
                let requeued = self.retry_failed(id, u32::MAX);
                proof {
                    assert(requeued);
                    assert(self@ =~= settled(old(self)@, id, failure, policy));
                }
            },
            _ => {},
        }
        Some(decision)
    }

    /// Looks after a job that may be stuck: when the policy says that a job
    /// held for `held_ms` milliseconds is stuck and job `id` is in progress,
    /// the job is queued again. Else nothing changes.
    pub fn sweep_stuck(&mut self, id: usize, held_ms: u64, policy: StuckPolicy) -> (requeued: bool)
        requires
            old(self).wf(),
        ensures
            final(self).wf(),
            requeued == (spec_is_stuck(policy, held_ms) && id < old(self)@.len() && old(
                self,
            )@[id as int].status == JobStatus::InProgress),
            requeued ==> final(self)@ == old(self)@.update(
                id as int,
                old(self)@[id as int].moved_to(JobStatus::Queued, old(self)@[id as int].attempts),
            ),
            !requeued ==> final(self)@ == old(self)@,
    {
        if is_stuck(policy, held_ms) {
            self.requeue_stuck(id)
        } else {
            false
        }
    }
}

} // verus!
