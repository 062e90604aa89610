use proof_aggregation::artifacts::RetrievalError;
use proof_aggregation::builder::BuildOutcome;
use proof_aggregation::completion::{Completion, PersistenceError};
use proof_aggregation::job::{BatchInfo, Coordinate, JobStatus, JobTable};
use proof_aggregation::manager::{assemble, NotFoundError, PreparedJob, ProvingError};
use proof_aggregation::round::Round;
use proof_aggregation::worker::{
    action, after_load, after_persist, after_prepare, after_process, backoff, decide_retry,
    is_stuck, step, store_error_in, Action, Failure, Outcome, RetryDecision, RetryPolicy,
    StuckPolicy, WorkerState,
};

const INFO: BatchInfo = BatchInfo { protocol_version: 24, sealed_at: 1_700_000_000 };

const POLICY: RetryPolicy = RetryPolicy { max_attempts: 3, base_delay_ms: 100, max_delay_ms: 1000 };

fn basic(batch: u32, circuit_id: u8) -> Coordinate {
    Coordinate { batch, circuit_id, round: Round::BasicCircuits, depth: 0 }
}

#[test]
fn a_new_table_is_empty() {
    let table = JobTable::new();
    assert_eq!(table.len(), 0);
    assert_eq!(table.status_of(0), None);
    assert_eq!(table.count_siblings(basic(1, 1)), 0);
}

#[test]
fn enqueued_jobs_are_numbered_from_zero_for_each_circuit_of_a_batch() {
    let mut table = JobTable::new();
    assert_eq!(table.enqueue_basic(100, 1, INFO), Some(0));
    assert_eq!(table.enqueue_basic(200, 1, INFO), Some(1));
    assert_eq!(table.enqueue_basic(100, 2, INFO), Some(2));
    assert_eq!(table.enqueue_basic(100, 1, INFO), Some(3));
    assert_eq!(table.enqueue_basic(200, 9, INFO), Some(4));
    assert_eq!(table.enqueue_basic(100, 2, INFO), Some(5));
    let seqs: Vec<(u32, u8, usize)> =
        table.rows.iter().map(|j| (j.batch, j.circuit_id, j.seq)).collect();
    assert_eq!(
        seqs,
        vec![(100, 1, 0), (200, 1, 0), (100, 2, 0), (100, 1, 1), (200, 9, 0), (100, 2, 1)]
    );
    assert_eq!(table.count_siblings(basic(100, 1)), 2);
    assert_eq!(table.count_siblings(basic(100, 2)), 2);
    assert_eq!(table.count_siblings(basic(200, 1)), 1);
    assert_eq!(table.count_siblings(basic(200, 9)), 1);
    assert_eq!(table.count_siblings(basic(300, 1)), 0);
    for (i, job) in table.rows.iter().enumerate() {
        assert_eq!(job.id, i);
        assert_eq!(job.round, Round::BasicCircuits);
        assert_eq!(job.depth, 0);
        assert_eq!(job.status, JobStatus::Queued);
        assert_eq!(job.attempts, 0);
        assert!(job.members.is_empty());
        assert!(job.blob_urls.is_empty());
        assert_eq!(job.protocol_version, 24);
        assert_eq!(job.sealed_at, 1_700_000_000);
        assert_eq!(job.coordinate(), basic(job.batch, job.circuit_id));
        assert_eq!(job.first_blob, job.seq);
        assert_eq!(job.width(), 1);
    }
    assert!(table.is_well_formed());
}

#[test]
fn only_one_worker_wins_a_claim() {
    let mut table = JobTable::new();
    let id = table.enqueue_basic(100, 1, INFO).unwrap();
    assert!(table.claim(id));
    assert_eq!(table.status_of(id), Some(JobStatus::InProgress));
    let snapshot = table.clone();
    assert!(!table.claim(id));
    assert_eq!(table, snapshot);
    assert!(!table.claim(17));
    assert_eq!(table, snapshot);
}

#[test]
fn claim_next_takes_the_oldest_queued_job_of_the_round() {
    let mut table = JobTable::new();
    table.enqueue_basic(100, 1, INFO).unwrap();
    table.enqueue_basic(100, 2, INFO).unwrap();
    table.enqueue_basic(100, 3, INFO).unwrap();
    assert_eq!(table.claim_next(Round::LeafAggregation), None);
    assert_eq!(table.claim_next(Round::BasicCircuits), Some(0));
    assert_eq!(table.claim_next(Round::BasicCircuits), Some(1));
    assert_eq!(table.status_of(0), Some(JobStatus::InProgress));
    assert_eq!(table.status_of(1), Some(JobStatus::InProgress));
    assert_eq!(table.status_of(2), Some(JobStatus::Queued));
    assert_eq!(table.claim_next(Round::BasicCircuits), Some(2));
    assert_eq!(table.claim_next(Round::BasicCircuits), None);
}

#[test]
fn a_failure_counts_an_attempt() {
    let mut table = JobTable::new();
    let id = table.enqueue_basic(100, 1, INFO).unwrap();
    assert!(!table.record_failure(id));
    assert_eq!(table.status_of(id), Some(JobStatus::Queued));
    assert!(table.claim(id));
    assert!(table.record_failure(id));
    assert_eq!(table.status_of(id), Some(JobStatus::Failed));
    assert_eq!(table.rows[id].attempts, 1);
    assert!(!table.record_failure(id));
    assert_eq!(table.rows[id].attempts, 1);
    assert!(!table.record_failure(5));
}

#[test]
fn the_attempt_count_stops_at_the_largest_number() {
    let mut table = JobTable::new();
    let id = table.enqueue_basic(100, 1, INFO).unwrap();
    table.rows[id].attempts = u32::MAX - 1;
    assert!(table.claim(id));
    assert!(table.record_failure(id));
    assert_eq!(table.rows[id].attempts, u32::MAX);
    assert!(!table.retry_failed(id, u32::MAX));
    table.rows[id].status = JobStatus::InProgress;
    assert!(table.record_failure(id));
    assert_eq!(table.rows[id].attempts, u32::MAX);
}

#[test]
fn a_failed_job_is_retried_below_the_ceiling_only() {
    let mut table = JobTable::new();
    let id = table.enqueue_basic(100, 1, INFO).unwrap();
    assert!(!table.retry_failed(id, 3));
    for attempt in 1..=3u32 {
        assert!(table.claim(id));
        assert!(table.record_failure(id));
        assert_eq!(table.rows[id].attempts, attempt);
        let requeued = table.retry_failed(id, 3);
        assert_eq!(requeued, attempt < 3);
    }
    assert_eq!(table.status_of(id), Some(JobStatus::Failed));
    assert!(!table.claim(id));
    assert!(!table.retry_failed(9, 3));
}

#[test]
fn a_stuck_job_can_be_put_back() {
    let mut table = JobTable::new();
    let id = table.enqueue_basic(100, 1, INFO).unwrap();
    assert!(!table.requeue_stuck(id));
    assert!(table.claim(id));
    assert!(table.requeue_stuck(id));
    assert_eq!(table.status_of(id), Some(JobStatus::Queued));
    assert_eq!(table.rows[id].attempts, 0);
    assert!(table.claim(id));
    assert!(!table.requeue_stuck(3));
}

#[test]
fn a_worker_walks_through_the_phases() {
    let mut state = WorkerState::Idle;
    assert_eq!(action(state), Action::Claim);
    state = step(state, Outcome::Nothing).unwrap();
    assert_eq!(state, WorkerState::Idle);
    state = step(state, Outcome::Won(7)).unwrap();
    assert_eq!(state, WorkerState::Claimed(7));
    assert_eq!(action(state), Action::Begin(7));
    state = step(state, Outcome::Done).unwrap();
    assert_eq!(state, WorkerState::Preparing(7));
    assert_eq!(action(state), Action::Prepare(7));
    state = step(state, Outcome::Done).unwrap();
    assert_eq!(state, WorkerState::Processing(7));
    assert_eq!(action(state), Action::Process(7));
    state = step(state, Outcome::Done).unwrap();
    assert_eq!(state, WorkerState::Persisting(7));
    assert_eq!(action(state), Action::Persist(7));
    state = step(state, Outcome::Done).unwrap();
    assert_eq!(state, WorkerState::Successful(7));
    assert_eq!(action(state), Action::Release(7));
    state = step(state, Outcome::Done).unwrap();
    assert_eq!(state, WorkerState::Idle);
}

#[test]
fn a_failure_in_any_phase_ends_the_attempt() {
    for (state, failure) in [
        (WorkerState::Preparing(3), Failure::NotFound),
        (WorkerState::Preparing(3), Failure::Retrieval),
        (WorkerState::Processing(3), Failure::Proving),
        (WorkerState::Persisting(3), Failure::Persistence),
    ] {
        let failed = step(state, Outcome::Failed(failure)).unwrap();
        assert_eq!(failed, WorkerState::Failed(3, failure));
        assert_eq!(action(failed), Action::RecordFailure(3, failure));
        assert_eq!(step(failed, Outcome::Done), Some(WorkerState::Idle));
    }
}

#[test]
fn a_conflict_while_persisting_is_a_success() {
    assert_eq!(
        step(WorkerState::Persisting(3), Outcome::Failed(Failure::Conflict)),
        Some(WorkerState::Successful(3))
    );
}

#[test]
fn outcomes_that_do_not_belong_to_a_state_are_refused() {
    assert_eq!(step(WorkerState::Idle, Outcome::Done), None);
    assert_eq!(step(WorkerState::Idle, Outcome::Failed(Failure::Proving)), None);
    assert_eq!(step(WorkerState::Claimed(1), Outcome::Won(2)), None);
    assert_eq!(step(WorkerState::Claimed(1), Outcome::Failed(Failure::NotFound)), None);
    assert_eq!(step(WorkerState::Preparing(1), Outcome::Nothing), None);
    assert_eq!(step(WorkerState::Processing(1), Outcome::Won(1)), None);
    assert_eq!(step(WorkerState::Persisting(1), Outcome::Nothing), None);
    assert_eq!(step(WorkerState::Successful(1), Outcome::Failed(Failure::Proving)), None);
    assert_eq!(step(WorkerState::Failed(1, Failure::Proving), Outcome::Won(2)), None);
}

#[test]
fn the_pause_doubles_up_to_the_longest_pause() {
    assert_eq!(backoff(POLICY, 0), 0);
    assert_eq!(backoff(POLICY, 1), 100);
    assert_eq!(backoff(POLICY, 2), 200);
    assert_eq!(backoff(POLICY, 3), 400);
    assert_eq!(backoff(POLICY, 4), 800);
    assert_eq!(backoff(POLICY, 5), 1000);
    assert_eq!(backoff(POLICY, 6), 1000);
    assert_eq!(backoff(POLICY, u32::MAX), 1000);
    let flat = RetryPolicy { max_attempts: 3, base_delay_ms: 5000, max_delay_ms: 1000 };
    assert_eq!(backoff(flat, 1), 1000);
    let none = RetryPolicy { max_attempts: 3, base_delay_ms: 0, max_delay_ms: 1000 };
    assert_eq!(backoff(none, 40), 0);
    let wide = RetryPolicy { max_attempts: 3, base_delay_ms: 1, max_delay_ms: u64::MAX };
    assert_eq!(backoff(wide, 64), 1 << 63);
    assert_eq!(backoff(wide, 65), u64::MAX);
}

#[test]
fn each_kind_of_failure_has_its_answer() {
    assert_eq!(decide_retry(Failure::Conflict, 1, POLICY), RetryDecision::NotNeeded);
    assert_eq!(decide_retry(Failure::Conflict, 99, POLICY), RetryDecision::NotNeeded);
    assert_eq!(decide_retry(Failure::Retrieval, 1, POLICY), RetryDecision::GiveUp);
    assert_eq!(decide_retry(Failure::Proving, 1, POLICY), RetryDecision::RetryAfter(0));
    assert_eq!(decide_retry(Failure::Proving, 2, POLICY), RetryDecision::RetryAfter(0));
    assert_eq!(decide_retry(Failure::Proving, 3, POLICY), RetryDecision::GiveUp);
    assert_eq!(decide_retry(Failure::NotFound, 1, POLICY), RetryDecision::RetryAfter(100));
    assert_eq!(decide_retry(Failure::NotFound, 2, POLICY), RetryDecision::RetryAfter(200));
    assert_eq!(decide_retry(Failure::NotFound, 3, POLICY), RetryDecision::GiveUp);
    assert_eq!(decide_retry(Failure::Persistence, 2, POLICY), RetryDecision::RetryAfter(200));
    assert_eq!(decide_retry(Failure::Persistence, 4, POLICY), RetryDecision::GiveUp);
}

#[test]
fn settling_a_failure_queues_the_job_again_until_the_ceiling() {
    let mut table = JobTable::new();
    let id = table.enqueue_basic(100, 1, INFO).unwrap();
    assert_eq!(table.settle_failure(id, Failure::NotFound, POLICY), None);
    assert!(table.claim(id));
    assert_eq!(
        table.settle_failure(id, Failure::NotFound, POLICY),
        Some(RetryDecision::RetryAfter(100))
    );
    assert_eq!(table.status_of(id), Some(JobStatus::Queued));
    assert_eq!(table.rows[id].attempts, 1);
    assert!(table.claim(id));
    assert_eq!(
        table.settle_failure(id, Failure::Proving, POLICY),
        Some(RetryDecision::RetryAfter(0))
    );
    assert!(table.claim(id));
    assert_eq!(table.settle_failure(id, Failure::Persistence, POLICY), Some(RetryDecision::GiveUp));
    assert_eq!(table.status_of(id), Some(JobStatus::Failed));
    assert_eq!(table.rows[id].attempts, 3);
    assert_eq!(table.len(), 1);
}

#[test]
fn unreadable_content_is_not_tried_again() {
    let mut table = JobTable::new();
    let id = table.enqueue_basic(100, 1, INFO).unwrap();
    assert!(table.claim(id));
    assert_eq!(table.settle_failure(id, Failure::Retrieval, POLICY), Some(RetryDecision::GiveUp));
    assert_eq!(table.status_of(id), Some(JobStatus::Failed));
    assert_eq!(table.rows[id].attempts, 1);
}

#[test]
fn a_conflict_leaves_the_job_alone() {
    let mut table = JobTable::new();
    let id = table.enqueue_basic(100, 1, INFO).unwrap();
    assert!(table.claim(id));
    let snapshot = table.clone();
    assert_eq!(
        table.settle_failure(id, Failure::Conflict, POLICY),
        Some(RetryDecision::NotNeeded)
    );
    assert_eq!(table, snapshot);
    assert_eq!(table.settle_failure(44, Failure::Conflict, POLICY), Some(RetryDecision::NotNeeded));
    assert_eq!(table.settle_failure(44, Failure::Proving, POLICY), None);
    assert_eq!(table, snapshot);
}

#[test]
fn a_job_is_stuck_when_the_policy_says_so() {
    assert!(!is_stuck(StuckPolicy::Manual, 0));
    assert!(!is_stuck(StuckPolicy::Manual, u64::MAX));
    assert!(!is_stuck(StuckPolicy::RequeueAfter(60_000), 59_999));
    assert!(is_stuck(StuckPolicy::RequeueAfter(60_000), 60_000));
    assert!(is_stuck(StuckPolicy::RequeueAfter(0), 0));
}

#[test]
fn the_sweep_requeues_stuck_jobs_only() {
    let mut table = JobTable::new();
    let id = table.enqueue_basic(100, 1, INFO).unwrap();
    let policy = StuckPolicy::RequeueAfter(1_000);
    assert!(!table.sweep_stuck(id, 5_000, policy));
    assert!(table.claim(id));
    assert!(!table.sweep_stuck(id, 999, policy));
    assert!(!table.sweep_stuck(id, 5_000, StuckPolicy::Manual));
    assert!(!table.sweep_stuck(7, 5_000, policy));
    assert_eq!(table.status_of(id), Some(JobStatus::InProgress));
    assert!(table.sweep_stuck(id, 1_000, policy));
    assert_eq!(table.status_of(id), Some(JobStatus::Queued));
    assert_eq!(table.rows[id].attempts, 0);
}

#[test]
fn tables_made_by_the_library_are_well_formed() {
    let mut table = JobTable::new();
    assert!(table.is_well_formed());
    for batch in [100u32, 200, 100] {
        table.enqueue_basic(batch, 1, INFO).unwrap();
        assert!(table.is_well_formed());
    }
    assert!(table.claim(1));
    assert!(table.record_failure(1));
    assert!(table.is_well_formed());
}

#[test]
fn broken_rows_are_found() {
    let mut good = JobTable::new();
    for _ in 0..3 {
        good.enqueue_basic(100, 1, INFO).unwrap();
    }
    good.rows[0].status = JobStatus::Successful;
    good.rows[1].status = JobStatus::Successful;
    good.rows[2].round = Round::LeafAggregation;
    good.rows[2].seq = 0;
    good.rows[2].first_blob = 0;
    good.rows[2].members = vec![0, 1];
    assert!(good.is_well_formed());
    assert_eq!(good.rows[2].width(), 2);

    let mut wrong_first_blob = good.clone();
    wrong_first_blob.rows[1].first_blob = 0;
    assert!(!wrong_first_blob.is_well_formed());

    let mut too_deep = good.clone();
    too_deep.rows[2].round = Round::NodeAggregation;
    too_deep.rows[2].depth = u16::MAX;
    too_deep.rows[0].round = Round::LeafAggregation;
    too_deep.rows[1].round = Round::LeafAggregation;
    too_deep.rows[1].first_blob = 0;
    assert!(!too_deep.is_well_formed());
    too_deep.rows[2].depth = 0;
    assert!(too_deep.is_well_formed());

    let mut wrong_id = good.clone();
    wrong_id.rows[1].id = 5;
    assert!(!wrong_id.is_well_formed());

    let mut gap = good.clone();
    gap.rows[1].seq = 2;
    assert!(!gap.is_well_formed());

    let mut twice = good.clone();
    twice.rows[1].seq = 0;
    assert!(!twice.is_well_formed());

    let mut deep_leaf = good.clone();
    deep_leaf.rows[2].depth = 1;
    assert!(!deep_leaf.is_well_formed());

    let mut unfinished_member = good.clone();
    unfinished_member.rows[1].status = JobStatus::InProgress;
    assert!(!unfinished_member.is_well_formed());

    let mut member_from_the_future = good.clone();
    member_from_the_future.rows[2].members = vec![0, 2];
    assert!(!member_from_the_future.is_well_formed());

    let mut missing_member = good.clone();
    missing_member.rows[2].members = vec![0, 9];
    assert!(!missing_member.is_well_formed());

    let mut wrong_round = good.clone();
    wrong_round.rows[2].round = Round::NodeAggregation;
    assert!(!wrong_round.is_well_formed());

    let mut other_batch = good.clone();
    other_batch.rows[2].batch = 200;
    assert!(!other_batch.is_well_formed());

    // After the first round a job consumes jobs of its own circuit only.
    let mut other_circuit = good.clone();
    other_circuit.rows[0].round = Round::LeafAggregation;
    other_circuit.rows[1].round = Round::LeafAggregation;
    other_circuit.rows[1].first_blob = 0;
    other_circuit.rows[2].round = Round::NodeAggregation;
    assert!(other_circuit.is_well_formed());
    other_circuit.rows[2].circuit_id = 9;
    assert!(!other_circuit.is_well_formed());

    let mut member_twice = good.clone();
    member_twice.rows[2].members = vec![0, 0];
    assert!(!member_twice.is_well_formed());

    let mut shared_member = good.clone();
    let mut second = shared_member.rows[2].clone();
    second.id = 3;
    second.seq = 1;
    second.first_blob = 2;
    second.members = vec![1];
    shared_member.rows.push(second);
    assert!(!shared_member.is_well_formed());
    shared_member.rows[2].members = vec![0];
    shared_member.rows[3].first_blob = 1;
    assert!(shared_member.is_well_formed());
}

#[test]
fn the_end_of_each_phase_has_its_outcome() {
    let job = PreparedJob {
        id: 0,
        batch: 1,
        circuit_id: 1,
        round: Round::BasicCircuits,
        depth: 0,
        seq: 0,
        first_blob: 0,
        circuits: vec![],
        setup_key: vec![],
    };
    assert_eq!(after_prepare(&Ok(job.clone())), Outcome::Done);
    assert_eq!(
        after_prepare(&Err(NotFoundError::Input(2))),
        Outcome::Failed(Failure::NotFound)
    );
    assert_eq!(
        after_prepare(&Err(NotFoundError::SetupKey)),
        Outcome::Failed(Failure::NotFound)
    );
    assert_eq!(
        after_prepare(&Err(NotFoundError::Malformed)),
        Outcome::Failed(Failure::Retrieval)
    );
    assert_eq!(after_load(&Ok::<u8, RetrievalError>(1)), Outcome::Done);
    let unreadable = RetrievalError { current: "a".to_owned(), legacy: "b".to_owned() };
    assert_eq!(after_load::<u8>(&Err(unreadable)), Outcome::Failed(Failure::Retrieval));
    assert_eq!(after_process(&Ok(assemble(&job, vec![]))), Outcome::Done);
    let unproved = ProvingError { circuit: 0, message: "no".to_owned() };
    assert_eq!(after_process(&Err(unproved)), Outcome::Failed(Failure::Proving));
    for outcome in [
        BuildOutcome::Created(1),
        BuildOutcome::NotReady,
        BuildOutcome::Terminal,
    ] {
        assert_eq!(after_persist(&Ok(Completion::Recorded(outcome))), Outcome::Done);
    }
    assert_eq!(after_persist(&Ok(Completion::AlreadyRecorded)), Outcome::Done);
    assert_eq!(
        after_persist(&Ok(Completion::Recorded(BuildOutcome::Conflict))),
        Outcome::Failed(Failure::Conflict)
    );
    for error in [
        PersistenceError::UnknownJob,
        PersistenceError::MissingBatchInfo,
        PersistenceError::UnknownCircuit(9),
        PersistenceError::DepthExhausted,
    ] {
        assert_eq!(after_persist(&Err(error)), Outcome::Failed(Failure::Persistence));
    }
    // A conflict while persisting ends as a success of the job.
    let conflict = after_persist(&Ok(Completion::Recorded(BuildOutcome::Conflict)));
    assert_eq!(step(WorkerState::Persisting(4), conflict), Some(WorkerState::Successful(4)));
}

#[test]
fn a_store_error_counts_as_the_failure_of_its_phase() {
    assert_eq!(
        store_error_in(WorkerState::Preparing(1)),
        Some(Outcome::Failed(Failure::NotFound))
    );
    assert_eq!(
        store_error_in(WorkerState::Persisting(1)),
        Some(Outcome::Failed(Failure::Persistence))
    );
    for state in [
        WorkerState::Idle,
        WorkerState::Claimed(1),
        WorkerState::Processing(1),
        WorkerState::Successful(1),
        WorkerState::Failed(1, Failure::Proving),
    ] {
        assert_eq!(store_error_in(state), None);
    }
}
