//! Recording that a job has completed.
//!
//! Recording is one transaction: the job becomes successful, keeps the keys
//! of the blobs it wrote, and the jobs of the next round are built if the
//! job was the last of its siblings to complete. When anything stands in the
//! way, the table stays as it was and the same call can be made again.

use crate::builder::{build_verdict, built, BuildOutcome};
use crate::job::{
    count_at, lemma_count_by_coordinates, lemma_update_keeps_wf, BatchInfo, Coordinate, JobStatus,
    JobTable, JobView,
};
use crate::round::{Round, Topology};
use vstd::prelude::*;

verus! {

/// How a completion was recorded.
#[derive(Clone, Copy, Debug, PartialEq, Eq, Hash, Structural)]
pub enum Completion {
    /// The job is now successful; the outcome tells what was built for the
    /// next round.
    Recorded(BuildOutcome),
    /// The job was successful already: nothing was written.
    AlreadyRecorded,
}

/// Why a completion could not be recorded. The table is unchanged.
#[derive(Clone, Copy, Debug, PartialEq, Eq, Hash, Structural)]
pub enum PersistenceError {
    /// No job has this id.
    UnknownJob,
    /// The store knows no protocol version or sealing time for the batch.
    MissingBatchInfo,
    /// The topology cannot map the circuit of the job.
    UnknownCircuit(u8),
    /// Node aggregation would reach the greatest depth.
    DepthExhausted,
}

/// The row of a job that has completed.
pub open spec fn completed_row(row: JobView, elapsed_ms: u64, blob_urls: Seq<Seq<u8>>) -> JobView {
    JobView { status: JobStatus::Successful, elapsed_ms, blob_urls, ..row }
}

/// What makes building at `c` impossible whatever the jobs' statuses are.
pub open spec fn structural_error(rows: Seq<JobView>, c: Coordinate, topology: Topology) -> Option<
    PersistenceError,
> {
    let n = count_at(rows, c, rows.len() as int);
    if c.round == Round::Scheduler {
        None
    } else if c.round == Round::NodeAggregation && n > 1 && c.depth >= u16::MAX - 1 {
        Some(PersistenceError::DepthExhausted)
    } else if topology.spec_remap(c.round, c.circuit_id) is None {
        Some(PersistenceError::UnknownCircuit(c.circuit_id))
    } else {
        None
    }
}

/// The answer to a completion report, decided in this order: the job must
/// exist; a job that is successful already is left alone; the batch must be
/// known; the next round must be buildable.
///
/// The status of a job that has not completed does not matter. A job that
/// was put back in the queue while its worker went on, or that was given up
/// as failed, has completed all the same when its result arrives.
pub open spec fn completion_result(
    rows: Seq<JobView>,
    id: usize,
    elapsed_ms: u64,
    blob_urls: Seq<Seq<u8>>,
    info: Option<BatchInfo>,
    topology: Topology,
) -> Result<Completion, PersistenceError> {
    if id >= rows.len() {
        Err(PersistenceError::UnknownJob)
    } else if rows[id as int].status == JobStatus::Successful {
        Ok(Completion::AlreadyRecorded)
    } else if info is None {
        Err(PersistenceError::MissingBatchInfo)
    } else {
        let c = rows[id as int].coordinate();
        match structural_error(rows, c, topology) {
            Some(e) => Err(e),
            None => Ok(
                Completion::Recorded(
                    build_verdict(
                        rows.update(
                            id as int,
                            completed_row(rows[id as int], elapsed_ms, blob_urls),
                        ),
                        c,
                        topology,
                    ),
                ),
            ),
        }
    }
}

/// The table after a completion report.
pub open spec fn completed(
    rows: Seq<JobView>,
    id: usize,
    elapsed_ms: u64,
    blob_urls: Seq<Seq<u8>>,
    info: Option<BatchInfo>,
    topology: Topology,
) -> Seq<JobView> {
    match completion_result(rows, id, elapsed_ms, blob_urls, info, topology) {
        Ok(Completion::Recorded(_)) => built(
            rows.update(id as int, completed_row(rows[id as int], elapsed_ms, blob_urls)),
            rows[id as int].coordinate(),
            topology,
            info->0,
        ),
        _ => rows,
    }
}

impl JobTable {
    /// What makes building at `c` impossible whatever the jobs' statuses are.
    pub fn structural_check(&self, c: Coordinate, topology: &Topology) -> (e: Option<
        PersistenceError,
    >)
        ensures
            e == structural_error(self@, c, *topology),
    {
        if c.round == Round::Scheduler {
            return None;
        }
        if c.round == Round::NodeAggregation && c.depth >= u16::MAX - 1 {
            let n = self.count_siblings(c);
            if n > 1 {
                return Some(PersistenceError::DepthExhausted);
            }
        }
        match topology.remap_circuit_id(c.round, c.circuit_id) {
            Some(_) => None,
            None => Some(PersistenceError::UnknownCircuit(c.circuit_id)),
        }
    }

    /// Records that job `job_id` has completed after `elapsed_ms`
    /// milliseconds and has written the blobs `blob_urls`.
    ///
    /// The answer is `completion_result` of the table before the call and the
    /// table afterwards is `completed` of it. On `Recorded` the job is
    /// successful and the next round has been built as far as it could be; on
    /// every other answer the table is unchanged.
    pub fn record_completion(
        &mut self,
        job_id: usize,
        elapsed_ms: u64,
        blob_urls: Vec<Vec<u8>>,
        info: Option<BatchInfo>,
        topology: &Topology,
    ) -> (result: Result<Completion, PersistenceError>)
        requires
            old(self).wf(),
            topology.wf(),
        ensures
            final(self).wf(),
            result == completion_result(
                old(self)@,
                job_id,
                elapsed_ms,
                blob_urls.deep_view(),
                info,
                *topology,
            ),
            final(self)@ == completed(
                old(self)@,
                job_id,
                elapsed_ms,
                blob_urls.deep_view(),
                info,
                *topology,
            ),
            result matches Ok(Completion::Recorded(outcome)) ==> !(outcome
                is UnknownCircuit) && !(outcome is DepthExhausted),
    {
        if job_id >= self.rows.len() {
            return Err(PersistenceError::UnknownJob);
        }
        if self.rows[job_id].status == JobStatus::Successful {
            return Ok(Completion::AlreadyRecorded);
        }
        let batch_info = match info {
            Some(batch_info) => batch_info,
            None => {
                return Err(PersistenceError::MissingBatchInfo);
            },
        };
        let c = self.rows[job_id].coordinate();
        match self.structural_check(c, topology) {
            Some(e) => {
                return Err(e);
            },
            None => {},
        }
        let ghost before = self@;
        let ghost row = completed_row(before[job_id as int], elapsed_ms, blob_urls.deep_view());
        proof {
            lemma_update_keeps_wf(before, job_id as int, row);
            let marked = before.update(job_id as int, row);
            lemma_count_by_coordinates(marked, before, c, before.len() as int);
        }
        self.rows[job_id].status = JobStatus::Successful;
        self.rows[job_id].elapsed_ms = elapsed_ms;
        self.rows[job_id].blob_urls = blob_urls;
        assert(self@ =~= before.update(job_id as int, row));
        let outcome = self.build_parents(c, batch_info, topology);
        Ok(Completion::Recorded(outcome))
    }
}

} // verus!
