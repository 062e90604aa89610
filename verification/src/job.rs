//! Job rows and the table that holds them.
//!
//! The table stands for the job rows of the transactional store, as one
//! transaction sees them. Every operation here is one transaction: it either
//! changes the table as its contract says or leaves it as it was.

use crate::round::Round;
use vstd::prelude::*;

verus! {

/// Where a job is in its life.
#[derive(Clone, Copy, Debug, PartialEq, Eq, Hash, Structural)]
pub enum JobStatus {
    Queued,
    InProgress,
    Successful,
    Failed,
}

/// The place of a family of sibling jobs in the aggregation tree of a batch:
/// siblings are the jobs of one batch that prove one circuit in one round at
/// one depth.
#[derive(Clone, Copy, Debug, PartialEq, Eq, Hash, Structural)]
pub struct Coordinate {
    pub batch: u32,
    pub circuit_id: u8,
    pub round: Round,
    pub depth: u16,
}

/// What the store knows of a batch and hands on to the jobs made for it.
#[derive(Clone, Copy, Debug, PartialEq, Eq, Hash, Structural)]
pub struct BatchInfo {
    pub protocol_version: u16,
    pub sealed_at: u64,
}

/// One job row.
#[derive(Clone, Debug, PartialEq, Eq)]
pub struct Job {
    pub id: usize,
    pub batch: u32,
    pub circuit_id: u8,
    pub round: Round,
    pub depth: u16,
    /// Position among the siblings at the job's coordinate.
    pub seq: usize,
    /// Sequence number of the first blob that the job writes: the number of
    /// blobs that the siblings before it write.
    pub first_blob: usize,
    pub status: JobStatus,
    /// Number of failed attempts so far.
    pub attempts: u32,
    /// Ids of the jobs whose outputs this job consumes: its aggregation group.
    pub members: Vec<usize>,
    /// Keys of the blobs the job wrote; filled in when it completes.
    pub blob_urls: Vec<Vec<u8>>,
    pub protocol_version: u16,
    pub sealed_at: u64,
    /// Time the successful attempt took, in milliseconds.
    pub elapsed_ms: u64,
}

/// The mathematical content of a job row.
pub struct JobView {
    pub id: usize,
    pub batch: u32,
    pub circuit_id: u8,
    pub round: Round,
    pub depth: u16,
    pub seq: usize,
    pub first_blob: usize,
    pub status: JobStatus,
    pub attempts: u32,
    pub members: Seq<usize>,
    pub blob_urls: Seq<Seq<u8>>,
    pub protocol_version: u16,
    pub sealed_at: u64,
    pub elapsed_ms: u64,
}

impl JobView {
    pub open spec fn coordinate(self) -> Coordinate {
        Coordinate {
            batch: self.batch,
            circuit_id: self.circuit_id,
            round: self.round,
            depth: self.depth,
        }
    }

    /// Number of circuits that the job proves, which is the number of blobs
    /// it numbers: one for a basic job, one for each member of its group for
    /// any other.
    pub open spec fn width(self) -> nat {
        if self.round == Round::BasicCircuits {
            1
        } else {
            self.members.len()
        }
    }

    /// The row with another status and attempt count.
    pub open spec fn moved_to(self, status: JobStatus, attempts: u32) -> JobView {
        JobView { status, attempts, ..self }
    }
}

impl View for Job {
    type V = JobView;

    open spec fn view(&self) -> JobView {
        JobView {
            id: self.id,
            batch: self.batch,
            circuit_id: self.circuit_id,
            round: self.round,
            depth: self.depth,
            seq: self.seq,
            first_blob: self.first_blob,
            status: self.status,
            attempts: self.attempts,
            members: self.members@,
            blob_urls: self.blob_urls.deep_view(),
            protocol_version: self.protocol_version,
            sealed_at: self.sealed_at,
            elapsed_ms: self.elapsed_ms,
        }
    }
}

impl Job {
    /// Number of circuits that the job proves.
    pub fn width(&self) -> (w: usize)
        ensures
            w == self@.width(),
    {
        match self.round {
            Round::BasicCircuits => 1,
            _ => self.members.len(),
        }
    }

    pub fn coordinate(&self) -> (c: Coordinate)
        ensures
            c == self@.coordinate(),
    {
        Coordinate {
            batch: self.batch,
            circuit_id: self.circuit_id,
            round: self.round,
            depth: self.depth,
        }
    }
}

/// A fresh basic-circuits row, as the producer of a batch enqueues it.
pub open spec fn basic_row(id: usize, batch: u32, circuit_id: u8, seq: usize, info: BatchInfo)
    -> JobView {
    JobView {
        id,
        batch,
        circuit_id,
        round: Round::BasicCircuits,
        depth: 0,
        seq,
        first_blob: seq,
        status: JobStatus::Queued,
        attempts: 0,
        members: Seq::empty(),
        blob_urls: Seq::empty(),
        protocol_version: info.protocol_version,
        sealed_at: info.sealed_at,
        elapsed_ms: 0,
    }
}

/// Whether jobs at `parent` may consume jobs at `child`.
///
/// Basic circuits feed leaf aggregation, leaf aggregation feeds the first
/// level of node aggregation. A level of node aggregation feeds the next
/// level, or the recursion tip when the level is the last one. The recursion
/// tip feeds the scheduler. A circuit changes its id on the way out of the
/// first round only: from then on a job consumes jobs of its own circuit.
pub open spec fn is_successor(child: Coordinate, parent: Coordinate) -> bool {
    &&& child.batch == parent.batch
    &&& child.round != Round::BasicCircuits ==> child.circuit_id == parent.circuit_id
    &&& match child.round {
        Round::BasicCircuits => parent.round == Round::LeafAggregation && parent.depth == 0,
        Round::LeafAggregation => parent.round == Round::NodeAggregation && parent.depth == 0,
        Round::NodeAggregation => (parent.round == Round::NodeAggregation && parent.depth
            == child.depth + 1) || (parent.round == Round::RecursionTip && parent.depth
            == child.depth),
        Round::RecursionTip => parent.round == Round::Scheduler && parent.depth == child.depth,
        Round::Scheduler => false,
    }
}

/// Whether some job at `c` is a member of a group: whether a job of the
/// next round consumes it.
pub open spec fn is_consumed(rows: Seq<JobView>, c: Coordinate) -> bool {
    exists|p: int, a: int|
        0 <= p < rows.len() && 0 <= a < rows[p].members.len() && 0 <= #[trigger] rows[p].members[a]
            < rows.len() && rows[rows[p].members[a] as int].coordinate() == c
}

/// Whether jobs at `parent` may consume jobs at `child`.
pub fn follows(child: Coordinate, parent: Coordinate) -> (b: bool)
    ensures
        b == is_successor(child, parent),
{
    child.batch == parent.batch && (match child.round {
        Round::BasicCircuits => true,
        _ => child.circuit_id == parent.circuit_id,
    }) && match child.round {
        Round::BasicCircuits => parent.round == Round::LeafAggregation && parent.depth == 0,
        Round::LeafAggregation => parent.round == Round::NodeAggregation && parent.depth == 0,
        Round::NodeAggregation => (parent.round == Round::NodeAggregation && child.depth
            < u16::MAX && parent.depth == child.depth + 1) || (parent.round == Round::RecursionTip
            && parent.depth == child.depth),
        Round::RecursionTip => parent.round == Round::Scheduler && parent.depth == child.depth,
        Round::Scheduler => false,
    }
}

/// Number of rows among the first `upto` that are at coordinate `c`.
pub open spec fn count_at(rows: Seq<JobView>, c: Coordinate, upto: int) -> nat
    decreases upto,
{
    if upto <= 0 {
        0
    } else {
        count_at(rows, c, upto - 1) + if upto <= rows.len() && rows[upto - 1].coordinate() == c {
            1nat
        } else {
            0nat
        }
    }
}

/// Number of blobs that the rows among the first `upto` at coordinate `c`
/// number.
pub open spec fn blobs_before(rows: Seq<JobView>, c: Coordinate, upto: int) -> nat
    decreases upto,
{
    if upto <= 0 {
        0
    } else {
        blobs_before(rows, c, upto - 1) + if upto <= rows.len() && rows[upto - 1].coordinate()
            == c {
            rows[upto - 1].width()
        } else {
            0nat
        }
    }
}

/// Whether job `m` may be a member of the group of job `p`: it was made
/// earlier, it has completed, and `p` is at a coordinate that follows.
pub open spec fn member_ok(rows: Seq<JobView>, p: int, m: int) -> bool {
    &&& 0 <= m < p
    &&& rows[m].status == JobStatus::Successful
    &&& is_successor(rows[m].coordinate(), rows[p].coordinate())
}

/// What holds of each row of a well-formed table.
pub open spec fn row_wf(rows: Seq<JobView>, i: int) -> bool {
    &&& rows[i].id == i
    &&& (rows[i].round == Round::BasicCircuits || rows[i].round == Round::LeafAggregation)
        ==> rows[i].depth == 0
    &&& rows[i].round == Round::NodeAggregation ==> rows[i].depth < u16::MAX
    &&& rows[i].seq == count_at(rows, rows[i].coordinate(), i)
    &&& rows[i].first_blob == blobs_before(rows, rows[i].coordinate(), i)
    &&& rows[i].first_blob + rows[i].width() <= usize::MAX + 1
    &&& forall|k: int|
        0 <= k < rows[i].members.len() ==> member_ok(rows, i, #[trigger] rows[i].members[k] as int)
}

/// The invariant of the job table.
///
/// Ids are positions. The sequence number of a job is the number of jobs
/// that were at its coordinate before it, so siblings are numbered from zero
/// without a gap. The blobs of a job are numbered from where the blobs of
/// the siblings before it end. Node aggregation stays below the greatest
/// depth, so that what a node job leaves for the next level has a depth to
/// go by. Every member of every group has completed
/// and lies one step below the job that consumes it. No job is a member
/// twice.
pub open spec fn table_wf(rows: Seq<JobView>) -> bool {
    &&& forall|i: int| 0 <= i < rows.len() ==> #[trigger] row_wf(rows, i)
    &&& forall|p: int, q: int, a: int, b: int|
        #![trigger rows[p].members[a], rows[q].members[b]]
        0 <= p < rows.len() && 0 <= q < rows.len() && 0 <= a < rows[p].members.len() && 0 <= b
            < rows[q].members.len() && (p != q || a != b) ==> rows[p].members[a]
            != rows[q].members[b]
}

/// The count at a coordinate depends on the coordinates of the rows only.
pub proof fn lemma_count_by_coordinates(r1: Seq<JobView>, r2: Seq<JobView>, c: Coordinate, n: int)
    requires
        n <= r1.len(),
        n <= r2.len(),
        forall|i: int| 0 <= i < n ==> #[trigger] r1[i].coordinate() == r2[i].coordinate(),
    ensures
        count_at(r1, c, n) == count_at(r2, c, n),
    decreases n,
{
    if n > 0 {
        lemma_count_by_coordinates(r1, r2, c, n - 1);
        assert(r1[n - 1].coordinate() == r2[n - 1].coordinate());
    }
}

/// The number of blobs at a coordinate depends on the places, rounds and
/// groups of the rows only.
pub proof fn lemma_blobs_by_rows(r1: Seq<JobView>, r2: Seq<JobView>, c: Coordinate, n: int)
    requires
        n <= r1.len(),
        n <= r2.len(),
        forall|i: int|
            0 <= i < n ==> #[trigger] r1[i].coordinate() == r2[i].coordinate() && r1[i].members
                == r2[i].members,
    ensures
        blobs_before(r1, c, n) == blobs_before(r2, c, n),
    decreases n,
{
    if n > 0 {
        lemma_blobs_by_rows(r1, r2, c, n - 1);
        assert(r1[n - 1].coordinate() == r2[n - 1].coordinate());
    }
}

/// Counting the blobs of more rows never counts fewer.
pub proof fn lemma_blobs_monotone(rows: Seq<JobView>, c: Coordinate, a: int, b: int)
    requires
        a <= b,
    ensures
        blobs_before(rows, c, a) <= blobs_before(rows, c, b),
    decreases b - a,
{
    if a < b {
        lemma_blobs_monotone(rows, c, a, b - 1);
    }
}

/// Basic jobs number one blob each: at a coordinate of the first round there
/// are as many blobs as jobs.
pub proof fn lemma_basic_blobs(rows: Seq<JobView>, c: Coordinate, n: int)
    requires
        c.round == Round::BasicCircuits,
    ensures
        blobs_before(rows, c, n) == count_at(rows, c, n),
    decreases n,
{
    if n > 0 {
        lemma_basic_blobs(rows, c, n - 1);
    }
}

/// The blobs of two jobs at one coordinate never share a sequence number:
/// the numbers of the later job begin where those of the earlier one end, or
/// after.
pub proof fn lemma_blob_ranges_disjoint(rows: Seq<JobView>, i: int, j: int)
    requires
        table_wf(rows),
        0 <= i < j < rows.len(),
        rows[i].coordinate() == rows[j].coordinate(),
    ensures
        rows[i].first_blob + rows[i].width() <= rows[j].first_blob,
{
    assert(row_wf(rows, i));
    assert(row_wf(rows, j));
    lemma_blobs_monotone(rows, rows[i].coordinate(), i + 1, j);
}

/// A count never exceeds the number of rows counted.
pub proof fn lemma_count_bounded(rows: Seq<JobView>, c: Coordinate, n: int)
    ensures
        count_at(rows, c, n) <= if n < 0 {
            0
        } else {
            n
        },
    decreases n,
{
    if n > 0 {
        lemma_count_bounded(rows, c, n - 1);
    }
}

/// Counting further never counts less.
pub proof fn lemma_count_monotone(rows: Seq<JobView>, c: Coordinate, a: int, b: int)
    requires
        a <= b,
    ensures
        count_at(rows, c, a) <= count_at(rows, c, b),
    decreases b - a,
{
    if a < b {
        lemma_count_monotone(rows, c, a, b - 1);
    }
}

/// No two jobs at one coordinate carry the same sequence number.
pub proof fn lemma_sequence_numbers_unique(rows: Seq<JobView>, i: int, j: int)
    requires
        table_wf(rows),
        0 <= i < rows.len(),
        0 <= j < rows.len(),
        i != j,
        rows[i].coordinate() == rows[j].coordinate(),
    ensures
        rows[i].seq != rows[j].seq,
{
    let c = rows[i].coordinate();
    assert(row_wf(rows, i));
    assert(row_wf(rows, j));
    if i < j {
        lemma_count_monotone(rows, c, i + 1, j);
    } else {
        lemma_count_monotone(rows, c, j + 1, i);
    }
}

/// The sequence numbers at a coordinate are those from zero up to the number
/// of jobs there: each of them is carried by a job.
pub proof fn lemma_sequence_numbers_contiguous(rows: Seq<JobView>, c: Coordinate, s: int, n: int)
    requires
        table_wf(rows),
        0 <= n <= rows.len(),
        0 <= s < count_at(rows, c, n),
    ensures
        exists|i: int| 0 <= i < n && #[trigger] rows[i].coordinate() == c && rows[i].seq == s,
    decreases n,
{
    if count_at(rows, c, n - 1) > s {
        lemma_sequence_numbers_contiguous(rows, c, s, n - 1);
    } else {
        assert(row_wf(rows, n - 1));
        assert(rows[n - 1].coordinate() == c);
    }
}

/// Changing a row in place keeps the table well formed, as long as the row
/// keeps its identity, its place and its group, and a completed row stays
/// completed.
pub proof fn lemma_update_keeps_wf(rows: Seq<JobView>, i: int, row: JobView)
    requires
        table_wf(rows),
        0 <= i < rows.len(),
        row.id == rows[i].id,
        row.coordinate() == rows[i].coordinate(),
        row.seq == rows[i].seq,
        row.first_blob == rows[i].first_blob,
        row.members == rows[i].members,
        rows[i].status == JobStatus::Successful ==> row.status == JobStatus::Successful,
    ensures
        table_wf(rows.update(i, row)),
{
    let after = rows.update(i, row);
    assert forall|k: int| 0 <= k < after.len() implies #[trigger] row_wf(after, k) by {
        assert(row_wf(rows, k));
        assert(forall|x: int| 0 <= x < rows.len() ==> after[x].coordinate() == rows[x].coordinate());
        lemma_count_by_coordinates(after, rows, after[k].coordinate(), k);
        assert(forall|x: int| 0 <= x < rows.len() ==> after[x].members == rows[x].members);
        lemma_blobs_by_rows(after, rows, after[k].coordinate(), k);
        assert(after[k].members == rows[k].members);
        assert forall|x: int| 0 <= x < after[k].members.len() implies member_ok(
            after,
            k,
            #[trigger] after[k].members[x] as int,
        ) by {
            let m = rows[k].members[x] as int;
            assert(member_ok(rows, k, m));
            assert(after[m].coordinate() == rows[m].coordinate());
        }
    }
    assert forall|p: int, q: int, a: int, b: int|
        #![trigger after[p].members[a], after[q].members[b]]
        0 <= p < after.len() && 0 <= q < after.len() && 0 <= a < after[p].members.len() && 0 <= b
            < after[q].members.len() && (p != q || a != b) implies after[p].members[a]
            != after[q].members[b] by {
        assert(after[p].members == rows[p].members);
        assert(after[q].members == rows[q].members);
        assert(rows[p].members[a] != rows[q].members[b]);
    }
}

/// Appending a row keeps the table well formed, when the row takes the next
/// id and the next sequence number at its coordinate, and its group is made
/// of completed jobs one step below that no other job consumes.
pub proof fn lemma_push_keeps_wf(rows: Seq<JobView>, row: JobView)
    requires
        table_wf(rows),
        row.id == rows.len(),
        (row.round == Round::BasicCircuits || row.round == Round::LeafAggregation) ==> row.depth
            == 0,
        row.round == Round::NodeAggregation ==> row.depth < u16::MAX,
        row.seq == count_at(rows, row.coordinate(), rows.len() as int),
        row.first_blob == blobs_before(rows, row.coordinate(), rows.len() as int),
        row.first_blob + row.width() <= usize::MAX + 1,
        forall|k: int|
            0 <= k < row.members.len() ==> {
                let m = #[trigger] row.members[k] as int;
                &&& 0 <= m < rows.len()
                &&& rows[m].status == JobStatus::Successful
                &&& is_successor(rows[m].coordinate(), row.coordinate())
            },
        forall|a: int, b: int|
            0 <= a < row.members.len() && 0 <= b < row.members.len() && a != b
                ==> row.members[a] != row.members[b],
        forall|p: int, a: int, b: int|
            0 <= p < rows.len() && 0 <= a < rows[p].members.len() && 0 <= b < row.members.len()
                ==> #[trigger] rows[p].members[a] != #[trigger] row.members[b],
    ensures
        table_wf(rows.push(row)),
        forall|c: Coordinate|
            count_at(rows.push(row), c, rows.len() as int + 1) == #[trigger] count_at(
                rows,
                c,
                rows.len() as int,
            ) + if row.coordinate() == c {
                1nat
            } else {
                0nat
            },
        forall|c: Coordinate|
            blobs_before(rows.push(row), c, rows.len() as int + 1) == #[trigger] blobs_before(
                rows,
                c,
                rows.len() as int,
            ) + if row.coordinate() == c {
                row.width()
            } else {
                0nat
            },
{
    let after = rows.push(row);
    let n = rows.len() as int;
    assert forall|c: Coordinate|
        blobs_before(after, c, n + 1) == #[trigger] blobs_before(rows, c, n) + if row.coordinate()
            == c {
            row.width()
        } else {
            0nat
        } by {
        lemma_blobs_by_rows(after, rows, c, n);
        assert(after[n] == row);
    }
    assert forall|c: Coordinate|
        count_at(after, c, n + 1) == #[trigger] count_at(rows, c, n) + if row.coordinate() == c {
            1nat
        } else {
            0nat
        } by {
        lemma_count_by_coordinates(after, rows, c, n);
        assert(after[n] == row);
    }
    assert forall|k: int| 0 <= k < after.len() implies #[trigger] row_wf(after, k) by {
        let c = after[k].coordinate();
        lemma_count_by_coordinates(after, rows, c, k);
        lemma_blobs_by_rows(after, rows, c, k);
        if k < n {
            assert(row_wf(rows, k));
            assert(after[k] == rows[k]);
            assert forall|x: int| 0 <= x < after[k].members.len() implies member_ok(
                after,
                k,
                #[trigger] after[k].members[x] as int,
            ) by {
                let m = rows[k].members[x] as int;
                assert(member_ok(rows, k, m));
                assert(after[m] == rows[m]);
            }
        } else {
            assert(after[k] == row);
            assert forall|x: int| 0 <= x < after[k].members.len() implies member_ok(
                after,
                k,
                #[trigger] after[k].members[x] as int,
            ) by {
                let m = row.members[x] as int;
                assert(after[m] == rows[m]);
            }
        }
    }
    assert forall|p: int, q: int, a: int, b: int|
        #![trigger after[p].members[a], after[q].members[b]]
        0 <= p < after.len() && 0 <= q < after.len() && 0 <= a < after[p].members.len() && 0 <= b
            < after[q].members.len() && (p != q || a != b) implies after[p].members[a]
            != after[q].members[b] by {
        if p < n && q < n {
            assert(after[p] == rows[p] && after[q] == rows[q]);
            assert(rows[p].members[a] != rows[q].members[b]);
        } else if p < n {
            assert(after[p] == rows[p]);
            assert(rows[p].members[a] != row.members[b]);
        } else if q < n {
            assert(after[q] == rows[q]);
            assert(rows[q].members[b] != row.members[a]);
        } else {
            assert(row.members[a] != row.members[b]);
        }
    }
}

/// The job rows of the store.
#[derive(Clone, Debug, PartialEq, Eq)]
pub struct JobTable {
    pub rows: Vec<Job>,
}

impl View for JobTable {
    type V = Seq<JobView>;

    open spec fn view(&self) -> Seq<JobView> {
        Seq::new(self.rows@.len(), |i: int| self.rows@[i]@)
    }
}

impl JobTable {
    pub open spec fn wf(&self) -> bool {
        table_wf(self@)
    }

    /// An empty table.
    pub fn new() -> (t: JobTable)
        ensures
            t.wf(),
            t@ == Seq::<JobView>::empty(),
    {
        let t = JobTable { rows: Vec::new() };
        assert(t@ =~= Seq::<JobView>::empty());
        t
    }

    pub fn len(&self) -> (n: usize)
        ensures
            n == self@.len(),
    {
        self.rows.len()
    }

    /// The status of job `id`, if there is such a job.
    pub fn status_of(&self, id: usize) -> (s: Option<JobStatus>)
        ensures
            s == if id < self@.len() {
                Some(self@[id as int].status)
            } else {
                None
            },
    {
        if id < self.rows.len() {
            Some(self.rows[id].status)
        } else {
            None
        }
    }

    /// Whether row `i` is as the invariant of the table asks.
    fn row_is_well_formed(&self, i: usize) -> (ok: bool)
        requires
            i < self@.len(),
        ensures
            ok == row_wf(self@, i as int),
    {
        assert(self@.len() == self.rows@.len());
        assert(self@[i as int] == self.rows@[i as int]@);
        if self.rows[i].id != i {
            return false;
        }
        let round = self.rows[i].round;
        if (round == Round::BasicCircuits || round == Round::LeafAggregation) && self.rows[i].depth
            != 0 {
            return false;
        }
        if round == Round::NodeAggregation && self.rows[i].depth == u16::MAX {
            return false;
        }
        let c = self.rows[i].coordinate();
        let mut earlier: usize = 0;
        let mut k: usize = 0;
        while k < i
            invariant
                k <= i,
                i < self.rows@.len(),
                earlier == count_at(self@, c, k as int),
                earlier <= k,
            decreases i - k,
        {
            if self.rows[k].coordinate() == c {
                earlier += 1;
            }
            k += 1;
        }
        if self.rows[i].seq != earlier {
            return false;
        }
        let width = self.rows[i].width();
        let first = self.rows[i].first_blob;
        if width > 0 && first > usize::MAX - (width - 1) {
            return false;
        }
        let mut blobs: usize = 0;
        let mut k: usize = 0;
        while k < i
            invariant
                k <= i,
                i < self.rows@.len(),
                self@.len() == self.rows@.len(),
                c == self@[i as int].coordinate(),
                blobs == blobs_before(self@, c, k as int),
            decreases i - k,
        {
            assert(self@[k as int] == self.rows@[k as int]@);
            if self.rows[k].coordinate() == c {
                let w = self.rows[k].width();
                if blobs > usize::MAX - w {
                    proof {
                        assert(blobs_before(self@, c, k + 1) == blobs + w);
                        lemma_blobs_monotone(self@, c, k + 1, i as int);
                    }
                    return false;
                }
                blobs += w;
            }
            k += 1;
        }
        if first != blobs {
            return false;
        }
        let mut x: usize = 0;
        while x < self.rows[i].members.len()
            invariant
                i < self.rows@.len(),
                self@.len() == self.rows@.len(),
                self@[i as int] == self.rows@[i as int]@,
                c == self@[i as int].coordinate(),
                x <= self@[i as int].members.len(),
                forall|y: int|
                    0 <= y < x ==> member_ok(
                        self@,
                        i as int,
                        #[trigger] self@[i as int].members[y] as int,
                    ),
            decreases self@[i as int].members.len() - x,
        {
            let m = self.rows[i].members[x];
            if m >= i {
                assert(!member_ok(self@, i as int, self@[i as int].members[x as int] as int));
                return false;
            }
            if self.rows[m].status != JobStatus::Successful || !follows(
                self.rows[m].coordinate(),
                c,
            ) {
                assert(!member_ok(self@, i as int, self@[i as int].members[x as int] as int));
                return false;
            }
            x += 1;
        }
        true
    }

    /// Whether the table is well formed. Rows that come from elsewhere, from
    /// a store that others write to, are to be checked with this before they
    /// are worked on.
    pub fn is_well_formed(&self) -> (ok: bool)
        ensures
            ok == self.wf(),
    {
        let n = self.rows.len();
        assert(self@.len() == n);
        let mut i: usize = 0;
        while i < n
            invariant
                i <= n,
                n == self@.len(),
                forall|k: int| 0 <= k < i ==> #[trigger] row_wf(self@, k),
            decreases n - i,
        {
            if !self.row_is_well_formed(i) {
                return false;
            }
            i += 1;
        }
        let mut seen: Vec<bool> = Vec::new();
        let mut filled: usize = 0;
        while filled < n
            invariant
                filled <= n,
                seen@.len() == filled,
                forall|m: int| 0 <= m < filled ==> !#[trigger] seen@[m],
            decreases n - filled,
        {
            seen.push(false);
            filled += 1;
        }
        // For each job that was seen as a member, the place where it was seen.
        let ghost mut seen_in: Seq<int> = Seq::new(n as nat, |m: int| 0int);
        let ghost mut seen_at: Seq<int> = Seq::new(n as nat, |m: int| 0int);
        let mut p: usize = 0;
        while p < n
            invariant
                p <= n,
                n == self@.len(),
                n == self.rows@.len(),
                forall|k: int| 0 <= k < n ==> #[trigger] row_wf(self@, k),
                seen@.len() == n,
                seen_in.len() == n,
                seen_at.len() == n,
                forall|m: int|
                    0 <= m < n && #[trigger] seen@[m] ==> 0 <= seen_in[m] < p && 0 <= seen_at[m]
                        < self@[seen_in[m]].members.len()
                        && self@[seen_in[m]].members[seen_at[m]] == m,
                forall|q: int, b: int|
                    0 <= q < p && 0 <= b < self@[q].members.len() ==> seen@[#[trigger] self@[q].members[b] as int],
                forall|q1: int, b1: int, q2: int, b2: int|
                    #![trigger self@[q1].members[b1], self@[q2].members[b2]]
                    0 <= q1 < p && 0 <= q2 < p && 0 <= b1 < self@[q1].members.len() && 0 <= b2
                        < self@[q2].members.len() && (q1 != q2 || b1 != b2)
                        ==> self@[q1].members[b1] != self@[q2].members[b2],
            decreases n - p,
        {
            assert(self@[p as int] == self.rows@[p as int]@);
            let mut a: usize = 0;
            while a < self.rows[p].members.len()
                invariant
                    p < n,
                    n == self@.len(),
                    n == self.rows@.len(),
                    self@[p as int] == self.rows@[p as int]@,
                    a <= self@[p as int].members.len(),
                    forall|k: int| 0 <= k < n ==> #[trigger] row_wf(self@, k),
                    seen@.len() == n,
                    seen_in.len() == n,
                    seen_at.len() == n,
                    forall|m: int|
                        0 <= m < n && #[trigger] seen@[m] ==> 0 <= seen_in[m] <= p && 0
                            <= seen_at[m] < self@[seen_in[m]].members.len() && (seen_in[m] == p
                            ==> seen_at[m] < a) && self@[seen_in[m]].members[seen_at[m]] == m,
                    forall|q: int, b: int|
                        0 <= q <= p && 0 <= b < self@[q].members.len() && (q == p ==> b < a)
                            ==> seen@[#[trigger] self@[q].members[b] as int],
                    forall|q1: int, b1: int, q2: int, b2: int|
                        #![trigger self@[q1].members[b1], self@[q2].members[b2]]
                        0 <= q1 <= p && 0 <= q2 <= p && 0 <= b1 < self@[q1].members.len() && 0
                            <= b2 < self@[q2].members.len() && (q1 == p ==> b1 < a) && (q2 == p
                            ==> b2 < a) && (q1 != q2 || b1 != b2) ==> self@[q1].members[b1]
                            != self@[q2].members[b2],
                decreases self@[p as int].members.len() - a,
            {
                let m = self.rows[p].members[a];
                assert(row_wf(self@, p as int));
                assert(member_ok(self@, p as int, self@[p as int].members[a as int] as int));
                if seen[m] {
                    proof {
                        let q = seen_in[m as int];
                        let b = seen_at[m as int];
                        assert(self@[q].members[b] == self@[p as int].members[a as int]);
                        assert(q != p || b != a);
                    }
                    return false;
                }
                let ghost seen_before = seen@;
                seen.set(m, true);
                proof {
                    seen_in = seen_in.update(m as int, p as int);
                    seen_at = seen_at.update(m as int, a as int);
                    assert forall|q: int, b: int|
                        0 <= q <= p && 0 <= b < self@[q].members.len() && (q == p ==> b < a
                            + 1) implies seen@[#[trigger] self@[q].members[b] as int] by {
                        let other = self@[q].members[b] as int;
                        assert(row_wf(self@, q));
                        assert(member_ok(self@, q, other));
                        if other != m {
                            assert(seen_before[other]);
                        }
                    }
                }
                a += 1;
            }
            p += 1;
        }
        true
    }

    /// Number of jobs at coordinate `c`.
    pub fn count_siblings(&self, c: Coordinate) -> (n: usize)
        ensures
            n == count_at(self@, c, self@.len() as int),
    {
        let mut n: usize = 0;
        let mut i: usize = 0;
        while i < self.rows.len()
            invariant
                i <= self.rows.len(),
                n == count_at(self@, c, i as int),
                n <= i,
            decreases self.rows.len() - i,
        {
            if self.rows[i].coordinate() == c {
                n += 1;
            }
            i += 1;
        }
        n
    }

    /// Whether some job at `c` is a member of a group.
    pub fn consumed(&self, c: Coordinate) -> (b: bool)
        ensures
            b == is_consumed(self@, c),
    {
        let n = self.rows.len();
        assert(self@.len() == n);
        let mut p: usize = 0;
        while p < n
            invariant
                p <= n,
                n == self.rows@.len(),
                n == self@.len(),
                forall|q: int, a: int|
                    0 <= q < p && 0 <= a < self@[q].members.len() && 0 <= #[trigger] self@[q].members[a]
                        < n ==> self@[self@[q].members[a] as int].coordinate() != c,
            decreases n - p,
        {
            assert(self@[p as int] == self.rows@[p as int]@);
            let mut a: usize = 0;
            while a < self.rows[p].members.len()
                invariant
                    p < n,
                    n == self.rows@.len(),
                    n == self@.len(),
                    self@[p as int] == self.rows@[p as int]@,
                    a <= self@[p as int].members.len(),
                    forall|x: int|
                        0 <= x < a && 0 <= #[trigger] self@[p as int].members[x] < n
                            ==> self@[self@[p as int].members[x] as int].coordinate() != c,
                decreases self@[p as int].members.len() - a,
            {
                let m = self.rows[p].members[a];
                if m < n {
                    assert(self@[m as int] == self.rows@[m as int]@);
                    if self.rows[m].coordinate() == c {
                        assert(self@[p as int].members[a as int] == m);
                        return true;
                    }
                }
                a += 1;
            }
            p += 1;
        }
        false
    }

    /// Enqueues a basic-circuits job of circuit `circuit_id` for `batch`: the
    /// entry into the pipeline. The job takes the next sequence number among
    /// its siblings, numbers its one blob with it, and its id is returned.
    ///
    /// Once the jobs of a circuit of a batch are consumed by the next round,
    /// none is admitted any more: the job would join no group. Then nothing
    /// changes and `None` is returned.
    pub fn enqueue_basic(&mut self, batch: u32, circuit_id: u8, info: BatchInfo) -> (id: Option<
        usize,
    >)
        requires
            old(self).wf(),
        ensures
            final(self).wf(),
            ({
                let c = Coordinate { batch, circuit_id, round: Round::BasicCircuits, depth: 0 };
                if is_consumed(old(self)@, c) {
                    id is None && final(self)@ == old(self)@
                } else {
                    id == Some(old(self)@.len() as usize) && final(self)@ == old(self)@.push(
                        basic_row(
                            old(self)@.len() as usize,
                            batch,
                            circuit_id,
                            count_at(old(self)@, c, old(self)@.len() as int) as usize,
                            info,
                        ),
                    )
                }
            }),
    {
        let c = Coordinate { batch, circuit_id, round: Round::BasicCircuits, depth: 0 };
        if self.consumed(c) {
            return None;
        }
        let seq = self.count_siblings(c);
        let id = self.rows.len();
        let job = Job {
            id,
            batch,
            circuit_id,
            round: Round::BasicCircuits,
            depth: 0,
            seq,
            first_blob: seq,
            status: JobStatus::Queued,
            attempts: 0,
            members: Vec::new(),
            blob_urls: Vec::new(),
            protocol_version: info.protocol_version,
            sealed_at: info.sealed_at,
            elapsed_ms: 0,
        };
        proof {
            assert(job@.blob_urls =~= Seq::<Seq<u8>>::empty());
            assert(job@.members =~= Seq::<usize>::empty());
            assert(job@ == basic_row(id, batch, circuit_id, seq, info));
            lemma_basic_blobs(self@, c, self@.len() as int);
            lemma_push_keeps_wf(self@, job@);
        }
        self.rows.push(job);
        assert(self@ =~= old(self)@.push(basic_row(id, batch, circuit_id, seq, info)));
        Some(id)
    }

    /// Moves job `id` to `status` with `attempts` failed attempts.
    fn move_to(&mut self, id: usize, status: JobStatus, attempts: u32)
        requires
            old(self).wf(),
            id < old(self)@.len(),
            old(self)@[id as int].status != JobStatus::Successful,
        ensures
            final(self).wf(),
            final(self)@ == old(self)@.update(
                id as int,
                old(self)@[id as int].moved_to(status, attempts),
            ),
    {
        proof {
            lemma_update_keeps_wf(
                self@,
                id as int,
                self@[id as int].moved_to(status, attempts),
            );
        }
        self.rows[id].status = status;
        self.rows[id].attempts = attempts;
        assert(self@ =~= old(self)@.update(
            id as int,
            old(self)@[id as int].moved_to(status, attempts),
        ));
    }

    /// Claims job `id` for a worker: the job goes from queued to in progress
    /// and the caller has won it. On any other status nothing changes and the
    /// caller has lost.
    pub fn claim(&mut self, id: usize) -> (won: bool)
        requires
            old(self).wf(),
        ensures
            final(self).wf(),
            won == (id < old(self)@.len() && old(self)@[id as int].status == JobStatus::Queued),
            won ==> final(self)@ == old(self)@.update(
                id as int,
                old(self)@[id as int].moved_to(
                    JobStatus::InProgress,
                    old(self)@[id as int].attempts,
                ),
            ),
            !won ==> final(self)@ == old(self)@,
    {
        if id < self.rows.len() && self.rows[id].status == JobStatus::Queued {
            let attempts = self.rows[id].attempts;
            self.move_to(id, JobStatus::InProgress, attempts);
            true
        } else {
            false
        }
    }

    /// Claims the queued job of `round` with the lowest id, if there is one.
    pub fn claim_next(&mut self, round: Round) -> (claimed: Option<usize>)
        requires
            old(self).wf(),
        ensures
            final(self).wf(),
            claimed matches Some(id) ==> {
                &&& id < old(self)@.len()
                &&& old(self)@[id as int].status == JobStatus::Queued
                &&& old(self)@[id as int].round == round
                &&& forall|k: int|
                    0 <= k < id ==> !(#[trigger] old(self)@[k].status == JobStatus::Queued && old(
                        self,
                    )@[k].round == round)
                &&& final(self)@ == old(self)@.update(
                    id as int,
                    old(self)@[id as int].moved_to(
                        JobStatus::InProgress,
                        old(self)@[id as int].attempts,
                    ),
                )
            },
            claimed is None ==> {
                &&& final(self)@ == old(self)@
                &&& forall|k: int|
                    0 <= k < old(self)@.len() ==> !(#[trigger] old(self)@[k].status
                        == JobStatus::Queued && old(self)@[k].round == round)
            },
    {
        let mut i: usize = 0;
        while i < self.rows.len()
            invariant
                i <= self.rows.len(),
                self@ == old(self)@,
                self.wf(),
                forall|k: int|
                    0 <= k < i ==> !(#[trigger] self@[k].status == JobStatus::Queued
                        && self@[k].round == round),
            decreases self.rows.len() - i,
        {
            if self.rows[i].status == JobStatus::Queued && self.rows[i].round == round {
                self.claim(i);
                return Some(i);
            }
            i += 1;
        }
        None
    }

    /// Records a failed attempt at job `id`: a job in progress becomes failed
    /// and its attempt count goes up by one; it stops at the largest count
    /// the row can hold. On any other status nothing changes.
    pub fn record_failure(&mut self, id: usize) -> (recorded: bool)
        requires
            old(self).wf(),
        ensures
            final(self).wf(),
            recorded == (id < old(self)@.len() && old(self)@[id as int].status
                == JobStatus::InProgress),
            recorded ==> final(self)@ == old(self)@.update(
                id as int,
                old(self)@[id as int].moved_to(
                    JobStatus::Failed,
                    if old(self)@[id as int].attempts < u32::MAX {
                        (old(self)@[id as int].attempts + 1) as u32
                    } else {
                        u32::MAX
                    },
                ),
            ),
            !recorded ==> final(self)@ == old(self)@,
    {
        if id < self.rows.len() && self.rows[id].status == JobStatus::InProgress {
            let before = self.rows[id].attempts;
            let attempts = if before < u32::MAX {
                before + 1
            } else {
                u32::MAX
            };
            self.move_to(id, JobStatus::Failed, attempts);
            true
        } else {
            false
        }
    }

    /// Puts a failed job back in the queue when it has failed fewer than
    /// `ceiling` times. A job at the ceiling stays failed.
    pub fn retry_failed(&mut self, id: usize, ceiling: u32) -> (requeued: bool)
        requires
            old(self).wf(),
        ensures
            final(self).wf(),
            requeued == (id < old(self)@.len() && old(self)@[id as int].status == JobStatus::Failed
                && old(self)@[id as int].attempts < ceiling),
            requeued ==> final(self)@ == old(self)@.update(
                id as int,
                old(self)@[id as int].moved_to(JobStatus::Queued, old(self)@[id as int].attempts),
            ),
            !requeued ==> final(self)@ == old(self)@,
    {
        if id < self.rows.len() && self.rows[id].status == JobStatus::Failed
            && self.rows[id].attempts < ceiling {
            let attempts = self.rows[id].attempts;
            self.move_to(id, JobStatus::Queued, attempts);
            true
        } else {
            false
        }
    }

    /// Takes a job that is in progress away from its worker and puts it back
    /// in the queue. On any other status nothing changes.
    pub fn requeue_stuck(&mut self, id: usize) -> (requeued: bool)
        requires
            old(self).wf(),
        ensures
            final(self).wf(),
            requeued == (id < old(self)@.len() && old(self)@[id as int].status
                == JobStatus::InProgress),
            requeued ==> final(self)@ == old(self)@.update(
                id as int,
                old(self)@[id as int].moved_to(JobStatus::Queued, old(self)@[id as int].attempts),
            ),
            !requeued ==> final(self)@ == old(self)@,
    {
        if id < self.rows.len() && self.rows[id].status == JobStatus::InProgress {
            let attempts = self.rows[id].attempts;
            self.move_to(id, JobStatus::Queued, attempts);
            true
        } else {
            false
        }
    }
}

} // verus!
