//! The aggregation job builder: from the completed jobs at one coordinate
//! to the jobs of the next.
//!
//! Building is one transaction on the job table. The jobs at a coordinate
//! are taken in id order and cut into groups of the size that the next round
//! allows; each group becomes one job. Nothing is built before every job at
//! the coordinate has completed, and nothing is built twice.

use crate::job::{
    blobs_before, count_at, is_consumed, is_successor, lemma_count_bounded,
    lemma_count_by_coordinates, lemma_count_monotone, lemma_push_keeps_wf, member_ok, row_wf,
    table_wf, BatchInfo, Coordinate, Job, JobStatus, JobTable, JobView,
};
use crate::round::{Round, Topology};
use vstd::arithmetic::div_mod::{
    lemma_fundamental_div_mod, lemma_fundamental_div_mod_converse, lemma_mod_bound,
};
use vstd::arithmetic::mul::lemma_mul_inequality;
use vstd::prelude::*;

verus! {

/// How an attempt to build the next jobs ended.
#[derive(Clone, Copy, Debug, PartialEq, Eq, Hash, Structural)]
pub enum BuildOutcome {
    /// This many jobs were inserted.
    Created(usize),
    /// No job is at the coordinate, or one of them has not completed.
    NotReady,
    /// The jobs are consumed already, or the place of the new jobs is taken.
    Conflict,
    /// The coordinate is in the last round: nothing follows it.
    Terminal,
    /// The topology cannot map the circuit of the jobs.
    UnknownCircuit(u8),
    /// Node aggregation would reach the greatest depth.
    DepthExhausted,
}

/// `n / g`, rounded up.
pub open spec fn ceil_div(n: nat, g: nat) -> nat {
    ((n + g - 1) / (g as int)) as nat
}

/// Ids of the rows among the first `upto` that are at coordinate `c`, ascending.
pub open spec fn siblings(rows: Seq<JobView>, c: Coordinate, upto: int) -> Seq<usize>
    decreases upto,
{
    if upto <= 0 {
        Seq::empty()
    } else if upto <= rows.len() && rows[upto - 1].coordinate() == c {
        siblings(rows, c, upto - 1).push((upto - 1) as usize)
    } else {
        siblings(rows, c, upto - 1)
    }
}

/// The `k`-th group of `g` among `sibs`; the last group may be shorter.
pub open spec fn group_of(sibs: Seq<usize>, g: nat, k: int) -> Seq<usize> {
    sibs.subrange(
        k * g,
        if (k + 1) * g <= sibs.len() {
            (k + 1) * g
        } else {
            sibs.len() as int
        },
    )
}

/// Whether every job at `c` has completed.
pub open spec fn all_successful(rows: Seq<JobView>, c: Coordinate) -> bool {
    forall|i: int|
        0 <= i < rows.len() && #[trigger] rows[i].coordinate() == c ==> rows[i].status
            == JobStatus::Successful
}

/// The coordinate of the jobs that consume the `n` jobs at `c`.
///
/// The circuit is the one that the topology maps the circuit of `c` to. A
/// level of node aggregation with more than one job is followed by another
/// level, one deeper, as long as that level is below the greatest depth. A
/// level with one job is the last: the recursion tip takes it, at the depth
/// that the tree has reached.
pub open spec fn parent_coordinate(c: Coordinate, n: nat, topology: Topology) -> Coordinate {
    let circuit_id = match topology.spec_remap(c.round, c.circuit_id) {
        Some(mapped) => mapped,
        None => c.circuit_id,
    };
    match c.round {
        Round::BasicCircuits => Coordinate {
            batch: c.batch,
            circuit_id,
            round: Round::LeafAggregation,
            depth: 0,
        },
        Round::LeafAggregation => Coordinate {
            batch: c.batch,
            circuit_id,
            round: Round::NodeAggregation,
            depth: 0,
        },
        Round::NodeAggregation => if n > 1 {
            Coordinate {
                batch: c.batch,
                circuit_id,
                round: Round::NodeAggregation,
                depth: (c.depth + 1) as u16,
            }
        } else {
            Coordinate { batch: c.batch, circuit_id, round: Round::RecursionTip, depth: c.depth }
        },
        _ => Coordinate { batch: c.batch, circuit_id, round: Round::Scheduler, depth: c.depth },
    }
}

/// Whether building at `c` would run into what is committed already: a
/// job at `c` is consumed, or jobs stand where the new jobs would go, so
/// that the first of the new jobs would take a sequence number twice.
pub open spec fn place_taken(rows: Seq<JobView>, c: Coordinate, topology: Topology) -> bool {
    let n = count_at(rows, c, rows.len() as int);
    is_consumed(rows, c) || count_at(rows, parent_coordinate(c, n, topology), rows.len() as int)
        > 0
}

/// The job that consumes the `k`-th group of the jobs at `c`.
pub open spec fn parent_row(
    rows: Seq<JobView>,
    c: Coordinate,
    topology: Topology,
    info: BatchInfo,
    k: int,
) -> JobView {
    let sibs = siblings(rows, c, rows.len() as int);
    let target = parent_coordinate(c, sibs.len(), topology);
    let g = topology.spec_group_size(target.round);
    JobView {
        id: (rows.len() + k) as usize,
        batch: c.batch,
        circuit_id: target.circuit_id,
        round: target.round,
        depth: target.depth,
        seq: k as usize,
        first_blob: (k * g) as usize,
        status: JobStatus::Queued,
        attempts: 0,
        members: group_of(sibs, g, k),
        blob_urls: Seq::empty(),
        protocol_version: info.protocol_version,
        sealed_at: info.sealed_at,
        elapsed_ms: 0,
    }
}

/// What building at `c` does, decided in this order: the last round has
/// nothing to build; a tree that cannot grow deeper and a circuit that
/// cannot be mapped are refused; jobs that have not all completed are waited
/// for; what is committed already is left alone; else one job per group is
/// created.
pub open spec fn build_verdict(rows: Seq<JobView>, c: Coordinate, topology: Topology)
    -> BuildOutcome {
    let n = count_at(rows, c, rows.len() as int);
    let g = topology.spec_group_size(parent_coordinate(c, n, topology).round);
    if c.round == Round::Scheduler {
        BuildOutcome::Terminal
    } else if c.round == Round::NodeAggregation && n > 1 && c.depth >= u16::MAX - 1 {
        BuildOutcome::DepthExhausted
    } else if topology.spec_remap(c.round, c.circuit_id) is None {
        BuildOutcome::UnknownCircuit(c.circuit_id)
    } else if n == 0 || !all_successful(rows, c) {
        BuildOutcome::NotReady
    } else if place_taken(rows, c, topology) {
        BuildOutcome::Conflict
    } else {
        BuildOutcome::Created(ceil_div(n, g) as usize)
    }
}

/// The table after building at `c`.
pub open spec fn built(rows: Seq<JobView>, c: Coordinate, topology: Topology, info: BatchInfo)
    -> Seq<JobView> {
    match build_verdict(rows, c, topology) {
        BuildOutcome::Created(count) => rows + Seq::new(
            count as nat,
            |k: int| parent_row(rows, c, topology, info, k),
        ),
        _ => rows,
    }
}

/// The siblings at a coordinate are as many as the count says, each of them
/// is a row at the coordinate, and they come in ascending order.
pub proof fn lemma_siblings(rows: Seq<JobView>, c: Coordinate, n: int)
    requires
        0 <= n <= rows.len(),
        n <= usize::MAX + 1,
    ensures
        siblings(rows, c, n).len() == count_at(rows, c, n),
        forall|k: int|
            0 <= k < siblings(rows, c, n).len() ==> {
                let m = #[trigger] siblings(rows, c, n)[k];
                0 <= m < n && rows[m as int].coordinate() == c
            },
        forall|a: int, b: int|
            0 <= a < b < siblings(rows, c, n).len() ==> siblings(rows, c, n)[a] < siblings(
                rows,
                c,
                n,
            )[b],
    decreases n,
{
    if n > 0 {
        lemma_siblings(rows, c, n - 1);
        let prev = siblings(rows, c, n - 1);
        let cur = siblings(rows, c, n);
        assert forall|k: int| 0 <= k < cur.len() implies {
            let m = #[trigger] cur[k];
            0 <= m < n && rows[m as int].coordinate() == c
        } by {
            if k < prev.len() {
                assert(cur[k] == prev[k]);
            }
        }
        assert forall|a: int, b: int| 0 <= a < b < cur.len() implies cur[a] < cur[b] by {
            assert(cur[a] == prev[a]);
            if b < prev.len() {
                assert(cur[b] == prev[b]);
            }
        }
    }
}

/// Every row at a coordinate is among its siblings.
pub proof fn lemma_siblings_complete(rows: Seq<JobView>, c: Coordinate, n: int, i: int)
    requires
        0 <= i < n <= rows.len(),
        n <= usize::MAX + 1,
        rows[i].coordinate() == c,
    ensures
        siblings(rows, c, n).contains(i as usize),
    decreases n,
{
    if i == n - 1 {
        let s = siblings(rows, c, n);
        assert(s[s.len() - 1] == i as usize);
    } else {
        lemma_siblings_complete(rows, c, n - 1, i);
        let prev = siblings(rows, c, n - 1);
        let at = choose|x: int| 0 <= x < prev.len() && prev[x] == i as usize;
        assert(siblings(rows, c, n)[at] == i as usize);
    }
}

/// Group `k` exists exactly when the groups before it leave a job over.
pub proof fn lemma_group_exists(n: nat, g: nat, k: nat)
    requires
        g >= 1,
    ensures
        k < ceil_div(n, g) <==> k * g < n,
{
    let x = n + g - 1;
    let d = g as int;
    let q = x / d;
    let r = x % d;
    lemma_fundamental_div_mod(x, d);
    lemma_mod_bound(x, d);
    assert(x == d * q + r);
    if k < q {
        lemma_mul_inequality(k as int + 1, q, d);
        assert((k + 1) * d == k * d + d) by (nonlinear_arith);
        assert(q * d == d * q) by (nonlinear_arith);
    } else {
        lemma_mul_inequality(q, k as int, d);
        assert(q * d == d * q) by (nonlinear_arith);
    }
}

/// A level of aggregation has fewer jobs than the level below it, as soon as
/// a job consumes at least two: the tree of node aggregation jobs narrows
/// with every level until one job is left.
pub proof fn lemma_levels_shrink(n: nat, g: nat)
    requires
        g >= 2,
        n >= 2,
    ensures
        1 <= ceil_div(n, g) < n,
{
    lemma_group_exists(n, g, 0);
    lemma_group_exists(n, g, (n - 1) as nat);
    assert((n - 1) * g >= n) by (nonlinear_arith)
        requires
            g >= 2,
            n >= 2,
    ;
}

/// Grouping leaves no job out: the job at position `i` among its siblings is
/// in group `i / g`, at position `i % g`.
pub proof fn lemma_sibling_in_its_group(sibs: Seq<usize>, g: nat, i: int)
    requires
        g >= 1,
        0 <= i < sibs.len(),
    ensures
        0 <= i / (g as int) < ceil_div(sibs.len(), g),
        0 <= i % (g as int) < group_of(sibs, g, i / (g as int)).len(),
        group_of(sibs, g, i / (g as int))[i % (g as int)] == sibs[i],
{
    let d = g as int;
    let k = i / d;
    let j = i % d;
    lemma_fundamental_div_mod(i, d);
    lemma_mod_bound(i, d);
    assert(i == d * k + j);
    assert(d * k == k * d) by (nonlinear_arith);
    assert(k >= 0) by (nonlinear_arith)
        requires
            i == d * k + j,
            0 <= j < d,
            i >= 0,
    ;
    lemma_group_exists(sibs.len(), g, k as nat);
    assert((k + 1) * d == k * d + d) by (nonlinear_arith);
}

/// Grouping takes only what is there, each job once: position `j` of group
/// `k` holds the job at position `k * g + j` among the siblings, and that
/// position belongs to no other place in any group.
pub proof fn lemma_group_member_is_sibling(sibs: Seq<usize>, g: nat, k: int, j: int)
    requires
        g >= 1,
        0 <= k < ceil_div(sibs.len(), g),
        0 <= j < group_of(sibs, g, k).len(),
    ensures
        j < g,
        0 <= k * g + j < sibs.len(),
        group_of(sibs, g, k)[j] == sibs[k * g + j],
        (k * g + j) / (g as int) == k,
        (k * g + j) % (g as int) == j,
{
    let d = g as int;
    lemma_group_exists(sibs.len(), g, k as nat);
    assert((k + 1) * d == k * d + d) by (nonlinear_arith);
    assert(k * d >= 0) by (nonlinear_arith)
        requires
            k >= 0,
            d >= 1,
    ;
    lemma_fundamental_div_mod_converse(k * d + j, d, k, j);
}

/// What a successful build adds: one job per group, as many as the number of
/// siblings over the group size, rounded up, each holding its group; the
/// rows that were there are untouched.
pub proof fn lemma_created_groups(
    rows: Seq<JobView>,
    c: Coordinate,
    topology: Topology,
    info: BatchInfo,
)
    requires
        table_wf(rows),
        topology.wf(),
        rows.len() <= usize::MAX,
        build_verdict(rows, c, topology) is Created,
    ensures
        ({
            let n = count_at(rows, c, rows.len() as int);
            let sibs = siblings(rows, c, rows.len() as int);
            let g = topology.spec_group_size(parent_coordinate(c, n, topology).round);
            let after = built(rows, c, topology, info);
            &&& g >= 1
            &&& n == sibs.len()
            &&& 1 <= ceil_div(n, g) <= n
            &&& build_verdict(rows, c, topology) == BuildOutcome::Created(ceil_div(n, g) as usize)
            &&& after.len() == rows.len() + ceil_div(n, g)
            &&& forall|i: int| 0 <= i < rows.len() ==> #[trigger] after[i] == rows[i]
            &&& forall|k: int|
                0 <= k < ceil_div(n, g) ==> #[trigger] after[rows.len() + k] == parent_row(
                    rows,
                    c,
                    topology,
                    info,
                    k,
                )
            &&& is_successor(c, parent_coordinate(c, n, topology))
        }),
{
    let n = count_at(rows, c, rows.len() as int);
    let g = topology.spec_group_size(parent_coordinate(c, n, topology).round);
    lemma_siblings(rows, c, rows.len() as int);
    lemma_count_bounded(rows, c, rows.len() as int);
    lemma_group_exists(n, g, 0);
    lemma_group_exists(n, g, n);
    assert(n * g >= n) by (nonlinear_arith)
        requires
            g >= 1,
            n >= 0,
    ;
}

/// After a successful build every job at the coordinate is a member of one
/// of the new jobs.
pub proof fn lemma_every_sibling_grouped(
    rows: Seq<JobView>,
    c: Coordinate,
    topology: Topology,
    info: BatchInfo,
    i: int,
)
    requires
        table_wf(rows),
        topology.wf(),
        rows.len() <= usize::MAX,
        build_verdict(rows, c, topology) is Created,
        0 <= i < rows.len(),
        rows[i].coordinate() == c,
    ensures
        ({
            let after = built(rows, c, topology, info);
            exists|p: int, a: int|
                rows.len() <= p < after.len() && 0 <= a < after[p].members.len()
                    && #[trigger] after[p].members[a] == i
        }),
{
    let n = count_at(rows, c, rows.len() as int);
    let sibs = siblings(rows, c, rows.len() as int);
    let g = topology.spec_group_size(parent_coordinate(c, n, topology).round);
    let after = built(rows, c, topology, info);
    lemma_created_groups(rows, c, topology, info);
    lemma_siblings_complete(rows, c, rows.len() as int, i);
    let pos = choose|x: int| 0 <= x < sibs.len() && sibs[x] == i as usize;
    lemma_sibling_in_its_group(sibs, g, pos);
    let k = pos / (g as int);
    let a = pos % (g as int);
    let p = rows.len() + k;
    assert(after[p] == parent_row(rows, c, topology, info, k));
    assert(after[p].members[a] == i);
}

/// After a successful build no job is a member of two of the new jobs, nor
/// twice a member of one.
pub proof fn lemma_groups_do_not_overlap(
    rows: Seq<JobView>,
    c: Coordinate,
    topology: Topology,
    info: BatchInfo,
    p: int,
    a: int,
    q: int,
    b: int,
)
    requires
        table_wf(rows),
        topology.wf(),
        rows.len() <= usize::MAX,
        build_verdict(rows, c, topology) is Created,
        rows.len() <= p < built(rows, c, topology, info).len(),
        rows.len() <= q < built(rows, c, topology, info).len(),
        0 <= a < built(rows, c, topology, info)[p].members.len(),
        0 <= b < built(rows, c, topology, info)[q].members.len(),
        built(rows, c, topology, info)[p].members[a] == built(rows, c, topology, info)[q].members[b],
    ensures
        p == q,
        a == b,
{
    let n = count_at(rows, c, rows.len() as int);
    let sibs = siblings(rows, c, rows.len() as int);
    let g = topology.spec_group_size(parent_coordinate(c, n, topology).round);
    let after = built(rows, c, topology, info);
    lemma_created_groups(rows, c, topology, info);
    lemma_siblings(rows, c, rows.len() as int);
    let k1 = p - rows.len();
    let k2 = q - rows.len();
    assert(after[rows.len() + k1] == parent_row(rows, c, topology, info, k1));
    assert(after[rows.len() + k2] == parent_row(rows, c, topology, info, k2));
    lemma_group_member_is_sibling(sibs, g, k1, a);
    lemma_group_member_is_sibling(sibs, g, k2, b);
    let x = k1 * g + a;
    let y = k2 * g + b;
    if x < y {
        assert(sibs[x] < sibs[y]);
    }
    if y < x {
        assert(sibs[y] < sibs[x]);
    }
}

/// In a well-formed table every member of every group has completed, was
/// made before the job that consumes it, and lies one step below it: a job
/// of a later round never stands on an unfinished job.
pub proof fn lemma_members_have_completed(rows: Seq<JobView>, p: int, k: int)
    requires
        table_wf(rows),
        0 <= p < rows.len(),
        0 <= k < rows[p].members.len(),
    ensures
        0 <= rows[p].members[k] < p,
        rows[rows[p].members[k] as int].status == JobStatus::Successful,
        is_successor(rows[rows[p].members[k] as int].coordinate(), rows[p].coordinate()),
{
    assert(row_wf(rows, p));
    assert(member_ok(rows, p, rows[p].members[k] as int));
}

/// While one job at a coordinate has not completed, building there creates
/// nothing.
pub proof fn lemma_unfinished_sibling_blocks(
    rows: Seq<JobView>,
    c: Coordinate,
    topology: Topology,
    info: BatchInfo,
    i: int,
)
    requires
        0 <= i < rows.len(),
        rows[i].coordinate() == c,
        rows[i].status != JobStatus::Successful,
    ensures
        !(build_verdict(rows, c, topology) is Created),
        !(build_verdict(rows, c, topology) is Conflict),
        built(rows, c, topology, info) == rows,
{
}

/// Rows appended at other coordinates do not change the count at a
/// coordinate.
pub proof fn lemma_append_elsewhere(rows: Seq<JobView>, extra: Seq<JobView>, c: Coordinate)
    requires
        forall|i: int| 0 <= i < extra.len() ==> #[trigger] extra[i].coordinate() != c,
    ensures
        count_at(rows + extra, c, (rows + extra).len() as int) == count_at(
            rows,
            c,
            rows.len() as int,
        ),
    decreases extra.len(),
{
    let all = rows + extra;
    if extra.len() > 0 {
        let fewer = extra.drop_last();
        assert(rows + fewer =~= all.drop_last());
        lemma_append_elsewhere(rows, fewer, c);
        lemma_count_by_coordinates(all, rows + fewer, c, all.len() - 1);
        assert(all[all.len() - 1] == extra[extra.len() - 1]);
    } else {
        assert(all =~= rows);
    }
}

/// Building twice builds once: after a successful build, a second attempt at
/// the same coordinate finds the jobs of the first, reports a conflict and
/// inserts nothing.
pub proof fn lemma_second_build_conflicts(
    rows: Seq<JobView>,
    c: Coordinate,
    topology: Topology,
    info: BatchInfo,
    later: BatchInfo,
)
    requires
        table_wf(rows),
        topology.wf(),
        rows.len() <= usize::MAX,
        build_verdict(rows, c, topology) is Created,
    ensures
        build_verdict(built(rows, c, topology, info), c, topology) == BuildOutcome::Conflict,
        built(built(rows, c, topology, info), c, topology, later) == built(
            rows,
            c,
            topology,
            info,
        ),
{
    let n = count_at(rows, c, rows.len() as int);
    let target = parent_coordinate(c, n, topology);
    let g = topology.spec_group_size(target.round);
    let after = built(rows, c, topology, info);
    let extra = Seq::new(ceil_div(n, g), |k: int| parent_row(rows, c, topology, info, k));
    lemma_created_groups(rows, c, topology, info);
    lemma_siblings(rows, c, rows.len() as int);
    assert(after =~= rows + extra);
    assert forall|i: int| 0 <= i < extra.len() implies #[trigger] extra[i].coordinate() != c by {
        assert(extra[i].coordinate() == target);
    }
    lemma_append_elsewhere(rows, extra, c);
    assert forall|i: int| 0 <= i < after.len() && #[trigger] after[i].coordinate()
        == c implies after[i].status == JobStatus::Successful by {
        if i < rows.len() {
            assert(after[i] == rows[i]);
            assert(rows[i].coordinate() == c);
        } else {
            assert(after[i] == extra[i - rows.len()]);
        }
    }
    assert(after[rows.len() as int] == extra[0]);
    assert(count_at(after, target, rows.len() as int + 1) >= 1);
    lemma_count_monotone(after, target, rows.len() as int + 1, after.len() as int);
}

/// Where no row is at a coordinate, no blob is numbered there.
pub proof fn lemma_blobs_zero(rows: Seq<JobView>, c: Coordinate, n: int)
    requires
        n <= rows.len(),
        forall|i: int| 0 <= i < n ==> #[trigger] rows[i].coordinate() != c,
    ensures
        blobs_before(rows, c, n) == 0,
    decreases n,
{
    if n > 0 {
        lemma_blobs_zero(rows, c, n - 1);
    }
}

/// Where the count at a coordinate is zero, no row is there.
pub proof fn lemma_empty_place(rows: Seq<JobView>, c: Coordinate, n: int)
    requires
        n <= rows.len(),
        count_at(rows, c, n) == 0,
    ensures
        forall|i: int| 0 <= i < n ==> #[trigger] rows[i].coordinate() != c,
    decreases n,
{
    if n > 0 {
        lemma_empty_place(rows, c, n - 1);
    }
}

/// A copy of `v[from..to]`.
fn copy_range(v: &Vec<usize>, from: usize, to: usize) -> (out: Vec<usize>)
    requires
        from <= to <= v.len(),
    ensures
        out@ == v@.subrange(from as int, to as int),
{
    let mut out: Vec<usize> = Vec::new();
    let mut i: usize = from;
    while i < to
        invariant
            from <= i <= to <= v.len(),
            out@ == v@.subrange(from as int, i as int),
        decreases to - i,
    {
        out.push(v[i]);
        assert(out@ =~= v@.subrange(from as int, i + 1));
        i += 1;
    }
    out
}

impl JobTable {
    /// Ids of the jobs at `c`, ascending.
    pub fn sibling_ids(&self, c: Coordinate) -> (ids: Vec<usize>)
        ensures
            ids@ == siblings(self@, c, self@.len() as int),
    {
        let mut ids: Vec<usize> = Vec::new();
        let mut i: usize = 0;
        while i < self.rows.len()
            invariant
                i <= self.rows.len(),
                ids@ == siblings(self@, c, i as int),
            decreases self.rows.len() - i,
        {
            if self.rows[i].coordinate() == c {
                ids.push(i);
            }
            i += 1;
        }
        ids
    }

    /// Whether every job at `c` has completed.
    pub fn siblings_successful(&self, c: Coordinate) -> (b: bool)
        ensures
            b == all_successful(self@, c),
    {
        let mut i: usize = 0;
        while i < self.rows.len()
            invariant
                i <= self.rows.len(),
                forall|k: int|
                    0 <= k < i && #[trigger] self@[k].coordinate() == c ==> self@[k].status
                        == JobStatus::Successful,
            decreases self.rows.len() - i,
        {
            if self.rows[i].coordinate() == c && self.rows[i].status != JobStatus::Successful {
                assert(self@[i as int].coordinate() == c);
                return false;
            }
            i += 1;
        }
        true
    }

    /// Builds the jobs that consume the jobs at `c`, in one transaction.
    ///
    /// The outcome is `build_verdict` of the table before the call, and the
    /// table afterwards is `built` of it: on `Created` one job per group has
    /// been appended, on every other outcome nothing has changed.
    pub fn build_parents(&mut self, c: Coordinate, info: BatchInfo, topology: &Topology) -> (outcome:
        BuildOutcome)
        requires
            old(self).wf(),
            topology.wf(),
        ensures
            final(self).wf(),
            outcome == build_verdict(old(self)@, c, *topology),
            final(self)@ == built(old(self)@, c, *topology, info),
    {
        let ghost before = self@;
        let old_len = self.rows.len();
        if c.round == Round::Scheduler {
            return BuildOutcome::Terminal;
        }
        let sibs = self.sibling_ids(c);
        let n = sibs.len();
        proof {
            lemma_siblings(before, c, old_len as int);
            lemma_count_bounded(before, c, old_len as int);
        }
        if c.round == Round::NodeAggregation && n > 1 && c.depth >= u16::MAX - 1 {
            return BuildOutcome::DepthExhausted;
        }
        let circuit_id = match topology.remap_circuit_id(c.round, c.circuit_id) {
            Some(mapped) => mapped,
            None => {
                return BuildOutcome::UnknownCircuit(c.circuit_id);
            },
        };
        if n == 0 || !self.siblings_successful(c) {
            return BuildOutcome::NotReady;
        }
        let target = match c.round {
            Round::BasicCircuits => Coordinate {
                batch: c.batch,
                circuit_id,
                round: Round::LeafAggregation,
                depth: 0,
            },
            Round::LeafAggregation => Coordinate {
                batch: c.batch,
                circuit_id,
                round: Round::NodeAggregation,
                depth: 0,
            },
            Round::NodeAggregation => if n > 1 {
                Coordinate {
                    batch: c.batch,
                    circuit_id,
                    round: Round::NodeAggregation,
                    depth: c.depth + 1,
                }
            } else {
                Coordinate { batch: c.batch, circuit_id, round: Round::RecursionTip, depth: c.depth }
            },
            _ => Coordinate { batch: c.batch, circuit_id, round: Round::Scheduler, depth: c.depth },
        };
        assert(target == parent_coordinate(c, n as nat, *topology));
        if self.consumed(c) || self.count_siblings(target) > 0 {
            return BuildOutcome::Conflict;
        }
        let g = topology.group_size(target.round);
        proof {
            assert(is_successor(c, target));
            lemma_empty_place(before, target, old_len as int);
            lemma_blobs_zero(before, target, old_len as int);
        }
        let mut k: usize = 0;
        let mut start: usize = 0;
        while start < n
            invariant
                self.wf(),
                topology.wf(),
                table_wf(before),
                old_len == before.len(),
                self@.len() == old_len + k,
                forall|i: int| 0 <= i < old_len ==> #[trigger] self@[i] == before[i],
                forall|j: int|
                    0 <= j < k ==> #[trigger] self@[old_len + j] == parent_row(
                        before,
                        c,
                        *topology,
                        info,
                        j,
                    ),
                count_at(self@, target, self@.len() as int) == k,
                blobs_before(self@, target, self@.len() as int) == start,
                n == sibs.len(),
                n >= 1,
                sibs@ == siblings(before, c, old_len as int),
                g == topology.spec_group_size(target.round),
                g >= 1,
                target == parent_coordinate(c, n as nat, *topology),
                target.round == Round::NodeAggregation ==> target.depth < u16::MAX,
                is_successor(c, target),
                all_successful(before, c),
                !is_consumed(before, c),
                start <= n,
                k <= start,
                start < n ==> start == k * g,
                start == n ==> k * g >= n && k >= 1 && (k - 1) * g < n,
                forall|p: int, a: int, i: int|
                    old_len <= p < self@.len() && 0 <= a < self@[p].members.len() && start <= i
                        < n ==> #[trigger] self@[p].members[a] < #[trigger] sibs@[i],
            decreases n - start,
        {
            proof {
                lemma_siblings(before, c, old_len as int);
                assert((k + 1) * g == k * g + g) by (nonlinear_arith);
            }
            let end = if n - start <= g {
                n
            } else {
                start + g
            };
            let members = copy_range(&sibs, start, end);
            let id = self.rows.len();
            let job = Job {
                id,
                batch: c.batch,
                circuit_id: target.circuit_id,
                round: target.round,
                depth: target.depth,
                seq: k,
                first_blob: start,
                status: JobStatus::Queued,
                attempts: 0,
                members,
                blob_urls: Vec::new(),
                protocol_version: info.protocol_version,
                sealed_at: info.sealed_at,
                elapsed_ms: 0,
            };
            proof {
                let row = job@;
                assert(row.blob_urls =~= Seq::<Seq<u8>>::empty());
                assert(row.members =~= group_of(sibs@, g as nat, k as int));
                assert(row == parent_row(before, c, *topology, info, k as int));
                assert forall|x: int| 0 <= x < row.members.len() implies {
                    let m = #[trigger] row.members[x] as int;
                    &&& 0 <= m < self@.len()
                    &&& self@[m].status == JobStatus::Successful
                    &&& is_successor(self@[m].coordinate(), row.coordinate())
                } by {
                    let m = sibs@[start + x] as int;
                    assert(row.members[x] == sibs@[start + x]);
                    assert(self@[m] == before[m]);
                    assert(before[m].coordinate() == c);
                }
                assert forall|a: int, b: int|
                    0 <= a < row.members.len() && 0 <= b < row.members.len() && a
                        != b implies row.members[a] != row.members[b] by {
                    assert(row.members[a] == sibs@[start + a]);
                    assert(row.members[b] == sibs@[start + b]);
                    if a < b {
                        assert(sibs@[start + a] < sibs@[start + b]);
                    } else {
                        assert(sibs@[start + b] < sibs@[start + a]);
                    }
                }
                assert forall|p: int, a: int, b: int|
                    0 <= p < self@.len() && 0 <= a < self@[p].members.len() && 0 <= b
                        < row.members.len() implies #[trigger] self@[p].members[a]
                    != #[trigger] row.members[b] by {
                    assert(row.members[b] == sibs@[start + b]);
                    if p < old_len {
                        assert(self@[p] == before[p]);
                        assert(row_wf(before, p));
                        let m = before[p].members[a] as int;
                        assert(member_ok(before, p, m));
                        if m == sibs@[start + b] {
                            assert(before[m].coordinate() == c);
                            assert(before[p].members[a] == m);
                        }
                    } else {
                        assert(self@[p].members[a] < sibs@[start + b]);
                    }
                }
                assert(row.round != Round::BasicCircuits);
                assert(row.width() == end - start);
                lemma_push_keeps_wf(self@, row);
                assert(count_at(self@.push(row), target, self@.len() as int + 1) == count_at(
                    self@,
                    target,
                    self@.len() as int,
                ) + 1);
                assert(blobs_before(self@.push(row), target, self@.len() as int + 1)
                    == blobs_before(self@, target, self@.len() as int) + row.width());
            }
            let ghost previous = self@;
            self.rows.push(job);
            proof {
                assert(self@ =~= previous.push(job@));
                assert forall|p: int, a: int, i: int|
                    old_len <= p < self@.len() && 0 <= a < self@[p].members.len() && end <= i
                        < n implies #[trigger] self@[p].members[a] < #[trigger] sibs@[i] by {
                    if p < previous.len() {
                        assert(self@[p] == previous[p]);
                        assert(previous[p].members[a] < sibs@[i]);
                    } else {
                        assert(self@[p].members[a] == sibs@[start + a]);
                        assert(sibs@[start + a] < sibs@[i]);
                    }
                }
                if end == n {
                    assert((k + 1) * g >= n);
                    assert(((k + 1) - 1) * g == k * g) by (nonlinear_arith);
                }
            }
            k += 1;
            start = end;
        }
        proof {
            let count = k as int;
            let grp = g as int;
            assert((count - 1) * grp == count * grp - grp) by (nonlinear_arith);
            lemma_fundamental_div_mod_converse(n + grp - 1, grp, count, n + grp - 1 - count * grp);
            assert(ceil_div(n as nat, g as nat) == k);
            assert(self@ =~= built(before, c, *topology, info));
        }
        BuildOutcome::Created(k)
    }
}

} // verus!
