//! The fixed sequence of aggregation rounds and the per-round configuration.

use vstd::prelude::*;

verus! {

/// One stage of the proof-aggregation pipeline, in pipeline order.
#[derive(Clone, Copy, Debug, PartialEq, Eq, Hash, Structural)]
pub enum Round {
    BasicCircuits,
    LeafAggregation,
    NodeAggregation,
    RecursionTip,
    Scheduler,
}

impl Round {
    /// Position of the round in the pipeline; the total order on rounds.
    pub open spec fn rank(self) -> nat {
        match self {
            Round::BasicCircuits => 0,
            Round::LeafAggregation => 1,
            Round::NodeAggregation => 2,
            Round::RecursionTip => 3,
            Round::Scheduler => 4,
        }
    }

    /// The round that consumes this round's outputs once aggregation at this
    /// round is over; `None` for the terminal round.
    pub open spec fn successor(self) -> Option<Round> {
        match self {
            Round::BasicCircuits => Some(Round::LeafAggregation),
            Round::LeafAggregation => Some(Round::NodeAggregation),
            Round::NodeAggregation => Some(Round::RecursionTip),
            Round::RecursionTip => Some(Round::Scheduler),
            Round::Scheduler => None,
        }
    }

    /// The ASCII name under which the round appears in artifact keys.
    pub open spec fn name(self) -> Seq<u8> {
        match self {
            // "BasicCircuits"
            Round::BasicCircuits => seq![
                66u8, 97, 115, 105, 99, 67, 105, 114, 99, 117, 105, 116, 115,
            ],
            // "LeafAggregation"
            Round::LeafAggregation => seq![
                76u8, 101, 97, 102, 65, 103, 103, 114, 101, 103, 97, 116, 105, 111, 110,
            ],
            // "NodeAggregation"
            Round::NodeAggregation => seq![
                78u8, 111, 100, 101, 65, 103, 103, 114, 101, 103, 97, 116, 105, 111, 110,
            ],
            // "RecursionTip"
            Round::RecursionTip => seq![
                82u8, 101, 99, 117, 114, 115, 105, 111, 110, 84, 105, 112,
            ],
            // "Scheduler"
            Round::Scheduler => seq![83u8, 99, 104, 101, 100, 117, 108, 101, 114],
        }
    }

    pub fn index(self) -> (r: u8)
        ensures
            r as nat == self.rank(),
    {
        match self {
            Round::BasicCircuits => 0,
            Round::LeafAggregation => 1,
            Round::NodeAggregation => 2,
            Round::RecursionTip => 3,
            Round::Scheduler => 4,
        }
    }

    /// Whether `self` comes strictly before `other` in the pipeline.
    pub fn precedes(self, other: Round) -> (b: bool)
        ensures
            b == (self.rank() < other.rank()),
    {
        self.index() < other.index()
    }

    pub fn name_bytes(self) -> (out: Vec<u8>)
        ensures
            out@ == self.name(),
    {
        let out = match self {
            Round::BasicCircuits => vec![
                66u8, 97, 115, 105, 99, 67, 105, 114, 99, 117, 105, 116, 115,
            ],
            Round::LeafAggregation => vec![
                76u8, 101, 97, 102, 65, 103, 103, 114, 101, 103, 97, 116, 105, 111, 110,
            ],
            Round::NodeAggregation => vec![
                78u8, 111, 100, 101, 65, 103, 103, 114, 101, 103, 97, 116, 105, 111, 110,
            ],
            Round::RecursionTip => vec![
                82u8, 101, 99, 117, 114, 115, 105, 111, 110, 84, 105, 112,
            ],
            Round::Scheduler => vec![83u8, 99, 104, 101, 100, 117, 108, 101, 114],
        };
        assert(out@ =~= self.name());
        out
    }
}

/// The round that follows `r`, or `None` when `r` is the terminal round.
pub fn next_round(r: Round) -> (n: Option<Round>)
    ensures
        n == r.successor(),
{
    match r {
        Round::BasicCircuits => Some(Round::LeafAggregation),
        Round::LeafAggregation => Some(Round::NodeAggregation),
        Round::NodeAggregation => Some(Round::RecursionTip),
        Round::RecursionTip => Some(Round::Scheduler),
        Round::Scheduler => None,
    }
}

/// Every round but the last has a successor, and the successor is the next
/// round in rank order; the scheduler round alone has none.
pub proof fn lemma_successor_is_next_rank(r: Round)
    ensures
        r.successor() is None <==> r == Round::Scheduler,
        r.successor() matches Some(n) ==> n.rank() == r.rank() + 1,
{
}

/// Two rounds with the same rank are the same round.
pub proof fn lemma_rank_injective(a: Round, b: Round)
    requires
        a.rank() == b.rank(),
    ensures
        a == b,
{
}

/// Round names are pairwise distinct, hold no digit and no underscore.
pub proof fn lemma_round_names(a: Round, b: Round)
    ensures
        a.name() == b.name() ==> a == b,
        a.name().len() >= 9,
        forall|i: int|
            0 <= i < a.name().len() ==> 65 <= #[trigger] a.name()[i] <= 122 && a.name()[i] != 95,
{
    if a.name() == b.name() {
        assert(a.name()[0] == b.name()[0]);
    }
}

/// First entry of `pairs`, at or after position `from`, whose base id is `base`.
pub open spec fn lookup_recursive_id(pairs: Seq<(u8, u8)>, base: u8, from: int) -> Option<u8>
    decreases pairs.len() - from,
{
    if from < 0 || from >= pairs.len() {
        None
    } else if pairs[from].0 == base {
        Some(pairs[from].1)
    } else {
        lookup_recursive_id(pairs, base, from + 1)
    }
}

/// The configuration of the pipeline's shape: how many jobs one aggregation
/// job consumes, and which recursive circuit stands for each base circuit.
#[derive(Clone, Debug)]
pub struct Topology {
    pub leaf_group: usize,
    pub node_group: usize,
    pub recursive_ids: Vec<(u8, u8)>,
}

/// Whether no base circuit stands twice in `pairs` and no recursive circuit
/// stands for two base circuits.
pub open spec fn pairs_distinct(pairs: Seq<(u8, u8)>) -> bool {
    forall|i: int, j: int|
        #![trigger pairs[i], pairs[j]]
        0 <= i < j < pairs.len() ==> pairs[i].0 != pairs[j].0 && pairs[i].1 != pairs[j].1
}

/// Whether no base circuit stands twice in `pairs` and no recursive circuit
/// stands for two base circuits.
pub fn check_pairs_distinct(pairs: &Vec<(u8, u8)>) -> (ok: bool)
    ensures
        ok == pairs_distinct(pairs@),
{
    let mut j: usize = 0;
    while j < pairs.len()
        invariant
            j <= pairs.len(),
            forall|a: int, b: int|
                #![trigger pairs@[a], pairs@[b]]
                0 <= a < b < j ==> pairs@[a].0 != pairs@[b].0 && pairs@[a].1 != pairs@[b].1,
        decreases pairs.len() - j,
    {
        let mut i: usize = 0;
        while i < j
            invariant
                i <= j,
                j < pairs.len(),
                forall|a: int|
                    0 <= a < i ==> (#[trigger] pairs@[a]).0 != pairs@[j as int].0 && pairs@[a].1
                        != pairs@[j as int].1,
            decreases j - i,
        {
            if pairs[i].0 == pairs[j].0 || pairs[i].1 == pairs[j].1 {
                return false;
            }
            i += 1;
        }
        j += 1;
    }
    true
}

/// Where a base circuit is found, it is found in an entry of the table.
pub proof fn lemma_lookup_finds_an_entry(pairs: Seq<(u8, u8)>, base: u8, from: int)
    requires
        0 <= from,
        lookup_recursive_id(pairs, base, from) is Some,
    ensures
        exists|i: int|
            from <= i < pairs.len() && #[trigger] pairs[i] == (
                base,
                lookup_recursive_id(pairs, base, from)->0,
            ),
    decreases pairs.len() - from,
{
    if pairs[from].0 != base {
        lemma_lookup_finds_an_entry(pairs, base, from + 1);
    }
}

/// No recursive circuit stands for two base circuits: circuits that leave
/// the first round under one id entered it under one id.
pub proof fn lemma_remap_injective(topology: Topology, a: u8, b: u8)
    requires
        topology.wf(),
        topology.spec_remap(Round::BasicCircuits, a) is Some,
        topology.spec_remap(Round::BasicCircuits, a) == topology.spec_remap(
            Round::BasicCircuits,
            b,
        ),
    ensures
        a == b,
{
    let pairs = topology.recursive_ids@;
    lemma_lookup_finds_an_entry(pairs, a, 0);
    lemma_lookup_finds_an_entry(pairs, b, 0);
    let r = lookup_recursive_id(pairs, a, 0)->0;
    let i = choose|i: int| 0 <= i < pairs.len() && #[trigger] pairs[i] == (a, r);
    let j = choose|j: int| 0 <= j < pairs.len() && #[trigger] pairs[j] == (b, r);
    if i < j {
        assert(pairs[i].1 != pairs[j].1);
    }
    if j < i {
        assert(pairs[j].1 != pairs[i].1);
    }
}

impl Topology {
    /// A leaf job takes at least one input. A node job takes at least two, so
    /// that every level of node aggregation has fewer jobs than the one below.
    /// The table of recursive circuits maps each base circuit once, and no
    /// two of them to the same recursive circuit.
    pub open spec fn wf(&self) -> bool {
        self.leaf_group >= 1 && self.node_group >= 2 && pairs_distinct(self.recursive_ids@)
    }

    /// Largest number of jobs that one job of `round` consumes.
    pub open spec fn spec_group_size(&self, round: Round) -> nat {
        match round {
            Round::BasicCircuits => 0,
            Round::LeafAggregation => self.leaf_group as nat,
            Round::NodeAggregation => self.node_group as nat,
            Round::RecursionTip => 1,
            Round::Scheduler => 1,
        }
    }

    /// The circuit id that a job of the next round carries for an input of
    /// `round` with id `circuit_id`: the recursive counterpart when a base
    /// circuit leaves the first round, the same id afterwards.
    pub open spec fn spec_remap(&self, round: Round, circuit_id: u8) -> Option<u8> {
        match round {
            Round::BasicCircuits => lookup_recursive_id(self.recursive_ids@, circuit_id, 0),
            _ => Some(circuit_id),
        }
    }

    /// Builds a configuration; `None` exactly when a group size is too small
    /// or the table of recursive circuits maps a circuit twice.
    pub fn new(leaf_group: usize, node_group: usize, recursive_ids: Vec<(u8, u8)>) -> (t: Option<
        Topology,
    >)
        ensures
            t is Some <==> leaf_group >= 1 && node_group >= 2 && pairs_distinct(recursive_ids@),
            t matches Some(topology) ==> topology.wf() && topology.leaf_group == leaf_group
                && topology.node_group == node_group && topology.recursive_ids@
                == recursive_ids@,
    {
        if leaf_group >= 1 && node_group >= 2 && check_pairs_distinct(&recursive_ids) {
            Some(Topology { leaf_group, node_group, recursive_ids })
        } else {
            None
        }
    }

    /// Whether the configuration is well formed. Values that were not made
    /// by `new` are to be checked with this before they are used.
    pub fn is_well_formed(&self) -> (ok: bool)
        ensures
            ok == self.wf(),
    {
        self.leaf_group >= 1 && self.node_group >= 2 && check_pairs_distinct(&self.recursive_ids)
    }

    pub fn group_size(&self, round: Round) -> (g: usize)
        ensures
            g as nat == self.spec_group_size(round),
    {
        match round {
            Round::BasicCircuits => 0,
            Round::LeafAggregation => self.leaf_group,
            Round::NodeAggregation => self.node_group,
            Round::RecursionTip => 1,
            Round::Scheduler => 1,
        }
    }

    /// The recursive circuit that stands for base circuit `base`, if the
    /// configuration knows that base circuit.
    pub fn recursive_circuit_id(&self, base: u8) -> (mapped: Option<u8>)
        ensures
            mapped == lookup_recursive_id(self.recursive_ids@, base, 0),
    {
        let mut i: usize = 0;
        while i < self.recursive_ids.len()
            invariant
                i <= self.recursive_ids.len(),
                lookup_recursive_id(self.recursive_ids@, base, 0) == lookup_recursive_id(
                    self.recursive_ids@,
                    base,
                    i as int,
                ),
            decreases self.recursive_ids.len() - i,
        {
            if self.recursive_ids[i].0 == base {
                return Some(self.recursive_ids[i].1);
            }
            i += 1;
        }
        None
    }

    pub fn remap_circuit_id(&self, round: Round, circuit_id: u8) -> (mapped: Option<u8>)
        ensures
            mapped == self.spec_remap(round, circuit_id),
    {
        match round {
            Round::BasicCircuits => self.recursive_circuit_id(circuit_id),
            _ => Some(circuit_id),
        }
    }
}

} // verus!
