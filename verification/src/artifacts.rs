//! Loading the inputs of a job and planning the writes of its outputs.
//!
//! Reading and writing blobs is the caller's work. This module decides in
//! which format to read next and when to give up, and under which keys the
//! outputs of a job are written.

use crate::format::Format;
use crate::key::{lemma_encoding_injective, ArtifactKey};
use crate::manager::{lemma_deep_view_push, OutputArtifacts};
use crate::job::{
    lemma_blob_ranges_disjoint, lemma_sequence_numbers_unique, row_wf, table_wf, JobView,
};
use crate::round::Round;
use vstd::prelude::*;
use vstd::string::StringExecFns;

verus! {

/// Stored content was found and could be read in neither format.
#[derive(Clone, Debug, PartialEq, Eq)]
pub struct RetrievalError {
    /// Why reading in the current format failed.
    pub current: String,
    /// Why reading in the legacy format failed.
    pub legacy: String,
}

impl RetrievalError {
    /// Both failures in one line, the legacy format's first.
    pub fn message(&self) -> (text: String)
        ensures
            text@ == "Getting data with bincode failed with "@ + self.legacy@
                + ", getting data with CBOR failed with "@ + self.current@,
    {
        let mut text = String::from_str("Getting data with bincode failed with ");
        text.append(self.legacy.as_str());
        text.append(", getting data with CBOR failed with ");
        text.append(self.current.as_str());
        text
    }
}

/// How reading stored content in one format ended.
#[derive(Clone, Debug, PartialEq, Eq)]
pub enum Attempt<T> {
    /// The content was there and could be read.
    Read(T),
    /// The content was there and could not be read, for this reason.
    Unreadable(String),
    /// Nothing is stored in this format.
    Missing,
}

/// Where a load stands: which format is read next, and what has failed.
#[derive(Clone, Debug, PartialEq, Eq)]
pub enum LoadState {
    /// Nothing was tried yet; the current format is next.
    TryCurrent,
    /// The current format gave nothing; the legacy format is next.
    /// `current_error` says why the current format could not be read, and is
    /// `None` where nothing was stored in it.
    TryLegacy { current_error: Option<String> },
}

/// What follows an attempt to read.
#[derive(Clone, Debug, PartialEq, Eq)]
pub enum LoadStep<T> {
    /// The content was read; `format` is the format it was found in.
    Loaded { value: T, format: Format },
    /// The attempt gave nothing and another format is left to try.
    Fallback(LoadState),
    /// Content was found and no format could be read.
    Failed(RetrievalError),
    /// Nothing is stored in any format.
    NotFound,
}

/// What stands in a retrieval error for a format in which nothing was
/// stored: "not found".
pub open spec fn missing_text() -> Seq<char> {
    "not found"@
}

impl LoadState {
    /// The format to read in this state.
    pub open spec fn spec_format(&self) -> Format {
        match self {
            LoadState::TryCurrent => Format::Current,
            LoadState::TryLegacy { .. } => Format::Legacy,
        }
    }

    /// The state in which every load begins.
    pub fn start() -> (state: LoadState)
        ensures
            state == LoadState::TryCurrent,
    {
        LoadState::TryCurrent
    }

    pub fn format(&self) -> (f: Format)
        ensures
            f == self.spec_format(),
    {
        match self {
            LoadState::TryCurrent => Format::Current,
            LoadState::TryLegacy { .. } => Format::Legacy,
        }
    }

    /// Takes the outcome of reading in this state's format.
    ///
    /// A value ends the load, whichever format gave it. When the current
    /// format gives nothing, the legacy format is next, and that is no error
    /// by itself. When the legacy format gives nothing either, the load ends:
    /// as not found where nothing was stored in either format, else as a
    /// failure with the reasons for both formats.
    pub fn record<T>(self, attempt: Attempt<T>) -> (step: LoadStep<T>)
        ensures
            match (self, attempt) {
                (_, Attempt::Read(value)) => step == (LoadStep::Loaded {
                    value,
                    format: self.spec_format(),
                }),
                (LoadState::TryCurrent, Attempt::Unreadable(message)) => step == LoadStep::<
                    T,
                >::Fallback(LoadState::TryLegacy { current_error: Some(message) }),
                (LoadState::TryCurrent, Attempt::Missing) => step == LoadStep::<T>::Fallback(
                    LoadState::TryLegacy { current_error: None },
                ),
                (LoadState::TryLegacy { current_error: Some(current) }, Attempt::Unreadable(legacy)) => step
                    == LoadStep::<T>::Failed(RetrievalError { current, legacy }),
                (LoadState::TryLegacy { current_error: None }, Attempt::Unreadable(legacy)) => {
                    &&& step matches LoadStep::Failed(e)
                    &&& e.legacy == legacy
                    &&& e.current@ == missing_text()
                },
                (LoadState::TryLegacy { current_error: Some(current) }, Attempt::Missing) => {
                    &&& step matches LoadStep::Failed(e)
                    &&& e.current == current
                    &&& e.legacy@ == missing_text()
                },
                (LoadState::TryLegacy { current_error: None }, Attempt::Missing) => step
                    == LoadStep::<T>::NotFound,
            },
    {
        match attempt {
            Attempt::Read(value) => {
                let format = self.format();
                LoadStep::Loaded { value, format }
            },
            Attempt::Unreadable(message) => match self {
                LoadState::TryCurrent => LoadStep::Fallback(
                    LoadState::TryLegacy { current_error: Some(message) },
                ),
                LoadState::TryLegacy { current_error: Some(current) } => LoadStep::Failed(
                    RetrievalError { current, legacy: message },
                ),
                LoadState::TryLegacy { current_error: None } => LoadStep::Failed(
                    RetrievalError { current: String::from_str("not found"), legacy: message },
                ),
            },
            Attempt::Missing => match self {
                LoadState::TryCurrent => LoadStep::Fallback(
                    LoadState::TryLegacy { current_error: None },
                ),
                LoadState::TryLegacy { current_error: Some(current) } => LoadStep::Failed(
                    RetrievalError { current, legacy: String::from_str("not found") },
                ),
                LoadState::TryLegacy { current_error: None } => LoadStep::NotFound,
            },
        }
    }
}

/// The value that a load yields when reading in the current format ends as
/// `current` and reading in the legacy format ends as `legacy`, with the
/// format it came from.
pub open spec fn loaded<T>(current: Attempt<T>, legacy: Attempt<T>) -> Option<(T, Format)> {
    match current {
        Attempt::Read(v) => Some((v, Format::Current)),
        _ => match legacy {
            Attempt::Read(v) => Some((v, Format::Legacy)),
            _ => None,
        },
    }
}

/// Settles a load of which both readings are known.
///
/// The current format wins when it can be read. The legacy format is taken
/// when the current one gives nothing. When neither gives a value, the
/// content is not found where nothing was stored in either format, and
/// cannot be retrieved where something was.
pub fn resolve<T>(current: Attempt<T>, legacy: Attempt<T>) -> (result: Result<
    Option<(T, Format)>,
    RetrievalError,
>)
    ensures
        loaded(current, legacy) is Some ==> result == Ok::<Option<(T, Format)>, RetrievalError>(
            loaded(current, legacy),
        ),
        loaded(current, legacy) is None ==> match (current, legacy) {
            (Attempt::Missing, Attempt::Missing) => result == Ok::<
                Option<(T, Format)>,
                RetrievalError,
            >(None),
            (Attempt::Unreadable(c), Attempt::Unreadable(l)) => result == Err::<
                Option<(T, Format)>,
                RetrievalError,
            >(RetrievalError { current: c, legacy: l }),
            (Attempt::Missing, Attempt::Unreadable(l)) => {
                &&& result matches Err(e)
                &&& e.legacy == l
                &&& e.current@ == missing_text()
            },
            (Attempt::Unreadable(c), Attempt::Missing) => {
                &&& result matches Err(e)
                &&& e.current == c
                &&& e.legacy@ == missing_text()
            },
            _ => true,
        },
{
    match LoadState::start().record(current) {
        LoadStep::Loaded { value, format } => Ok(Some((value, format))),
        LoadStep::Fallback(state) => match state.record(legacy) {
            LoadStep::Loaded { value, format } => Ok(Some((value, format))),
            LoadStep::Failed(e) => Err(e),
            LoadStep::NotFound => Ok(None),
            // The legacy format is the last: nothing is left to fall back on.
            LoadStep::Fallback(_) => Ok(None),
        },
        // The current format is the first: the load does not end on it.
        LoadStep::Failed(e) => Err(e),
        LoadStep::NotFound => Ok(None),
    }
}

/// Content that is found in the legacy format only is loaded as the same
/// value that a load in the current format gives: whatever is computed from
/// the loaded value, its serialization too, does not depend on the format
/// the content was found in.
pub proof fn lemma_fallback_is_transparent<T>(value: T, failure: String, other: Attempt<T>)
    ensures
        loaded(Attempt::<T>::Unreadable(failure), Attempt::<T>::Read(value)) == Some(
            (value, Format::Legacy),
        ),
        loaded(Attempt::<T>::Missing, Attempt::<T>::Read(value)) == Some((value, Format::Legacy)),
        loaded(Attempt::<T>::Read(value), other) == Some((value, Format::Current)),
{
}

/// The keys under which a job writes its outputs, in writing order.
///
/// The job is at (`batch`, `round`, `depth`), proves circuit `circuit_id`,
/// has sequence number `seq` among its siblings and numbers its blobs from
/// `first_blob`. It writes one blob for each of its `circuits` circuits,
/// numbered on from `first_blob`, and then what goes with them: a
/// basic-circuits job its auxiliary output witness and its partial scheduler
/// input, an aggregation job the partial input of the next level, a leaf job
/// at its own depth and a node job one level deeper. The last two rounds
/// write their circuit blobs only. There is no plan where a blob number or
/// the next depth is more than a key can say.
pub open spec fn output_plan(
    batch: u32,
    circuit_id: u8,
    round: Round,
    depth: u16,
    seq: usize,
    first_blob: usize,
    circuits: nat,
) -> Option<Seq<ArtifactKey>> {
    let blobs = Seq::new(
        circuits,
        |i: int|
            ArtifactKey::Circuit { batch, circuit_id, round, depth, seq: (first_blob + i) as usize },
    );
    if first_blob + circuits > usize::MAX + 1 {
        None
    } else {
        match round {
            Round::BasicCircuits => Some(
                blobs.push(ArtifactKey::AuxOutputWitness { batch, circuit_id, job: seq }).push(
                    ArtifactKey::SchedulerWitness { batch, circuit_id, job: seq },
                ),
            ),
            Round::LeafAggregation => Some(
                blobs.push(ArtifactKey::Aggregation { batch, circuit_id, depth, group: seq }),
            ),
            Round::NodeAggregation => if depth < u16::MAX {
                Some(
                    blobs.push(
                        ArtifactKey::Aggregation {
                            batch,
                            circuit_id,
                            depth: (depth + 1) as u16,
                            group: seq,
                        },
                    ),
                )
            } else {
                None
            },
            _ => Some(blobs),
        }
    }
}

/// The plan of the job in row `row`, for as many circuits as the job proves.
pub open spec fn row_plan(row: JobView) -> Option<Seq<ArtifactKey>> {
    output_plan(
        row.batch,
        row.circuit_id,
        row.round,
        row.depth,
        row.seq,
        row.first_blob,
        row.width(),
    )
}

/// The keys under which a job writes its outputs, in writing order.
pub fn output_keys(
    batch: u32,
    circuit_id: u8,
    round: Round,
    depth: u16,
    seq: usize,
    first_blob: usize,
    circuits: usize,
) -> (keys: Option<Vec<ArtifactKey>>)
    ensures
        keys is Some <==> output_plan(
            batch,
            circuit_id,
            round,
            depth,
            seq,
            first_blob,
            circuits as nat,
        ) is Some,
        keys matches Some(k) ==> Some(k@) == output_plan(
            batch,
            circuit_id,
            round,
            depth,
            seq,
            first_blob,
            circuits as nat,
        ),
{
    if circuits > 0 && first_blob > usize::MAX - (circuits - 1) {
        return None;
    }
    if round == Round::NodeAggregation && depth == u16::MAX {
        return None;
    }
    let mut keys: Vec<ArtifactKey> = Vec::new();
    let mut i: usize = 0;
    while i < circuits
        invariant
            i <= circuits,
            first_blob + circuits <= usize::MAX + 1,
            keys@ == Seq::new(
                i as nat,
                |j: int|
                    ArtifactKey::Circuit {
                        batch,
                        circuit_id,
                        round,
                        depth,
                        seq: (first_blob + j) as usize,
                    },
            ),
        decreases circuits - i,
    {
        keys.push(ArtifactKey::Circuit { batch, circuit_id, round, depth, seq: first_blob + i });
        i += 1;
        assert(keys@ =~= Seq::new(
            i as nat,
            |j: int|
                ArtifactKey::Circuit {
                    batch,
                    circuit_id,
                    round,
                    depth,
                    seq: (first_blob + j) as usize,
                },
        ));
    }
    match round {
        Round::BasicCircuits => {
            keys.push(ArtifactKey::AuxOutputWitness { batch, circuit_id, job: seq });
            keys.push(ArtifactKey::SchedulerWitness { batch, circuit_id, job: seq });
        },
        Round::LeafAggregation => {
            keys.push(ArtifactKey::Aggregation { batch, circuit_id, depth, group: seq });
        },
        Round::NodeAggregation => {
            keys.push(
                ArtifactKey::Aggregation { batch, circuit_id, depth: depth + 1, group: seq },
            );
        },
        _ => {},
    }
    Some(keys)
}

/// The encodings of `keys`, in order: the locations to keep with the job.
pub fn blob_urls(keys: &Vec<ArtifactKey>) -> (urls: Vec<Vec<u8>>)
    ensures
        urls.deep_view() == Seq::new(keys@.len(), |i: int| keys@[i].encoding()),
{
    let mut urls: Vec<Vec<u8>> = Vec::new();
    let mut i: usize = 0;
    while i < keys.len()
        invariant
            i <= keys.len(),
            urls@.len() == i,
            forall|j: int| 0 <= j < i ==> (#[trigger] urls@[j])@ == keys@[j].encoding(),
        decreases keys.len() - i,
    {
        let url = keys[i].encode();
        urls.push(url);
        i += 1;
    }
    assert(urls.deep_view() =~= Seq::new(keys@.len(), |i: int| keys@[i].encoding())) by {
        assert(urls.deep_view().len() == urls@.len());
        assert forall|j: int| 0 <= j < urls@.len() implies urls.deep_view()[j]
            == keys@[j].encoding() by {
            assert(urls.deep_view()[j] == urls@[j].deep_view());
            assert(urls@[j].deep_view() =~= urls@[j]@);
        }
    }
    urls
}

/// The blobs that a job of `round` writes, in the order of its keys.
///
/// Every job writes its proofs. A basic-circuits job then writes the
/// auxiliary output witness and, as the partial scheduler input, what it
/// hands to the next round. An aggregation job then writes what it hands to
/// the next level.
pub open spec fn planned_blobs(
    round: Round,
    proofs: Seq<Seq<u8>>,
    aggregations: Seq<u8>,
    aux_output_witness: Seq<u8>,
) -> Seq<Seq<u8>> {
    match round {
        Round::BasicCircuits => proofs.push(aux_output_witness).push(aggregations),
        Round::LeafAggregation => proofs.push(aggregations),
        Round::NodeAggregation => proofs.push(aggregations),
        _ => proofs,
    }
}

/// Puts the outputs of a job in the order of its keys. The auxiliary output
/// witness is written by basic-circuits jobs only.
pub fn output_blobs(round: Round, out: OutputArtifacts, aux_output_witness: Vec<u8>) -> (blobs: Vec<
    Vec<u8>,
>)
    ensures
        blobs.deep_view() == planned_blobs(
            round,
            out.proofs.deep_view(),
            out.aggregations@,
            aux_output_witness@,
        ),
{
    let mut blobs: Vec<Vec<u8>> = out.proofs;
    match round {
        Round::BasicCircuits => {
            let ghost proofs = blobs;
            blobs.push(aux_output_witness);
            let ghost one = blobs;
            blobs.push(out.aggregations);
            proof {
                lemma_deep_view_push(proofs, one, aux_output_witness);
                lemma_deep_view_push(one, blobs, out.aggregations);
            }
        },
        Round::LeafAggregation | Round::NodeAggregation => {
            let ghost proofs = blobs;
            blobs.push(out.aggregations);
            proof {
                lemma_deep_view_push(proofs, blobs, out.aggregations);
            }
        },
        _ => {},
    }
    blobs
}

/// A job writes one blob under each of its keys: the plan of the keys and
/// the blobs put in order are equally long.
pub proof fn lemma_one_blob_per_key(
    batch: u32,
    circuit_id: u8,
    round: Round,
    depth: u16,
    seq: usize,
    first_blob: usize,
    proofs: Seq<Seq<u8>>,
    aggregations: Seq<u8>,
    aux_output_witness: Seq<u8>,
)
    requires
        output_plan(batch, circuit_id, round, depth, seq, first_blob, proofs.len()) is Some,
    ensures
        output_plan(batch, circuit_id, round, depth, seq, first_blob, proofs.len())->0.len()
            == planned_blobs(round, proofs, aggregations, aux_output_witness).len(),
{
}

/// The blobs of one job never share an address: the keys of a plan are
/// pairwise distinct, and so are their encodings. The order in which the
/// blobs are written therefore does not matter.
pub proof fn lemma_plan_keys_distinct(
    batch: u32,
    circuit_id: u8,
    round: Round,
    depth: u16,
    seq: usize,
    first_blob: usize,
    circuits: nat,
    i: int,
    j: int,
)
    requires
        output_plan(batch, circuit_id, round, depth, seq, first_blob, circuits) matches Some(plan)
            && 0 <= i < j < plan.len(),
    ensures
        ({
            let plan = output_plan(batch, circuit_id, round, depth, seq, first_blob, circuits)->0;
            plan[i] != plan[j] && plan[i].encoding() != plan[j].encoding()
        }),
{
    let plan = output_plan(batch, circuit_id, round, depth, seq, first_blob, circuits)->0;
    assert(plan[i] != plan[j]);
    if plan[i].encoding() == plan[j].encoding() {
        lemma_encoding_injective(plan[i], plan[j]);
    }
}

/// Every job of a well-formed table has a place for its outputs: the plan
/// of its row exists, whichever round made the job and whoever built it.
pub proof fn lemma_every_job_has_a_plan(rows: Seq<JobView>, i: int)
    requires
        table_wf(rows),
        0 <= i < rows.len(),
    ensures
        row_plan(rows[i]) is Some,
{
    assert(row_wf(rows, i));
}

/// The blobs of two jobs never share an address: no key of the plan of one
/// job of a well-formed table is a key of the plan of another, whether the
/// two are siblings or not, and the encodings differ too. What one job has
/// written, no other job writes over.
pub proof fn lemma_plans_share_no_key(rows: Seq<JobView>, i: int, j: int, a: int, b: int)
    requires
        table_wf(rows),
        0 <= i < rows.len(),
        0 <= j < rows.len(),
        i != j,
        row_plan(rows[i]) matches Some(mine) && 0 <= a < mine.len(),
        row_plan(rows[j]) matches Some(other) && 0 <= b < other.len(),
    ensures
        row_plan(rows[i])->0[a] != row_plan(rows[j])->0[b],
        row_plan(rows[i])->0[a].encoding() != row_plan(rows[j])->0[b].encoding(),
{
    let mine = row_plan(rows[i])->0;
    let other = row_plan(rows[j])->0;
    assert(row_wf(rows, i));
    assert(row_wf(rows, j));
    if rows[i].coordinate() == rows[j].coordinate() {
        lemma_sequence_numbers_unique(rows, i, j);
        if i < j {
            lemma_blob_ranges_disjoint(rows, i, j);
        } else {
            lemma_blob_ranges_disjoint(rows, j, i);
        }
    }
    assert(mine[a] != other[b]);
    if mine[a].encoding() == other[b].encoding() {
        lemma_encoding_injective(mine[a], other[b]);
    }
}

/// What to do with a blob that is to be written under a key.
#[derive(Clone, Copy, Debug, PartialEq, Eq, Hash, Structural)]
pub enum WriteDecision {
    /// Nothing is stored under the key: write.
    Write,
    /// The same bytes are stored already: nothing to do.
    Keep,
    /// Other bytes are stored under the key: the write must not happen.
    Refuse,
}

/// Decides a write under a key that holds `stored`, so that content, once
/// written, is never replaced by other content.
pub fn write_decision(stored: Option<&Vec<u8>>, content: &Vec<u8>) -> (d: WriteDecision)
    ensures
        d == match stored {
            None => WriteDecision::Write,
            Some(bytes) => if bytes@ == content@ {
                WriteDecision::Keep
            } else {
                WriteDecision::Refuse
            },
        },
{
    match stored {
        None => WriteDecision::Write,
        Some(bytes) => {
            if same_bytes(bytes, content) {
                WriteDecision::Keep
            } else {
                WriteDecision::Refuse
            }
        },
    }
}

/// Whether two byte strings are equal.
pub fn same_bytes(a: &Vec<u8>, b: &Vec<u8>) -> (equal: bool)
    ensures
        equal == (a@ == b@),
{
    if a.len() != b.len() {
        return false;
    }
    let mut i: usize = 0;
    while i < a.len()
        invariant
            i <= a.len(),
            a.len() == b.len(),
            forall|k: int| 0 <= k < i ==> a@[k] == b@[k],
        decreases a.len() - i,
    {
        if a[i] != b[i] {
            return false;
        }
        i += 1;
    }
    assert(a@ =~= b@);
    true
}

} // verus!
