//! The job manager: from a job and its inputs to its outputs.
//!
//! Fetching blobs and proving circuits is done elsewhere. Preparing checks
//! that everything a job needs has been found; processing runs a proving
//! function over the circuits of a prepared job and puts the results in the
//! shape in which they are stored and handed to the next round.

use crate::job::{member_ok, row_wf, Job, JobTable, JobView};
use crate::key::ArtifactKey;
use crate::round::Round;
use vstd::prelude::*;

verus! {

/// Something that a job needs was not found.
#[derive(Clone, Copy, Debug, PartialEq, Eq, Hash, Structural)]
pub enum NotFoundError {
    /// The input at this position is missing.
    Input(usize),
    /// The setup key of the job's circuit is missing.
    SetupKey,
    /// The row of the job is out of shape: more inputs were handed in than
    /// the job has circuits, or its blobs have numbers that no key can say.
    Malformed,
}

/// A job with everything it needs to run.
#[derive(Clone, Debug, PartialEq, Eq)]
pub struct PreparedJob {
    pub id: usize,
    pub batch: u32,
    pub circuit_id: u8,
    pub round: Round,
    pub depth: u16,
    /// Sequence number of the job among its siblings.
    pub seq: usize,
    /// Sequence number of the blob of the first circuit.
    pub first_blob: usize,
    /// The circuits to prove, in input order.
    pub circuits: Vec<Vec<u8>>,
    pub setup_key: Vec<u8>,
}

impl PreparedJob {
    /// Every circuit of the job has a blob number that a key can say.
    pub open spec fn wf(&self) -> bool {
        self.first_blob + self.circuits@.len() <= usize::MAX + 1
    }

    /// Whether the job is well formed. Jobs that were not made by
    /// `prepare_job` are to be checked with this before they are processed.
    pub fn is_well_formed(&self) -> (ok: bool)
        ensures
            ok == self.wf(),
    {
        self.circuits.len() == 0 || self.first_blob <= usize::MAX - (self.circuits.len() - 1)
    }

    /// The key of the blob of circuit `i`.
    pub open spec fn circuit_key(&self, i: int) -> ArtifactKey {
        ArtifactKey::Circuit {
            batch: self.batch,
            circuit_id: self.circuit_id,
            round: self.round,
            depth: self.depth,
            seq: (self.first_blob + i) as usize,
        }
    }
}

/// The proving function failed on one circuit.
#[derive(Clone, Debug, PartialEq, Eq)]
pub struct ProvingError {
    /// Position of the circuit in the prepared job.
    pub circuit: usize,
    pub message: String,
}

/// What a job hands on when it has run.
#[derive(Clone, Debug, PartialEq, Eq)]
pub struct OutputArtifacts {
    /// For each circuit, its id and the key of its blob.
    pub circuit_ids_and_urls: Vec<(u8, Vec<u8>)>,
    /// For each circuit, its proof.
    pub proofs: Vec<Vec<u8>>,
    /// The partial input of the next round: the proofs, framed.
    pub aggregations: Vec<u8>,
}

/// Position of the first of the inputs `from` to `upto` that is missing:
/// that was not handed in, or was handed in as not found.
pub open spec fn first_missing(inputs: Seq<Option<Vec<u8>>>, from: int, upto: int) -> Option<int>
    decreases upto - from,
{
    if from < 0 || from >= upto {
        None
    } else if from >= inputs.len() || inputs[from] is None {
        Some(from)
    } else {
        first_missing(inputs, from + 1, upto)
    }
}

/// The eight bytes of `n`, most significant first.
pub open spec fn length_prefix(n: nat) -> Seq<u8> {
    seq![
        ((n / 0x100_0000_0000_0000) % 256) as u8,
        ((n / 0x1_0000_0000_0000) % 256) as u8,
        ((n / 0x100_0000_0000) % 256) as u8,
        ((n / 0x1_0000_0000) % 256) as u8,
        ((n / 0x100_0000) % 256) as u8,
        ((n / 0x1_0000) % 256) as u8,
        ((n / 0x100) % 256) as u8,
        (n % 256) as u8,
    ]
}

/// The byte strings of `parts` in one string, each behind its length.
pub open spec fn framed(parts: Seq<Seq<u8>>) -> Seq<u8>
    decreases parts.len(),
{
    if parts.len() == 0 {
        Seq::empty()
    } else {
        framed(parts.drop_last()) + length_prefix(parts.last().len()) + parts.last()
    }
}

/// A copy of `bytes`.
pub fn copy_bytes(bytes: &Vec<u8>) -> (out: Vec<u8>)
    ensures
        out@ == bytes@,
{
    let mut out: Vec<u8> = Vec::new();
    let mut i: usize = 0;
    while i < bytes.len()
        invariant
            i <= bytes.len(),
            out@ == bytes@.subrange(0, i as int),
        decreases bytes.len() - i,
    {
        out.push(bytes[i]);
        assert(out@ =~= bytes@.subrange(0, i + 1));
        i += 1;
    }
    assert(out@ =~= bytes@);
    out
}

/// Appends the eight bytes of `n` to `out`.
fn push_length(out: &mut Vec<u8>, n: usize)
    ensures
        final(out)@ == old(out)@ + length_prefix(n as nat),
{
    let n = n as u64;
    out.push(((n / 0x100_0000_0000_0000) % 256) as u8);
    out.push(((n / 0x1_0000_0000_0000) % 256) as u8);
    out.push(((n / 0x100_0000_0000) % 256) as u8);
    out.push(((n / 0x1_0000_0000) % 256) as u8);
    out.push(((n / 0x100_0000) % 256) as u8);
    out.push(((n / 0x1_0000) % 256) as u8);
    out.push(((n / 0x100) % 256) as u8);
    out.push((n % 256) as u8);
    assert(out@ =~= old(out)@ + length_prefix(n as nat));
}

/// Puts the byte strings of `parts` in one string, each behind its length.
pub fn frame(parts: &Vec<Vec<u8>>) -> (out: Vec<u8>)
    ensures
        out@ == framed(parts.deep_view()),
{
    let mut out: Vec<u8> = Vec::new();
    let mut i: usize = 0;
    let ghost all = parts.deep_view();
    assert(all.len() == parts@.len());
    while i < parts.len()
        invariant
            i <= parts.len(),
            all == parts.deep_view(),
            all.len() == parts@.len(),
            out@ == framed(all.subrange(0, i as int)),
        decreases parts.len() - i,
    {
        let ghost before = out@;
        push_length(&mut out, parts[i].len());
        let mut piece = copy_bytes(&parts[i]);
        out.append(&mut piece);
        proof {
            let upto = all.subrange(0, i + 1);
            assert(upto.drop_last() =~= all.subrange(0, i as int));
            assert(all[i as int] == parts@[i as int].deep_view());
            assert(parts@[i as int].deep_view() =~= parts@[i as int]@);
            assert(upto.last() == parts@[i as int]@);
            assert(out@ =~= before + length_prefix(parts@[i as int]@.len()) + parts@[i as int]@);
        }
        i += 1;
    }
    assert(all.subrange(0, i as int) =~= all);
    out
}

/// What job `m` hands to the job that consumes it: the key of the blob it
/// wrote last, if it wrote any.
pub open spec fn handed_over(rows: Seq<JobView>, m: int) -> Option<Seq<u8>> {
    if rows[m].blob_urls.len() == 0 {
        None
    } else {
        Some(rows[m].blob_urls.last())
    }
}

/// Pushing a byte string onto a vector pushes its view onto the deep view.
pub proof fn lemma_deep_view_push(before: Vec<Vec<u8>>, after: Vec<Vec<u8>>, last: Vec<u8>)
    requires
        after@ == before@.push(last),
    ensures
        after.deep_view() == before.deep_view().push(last@),
{
    let expected = before.deep_view().push(last@);
    assert(after.deep_view().len() == after@.len());
    assert(before.deep_view().len() == before@.len());
    assert forall|k: int| 0 <= k < after@.len() implies after.deep_view()[k] == expected[k] by {
        assert(after.deep_view()[k] == after@[k].deep_view());
        assert(after@[k].deep_view() =~= after@[k]@);
        if k < before@.len() {
            assert(before.deep_view()[k] == before@[k].deep_view());
            assert(before@[k].deep_view() =~= before@[k]@);
        }
    }
    assert(after.deep_view() =~= expected);
}

impl JobTable {
    /// The keys of the blobs that job `id` reads, one for each member of its
    /// group, in the order of the group: what the member handed over, or
    /// `None` where the member wrote nothing. `None` when there is no such
    /// job.
    pub fn input_urls(&self, id: usize) -> (urls: Option<Vec<Option<Vec<u8>>>>)
        requires
            self.wf(),
        ensures
            urls is Some <==> id < self@.len(),
            urls matches Some(found) ==> {
                &&& found@.len() == self@[id as int].members.len()
                &&& forall|k: int|
                    0 <= k < found@.len() ==> match #[trigger] found@[k] {
                        Some(url) => handed_over(self@, self@[id as int].members[k] as int)
                            == Some(url@),
                        None => handed_over(self@, self@[id as int].members[k] as int) is None,
                    }
            },
    {
        if id >= self.rows.len() {
            return None;
        }
        let mut found: Vec<Option<Vec<u8>>> = Vec::new();
        let ghost members = self@[id as int].members;
        assert(members == self.rows@[id as int].members@);
        assert(row_wf(self@, id as int));
        let mut k: usize = 0;
        while k < self.rows[id].members.len()
            invariant
                id < self.rows@.len(),
                self@.len() == self.rows@.len(),
                members == self.rows@[id as int].members@,
                members == self@[id as int].members,
                row_wf(self@, id as int),
                k <= members.len(),
                found@.len() == k,
                forall|x: int|
                    0 <= x < k ==> match #[trigger] found@[x] {
                        Some(url) => handed_over(self@, members[x] as int) == Some(url@),
                        None => handed_over(self@, members[x] as int) is None,
                    },
            decreases members.len() - k,
        {
            let m = self.rows[id].members[k];
            assert(member_ok(self@, id as int, members[k as int] as int));
            let ghost written = self@[m as int].blob_urls;
            assert(written == self.rows@[m as int].blob_urls.deep_view());
            assert(written.len() == self.rows@[m as int].blob_urls@.len());
            let count = self.rows[m].blob_urls.len();
            if count == 0 {
                found.push(None);
            } else {
                let url = copy_bytes(&self.rows[m].blob_urls[count - 1]);
                proof {
                    let source = self.rows@[m as int].blob_urls@[count - 1];
                    assert(written[count - 1] == source.deep_view());
                    assert(source.deep_view() =~= source@);
                }
                found.push(Some(url));
            }
            k += 1;
        }
        Some(found)
    }
}

/// Checks that everything job `job` needs has been found.
///
/// `inputs` holds what the blob store gave for each input of the job, in
/// order, and `setup_key` what the key store gave. A job has one input for
/// each circuit it proves. A row that is out of shape is refused. Else the
/// first missing input is reported; when all inputs are there, a missing
/// setup key is. Else the job is prepared, with its inputs as its circuits.
pub fn prepare_job(job: &Job, inputs: &Vec<Option<Vec<u8>>>, setup_key: Option<&Vec<u8>>) -> (result:
    Result<PreparedJob, NotFoundError>)
    ensures
        if job@.first_blob + job@.width() > usize::MAX + 1 || inputs@.len() > job@.width() {
            result == Err::<PreparedJob, NotFoundError>(NotFoundError::Malformed)
        } else {
            match first_missing(inputs@, 0, job@.width() as int) {
                Some(i) => result == Err::<PreparedJob, NotFoundError>(
                    NotFoundError::Input(i as usize),
                ),
                None => match setup_key {
                    None => result == Err::<PreparedJob, NotFoundError>(NotFoundError::SetupKey),
                    Some(key) => {
                        &&& result matches Ok(prepared)
                        &&& prepared.wf()
                        &&& prepared.id == job.id
                        &&& prepared.batch == job.batch
                        &&& prepared.circuit_id == job.circuit_id
                        &&& prepared.round == job.round
                        &&& prepared.depth == job.depth
                        &&& prepared.seq == job.seq
                        &&& prepared.first_blob == job.first_blob
                        &&& prepared.setup_key@ == key@
                        &&& prepared.circuits@.len() == job@.width()
                        &&& inputs@.len() == job@.width()
                        &&& forall|i: int|
                            0 <= i < inputs@.len() ==> (#[trigger] prepared.circuits@[i])@
                                == inputs@[i]->0@
                    },
                },
            }
        },
{
    let width = job.width();
    if (width > 0 && job.first_blob > usize::MAX - (width - 1)) || inputs.len() > width {
        return Err(NotFoundError::Malformed);
    }
    let mut circuits: Vec<Vec<u8>> = Vec::new();
    let mut i: usize = 0;
    while i < width
        invariant
            i <= width,
            width == job@.width(),
            job@.first_blob + job@.width() <= usize::MAX + 1,
            inputs@.len() <= width,
            first_missing(inputs@, 0, width as int) == first_missing(inputs@, i as int, width as int),
            circuits@.len() == i,
            i <= inputs@.len(),
            forall|k: int| 0 <= k < i ==> (#[trigger] inputs@[k]) is Some,
            forall|k: int| 0 <= k < i ==> (#[trigger] circuits@[k])@ == inputs@[k]->0@,
        decreases width - i,
    {
        if i >= inputs.len() {
            return Err(NotFoundError::Input(i));
        }
        let item = inputs[i].as_ref();
        if item.is_none() {
            return Err(NotFoundError::Input(i));
        }
        let copied = copy_bytes(item.unwrap());
        assert(inputs@[i as int] is Some);
        assert(copied@ == inputs@[i as int]->0@);
        circuits.push(copied);
        i += 1;
    }
    match setup_key {
        None => Err(NotFoundError::SetupKey),
        Some(key) => Ok(
            PreparedJob {
                id: job.id,
                batch: job.batch,
                circuit_id: job.circuit_id,
                round: job.round,
                depth: job.depth,
                seq: job.seq,
                first_blob: job.first_blob,
                circuits,
                setup_key: copy_bytes(key),
            },
        ),
    }
}

/// Puts the proofs of a prepared job in the shape in which they are handed
/// on: each circuit's id with the key of its blob, the proofs themselves,
/// and the proofs framed as the partial input of the next round. The blobs
/// are numbered on from the job's first blob.
pub fn assemble(job: &PreparedJob, proofs: Vec<Vec<u8>>) -> (out: OutputArtifacts)
    requires
        job.first_blob + proofs@.len() <= usize::MAX + 1,
    ensures
        out.proofs == proofs,
        out.aggregations@ == framed(proofs.deep_view()),
        out.circuit_ids_and_urls@.len() == proofs@.len(),
        forall|i: int|
            0 <= i < proofs@.len() ==> {
                let entry = #[trigger] out.circuit_ids_and_urls@[i];
                &&& entry.0 == job.circuit_id
                &&& entry.1@ == job.circuit_key(i).encoding()
            },
{
    let mut urls: Vec<(u8, Vec<u8>)> = Vec::new();
    let mut i: usize = 0;
    while i < proofs.len()
        invariant
            i <= proofs.len(),
            job.first_blob + proofs@.len() <= usize::MAX + 1,
            urls@.len() == i,
            forall|k: int|
                0 <= k < i ==> {
                    let entry = #[trigger] urls@[k];
                    &&& entry.0 == job.circuit_id
                    &&& entry.1@ == job.circuit_key(k).encoding()
                },
        decreases proofs.len() - i,
    {
        let key = ArtifactKey::Circuit {
            batch: job.batch,
            circuit_id: job.circuit_id,
            round: job.round,
            depth: job.depth,
            seq: job.first_blob + i,
        };
        urls.push((job.circuit_id, key.encode()));
        i += 1;
    }
    let aggregations = frame(&proofs);
    OutputArtifacts { circuit_ids_and_urls: urls, proofs, aggregations }
}

/// Runs `prove` on every circuit of a prepared job, in order, and assembles
/// the proofs. The first circuit on which `prove` fails ends the run: the
/// error names it, and every circuit before it was proved.
pub fn process_job<F: Fn(&Vec<u8>, &Vec<u8>) -> Result<Vec<u8>, String>>(
    job: &PreparedJob,
    prove: &F,
) -> (result: Result<OutputArtifacts, ProvingError>)
    requires
        job.wf(),
        forall|i: int|
            0 <= i < job.circuits@.len() ==> call_requires(
                prove,
                (&#[trigger] job.circuits@[i], &job.setup_key),
            ),
    ensures
        match result {
            Ok(out) => {
                &&& out.proofs@.len() == job.circuits@.len()
                &&& forall|i: int|
                    0 <= i < job.circuits@.len() ==> call_ensures(
                        prove,
                        (&job.circuits@[i], &job.setup_key),
                        Ok::<Vec<u8>, String>(#[trigger] out.proofs@[i]),
                    )
                &&& out.aggregations@ == framed(out.proofs.deep_view())
                &&& out.circuit_ids_and_urls@.len() == job.circuits@.len()
                &&& forall|i: int|
                    0 <= i < job.circuits@.len() ==> {
                        let entry = #[trigger] out.circuit_ids_and_urls@[i];
                        &&& entry.0 == job.circuit_id
                        &&& entry.1@ == job.circuit_key(i).encoding()
                    }
            },
            Err(e) => {
                &&& e.circuit < job.circuits@.len()
                &&& call_ensures(
                    prove,
                    (&job.circuits@[e.circuit as int], &job.setup_key),
                    Err::<Vec<u8>, String>(e.message),
                )
                &&& exists|done: Seq<Vec<u8>>|
                    #![trigger done.len()]
                    done.len() == e.circuit && forall|i: int|
                        0 <= i < e.circuit ==> call_ensures(
                            prove,
                            (&job.circuits@[i], &job.setup_key),
                            Ok::<Vec<u8>, String>(#[trigger] done[i]),
                        )
            },
        },
{
    let mut proofs: Vec<Vec<u8>> = Vec::new();
    let mut i: usize = 0;
    while i < job.circuits.len()
        invariant
            i <= job.circuits.len(),
            job.wf(),
            proofs@.len() == i,
            forall|k: int|
                0 <= k < job.circuits@.len() ==> call_requires(
                    prove,
                    (&#[trigger] job.circuits@[k], &job.setup_key),
                ),
            forall|k: int|
                0 <= k < i ==> call_ensures(
                    prove,
                    (&job.circuits@[k], &job.setup_key),
                    Ok::<Vec<u8>, String>(#[trigger] proofs@[k]),
                ),
        decreases job.circuits.len() - i,
    {
        match prove(&job.circuits[i], &job.setup_key) {
            Ok(proof_bytes) => {
                proofs.push(proof_bytes);
            },
            Err(message) => {
                assert(proofs@.len() == i);
                return Err(ProvingError { circuit: i, message });
            },
        }
        i += 1;
    }
    Ok(assemble(job, proofs))
}

/// The serialized form of a job's outputs: the circuit keys framed, the
/// proofs framed, and the partial input, framed together.
pub fn serialize(out: &OutputArtifacts) -> (bytes: Vec<u8>)
    ensures
        bytes@ == framed(
            seq![
                framed(
                    Seq::new(
                        out.circuit_ids_and_urls@.len(),
                        |i: int| out.circuit_ids_and_urls@[i].1@,
                    ),
                ),
                framed(out.proofs.deep_view()),
                out.aggregations@,
            ],
        ),
{
    let mut urls: Vec<Vec<u8>> = Vec::new();
    let mut i: usize = 0;
    while i < out.circuit_ids_and_urls.len()
        invariant
            i <= out.circuit_ids_and_urls.len(),
            urls@.len() == i,
            forall|k: int| 0 <= k < i ==> (#[trigger] urls@[k])@ == out.circuit_ids_and_urls@[k].1@,
        decreases out.circuit_ids_and_urls.len() - i,
    {
        urls.push(copy_bytes(&out.circuit_ids_and_urls[i].1));
        i += 1;
    }
    let mut sections: Vec<Vec<u8>> = Vec::new();
    sections.push(frame(&urls));
    sections.push(frame(&out.proofs));
    sections.push(copy_bytes(&out.aggregations));
    proof {
        let keys = Seq::new(
            out.circuit_ids_and_urls@.len(),
            |i: int| out.circuit_ids_and_urls@[i].1@,
        );
        assert(urls.deep_view() =~= keys) by {
            assert(urls.deep_view().len() == urls@.len());
            assert forall|k: int| 0 <= k < urls@.len() implies urls.deep_view()[k] == keys[k] by {
                assert(urls.deep_view()[k] == urls@[k].deep_view());
                assert(urls@[k].deep_view() =~= urls@[k]@);
            }
        }
        let expected = seq![framed(keys), framed(out.proofs.deep_view()), out.aggregations@];
        assert(sections.deep_view() =~= expected) by {
            assert(sections.deep_view().len() == sections@.len());
            assert forall|k: int| 0 <= k < 3 implies sections.deep_view()[k] == expected[k] by {
                assert(sections.deep_view()[k] == sections@[k].deep_view());
                assert(sections@[k].deep_view() =~= sections@[k]@);
            }
        }
    }
    frame(&sections)
}

} // verus!
