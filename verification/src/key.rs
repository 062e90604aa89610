//! Artifact keys: the addresses of blobs in the blob store.
//!
//! A key is derived from the coordinates of the artifact alone. Its encoding
//! is a short ASCII string of decimal numbers, the round's name and fixed
//! words, joined by underscores. Distinct keys have distinct encodings.

use crate::format::Format;
use crate::round::{lemma_round_names, Round};
use vstd::prelude::*;

verus! {

/// The byte that joins the fields of a key: `_`.
pub const SEPARATOR: u8 = 95;

/// Decimal digits of `n` in ASCII, most significant first, without padding.
pub open spec fn decimal(n: nat) -> Seq<u8>
    decreases n,
{
    if n < 10 {
        seq![(48 + n) as u8]
    } else {
        decimal(n / 10).push((48 + n % 10) as u8)
    }
}

/// `head`, a separator, then `tail`.
pub open spec fn joined(head: Seq<u8>, tail: Seq<u8>) -> Seq<u8> {
    head + seq![SEPARATOR] + tail
}

/// Whether `s` holds no separator.
pub open spec fn separator_free(s: Seq<u8>) -> bool {
    forall|i: int| 0 <= i < s.len() ==> #[trigger] s[i] != SEPARATOR
}

/// ".bin"
pub open spec fn bin_suffix() -> Seq<u8> {
    seq![46u8, 98, 105, 110]
}

/// "aggregations_"
pub open spec fn aggregations_prefix() -> Seq<u8> {
    seq![97u8, 103, 103, 114, 101, 103, 97, 116, 105, 111, 110, 115, 95]
}

/// "aux_output_witness_"
pub open spec fn aux_output_witness_prefix() -> Seq<u8> {
    seq![
        97u8, 117, 120, 95, 111, 117, 116, 112, 117, 116, 95, 119, 105, 116, 110, 101, 115, 115,
        95,
    ]
}

/// "scheduler_witness_"
pub open spec fn scheduler_witness_prefix() -> Seq<u8> {
    seq![
        115u8, 99, 104, 101, 100, 117, 108, 101, 114, 95, 119, 105, 116, 110, 101, 115, 115, 95,
    ]
}

/// "witness_inputs_"
pub open spec fn witness_inputs_prefix() -> Seq<u8> {
    seq![119u8, 105, 116, 110, 101, 115, 115, 95, 105, 110, 112, 117, 116, 115, 95]
}

/// The address of one artifact.
#[derive(Clone, Copy, Debug, PartialEq, Eq, Hash, Structural)]
pub enum ArtifactKey {
    /// A circuit or proof blob: one of the siblings at a coordinate.
    Circuit { batch: u32, circuit_id: u8, round: Round, depth: u16, seq: usize },
    /// The partial input that the aggregation job with sequence number
    /// `group` leaves for the next level.
    Aggregation { batch: u32, circuit_id: u8, depth: u16, group: usize },
    /// The auxiliary output witness of the basic job of circuit
    /// `circuit_id` with sequence number `job`.
    AuxOutputWitness { batch: u32, circuit_id: u8, job: usize },
    /// The partial scheduler input of the basic job of circuit `circuit_id`
    /// with sequence number `job`.
    SchedulerWitness { batch: u32, circuit_id: u8, job: usize },
    /// The witness input of a batch, in one of the two formats.
    WitnessInput { batch: u32, format: Format },
}

impl ArtifactKey {
    /// The bytes under which the artifact is stored.
    pub open spec fn encoding(self) -> Seq<u8> {
        match self {
            ArtifactKey::Circuit { batch, circuit_id, round, depth, seq } => joined(
                decimal(batch as nat),
                joined(
                    decimal(seq as nat),
                    joined(
                        decimal(circuit_id as nat),
                        joined(round.name(), decimal(depth as nat) + bin_suffix()),
                    ),
                ),
            ),
            ArtifactKey::Aggregation { batch, circuit_id, depth, group } => aggregations_prefix()
                + joined(
                decimal(batch as nat),
                joined(
                    decimal(circuit_id as nat),
                    joined(decimal(depth as nat), decimal(group as nat) + bin_suffix()),
                ),
            ),
            ArtifactKey::AuxOutputWitness { batch, circuit_id, job } => aux_output_witness_prefix()
                + joined(
                decimal(batch as nat),
                joined(decimal(circuit_id as nat), decimal(job as nat) + bin_suffix()),
            ),
            ArtifactKey::SchedulerWitness { batch, circuit_id, job } => scheduler_witness_prefix()
                + joined(
                decimal(batch as nat),
                joined(decimal(circuit_id as nat), decimal(job as nat) + bin_suffix()),
            ),
            ArtifactKey::WitnessInput { batch, format } => witness_inputs_prefix() + (decimal(
                batch as nat,
            ) + format.extension()),
        }
    }

    pub fn encode(&self) -> (out: Vec<u8>)
        ensures
            out@ == self.encoding(),
    {
        let mut out: Vec<u8> = Vec::new();
        match *self {
            ArtifactKey::Circuit { batch, circuit_id, round, depth, seq } => {
                let mut name = round.name_bytes();
                let mut suffix = vec![46u8, 98, 105, 110];
                push_decimal(&mut out, batch as u64);
                out.push(SEPARATOR);
                push_decimal(&mut out, seq as u64);
                out.push(SEPARATOR);
                push_decimal(&mut out, circuit_id as u64);
                out.push(SEPARATOR);
                out.append(&mut name);
                out.push(SEPARATOR);
                push_decimal(&mut out, depth as u64);
                out.append(&mut suffix);
            },
            ArtifactKey::Aggregation { batch, circuit_id, depth, group } => {
                let mut prefix = vec![
                    97u8, 103, 103, 114, 101, 103, 97, 116, 105, 111, 110, 115, 95,
                ];
                let mut suffix = vec![46u8, 98, 105, 110];
                out.append(&mut prefix);
                push_decimal(&mut out, batch as u64);
                out.push(SEPARATOR);
                push_decimal(&mut out, circuit_id as u64);
                out.push(SEPARATOR);
                push_decimal(&mut out, depth as u64);
                out.push(SEPARATOR);
                push_decimal(&mut out, group as u64);
                out.append(&mut suffix);
            },
            ArtifactKey::AuxOutputWitness { batch, circuit_id, job } => {
                let mut prefix = vec![
                    97u8, 117, 120, 95, 111, 117, 116, 112, 117, 116, 95, 119, 105, 116, 110, 101,
                    115, 115, 95,
                ];
                let mut suffix = vec![46u8, 98, 105, 110];
                out.append(&mut prefix);
                push_decimal(&mut out, batch as u64);
                out.push(SEPARATOR);
                push_decimal(&mut out, circuit_id as u64);
                out.push(SEPARATOR);
                push_decimal(&mut out, job as u64);
                out.append(&mut suffix);
            },
            ArtifactKey::SchedulerWitness { batch, circuit_id, job } => {
                let mut prefix = vec![
                    115u8, 99, 104, 101, 100, 117, 108, 101, 114, 95, 119, 105, 116, 110, 101, 115,
                    115, 95,
                ];
                let mut suffix = vec![46u8, 98, 105, 110];
                out.append(&mut prefix);
                push_decimal(&mut out, batch as u64);
                out.push(SEPARATOR);
                push_decimal(&mut out, circuit_id as u64);
                out.push(SEPARATOR);
                push_decimal(&mut out, job as u64);
                out.append(&mut suffix);
            },
            ArtifactKey::WitnessInput { batch, format } => {
                let mut prefix = vec![
                    119u8, 105, 116, 110, 101, 115, 115, 95, 105, 110, 112, 117, 116, 115, 95,
                ];
                let mut suffix = format.extension_bytes();
                out.append(&mut prefix);
                push_decimal(&mut out, batch as u64);
                out.append(&mut suffix);
            },
        }
        assert(out@ =~= self.encoding());
        out
    }
}

/// Appends the decimal digits of `n` to `out`.
pub fn push_decimal(out: &mut Vec<u8>, n: u64)
    ensures
        final(out)@ == old(out)@ + decimal(n as nat),
    decreases n,
{
    if n >= 10 {
        push_decimal(out, n / 10);
    }
    let digit: u8 = 48 + (n % 10) as u8;
    out.push(digit);
    assert(out@ =~= old(out)@ + decimal(n as nat));
}

/// The key of the `seq`-th circuit blob at a coordinate.
pub fn blob_key(batch: u32, circuit_id: u8, round: Round, depth: u16, seq: usize) -> (key: Vec<u8>)
    ensures
        key@ == (ArtifactKey::Circuit { batch, circuit_id, round, depth, seq }).encoding(),
{
    (ArtifactKey::Circuit { batch, circuit_id, round, depth, seq }).encode()
}

/// The key of the partial input that the aggregation job with sequence
/// number `group` leaves for `depth`.
pub fn aggregation_key(batch: u32, circuit_id: u8, depth: u16, group: usize) -> (key: Vec<u8>)
    ensures
        key@ == (ArtifactKey::Aggregation { batch, circuit_id, depth, group }).encoding(),
{
    (ArtifactKey::Aggregation { batch, circuit_id, depth, group }).encode()
}

/// Decimal notation is never empty and holds digits only.
pub proof fn lemma_decimal_digits(n: nat)
    ensures
        decimal(n).len() >= 1,
        n >= 10 ==> decimal(n).len() >= 2,
        forall|i: int| 0 <= i < decimal(n).len() ==> 48 <= #[trigger] decimal(n)[i] <= 57,
        separator_free(decimal(n)),
    decreases n,
{
    if n >= 10 {
        lemma_decimal_digits(n / 10);
    }
}

/// Two numbers with the same decimal notation are equal.
pub proof fn lemma_decimal_injective(a: nat, b: nat)
    requires
        decimal(a) == decimal(b),
    ensures
        a == b,
    decreases a,
{
    lemma_decimal_digits(a);
    lemma_decimal_digits(b);
    if a < 10 && b < 10 {
        assert(decimal(a)[0] == (48 + a) as u8);
        assert(decimal(b)[0] == (48 + b) as u8);
    } else if a < 10 {
        assert(decimal(a).len() == 1);
    } else if b < 10 {
        assert(decimal(b).len() == 1);
    } else {
        let da = decimal(a / 10);
        let db = decimal(b / 10);
        assert(da =~= decimal(a).drop_last());
        assert(db =~= decimal(b).drop_last());
        assert(decimal(a).last() == (48 + a % 10) as u8);
        assert(decimal(b).last() == (48 + b % 10) as u8);
        assert(a % 10 == b % 10);
        lemma_decimal_injective(a / 10, b / 10);
        assert(a == 10 * (a / 10) + a % 10);
        assert(b == 10 * (b / 10) + b % 10);
    }
}

/// A joined pair is taken apart in one way only, when the heads hold no
/// separator.
pub proof fn lemma_joined_injective(a: Seq<u8>, x: Seq<u8>, b: Seq<u8>, y: Seq<u8>)
    requires
        separator_free(a),
        separator_free(b),
        joined(a, x) == joined(b, y),
    ensures
        a == b,
        x == y,
{
    let left = joined(a, x);
    let right = joined(b, y);
    if a.len() < b.len() {
        assert(left[a.len() as int] == SEPARATOR);
        assert(right[a.len() as int] == b[a.len() as int]);
    }
    if b.len() < a.len() {
        assert(right[b.len() as int] == SEPARATOR);
        assert(left[b.len() as int] == a[b.len() as int]);
    }
    assert(a.len() == b.len());
    assert forall|i: int| 0 <= i < a.len() implies a[i] == b[i] by {
        assert(left[i] == a[i]);
        assert(right[i] == b[i]);
    }
    assert(a =~= b);
    assert(left.len() == a.len() + 1 + x.len());
    assert(right.len() == b.len() + 1 + y.len());
    assert forall|i: int| 0 <= i < x.len() implies x[i] == y[i] by {
        assert(left[a.len() + 1 + i] == x[i]);
        assert(right[b.len() + 1 + i] == y[i]);
    }
    assert(x =~= y);
}

/// A common prefix can be struck from both sides of an equation.
pub proof fn lemma_cancel_prefix(p: Seq<u8>, x: Seq<u8>, y: Seq<u8>)
    requires
        p + x == p + y,
    ensures
        x == y,
{
    assert((p + x).len() == p.len() + x.len());
    assert((p + y).len() == p.len() + y.len());
    assert forall|i: int| 0 <= i < x.len() implies x[i] == y[i] by {
        assert((p + x)[p.len() + i] == x[i]);
        assert((p + y)[p.len() + i] == y[i]);
    }
    assert(x =~= y);
}

/// Two numbers followed by format extensions give the same bytes only when
/// the numbers and the formats agree.
pub proof fn lemma_tagged_decimal_injective(a: nat, f: Format, b: nat, g: Format)
    requires
        decimal(a) + f.extension() == decimal(b) + g.extension(),
    ensures
        a == b,
        f == g,
{
    let left = decimal(a) + f.extension();
    let right = decimal(b) + g.extension();
    assert(left.len() == decimal(a).len() + f.extension().len());
    assert(right.len() == decimal(b).len() + g.extension().len());
    assert(left.last() == f.extension().last());
    assert(right.last() == g.extension().last());
    assert(f == g);
    assert forall|i: int| 0 <= i < decimal(a).len() implies decimal(a)[i] == decimal(b)[i] by {
        assert(left[i] == decimal(a)[i]);
        assert(right[i] == decimal(b)[i]);
    }
    assert(decimal(a) =~= decimal(b));
    lemma_decimal_injective(a, b);
}

/// The first bytes of an encoding tell the kind of the key.
pub proof fn lemma_leading_bytes(k: ArtifactKey)
    ensures
        k.encoding().len() >= 2,
        k is Circuit ==> 48 <= k.encoding()[0] <= 57,
        k is Aggregation ==> k.encoding()[0] == 97 && k.encoding()[1] == 103,
        k is AuxOutputWitness ==> k.encoding()[0] == 97 && k.encoding()[1] == 117,
        k is SchedulerWitness ==> k.encoding()[0] == 115,
        k is WitnessInput ==> k.encoding()[0] == 119,
{
    match k {
        ArtifactKey::Circuit { batch, circuit_id, round, depth, seq } => {
            lemma_decimal_digits(batch as nat);
            assert(k.encoding()[0] == decimal(batch as nat)[0]);
        },
        ArtifactKey::Aggregation { .. } => {
            assert(k.encoding()[0] == aggregations_prefix()[0]);
            assert(k.encoding()[1] == aggregations_prefix()[1]);
        },
        ArtifactKey::AuxOutputWitness { .. } => {
            assert(k.encoding()[0] == aux_output_witness_prefix()[0]);
            assert(k.encoding()[1] == aux_output_witness_prefix()[1]);
        },
        ArtifactKey::SchedulerWitness { .. } => {
            assert(k.encoding()[0] == scheduler_witness_prefix()[0]);
        },
        ArtifactKey::WitnessInput { .. } => {
            assert(k.encoding()[0] == witness_inputs_prefix()[0]);
        },
    }
}

/// Keys are equal exactly when their encodings are: no two artifacts share
/// an address, whatever their kinds, rounds or other coordinates.
pub proof fn lemma_encoding_injective(k1: ArtifactKey, k2: ArtifactKey)
    requires
        k1.encoding() == k2.encoding(),
    ensures
        k1 == k2,
{
    lemma_leading_bytes(k1);
    lemma_leading_bytes(k2);
    match (k1, k2) {
        (
            ArtifactKey::Circuit { batch: b1, circuit_id: c1, round: r1, depth: d1, seq: s1 },
            ArtifactKey::Circuit { batch: b2, circuit_id: c2, round: r2, depth: d2, seq: s2 },
        ) => {
            lemma_decimal_digits(b1 as nat);
            lemma_decimal_digits(b2 as nat);
            lemma_decimal_digits(s1 as nat);
            lemma_decimal_digits(s2 as nat);
            lemma_decimal_digits(c1 as nat);
            lemma_decimal_digits(c2 as nat);
            lemma_round_names(r1, r2);
            lemma_round_names(r2, r1);
            let t1 = joined(r1.name(), decimal(d1 as nat) + bin_suffix());
            let t2 = joined(r2.name(), decimal(d2 as nat) + bin_suffix());
            let u1 = joined(decimal(c1 as nat), t1);
            let u2 = joined(decimal(c2 as nat), t2);
            let v1 = joined(decimal(s1 as nat), u1);
            let v2 = joined(decimal(s2 as nat), u2);
            lemma_joined_injective(decimal(b1 as nat), v1, decimal(b2 as nat), v2);
            lemma_joined_injective(decimal(s1 as nat), u1, decimal(s2 as nat), u2);
            lemma_joined_injective(decimal(c1 as nat), t1, decimal(c2 as nat), t2);
            lemma_joined_injective(
                r1.name(),
                decimal(d1 as nat) + bin_suffix(),
                r2.name(),
                decimal(d2 as nat) + bin_suffix(),
            );
            lemma_tagged_decimal_injective(d1 as nat, Format::Legacy, d2 as nat, Format::Legacy);
            lemma_decimal_injective(b1 as nat, b2 as nat);
            lemma_decimal_injective(s1 as nat, s2 as nat);
            lemma_decimal_injective(c1 as nat, c2 as nat);
        },
        (
            ArtifactKey::Aggregation { batch: b1, circuit_id: c1, depth: d1, group: g1 },
            ArtifactKey::Aggregation { batch: b2, circuit_id: c2, depth: d2, group: g2 },
        ) => {
            lemma_decimal_digits(b1 as nat);
            lemma_decimal_digits(b2 as nat);
            lemma_decimal_digits(c1 as nat);
            lemma_decimal_digits(c2 as nat);
            lemma_decimal_digits(d1 as nat);
            lemma_decimal_digits(d2 as nat);
            let u1 = joined(decimal(d1 as nat), decimal(g1 as nat) + bin_suffix());
            let u2 = joined(decimal(d2 as nat), decimal(g2 as nat) + bin_suffix());
            let t1 = joined(decimal(c1 as nat), u1);
            let t2 = joined(decimal(c2 as nat), u2);
            lemma_cancel_prefix(
                aggregations_prefix(),
                joined(decimal(b1 as nat), t1),
                joined(decimal(b2 as nat), t2),
            );
            lemma_joined_injective(decimal(b1 as nat), t1, decimal(b2 as nat), t2);
            lemma_joined_injective(decimal(c1 as nat), u1, decimal(c2 as nat), u2);
            lemma_joined_injective(
                decimal(d1 as nat),
                decimal(g1 as nat) + bin_suffix(),
                decimal(d2 as nat),
                decimal(g2 as nat) + bin_suffix(),
            );
            lemma_tagged_decimal_injective(g1 as nat, Format::Legacy, g2 as nat, Format::Legacy);
            lemma_decimal_injective(b1 as nat, b2 as nat);
            lemma_decimal_injective(c1 as nat, c2 as nat);
            lemma_decimal_injective(d1 as nat, d2 as nat);
        },
        (
            ArtifactKey::AuxOutputWitness { batch: b1, circuit_id: c1, job: j1 },
            ArtifactKey::AuxOutputWitness { batch: b2, circuit_id: c2, job: j2 },
        ) => {
            lemma_decimal_digits(b1 as nat);
            lemma_decimal_digits(b2 as nat);
            lemma_decimal_digits(c1 as nat);
            lemma_decimal_digits(c2 as nat);
            let t1 = joined(decimal(c1 as nat), decimal(j1 as nat) + bin_suffix());
            let t2 = joined(decimal(c2 as nat), decimal(j2 as nat) + bin_suffix());
            lemma_cancel_prefix(
                aux_output_witness_prefix(),
                joined(decimal(b1 as nat), t1),
                joined(decimal(b2 as nat), t2),
            );
            lemma_joined_injective(decimal(b1 as nat), t1, decimal(b2 as nat), t2);
            lemma_joined_injective(
                decimal(c1 as nat),
                decimal(j1 as nat) + bin_suffix(),
                decimal(c2 as nat),
                decimal(j2 as nat) + bin_suffix(),
            );
            lemma_tagged_decimal_injective(j1 as nat, Format::Legacy, j2 as nat, Format::Legacy);
            lemma_decimal_injective(b1 as nat, b2 as nat);
            lemma_decimal_injective(c1 as nat, c2 as nat);
        },
        (
            ArtifactKey::SchedulerWitness { batch: b1, circuit_id: c1, job: j1 },
            ArtifactKey::SchedulerWitness { batch: b2, circuit_id: c2, job: j2 },
        ) => {
            lemma_decimal_digits(b1 as nat);
            lemma_decimal_digits(b2 as nat);
            lemma_decimal_digits(c1 as nat);
            lemma_decimal_digits(c2 as nat);
            let t1 = joined(decimal(c1 as nat), decimal(j1 as nat) + bin_suffix());
            let t2 = joined(decimal(c2 as nat), decimal(j2 as nat) + bin_suffix());
            lemma_cancel_prefix(
                scheduler_witness_prefix(),
                joined(decimal(b1 as nat), t1),
                joined(decimal(b2 as nat), t2),
            );
            lemma_joined_injective(decimal(b1 as nat), t1, decimal(b2 as nat), t2);
            lemma_joined_injective(
                decimal(c1 as nat),
                decimal(j1 as nat) + bin_suffix(),
                decimal(c2 as nat),
                decimal(j2 as nat) + bin_suffix(),
            );
            lemma_tagged_decimal_injective(j1 as nat, Format::Legacy, j2 as nat, Format::Legacy);
            lemma_decimal_injective(b1 as nat, b2 as nat);
            lemma_decimal_injective(c1 as nat, c2 as nat);
        },
        (
            ArtifactKey::WitnessInput { batch: b1, format: f1 },
            ArtifactKey::WitnessInput { batch: b2, format: f2 },
        ) => {
            lemma_cancel_prefix(
                witness_inputs_prefix(),
                decimal(b1 as nat) + f1.extension(),
                decimal(b2 as nat) + f2.extension(),
            );
            lemma_tagged_decimal_injective(b1 as nat, f1, b2 as nat, f2);
        },
        _ => {},
    }
}

/// Circuit keys of different rounds differ, even when every other
/// coordinate is the same.
pub proof fn lemma_rounds_never_collide(
    batch: u32,
    circuit_id: u8,
    depth: u16,
    seq: usize,
    r1: Round,
    r2: Round,
)
    requires
        r1 != r2,
    ensures
        (ArtifactKey::Circuit { batch, circuit_id, round: r1, depth, seq }).encoding() != (
        ArtifactKey::Circuit { batch, circuit_id, round: r2, depth, seq }).encoding(),
{
    let k1 = ArtifactKey::Circuit { batch, circuit_id, round: r1, depth, seq };
    let k2 = ArtifactKey::Circuit { batch, circuit_id, round: r2, depth, seq };
    if k1.encoding() == k2.encoding() {
        lemma_encoding_injective(k1, k2);
    }
}

} // verus!
