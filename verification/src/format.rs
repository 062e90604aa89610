//! Serialization formats under which stored content may be found.

use vstd::prelude::*;

verus! {

/// The format tag of a stored blob. Content written before the migration is
/// in the legacy format and stays readable.
#[derive(Clone, Copy, Debug, PartialEq, Eq, Hash, Structural)]
pub enum Format {
    /// The format every writer uses now (CBOR).
    Current,
    /// The format of older content (bincode).
    Legacy,
}

impl Format {
    /// The file extension that tags content of this format: ".cbor" or ".bin".
    pub open spec fn extension(self) -> Seq<u8> {
        match self {
            Format::Current => seq![46u8, 99, 98, 111, 114],
            Format::Legacy => seq![46u8, 98, 105, 110],
        }
    }

    pub fn extension_bytes(self) -> (out: Vec<u8>)
        ensures
            out@ == self.extension(),
    {
        let out = match self {
            Format::Current => vec![46u8, 99, 98, 111, 114],
            Format::Legacy => vec![46u8, 98, 105, 110],
        };
        assert(out@ =~= self.extension());
        out
    }
}

/// The formats in the order in which a reader tries them.
pub open spec fn decode_order() -> Seq<Format> {
    seq![Format::Current, Format::Legacy]
}

/// The format to try after `failed` formats have failed, if one is left.
pub fn format_to_try(failed: usize) -> (next: Option<Format>)
    ensures
        next == if failed < decode_order().len() {
            Some(decode_order()[failed as int])
        } else {
            None
        },
{
    if failed == 0 {
        Some(Format::Current)
    } else if failed == 1 {
        Some(Format::Legacy)
    } else {
        None
    }
}

} // verus!
