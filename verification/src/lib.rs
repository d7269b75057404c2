//! A compact binary encoding engine for structured values: a growable
//! byte buffer, fixed-width and variable-length primitive codecs,
//! borrowed and owned read cursors, a dense non-self-describing
//! structured codec, and a pack engine that falls back to a
//! self-describing MessagePack encoding when the dense format cannot
//! represent a value's shape.

use vstd::prelude::*;

pub mod data;
pub mod data_owned_reader;
pub mod data_read;
pub mod de;
pub mod dense;
pub mod error;
pub mod pack;
pub mod fallback;
pub mod ser;
pub mod value;
pub mod wire;

pub use data::Data;
pub use data_owned_reader::DataOwnedReader;
pub use data_read::DataReader;
pub use data_read::ReadNumberFixed;
pub use data_read::ReadNumberVar;
pub use data::WriteNumberFixed;
pub use data::WriteNumberVar;
pub use de::MapAccess;
pub use de::SeqAssess;
pub use de::VariantAccess;
pub use error::DataError;
pub use pack::pack_bytes;
pub use value::Shape;
pub use value::Value;
pub use value::Variant;
pub use value::VariantKind;
pub use error::Mode;

verus! {

/// Given a `u64` value compute its varint encoded length.
pub fn compute_raw_varint64_size(value: u64) -> (r: usize)
    ensures
        r == wire::varint_len(value),
        1 <= r <= 10,
{
    proof {
        wire::lemma_varint_bytes_len(value);
    }
    let mut v: u64 = value;
    let mut n: usize = 1;
    while v >= 128
        invariant
            n >= 1,
            wire::varint_len(value) == n - 1 + wire::varint_len(v),
            n + wire::varint_len(v) - 1 <= 10,
        decreases v,
    {
        proof {
            wire::lemma_varint_bytes_len(v);
        }
        v = v / 128;
        n = n + 1;
    }
    n
}

/// Given a `u32` value compute its varint encoded length.
pub fn compute_raw_varint32_size(value: u32) -> (r: usize)
    ensures
        r == wire::varint_len(value as u64),
        1 <= r <= 5,
{
    proof {
        wire::lemma_varint_len_u32(value as u64);
    }
    compute_raw_varint64_size(value as u64)
}

} // verus!
