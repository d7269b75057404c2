//! The self-describing fallback codec of the pack engine: MessagePack,
//! written and read through the `rmp` crate. Values whose shape the
//! dense format cannot carry travel this way, framed behind a
//! four-byte length prefix.

use crate::error::DataError;
use crate::value::{
    Shape, ShapeV, Value, ValueV, Variant, dense_wf, fits, pair_views, pairs_dense_wf, pairs_fit,
    seq_dense_wf, seq_fits_elem, seq_fits_zip, sview, sviews, variant_views, vview, vviews,
};
use vstd::prelude::*;

verus! {

/// A 16-bit value as two bytes, most significant first.
pub open spec fn be16(n: u16) -> Seq<u8> {
    seq![(n / 0x100) as u8, (n % 0x100) as u8]
}

/// A 32-bit value as four bytes, most significant first.
pub open spec fn be32(n: u32) -> Seq<u8> {
    seq![
        (n / 0x100_0000) as u8,
        ((n / 0x1_0000) % 0x100) as u8,
        ((n / 0x100) % 0x100) as u8,
        (n % 0x100) as u8,
    ]
}

/// A 64-bit value as eight bytes, most significant first.
pub open spec fn be64(n: u64) -> Seq<u8> {
    seq![
        (n / 0x100_0000_0000_0000) as u8,
        ((n / 0x1_0000_0000_0000) % 0x100) as u8,
        ((n / 0x100_0000_0000) % 0x100) as u8,
        ((n / 0x1_0000_0000) % 0x100) as u8,
        ((n / 0x100_0000) % 0x100) as u8,
        ((n / 0x1_0000) % 0x100) as u8,
        ((n / 0x100) % 0x100) as u8,
        (n % 0x100) as u8,
    ]
}

/// The MessagePack encoding of an unsigned integer, in its most
/// compact form: a positive fixint below 128, otherwise the smallest
/// width marker and big-endian data. This is what
/// `rmp::encode::write_uint` emits.
pub open spec fn mp_uint(n: u64) -> Seq<u8> {
    if n < 0x80 {
        seq![n as u8]
    } else if n <= 0xff {
        seq![0xccu8, n as u8]
    } else if n <= 0xffff {
        seq![0xcdu8] + be16(n as u16)
    } else if n <= 0xffff_ffff {
        seq![0xceu8] + be32(n as u32)
    } else {
        seq![0xcfu8] + be64(n)
    }
}

/// The MessagePack encoding of a signed integer, in its most compact
/// form: fixints where they fit, otherwise the smallest width marker
/// and big-endian data; non-negative values use the unsigned forms.
/// This is what `rmp::encode::write_sint` emits.
pub open spec fn mp_sint(n: i64) -> Seq<u8> {
    if -32 <= n && n < 0 {
        seq![n as u8]
    } else if -0x80 <= n && n < -32 {
        seq![0xd0u8, n as u8]
    } else if -0x8000 <= n && n < -0x80 {
        seq![0xd1u8] + be16(n as u16)
    } else if -0x8000_0000 <= n && n < -0x8000 {
        seq![0xd2u8] + be32(n as u32)
    } else if n < -0x8000_0000 {
        seq![0xd3u8] + be64(n as u64)
    } else {
        mp_uint(n as u64)
    }
}

/// The MessagePack encoding of a string: the smallest length marker,
/// then the UTF-8 bytes verbatim. This is what
/// `rmp::encode::write_str` emits.
pub open spec fn mp_str(cs: Seq<char>) -> Seq<u8> {
    let b = vstd::utf8::encode_utf8(cs);
    if b.len() < 32 {
        seq![(0xa0 + b.len()) as u8] + b
    } else if b.len() < 0x100 {
        seq![0xd9u8, b.len() as u8] + b
    } else if b.len() < 0x1_0000 {
        seq![0xdau8] + be16(b.len() as u16) + b
    } else {
        seq![0xdbu8] + be32(b.len() as u32) + b
    }
}

/// The MessagePack encoding of a byte string: the smallest length
/// marker, then the bytes verbatim. This is what
/// `rmp::encode::write_bin` emits.
pub open spec fn mp_bin(bs: Seq<u8>) -> Seq<u8> {
    if bs.len() < 0x100 {
        seq![0xc4u8, bs.len() as u8] + bs
    } else if bs.len() < 0x1_0000 {
        seq![0xc5u8] + be16(bs.len() as u16) + bs
    } else {
        seq![0xc6u8] + be32(bs.len() as u32) + bs
    }
}

/// The MessagePack array header announcing `n` elements, in its most
/// compact form. This is what `rmp::encode::write_array_len` emits.
pub open spec fn mp_arr(n: u32) -> Seq<u8> {
    if n < 16 {
        seq![(0x90 + n) as u8]
    } else if n < 0x1_0000 {
        seq![0xdcu8] + be16(n as u16)
    } else {
        seq![0xddu8] + be32(n)
    }
}

/// The MessagePack map header announcing `n` pairs, in its most
/// compact form. This is what `rmp::encode::write_map_len` emits.
pub open spec fn mp_map(n: u32) -> Seq<u8> {
    if n < 16 {
        seq![(0x80 + n) as u8]
    } else if n < 0x1_0000 {
        seq![0xdeu8] + be16(n as u16)
    } else {
        seq![0xdfu8] + be32(n)
    }
}

/// Relies on `rmp::encode::write_uint`: appends the most compact
/// MessagePack form of `n`, a function of `n` alone, one marker byte
/// and at most eight data bytes. Writing to a vector cannot fail.
#[verifier::external_body]
fn mp_write_uint(out: &mut Vec<u8>, n: u64)
    ensures
        final(out)@ == old(out)@ + mp_uint(n),
{
    let _ = rmp::encode::write_uint(out, n);
}

/// Relies on `rmp::encode::write_sint`: appends the most compact
/// MessagePack form of `n`, a function of `n` alone, one marker byte
/// and at most eight data bytes.
#[verifier::external_body]
fn mp_write_sint(out: &mut Vec<u8>, n: i64)
    ensures
        final(out)@ == old(out)@ + mp_sint(n),
{
    let _ = rmp::encode::write_sint(out, n);
}

/// Relies on `rmp::encode::write_bool`: a single marker byte, `0xc3`
/// for true and `0xc2` for false.
#[verifier::external_body]
fn mp_write_bool(out: &mut Vec<u8>, b: bool)
    ensures
        final(out)@ == old(out)@ + seq![
            if b {
                0xc3u8
            } else {
                0xc2u8
            },
        ],
{
    let _ = rmp::encode::write_bool(out, b);
}

/// Relies on `rmp::encode::write_nil`: the single nil marker `0xc0`.
#[verifier::external_body]
fn mp_write_nil(out: &mut Vec<u8>)
    ensures
        final(out)@ == old(out)@ + seq![0xc0u8],
{
    let _ = rmp::encode::write_nil(out);
}

/// Relies on `rmp::encode::write_str`: a string length marker and the
/// UTF-8 bytes, a function of the characters alone. The length must
/// fit the 32-bit MessagePack string headers.
#[verifier::external_body]
fn mp_write_str(out: &mut Vec<u8>, s: &str)
    requires
        vstd::utf8::encode_utf8(s@).len() < 0x1_0000_0000,
    ensures
        final(out)@ == old(out)@ + mp_str(s@),
{
    let _ = rmp::encode::write_str(out, s);
}

/// Relies on `rmp::encode::write_bin`: a byte-string length marker and
/// the raw bytes, which follow the header verbatim.
#[verifier::external_body]
fn mp_write_bin(out: &mut Vec<u8>, b: &[u8])
    requires
        b@.len() < 0x1_0000_0000,
    ensures
        final(out)@ == old(out)@ + mp_bin(b@),
{
    let _ = rmp::encode::write_bin(out, b);
}

/// Relies on `rmp::encode::write_array_len`: the most compact array
/// header announcing `n` elements, one marker byte and at most four
/// data bytes.
#[verifier::external_body]
fn mp_write_array_len(out: &mut Vec<u8>, n: u32)
    ensures
        final(out)@ == old(out)@ + mp_arr(n),
{
    let _ = rmp::encode::write_array_len(out, n);
}

/// Relies on `rmp::encode::write_map_len`: the most compact map header
/// announcing `n` pairs, one marker byte and at most four data bytes.
#[verifier::external_body]
fn mp_write_map_len(out: &mut Vec<u8>, n: u32)
    ensures
        final(out)@ == old(out)@ + mp_map(n),
{
    let _ = rmp::encode::write_map_len(out, n);
}

/// The MessagePack encoding of a 32-bit float carried as raw bits:
/// the `0xca` marker and the four bits bytes, most significant first.
pub open spec fn mp_f32(bits: u32) -> Seq<u8> {
    seq![
        0xcau8,
        (bits / 0x100_0000) as u8,
        ((bits / 0x1_0000) % 0x100) as u8,
        ((bits / 0x100) % 0x100) as u8,
        (bits % 0x100) as u8,
    ]
}

/// The MessagePack encoding of a 64-bit float carried as raw bits:
/// the `0xcb` marker and the eight bits bytes, most significant first.
pub open spec fn mp_f64(bits: u64) -> Seq<u8> {
    seq![
        0xcbu8,
        (bits / 0x100_0000_0000_0000) as u8,
        ((bits / 0x1_0000_0000_0000) % 0x100) as u8,
        ((bits / 0x100_0000_0000) % 0x100) as u8,
        ((bits / 0x1_0000_0000) % 0x100) as u8,
        ((bits / 0x100_0000) % 0x100) as u8,
        ((bits / 0x1_0000) % 0x100) as u8,
        ((bits / 0x100) % 0x100) as u8,
        (bits % 0x100) as u8,
    ]
}

/// Append the `0xca` float marker and the bits, most significant
/// byte first.
fn mp_write_f32_bits(out: &mut Vec<u8>, bits: u32)
    ensures
        final(out)@ == old(out)@ + mp_f32(bits),
{
    let ghost pre = out@;
    out.push(0xcau8);
    out.push((bits / 0x100_0000) as u8);
    out.push(((bits / 0x1_0000) % 0x100) as u8);
    out.push(((bits / 0x100) % 0x100) as u8);
    out.push((bits % 0x100) as u8);
    proof {
        assert(out@ =~= pre + mp_f32(bits));
    }
}

/// Append the `0xcb` float marker and the bits, most significant
/// byte first.
fn mp_write_f64_bits(out: &mut Vec<u8>, bits: u64)
    ensures
        final(out)@ == old(out)@ + mp_f64(bits),
{
    let ghost pre = out@;
    out.push(0xcbu8);
    out.push((bits / 0x100_0000_0000_0000) as u8);
    out.push(((bits / 0x1_0000_0000_0000) % 0x100) as u8);
    out.push(((bits / 0x100_0000_0000) % 0x100) as u8);
    out.push(((bits / 0x1_0000_0000) % 0x100) as u8);
    out.push(((bits / 0x100_0000) % 0x100) as u8);
    out.push(((bits / 0x1_0000) % 0x100) as u8);
    out.push(((bits / 0x100) % 0x100) as u8);
    out.push((bits % 0x100) as u8);
    proof {
        assert(out@ =~= pre + mp_f64(bits));
    }
}

/// The fallback encoding of a value: self-describing MessagePack.
/// Absent options and the unit both map to nil, as a MessagePack
/// serializer does; enum variants to one-pair maps keyed by the
/// variant name, unit variants to the bare name.
pub open spec fn fb_bytes(v: ValueV) -> Seq<u8>
    decreases v, 0int, 0int,
{
    match v {
        ValueV::Bool(b) => seq![
            if b {
                0xc3u8
            } else {
                0xc2u8
            },
        ],
        ValueV::U8(n) => mp_uint(n as u64),
        ValueV::U16(n) => mp_uint(n as u64),
        ValueV::U32(n) => mp_uint(n as u64),
        ValueV::U64(n) => mp_uint(n),
        ValueV::I8(n) => mp_sint(n as i64),
        ValueV::I16(n) => mp_sint(n as i64),
        ValueV::I32(n) => mp_sint(n as i64),
        ValueV::I64(n) => mp_sint(n),
        ValueV::F32Bits(n) => mp_f32(n),
        ValueV::F64Bits(n) => mp_f64(n),
        ValueV::Str(cs) => mp_str(cs),
        ValueV::Bytes(bs) => mp_bin(bs),
        ValueV::Unit => seq![0xc0u8],
        ValueV::Opt(o) => match o {
            None => seq![0xc0u8],
            Some(x) => fb_bytes(*x),
        },
        ValueV::List(vs) => mp_arr(vs.len() as u32) + fb_bytes_seq(vs, 0),
        ValueV::Dict(ps) => mp_map(ps.len() as u32) + fb_bytes_pairs(ps, 0),
        ValueV::EnumUnit(nm) => mp_str(nm),
        ValueV::EnumNewtype(nm, x) => mp_map(1) + mp_str(nm) + fb_bytes(*x),
        ValueV::EnumFields(nm, xs) => mp_map(1) + mp_str(nm) + mp_arr(xs.len() as u32)
            + fb_bytes_seq(xs, 0),
    }
}

/// The concatenated fallback encodings of `vs[i..]`.
pub open spec fn fb_bytes_seq(vs: Seq<ValueV>, i: int) -> Seq<u8>
    decreases vs, vs.len() - i, 1int,
{
    if i < 0 || i >= vs.len() {
        Seq::empty()
    } else {
        fb_bytes(vs[i]) + fb_bytes_seq(vs, i + 1)
    }
}

/// The concatenated fallback encodings of the pairs `ps[i..]`.
pub open spec fn fb_bytes_pairs(ps: Seq<(ValueV, ValueV)>, i: int) -> Seq<u8>
    decreases ps, ps.len() - i, 1int,
{
    if i < 0 || i >= ps.len() {
        Seq::empty()
    } else {
        (fb_bytes(ps[i].0) + fb_bytes(ps[i].1)) + fb_bytes_pairs(ps, i + 1)
    }
}

/// Append the fallback encoding of `v`. Succeeds exactly when every
/// length fits the MessagePack 32-bit headers, the same condition the
/// dense format puts on its prefixes.
#[verifier::rlimit(100)]
#[verifier::spinoff_prover]
pub fn fb_encode(out: &mut Vec<u8>, v: &Value) -> (r: Result<(), DataError>)
    ensures
        match r {
            Ok(()) => dense_wf(vview(*v)) && final(out)@ == old(out)@ + fb_bytes(vview(*v)),
            Err(e) => !dense_wf(vview(*v)) && e == DataError::OutOfBounds && old(out)@.is_prefix_of(final(out)@),
        },
    decreases *v, 0int,
{
    let ghost pre0 = out@;
    match v {
        Value::Bool(b) => {
            mp_write_bool(out, *b);
            proof {
                assert(out@ == pre0 + fb_bytes(vview(*v)));
                assert(dense_wf(vview(*v)));
            }
            Ok(())
        },
        Value::U8(n) => {
            mp_write_uint(out, *n as u64);
            proof {
                assert(out@ == pre0 + fb_bytes(vview(*v)));
                assert(dense_wf(vview(*v)));
            }
            Ok(())
        },
        Value::U16(n) => {
            mp_write_uint(out, *n as u64);
            proof {
                assert(out@ == pre0 + fb_bytes(vview(*v)));
                assert(dense_wf(vview(*v)));
            }
            Ok(())
        },
        Value::U32(n) => {
            mp_write_uint(out, *n as u64);
            proof {
                assert(out@ == pre0 + fb_bytes(vview(*v)));
                assert(dense_wf(vview(*v)));
            }
            Ok(())
        },
        Value::U64(n) => {
            mp_write_uint(out, *n);
            proof {
                assert(out@ == pre0 + fb_bytes(vview(*v)));
                assert(dense_wf(vview(*v)));
            }
            Ok(())
        },
        Value::I8(n) => {
            mp_write_sint(out, *n as i64);
            proof {
                assert(out@ == pre0 + fb_bytes(vview(*v)));
                assert(dense_wf(vview(*v)));
            }
            Ok(())
        },
        Value::I16(n) => {
            mp_write_sint(out, *n as i64);
            proof {
                assert(out@ == pre0 + fb_bytes(vview(*v)));
                assert(dense_wf(vview(*v)));
            }
            Ok(())
        },
        Value::I32(n) => {
            mp_write_sint(out, *n as i64);
            proof {
                assert(out@ == pre0 + fb_bytes(vview(*v)));
                assert(dense_wf(vview(*v)));
            }
            Ok(())
        },
        Value::I64(n) => {
            mp_write_sint(out, *n);
            proof {
                assert(out@ == pre0 + fb_bytes(vview(*v)));
                assert(dense_wf(vview(*v)));
            }
            Ok(())
        },
        Value::F32Bits(n) => {
            mp_write_f32_bits(out, *n);
            proof {
                assert(out@ == pre0 + fb_bytes(vview(*v)));
                assert(dense_wf(vview(*v)));
            }
            Ok(())
        },
        Value::F64Bits(n) => {
            mp_write_f64_bits(out, *n);
            proof {
                assert(out@ == pre0 + fb_bytes(vview(*v)));
                assert(dense_wf(vview(*v)));
            }
            Ok(())
        },
        Value::Str(s) => {
            if s.as_str().as_bytes().len() as u64 >= 0x1_0000_0000u64 {
                proof {
                    assert(!dense_wf(vview(*v)));
                }
                return Err(DataError::OutOfBounds);
            }
            mp_write_str(out, s.as_str());
            proof {
                assert(out@ == pre0 + fb_bytes(vview(*v)));
                assert(dense_wf(vview(*v)));
            }
            Ok(())
        },
        Value::Bytes(b) => {
            if b.len() as u64 >= 0x1_0000_0000u64 {
                proof {
                    assert(!dense_wf(vview(*v)));
                }
                return Err(DataError::OutOfBounds);
            }
            mp_write_bin(out, b.as_slice());
            proof {
                assert(out@ == pre0 + fb_bytes(vview(*v)));
                assert(dense_wf(vview(*v)));
            }
            Ok(())
        },
        Value::Unit => {
            mp_write_nil(out);
            proof {
                assert(out@ == pre0 + fb_bytes(vview(*v)));
                assert(dense_wf(vview(*v)));
            }
            Ok(())
        },
        Value::Opt(o) => match o {
            None => {
                mp_write_nil(out);
                proof {
                    assert(out@ == pre0 + fb_bytes(vview(*v)));
                    assert(dense_wf(vview(*v)));
                }
                Ok(())
            },
            Some(x) => match fb_encode(out, x) {
                Ok(()) => {
                    proof {
                        assert(out@ == pre0 + fb_bytes(vview(*v)));
                        assert(dense_wf(vview(*v)));
                    }
                    Ok(())
                },
                Err(e) => {
                    proof {
                        assert(!dense_wf(vview(*v)));
                    }
                    Err(e)
                },
            },
        },
        Value::List(vs) => {
            let ghost pre = out@;
            if vs.len() as u64 >= 0x1_0000_0000u64 {
                proof {
                    assert(vviews(vs@).len() == vs@.len());
                    assert(!dense_wf(vview(*v)));
                }
                return Err(DataError::OutOfBounds);
            }
            mp_write_array_len(out, vs.len() as u32);
            match fb_encode_elems(out, vs) {
                Ok(()) => {
                    proof {
                        assert(out@ =~= pre + fb_bytes(vview(*v)));
                        assert(dense_wf(vview(*v)));
                    }
                    Ok(())
                },
                Err(e) => {
                    proof {
                        assert(pre.is_prefix_of(out@));
                    }
                    Err(e)
                },
            }
        },
        Value::Dict(ps) => {
            let ghost pre = out@;
            if ps.len() as u64 >= 0x1_0000_0000u64 {
                proof {
                    assert(pair_views(ps@).len() == ps@.len());
                    assert(!dense_wf(vview(*v)));
                }
                return Err(DataError::OutOfBounds);
            }
            mp_write_map_len(out, ps.len() as u32);
            match fb_encode_pairs(out, ps) {
                Ok(()) => {
                    proof {
                        assert(out@ =~= pre + fb_bytes(vview(*v)));
                        assert(dense_wf(vview(*v)));
                    }
                    Ok(())
                },
                Err(e) => {
                    proof {
                        assert(!dense_wf(vview(*v)));
                        assert(pre.is_prefix_of(out@));
                    }
                    Err(e)
                },
            }
        },
        Value::EnumUnit(nm) => {
            if nm.as_str().as_bytes().len() as u64 >= 0x1_0000_0000u64 {
                proof {
                    assert(!dense_wf(vview(*v)));
                }
                return Err(DataError::OutOfBounds);
            }
            mp_write_str(out, nm.as_str());
            proof {
                assert(out@ == pre0 + fb_bytes(vview(*v)));
                assert(dense_wf(vview(*v)));
            }
            Ok(())
        },
        Value::EnumNewtype(nm, x) => {
            let ghost pre = out@;
            if nm.as_str().as_bytes().len() as u64 >= 0x1_0000_0000u64 {
                proof {
                    assert(!dense_wf(vview(*v)));
                }
                return Err(DataError::OutOfBounds);
            }
            mp_write_map_len(out, 1);
            mp_write_str(out, nm.as_str());
            match fb_encode(out, x) {
                Ok(()) => {
                    proof {
                        assert(out@ =~= pre + fb_bytes(vview(*v)));
                        assert(dense_wf(vview(*v)));
                    }
                    Ok(())
                },
                Err(e) => {
                    proof {
                        assert(pre.is_prefix_of(out@));
                    }
                    Err(e)
                },
            }
        },
        Value::EnumFields(nm, xs) => {
            let ghost pre = out@;
            if nm.as_str().as_bytes().len() as u64 >= 0x1_0000_0000u64 {
                proof {
                    assert(!dense_wf(vview(*v)));
                }
                return Err(DataError::OutOfBounds);
            }
            if xs.len() as u64 >= 0x1_0000_0000u64 {
                proof {
                    assert(vviews(xs@).len() == xs@.len());
                    assert(!dense_wf(vview(*v)));
                }
                return Err(DataError::OutOfBounds);
            }
            mp_write_map_len(out, 1);
            mp_write_str(out, nm.as_str());
            mp_write_array_len(out, xs.len() as u32);
            match fb_encode_elems(out, xs) {
                Ok(()) => {
                    proof {
                        assert(out@ =~= pre + fb_bytes(vview(*v)));
                        assert(dense_wf(vview(*v)));
                    }
                    Ok(())
                },
                Err(e) => {
                    proof {
                        assert(pre.is_prefix_of(out@));
                    }
                    Err(e)
                },
            }
        },
    }
}

/// Append the fallback encodings of all the values, in order.
fn fb_encode_elems(out: &mut Vec<u8>, vs: &Vec<Value>) -> (r: Result<(), DataError>)
    ensures
        match r {
            Ok(()) => seq_dense_wf(vviews(vs@)) && final(out)@ == old(out)@ + fb_bytes_seq(
                vviews(vs@),
                0,
            ),
            Err(e) => !seq_dense_wf(vviews(vs@)) && e == DataError::OutOfBounds && old(out)@.is_prefix_of(final(out)@),
        },
    decreases vs@, 1int,
{
    let ghost pre = old(out)@;
    let ghost vv = vviews(vs@);
    let n = vs.len();
    let mut i: usize = 0;
    while i < n
        invariant
            n == vs@.len(),
            i <= n,
            vv == vviews(vs@),
            vv.len() == n,
            pre == old(out)@,
            pre + fb_bytes_seq(vv, 0) =~= out@ + fb_bytes_seq(vv, i as int),
            pre.is_prefix_of(out@),
            forall|l: int| 0 <= l < i ==> dense_wf(#[trigger] vv[l]),
        decreases n - i,
    {
        let ghost mid = out@;
        match fb_encode(out, &vs[i]) {
            Ok(()) => {
                proof {
                    assert(vv[i as int] == vview(vs@[i as int]));
                    assert(fb_bytes_seq(vv, i as int) =~= fb_bytes(vv[i as int]) + fb_bytes_seq(
                        vv,
                        i + 1,
                    ));
                    assert(pre + fb_bytes_seq(vv, 0) =~= (mid + fb_bytes(vv[i as int]))
                        + fb_bytes_seq(vv, i + 1));
                    assert(pre.is_prefix_of(out@)) by {
                        assert(mid.is_prefix_of(out@));
                    };
                }
            },
            Err(e) => {
                proof {
                    assert(!dense_wf(vv[i as int]));
                    assert(!seq_dense_wf(vv));
                    assert(pre.is_prefix_of(out@)) by {
                        assert(mid.is_prefix_of(out@));
                    };
                }
                return Err(e);
            },
        }
        i = i + 1;
    }
    proof {
        assert(fb_bytes_seq(vv, n as int) =~= Seq::<u8>::empty());
        assert(out@ =~= out@ + fb_bytes_seq(vv, n as int));
        assert(out@ =~= pre + fb_bytes_seq(vv, 0));
    }
    Ok(())
}

/// Append the fallback encodings of all the pairs, key before value.
fn fb_encode_pairs(out: &mut Vec<u8>, ps: &Vec<(Value, Value)>) -> (r: Result<(), DataError>)
    ensures
        match r {
            Ok(()) => pairs_dense_wf(pair_views(ps@)) && final(out)@ == old(out)@ + fb_bytes_pairs(
                pair_views(ps@),
                0,
            ),
            Err(e) => !pairs_dense_wf(pair_views(ps@)) && e == DataError::OutOfBounds && old(out)@.is_prefix_of(final(out)@),
        },
    decreases ps@, 1int,
{
    let ghost pre = old(out)@;
    let ghost pv = pair_views(ps@);
    let n = ps.len();
    let mut i: usize = 0;
    while i < n
        invariant
            n == ps@.len(),
            i <= n,
            pv == pair_views(ps@),
            pv.len() == n,
            pre == old(out)@,
            pre + fb_bytes_pairs(pv, 0) =~= out@ + fb_bytes_pairs(pv, i as int),
            pre.is_prefix_of(out@),
            forall|l: int| 0 <= l < i ==> dense_wf(#[trigger] pv[l].0) && dense_wf(pv[l].1),
        decreases n - i,
    {
        let ghost mid = out@;
        proof {
            assert(pv[i as int] == (vview(ps@[i as int].0), vview(ps@[i as int].1)));
            assert(fb_bytes_pairs(pv, i as int) =~= (fb_bytes(pv[i as int].0) + fb_bytes(
                pv[i as int].1,
            )) + fb_bytes_pairs(pv, i + 1));
        }
        match fb_encode(out, &ps[i].0) {
            Ok(()) => {},
            Err(e) => {
                proof {
                    assert(!pairs_dense_wf(pv));
                    assert(pre.is_prefix_of(out@)) by {
                        assert(mid.is_prefix_of(out@));
                    };
                }
                return Err(e);
            },
        }
        match fb_encode(out, &ps[i].1) {
            Ok(()) => {
                proof {
                    assert(out@ =~= mid + (fb_bytes(pv[i as int].0) + fb_bytes(pv[i as int].1)));
                    assert(pre + fb_bytes_pairs(pv, 0) =~= (mid + (fb_bytes(pv[i as int].0)
                        + fb_bytes(pv[i as int].1))) + fb_bytes_pairs(pv, i + 1));
                    assert(pre.is_prefix_of(out@)) by {
                        assert(mid.is_prefix_of(out@));
                    };
                }
            },
            Err(e) => {
                proof {
                    assert(!pairs_dense_wf(pv));
                    assert(pre.is_prefix_of(out@)) by {
                        assert(mid.is_prefix_of(out@));
                    };
                }
                return Err(e);
            },
        }
        i = i + 1;
    }
    proof {
        assert(fb_bytes_pairs(pv, n as int) =~= Seq::<u8>::empty());
        assert(out@ =~= out@ + fb_bytes_pairs(pv, n as int));
        assert(out@ =~= pre + fb_bytes_pairs(pv, 0));
    }
    Ok(())
}

} // verus!

verus! {

/// Relies on `rmp::decode::read_nil`: succeeds exactly on the nil
/// marker `0xc0`, consuming that one byte.
#[verifier::external_body]
fn mp_read_nil(input: &[u8], at: usize) -> (r: bool)
    requires
        at <= input@.len(),
    ensures
        r == (at < input@.len() && input@[at as int] == 0xc0),
{
    let mut rd: &[u8] = &input[at..];
    rmp::decode::read_nil(&mut rd).is_ok()
}

/// Relies on `rmp::decode::read_bool`: succeeds exactly on the two
/// boolean markers, `0xc3` as true and `0xc2` as false.
#[verifier::external_body]
fn mp_read_bool(input: &[u8], at: usize) -> (r: Option<bool>)
    requires
        at <= input@.len(),
    ensures
        at < input@.len() && input@[at as int] == 0xc3 ==> r == Some(true),
        at < input@.len() && input@[at as int] == 0xc2 ==> r == Some(false),
        !(at < input@.len() && (input@[at as int] == 0xc3 || input@[at as int] == 0xc2)) ==> r
            is None,
{
    let mut rd: &[u8] = &input[at..];
    rmp::decode::read_bool(&mut rd).ok()
}

/// Relies on `rmp::decode::read_int`: parses the MessagePack integer
/// at the front; on the bytes `write_uint` emits for `n` it returns
/// `n` and consumes exactly those bytes.
#[verifier::external_body]
fn mp_read_uint(input: &[u8], at: usize) -> (r: Option<(u64, usize)>)
    requires
        at <= input@.len(),
    ensures
        r matches Some(p) ==> at < p.1 <= input@.len(),
        forall|n: u64| #[trigger]
            mp_uint(n).is_prefix_of(input@.skip(at as int)) ==> r == Some(
                (n, (at + mp_uint(n).len()) as usize),
            ),
{
    let mut rd: &[u8] = &input[at..];
    match rmp::decode::read_int::<u64, _>(&mut rd) {
        Ok(n) => Some((n, input.len() - rd.len())),
        Err(_) => None,
    }
}

/// Relies on `rmp::decode::read_int`: on the bytes `write_sint` emits
/// for `n` it returns `n` and consumes exactly those bytes.
#[verifier::external_body]
fn mp_read_sint(input: &[u8], at: usize) -> (r: Option<(i64, usize)>)
    requires
        at <= input@.len(),
    ensures
        r matches Some(p) ==> at < p.1 <= input@.len(),
        forall|n: i64| #[trigger]
            mp_sint(n).is_prefix_of(input@.skip(at as int)) ==> r == Some(
                (n, (at + mp_sint(n).len()) as usize),
            ),
{
    let mut rd: &[u8] = &input[at..];
    match rmp::decode::read_int::<i64, _>(&mut rd) {
        Ok(n) => Some((n, input.len() - rd.len())),
        Err(_) => None,
    }
}

/// What reading a MessagePack string promises: the position moves
/// forward within bounds, and on the bytes `write_str` emits for some
/// characters, exactly those characters come back.
pub open spec fn mp_str_read_ok(input: Seq<u8>, at: int, r: Option<(String, usize)>) -> bool {
    &&& r matches Some(p) ==> at < p.1 <= input.len()
    &&& forall|cs: Seq<char>|
        vstd::utf8::encode_utf8(cs).len() < 0x1_0000_0000 && (#[trigger] mp_str(
            cs,
        )).is_prefix_of(input.skip(at)) ==> (r matches Some(p) && p.0@ == cs && p.1 == at
            + mp_str(cs).len())
    &&& forall|n: u32|
        (#[trigger] mp_map(n)).is_prefix_of(input.skip(at)) ==> r is None
}

/// Relies on `rmp::decode::read_str_from_slice`: parses the string at
/// the front, validating UTF-8; on the bytes `write_str` emits for a
/// string it gives those characters back, consuming exactly its bytes,
/// and on a map header it fails, since map markers are not string
/// markers.
#[verifier::external_body]
fn mp_read_str(input: &[u8], at: usize) -> (r: Option<(String, usize)>)
    requires
        at <= input@.len(),
    ensures
        mp_str_read_ok(input@, at as int, r),
{
    match rmp::decode::read_str_from_slice(&input[at..]) {
        Ok((s, tail)) => Some((s.to_owned(), input.len() - tail.len())),
        Err(_) => None,
    }
}

/// Relies on `rmp::decode::read_bin_len`: parses the byte-string
/// header at the front; on the bytes `write_bin` emits the announced
/// length is the body length and the body follows the header.
#[verifier::external_body]
fn mp_read_bin_start(input: &[u8], at: usize) -> (r: Option<(u32, usize)>)
    requires
        at <= input@.len(),
    ensures
        r matches Some(p) ==> at < p.1 <= input@.len(),
        forall|bs: Seq<u8>|
            bs.len() < 0x1_0000_0000 && (#[trigger] mp_bin(bs)).is_prefix_of(
                input@.skip(at as int),
            ) ==> r == Some((bs.len() as u32, (at + mp_bin(bs).len() - bs.len()) as usize)),
{
    let mut rd: &[u8] = &input[at..];
    match rmp::decode::read_bin_len(&mut rd) {
        Ok(n) => Some((n, input.len() - rd.len())),
        Err(_) => None,
    }
}

/// Relies on `rmp::decode::read_array_len`: parses the array header
/// at the front; on the bytes `write_array_len` emits for `n` it
/// returns `n`, consuming exactly the header.
#[verifier::external_body]
fn mp_read_array_len_at(input: &[u8], at: usize) -> (r: Option<(u32, usize)>)
    requires
        at <= input@.len(),
    ensures
        r matches Some(p) ==> at < p.1 <= input@.len(),
        forall|n: u32| #[trigger]
            mp_arr(n).is_prefix_of(input@.skip(at as int)) ==> r == Some(
                (n, (at + mp_arr(n).len()) as usize),
            ),
{
    let mut rd: &[u8] = &input[at..];
    match rmp::decode::read_array_len(&mut rd) {
        Ok(n) => Some((n, input.len() - rd.len())),
        Err(_) => None,
    }
}

/// Relies on `rmp::decode::read_map_len`: parses the map header at
/// the front; on the bytes `write_map_len` emits for `n` it returns
/// `n`, consuming exactly the header.
#[verifier::external_body]
fn mp_read_map_len_at(input: &[u8], at: usize) -> (r: Option<(u32, usize)>)
    requires
        at <= input@.len(),
    ensures
        r matches Some(p) ==> at < p.1 <= input@.len(),
        forall|n: u32| #[trigger]
            mp_map(n).is_prefix_of(input@.skip(at as int)) ==> r == Some(
                (n, (at + mp_map(n).len()) as usize),
            ),
{
    let mut rd: &[u8] = &input[at..];
    match rmp::decode::read_map_len(&mut rd) {
        Ok(n) => Some((n, input.len() - rd.len())),
        Err(_) => None,
    }
}

/// What the fallback decoder owes for shape `s` on input `rest`: any
/// well-formed, option-decodable value of the shape whose encoding
/// starts `rest` must come back, with exactly its bytes consumed.
pub open spec fn fb_target(w: ValueV, s: ShapeV, rest: Seq<u8>) -> bool {
    fits(w, s) && dense_wf(w) && fb_opt_ok(w) && fb_bytes(w).is_prefix_of(rest)
}

/// The element-sequence form of `fb_target`, for `n` list elements of
/// shape `e`.
pub open spec fn fb_target_seq(ws: Seq<ValueV>, e: ShapeV, n: int, rest: Seq<u8>) -> bool {
    ws.len() == n && seq_fits_elem(ws, e) && seq_dense_wf(ws) && seq_fb_opt_ok(ws)
        && fb_bytes_seq(ws, 0).is_prefix_of(rest)
}

/// The positional-fields form of `fb_target`, from field `i` on.
pub open spec fn fb_target_fields(ws: Seq<ValueV>, ss: Seq<ShapeV>, i: int, rest: Seq<u8>) -> bool {
    ws.len() == ss.len() && seq_fits_zip(ws, ss) && seq_dense_wf(ws) && seq_fb_opt_ok(ws)
        && fb_bytes_seq(ws, i).is_prefix_of(rest)
}

/// The key-value-pairs form of `fb_target`, for `n` pairs.
pub open spec fn fb_target_pairs(
    ps: Seq<(ValueV, ValueV)>,
    ks: ShapeV,
    xs: ShapeV,
    n: int,
    rest: Seq<u8>,
) -> bool {
    ps.len() == n && pairs_fit(ps, ks, xs) && pairs_dense_wf(ps) && pairs_fb_opt_ok(ps)
        && fb_bytes_pairs(ps, 0).is_prefix_of(rest)
}

/// Decode one fallback value of shape `s` starting at `at`, giving
/// the value and the position after it. Any well-formed value of the
/// shape whose encoding starts here comes back exactly, with exactly
/// its bytes consumed. An open-ended target fails with
/// `ShapeUnsupported`, bytes that do not carry the shape with
/// `InvalidEncoding` or `UnexpectedEnd`.
#[verifier::rlimit(100)]
#[verifier::spinoff_prover]
pub fn fb_decode(input: &[u8], at: usize, s: &Shape) -> (r: Result<(Value, usize), DataError>)
    requires
        at <= input@.len(),
    ensures
        r matches Ok(p) ==> at <= p.1 <= input@.len(),
        forall|w: ValueV| #[trigger]
            fb_target(w, sview(*s), input@.skip(at as int)) ==> (r matches Ok(p) && vview(p.0)
                == w && p.1 == at + fb_bytes(w).len()),
    decreases *s, 0x1_0000_0000int, 1int,
{
    let total_len = input.len();
    let ghost rest = input@.skip(at as int);
    match s {
        Shape::Bool => match mp_read_bool(input, at) {
            Some(b) => {
                let total = input.len();
                proof {
                    assert(at < total);
                    assert forall|w: ValueV| #[trigger]
                        fb_target(w, sview(*s), rest) implies w == ValueV::Bool(b) && fb_bytes(
                        w,
                    ).len() == 1 by {
                        match w {
                            ValueV::Bool(b0) => {
                                assert(fb_bytes(w)[0] == rest[0]);
                            },
                            _ => {},
                        }
                    }
                }
                Ok((Value::Bool(b), at + 1))
            },
            None => {
                proof {
                    assert forall|w: ValueV| #[trigger]
                        fb_target(w, sview(*s), rest) implies false by {
                        match w {
                            ValueV::Bool(b0) => {
                                assert(fb_bytes(w)[0] == rest[0]);
                            },
                            _ => {},
                        }
                    }
                }
                Err(DataError::InvalidEncoding)
            },
        },
        Shape::U8 => fb_decode_uint(input, at, s),
        Shape::U16 => fb_decode_uint(input, at, s),
        Shape::U32 => fb_decode_uint(input, at, s),
        Shape::U64 => fb_decode_uint(input, at, s),
        Shape::I8 => fb_decode_sint(input, at, s),
        Shape::I16 => fb_decode_sint(input, at, s),
        Shape::I32 => fb_decode_sint(input, at, s),
        Shape::I64 => fb_decode_sint(input, at, s),
        Shape::F32Bits => fb_decode_f32(input, at),
        Shape::F64Bits => fb_decode_f64(input, at),
        Shape::Str => match mp_read_str(input, at) {
            Some((t, p)) => {
                proof {
                    assert forall|w: ValueV| #[trigger]
                        fb_target(w, sview(*s), rest) implies w == ValueV::Str(t@) && p == at
                        + fb_bytes(w).len() by {
                        match w {
                            ValueV::Str(cs) => {
                                assert(mp_str(cs).is_prefix_of(rest));
                            },
                            _ => {},
                        }
                    }
                }
                Ok((Value::Str(t), p))
            },
            None => {
                proof {
                    assert forall|w: ValueV| #[trigger]
                        fb_target(w, sview(*s), rest) implies false by {
                        match w {
                            ValueV::Str(cs) => {
                                assert(mp_str(cs).is_prefix_of(rest));
                            },
                            _ => {},
                        }
                    }
                }
                Err(DataError::InvalidEncoding)
            },
        },
        Shape::Bytes => match mp_read_bin_start(input, at) {
            Some((n, p)) => {
                let n = n as usize;
                if n > input.len() - p {
                    proof {
                        assert forall|w: ValueV| #[trigger]
                            fb_target(w, sview(*s), rest) implies false by {
                            match w {
                                ValueV::Bytes(bs) => {
                                    assert(mp_bin(bs).is_prefix_of(rest));
                                },
                                _ => {},
                            }
                        }
                    }
                    return Err(DataError::UnexpectedEnd);
                }
                let body = vstd::slice::slice_subrange(input, p, p + n);
                proof {
                    assert forall|w: ValueV| #[trigger]
                        fb_target(w, sview(*s), rest) implies w == ValueV::Bytes(body@) && p + n
                        == at + fb_bytes(w).len() by {
                        match w {
                            ValueV::Bytes(bs) => {
                                assert(mp_bin(bs).is_prefix_of(rest));
                                assert(body@ =~= bs) by {
                                    assert forall|j: int| 0 <= j < bs.len() implies body@[j]
                                        == bs[j] by {
                                        assert(body@[j] == input@[p + j]);
                                        assert(input@[p + j] == rest[p - at + j]);
                                        assert(rest[p - at + j] == mp_bin(bs)[mp_bin(bs).len()
                                            - bs.len() + j]);
                                    }
                                };
                            },
                            _ => {},
                        }
                    }
                }
                Ok((Value::Bytes(vstd::slice::slice_to_vec(body)), p + n))
            },
            None => {
                proof {
                    assert forall|w: ValueV| #[trigger]
                        fb_target(w, sview(*s), rest) implies false by {
                        match w {
                            ValueV::Bytes(bs) => {
                                assert(mp_bin(bs).is_prefix_of(rest));
                            },
                            _ => {},
                        }
                    }
                }
                Err(DataError::InvalidEncoding)
            },
        },
        Shape::Unit => {
            if mp_read_nil(input, at) {
                let total = input.len();
                proof {
                    assert(at < total);
                }
                Ok((Value::Unit, at + 1))
            } else {
                proof {
                    assert forall|w: ValueV| #[trigger]
                        fb_target(w, sview(*s), rest) implies false by {
                        match w {
                            ValueV::Unit => {
                                assert(fb_bytes(w)[0] == rest[0]);
                            },
                            _ => {},
                        }
                    }
                }
                Err(DataError::InvalidEncoding)
            }
        },
        Shape::Optional(inner) => {
            if mp_read_nil(input, at) {
                let total = input.len();
                proof {
                    assert(at < total);
                    assert forall|w: ValueV| #[trigger]
                        fb_target(w, sview(*s), rest) implies w == ValueV::Opt(
                        None::<Box<ValueV>>,
                    ) && fb_bytes(w).len() == 1 by {
                        match w {
                            ValueV::Opt(o) => match o {
                                Some(x) => {
                                    lemma_fb_head(*x);
                                    assert(fb_bytes(w)[0] == rest[0]);
                                },
                                None => {},
                            },
                            _ => {},
                        }
                    }
                }
                Ok((Value::Opt(None), at + 1))
            } else {
                match fb_decode(input, at, inner) {
                    Ok((x, p)) => {
                        proof {
                            assert forall|w: ValueV| #[trigger]
                                fb_target(w, sview(*s), rest) implies (w matches ValueV::Opt(o)
                                && o matches Some(wx) && vview(x) == *wx && p == at + fb_bytes(
                                w,
                            ).len()) by {
                                match w {
                                    ValueV::Opt(o) => match o {
                                        None => {
                                            assert(fb_bytes(w)[0] == rest[0]);
                                        },
                                        Some(wx) => {
                                            assert(fb_target(*wx, sview(**inner), rest));
                                        },
                                    },
                                    _ => {},
                                }
                            }
                        }
                        Ok((Value::Opt(Some(Box::new(x))), p))
                    },
                    Err(e) => {
                        proof {
                            assert forall|w: ValueV| #[trigger]
                                fb_target(w, sview(*s), rest) implies false by {
                                match w {
                                    ValueV::Opt(o) => match o {
                                        None => {
                                            assert(fb_bytes(w)[0] == rest[0]);
                                        },
                                        Some(wx) => {
                                            assert(fb_target(*wx, sview(**inner), rest));
                                        },
                                    },
                                    _ => {},
                                }
                            }
                        }
                        Err(e)
                    },
                }
            }
        },
        Shape::List(_) => match mp_read_array_len_at(input, at) {
            Some((n, p)) => {
                proof {
                    assert forall|w: ValueV| #[trigger]
                        fb_target(w, sview(*s), rest) implies (w matches ValueV::List(ws)
                        && ws.len() < 0x1_0000_0000 && n == ws.len() as u32 && p == at + mp_arr(
                        ws.len() as u32,
                    ).len() && fb_target_seq(ws, *sview(*s)->List_0, n as int, input@.skip(
                        p as int,
                    ))) by {
                        let ws = w->List_0;
                        lemma_prefix_concat(mp_arr(ws.len() as u32), fb_bytes_seq(ws, 0), rest);
                        crate::wire::lemma_skip_of_skip(input@, at as int, p - at);
                    }
                }
                match fb_decode_elems(input, p, s, n) {
                    Ok((out, p2)) => Ok((Value::List(out), p2)),
                    Err(e) => Err(e),
                }
            },
            None => {
                proof {
                    assert forall|w: ValueV| #[trigger]
                        fb_target(w, sview(*s), rest) implies false by {
                        match w {
                            ValueV::List(ws) => {
                                lemma_prefix_concat(mp_arr(ws.len() as u32), fb_bytes_seq(ws, 0),
                                    rest);
                            },
                            _ => {},
                        }
                    }
                }
                Err(DataError::InvalidEncoding)
            },
        },
        Shape::Tuple(ss) => fb_decode_tuple_like(input, at, s, ss),
        Shape::Record(ss) => fb_decode_tuple_like(input, at, s, ss),
        Shape::Dict(_, _) => match mp_read_map_len_at(input, at) {
            Some((n, p)) => {
                proof {
                    assert forall|w: ValueV| #[trigger]
                        fb_target(w, sview(*s), rest) implies (w matches ValueV::Dict(ps)
                        && ps.len() < 0x1_0000_0000 && n == ps.len() as u32 && p == at + mp_map(
                        ps.len() as u32,
                    ).len() && fb_target_pairs(
                        ps,
                        *sview(*s)->Dict_0,
                        *sview(*s)->Dict_1,
                        n as int,
                        input@.skip(p as int),
                    )) by {
                        match w {
                            ValueV::Dict(ps) => {
                                lemma_prefix_concat(mp_map(ps.len() as u32), fb_bytes_pairs(
                                    ps,
                                    0,
                                ), rest);
                                crate::wire::lemma_skip_of_skip(input@, at as int, p - at);
                            },
                            _ => {},
                        }
                    }
                }
                match fb_decode_pairs(input, p, s, n) {
                    Ok((out, p2)) => Ok((Value::Dict(out), p2)),
                    Err(e) => Err(e),
                }
            },
            None => {
                proof {
                    assert forall|w: ValueV| #[trigger]
                        fb_target(w, sview(*s), rest) implies false by {
                        match w {
                            ValueV::Dict(ps) => {
                                lemma_prefix_concat(mp_map(ps.len() as u32), fb_bytes_pairs(
                                    ps,
                                    0,
                                ), rest);
                            },
                            _ => {},
                        }
                    }
                }
                Err(DataError::InvalidEncoding)
            },
        },
        Shape::Choice(_) => fb_decode_choice(input, at, s),
        Shape::Any => {
            proof {
                assert forall|w: ValueV| #[trigger] fb_target(w, sview(*s), rest) implies false by {
                }
            }
            Err(DataError::ShapeUnsupported)
        },
    }
}

/// Decode an unsigned integer target of any width.
#[verifier::rlimit(100)]
#[verifier::spinoff_prover]
fn fb_decode_uint(input: &[u8], at: usize, s: &Shape) -> (r: Result<(Value, usize), DataError>)
    requires
        at <= input@.len(),
        sview(*s) is U8 || sview(*s) is U16 || sview(*s) is U32 || sview(*s) is U64,
    ensures
        r matches Ok(p) ==> at <= p.1 <= input@.len(),
        forall|w: ValueV| #[trigger]
            fb_target(w, sview(*s), input@.skip(at as int)) ==> (r matches Ok(p) && vview(p.0)
                == w && p.1 == at + fb_bytes(w).len()),
{
    let total_len = input.len();
    let ghost rest = input@.skip(at as int);
    proof {
        assert forall|w: ValueV| #[trigger]
            fb_target(w, sview(*s), rest) implies fb_bytes(w) == mp_uint(fb_uint_of(w)) && mp_uint(
            fb_uint_of(w),
        ).is_prefix_of(rest) && fb_uint_in_range(w, sview(*s)) by {
            match w {
                ValueV::U8(n0) => {},
                ValueV::U16(n0) => {},
                ValueV::U32(n0) => {},
                ValueV::U64(n0) => {},
                _ => {},
            }
        }
    }
    match mp_read_uint(input, at) {
        Some((n, p)) => {
            match s {
                Shape::U8 => {
                    if n > u8::MAX as u64 {
                        return Err(DataError::InvalidEncoding);
                    }
                    Ok((Value::U8(n as u8), p))
                },
                Shape::U16 => {
                    if n > u16::MAX as u64 {
                        return Err(DataError::InvalidEncoding);
                    }
                    Ok((Value::U16(n as u16), p))
                },
                Shape::U32 => {
                    if n > u32::MAX as u64 {
                        return Err(DataError::InvalidEncoding);
                    }
                    Ok((Value::U32(n as u32), p))
                },
                _ => Ok((Value::U64(n), p)),
            }
        },
        None => Err(DataError::InvalidEncoding),
    }
}

/// The numeric payload of an unsigned value, as 64 bits.
pub open spec fn fb_uint_of(w: ValueV) -> u64 {
    match w {
        ValueV::U8(n) => n as u64,
        ValueV::U16(n) => n as u64,
        ValueV::U32(n) => n as u64,
        ValueV::U64(n) => n,
        _ => 0,
    }
}

/// Whether the unsigned value's payload fits the unsigned shape.
pub open spec fn fb_uint_in_range(w: ValueV, s: ShapeV) -> bool {
    match s {
        ShapeV::U8 => w is U8,
        ShapeV::U16 => w is U16,
        ShapeV::U32 => w is U32,
        ShapeV::U64 => w is U64,
        _ => false,
    }
}

/// Decode a signed integer target of any width.
#[verifier::rlimit(100)]
#[verifier::spinoff_prover]
fn fb_decode_sint(input: &[u8], at: usize, s: &Shape) -> (r: Result<(Value, usize), DataError>)
    requires
        at <= input@.len(),
        sview(*s) is I8 || sview(*s) is I16 || sview(*s) is I32 || sview(*s) is I64,
    ensures
        r matches Ok(p) ==> at <= p.1 <= input@.len(),
        forall|w: ValueV| #[trigger]
            fb_target(w, sview(*s), input@.skip(at as int)) ==> (r matches Ok(p) && vview(p.0)
                == w && p.1 == at + fb_bytes(w).len()),
{
    let total_len = input.len();
    let ghost rest = input@.skip(at as int);
    proof {
        assert forall|w: ValueV| #[trigger]
            fb_target(w, sview(*s), rest) implies fb_bytes(w) == mp_sint(fb_sint_of(w)) && mp_sint(
            fb_sint_of(w),
        ).is_prefix_of(rest) && fb_sint_in_range(w, sview(*s)) by {
            match w {
                ValueV::I8(n0) => {},
                ValueV::I16(n0) => {},
                ValueV::I32(n0) => {},
                ValueV::I64(n0) => {},
                _ => {},
            }
        }
    }
    match mp_read_sint(input, at) {
        Some((n, p)) => {
            match s {
                Shape::I8 => {
                    if n < i8::MIN as i64 || n > i8::MAX as i64 {
                        return Err(DataError::InvalidEncoding);
                    }
                    Ok((Value::I8(#[verifier::truncate] (n as i8)), p))
                },
                Shape::I16 => {
                    if n < i16::MIN as i64 || n > i16::MAX as i64 {
                        return Err(DataError::InvalidEncoding);
                    }
                    Ok((Value::I16(#[verifier::truncate] (n as i16)), p))
                },
                Shape::I32 => {
                    if n < i32::MIN as i64 || n > i32::MAX as i64 {
                        return Err(DataError::InvalidEncoding);
                    }
                    Ok((Value::I32(#[verifier::truncate] (n as i32)), p))
                },
                _ => Ok((Value::I64(n), p)),
            }
        },
        None => Err(DataError::InvalidEncoding),
    }
}

/// Whether the signed value's payload matches the signed shape.
pub open spec fn fb_sint_in_range(w: ValueV, s: ShapeV) -> bool {
    match s {
        ShapeV::I8 => w is I8,
        ShapeV::I16 => w is I16,
        ShapeV::I32 => w is I32,
        ShapeV::I64 => w is I64,
        _ => false,
    }
}

/// The numeric payload of a signed value, as 64 bits.
pub open spec fn fb_sint_of(w: ValueV) -> i64 {
    match w {
        ValueV::I8(n) => n as i64,
        ValueV::I16(n) => n as i64,
        ValueV::I32(n) => n as i64,
        ValueV::I64(n) => n,
        _ => 0,
    }
}

/// Decode the `0xca` float marker and four bits bytes.
fn fb_decode_f32(input: &[u8], at: usize) -> (r: Result<(Value, usize), DataError>)
    requires
        at <= input@.len(),
    ensures
        r matches Ok(p) ==> at <= p.1 <= input@.len(),
        forall|b: u32| (#[trigger] mp_f32(b)).is_prefix_of(input@.skip(at as int)) ==> r
            == Ok::<(Value, usize), DataError>((Value::F32Bits(b), (at + 5) as usize)),
{
    if input.len() - at < 5 {
        return Err(DataError::UnexpectedEnd);
    }
    if *vstd::slice::slice_index_get(input, at) != 0xca {
        return Err(DataError::InvalidEncoding);
    }
    let b0 = *vstd::slice::slice_index_get(input, at + 1) as u32;
    let b1 = *vstd::slice::slice_index_get(input, at + 2) as u32;
    let b2 = *vstd::slice::slice_index_get(input, at + 3) as u32;
    let b3 = *vstd::slice::slice_index_get(input, at + 4) as u32;
    let bits = b0 * 0x100_0000 + b1 * 0x1_0000 + b2 * 0x100 + b3;
    proof {
        assert forall|b: u32| (#[trigger] mp_f32(b)).is_prefix_of(input@.skip(at as int)) implies b
            == bits by {
            assert(input@.skip(at as int)[1] == input@[at + 1]);
            assert(input@.skip(at as int)[2] == input@[at + 2]);
            assert(input@.skip(at as int)[3] == input@[at + 3]);
            assert(input@.skip(at as int)[4] == input@[at + 4]);
            assert(b == (b / 0x100_0000) * 0x100_0000 + ((b / 0x1_0000) % 0x100) * 0x1_0000 + ((b
                / 0x100) % 0x100) * 0x100 + (b % 0x100)) by (bit_vector);
        }
    }
    Ok((Value::F32Bits(bits), at + 5))
}

/// Decode the `0xcb` float marker and eight bits bytes.
fn fb_decode_f64(input: &[u8], at: usize) -> (r: Result<(Value, usize), DataError>)
    requires
        at <= input@.len(),
    ensures
        r matches Ok(p) ==> at <= p.1 <= input@.len(),
        forall|b: u64| (#[trigger] mp_f64(b)).is_prefix_of(input@.skip(at as int)) ==> r
            == Ok::<(Value, usize), DataError>((Value::F64Bits(b), (at + 9) as usize)),
{
    if input.len() - at < 9 {
        return Err(DataError::UnexpectedEnd);
    }
    if *vstd::slice::slice_index_get(input, at) != 0xcb {
        return Err(DataError::InvalidEncoding);
    }
    let b0 = *vstd::slice::slice_index_get(input, at + 1) as u64;
    let b1 = *vstd::slice::slice_index_get(input, at + 2) as u64;
    let b2 = *vstd::slice::slice_index_get(input, at + 3) as u64;
    let b3 = *vstd::slice::slice_index_get(input, at + 4) as u64;
    let b4 = *vstd::slice::slice_index_get(input, at + 5) as u64;
    let b5 = *vstd::slice::slice_index_get(input, at + 6) as u64;
    let b6 = *vstd::slice::slice_index_get(input, at + 7) as u64;
    let b7 = *vstd::slice::slice_index_get(input, at + 8) as u64;
    let mut bits: u64 = b0;
    bits = bits * 256 + b1;
    bits = bits * 256 + b2;
    bits = bits * 256 + b3;
    bits = bits * 256 + b4;
    bits = bits * 256 + b5;
    bits = bits * 256 + b6;
    bits = bits * 256 + b7;
    proof {
        assert forall|b: u64| (#[trigger] mp_f64(b)).is_prefix_of(input@.skip(at as int)) implies b
            == bits by {
            assert(input@.skip(at as int)[1] == input@[at + 1]);
            assert(input@.skip(at as int)[2] == input@[at + 2]);
            assert(input@.skip(at as int)[3] == input@[at + 3]);
            assert(input@.skip(at as int)[4] == input@[at + 4]);
            assert(input@.skip(at as int)[5] == input@[at + 5]);
            assert(input@.skip(at as int)[6] == input@[at + 6]);
            assert(input@.skip(at as int)[7] == input@[at + 7]);
            assert(input@.skip(at as int)[8] == input@[at + 8]);
            assert(b == ((((((((b / 0x100_0000_0000_0000) * 0x100 + ((b / 0x1_0000_0000_0000)
                % 0x100)) * 0x100 + ((b / 0x100_0000_0000) % 0x100)) * 0x100 + ((b
                / 0x1_0000_0000) % 0x100)) * 0x100 + ((b / 0x100_0000) % 0x100)) * 0x100 + ((b
                / 0x1_0000) % 0x100)) * 0x100 + ((b / 0x100) % 0x100)) * 0x100 + (b % 0x100)))
                by (bit_vector);
        }
    }
    Ok((Value::F64Bits(bits), at + 9))
}

/// Decode `n` fallback values of the element shape of list shape `s`.
#[verifier::rlimit(100)]
#[verifier::spinoff_prover]
fn fb_decode_elems(input: &[u8], at: usize, s: &Shape, n: u32) -> (r: Result<
    (Vec<Value>, usize),
    DataError,
>)
    requires
        at <= input@.len(),
        (*s) matches Shape::List(_),
    ensures
        r matches Ok(p) ==> at <= p.1 <= input@.len(),
        forall|ws: Seq<ValueV>| #[trigger]
            fb_target_seq(ws, *sview(*s)->List_0, n as int, input@.skip(at as int)) ==> (r
                matches Ok(p) && vviews(p.0@) == ws && p.1 == at + fb_bytes_seq(ws, 0).len()),
    decreases *s, n, 0int,
{
    let total_len = input.len();
    let ghost rest = input@.skip(at as int);
    let elem: &Shape = match s {
        Shape::List(e) => e,
        _ => {
            proof {
                assert(false);
            }
            return Err(DataError::ShapeUnsupported);
        },
    };
    if n == 0 {
        let out: Vec<Value> = Vec::new();
        proof {
            assert forall|ws: Seq<ValueV>| #[trigger]
                fb_target_seq(ws, *sview(*s)->List_0, 0int, rest) implies vviews(out@) == ws
                && fb_bytes_seq(ws, 0).len() == 0 by {
                assert(ws =~= vviews(out@));
            }
        }
        return Ok((out, at));
    }
    let (x, p1) = match fb_decode(input, at, elem) {
        Ok(v) => v,
        Err(e) => {
            proof {
                assert forall|ws: Seq<ValueV>| #[trigger]
                    fb_target_seq(ws, *sview(*s)->List_0, n as int, rest) implies false by {
                    lemma_prefix_concat(fb_bytes(ws[0]), fb_bytes_seq(ws, 1), rest);
                    assert(fb_target(ws[0], sview(*elem), rest));
                }
            }
            return Err(e);
        },
    };
    let (mut tail, p2) = match fb_decode_elems(input, p1, s, n - 1) {
        Ok(v) => v,
        Err(e) => {
            proof {
                assert forall|ws: Seq<ValueV>| #[trigger]
                    fb_target_seq(ws, *sview(*s)->List_0, n as int, rest) implies false by {
                    lemma_prefix_concat(fb_bytes(ws[0]), fb_bytes_seq(ws, 1), rest);
                    assert(fb_target(ws[0], sview(*elem), rest));
                    lemma_fb_seq_drop(ws, 1);
                    crate::wire::lemma_skip_of_skip(input@, at as int, p1 - at);
                    assert(fb_target_seq(
                        ws.drop_first(),
                        *sview(*s)->List_0,
                        (n - 1) as int,
                        input@.skip(p1 as int),
                    ));
                }
            }
            return Err(e);
        },
    };
    let ghost tail0 = tail@;
    let mut out: Vec<Value> = Vec::new();
    out.push(x);
    out.append(&mut tail);
    proof {
        assert(out@ =~= seq![x] + tail0);
        assert forall|ws: Seq<ValueV>| #[trigger]
            fb_target_seq(ws, *sview(*s)->List_0, n as int, rest) implies vviews(out@) == ws && p2
            == at + fb_bytes_seq(ws, 0).len() by {
            lemma_prefix_concat(fb_bytes(ws[0]), fb_bytes_seq(ws, 1), rest);
            assert(fb_target(ws[0], sview(*elem), rest));
            lemma_fb_seq_drop(ws, 1);
            crate::wire::lemma_skip_of_skip(input@, at as int, p1 - at);
            assert(fb_target_seq(
                ws.drop_first(),
                *sview(*s)->List_0,
                (n - 1) as int,
                input@.skip(p1 as int),
            ));
            assert(vviews(out@) =~= ws) by {
                assert(vviews(tail0) == ws.drop_first());
                assert forall|j: int| 0 <= j < ws.len() implies vviews(out@)[j] == ws[j] by {
                    if j == 0 {
                        assert(out@[0] == x);
                    } else {
                        assert(out@[j] == tail0[j - 1]);
                        assert(vviews(tail0)[j - 1] == ws.drop_first()[j - 1]);
                    }
                }
            };
        }
    }
    Ok((out, p2))
}

/// Decode a counted tuple or record: an array header that must match
/// the declared field count, then one value per field shape.
#[verifier::rlimit(100)]
#[verifier::spinoff_prover]
fn fb_decode_tuple_like(input: &[u8], at: usize, s: &Shape, ss: &Vec<Shape>) -> (r: Result<
    (Value, usize),
    DataError,
>)
    requires
        at <= input@.len(),
        (sview(*s) matches ShapeV::Tuple(ss2) && ss2 == sviews(ss@)) || (sview(
            *s,
        ) matches ShapeV::Record(ss2) && ss2 == sviews(ss@)),
    ensures
        r matches Ok(p) ==> at <= p.1 <= input@.len(),
        forall|w: ValueV| #[trigger]
            fb_target(w, sview(*s), input@.skip(at as int)) ==> (r matches Ok(p) && vview(p.0)
                == w && p.1 == at + fb_bytes(w).len()),
    decreases ss@, 0x1_0000_0001int, 0int,
{
    let total_len = input.len();
    let ghost rest = input@.skip(at as int);
    match mp_read_array_len_at(input, at) {
        Some((n, p)) => {
            if n as u64 != ss.len() as u64 {
                proof {
                    assert forall|w: ValueV| #[trigger]
                        fb_target(w, sview(*s), rest) implies false by {
                        match w {
                            ValueV::List(ws) => {
                                lemma_prefix_concat(mp_arr(ws.len() as u32), fb_bytes_seq(ws, 0),
                                    rest);
                            },
                            _ => {},
                        }
                    }
                }
                return Err(DataError::InvalidEncoding);
            }
            proof {
                assert forall|w: ValueV| #[trigger]
                    fb_target(w, sview(*s), rest) implies (w matches ValueV::List(ws) && ws.len()
                    == ss@.len() && p == at + mp_arr(ws.len() as u32).len() && fb_target_fields(
                    ws,
                    sviews(ss@),
                    0,
                    input@.skip(p as int),
                )) by {
                    match w {
                        ValueV::List(ws) => {
                            lemma_prefix_concat(mp_arr(ws.len() as u32), fb_bytes_seq(ws, 0),
                                rest);
                            crate::wire::lemma_skip_of_skip(input@, at as int, p - at);
                        },
                        _ => {},
                    }
                }
            }
            match fb_decode_fields(input, p, ss, 0) {
                Ok((out, p2)) => {
                    proof {
                        assert forall|w: ValueV| #[trigger]
                            fb_target(w, sview(*s), rest) implies vview(Value::List(out)) == w by {
                            match w {
                                ValueV::List(ws) => {
                                    assert(ws.subrange(0, ws.len() as int) =~= ws);
                                },
                                _ => {},
                            }
                        }
                    }
                    Ok((Value::List(out), p2))
                },
                Err(e) => Err(e),
            }
        },
        None => {
            proof {
                assert forall|w: ValueV| #[trigger] fb_target(w, sview(*s), rest) implies false by {
                    let ws = w->List_0;
                    lemma_prefix_concat(mp_arr(ws.len() as u32), fb_bytes_seq(ws, 0), rest);
                }
            }
            Err(DataError::InvalidEncoding)
        },
    }
}

/// Decode one fallback value for each shape in `ss[i..]`, in order.
#[verifier::rlimit(100)]
#[verifier::spinoff_prover]
fn fb_decode_fields(input: &[u8], at: usize, ss: &Vec<Shape>, i: usize) -> (r: Result<
    (Vec<Value>, usize),
    DataError,
>)
    requires
        at <= input@.len(),
        i <= ss@.len(),
    ensures
        r matches Ok(p) ==> at <= p.1 <= input@.len(),
        forall|ws: Seq<ValueV>| #[trigger]
            fb_target_fields(ws, sviews(ss@), i as int, input@.skip(at as int)) ==> (r matches Ok(
                p,
            ) && vviews(p.0@) == ws.subrange(i as int, ws.len() as int) && p.1 == at
                + fb_bytes_seq(ws, i as int).len()),
    decreases ss@, 0x1_0000_0000int, ss@.len() - i,
{
    let total_len = input.len();
    let ghost rest = input@.skip(at as int);
    if i == ss.len() {
        let out: Vec<Value> = Vec::new();
        proof {
            assert forall|ws: Seq<ValueV>| #[trigger]
                fb_target_fields(ws, sviews(ss@), i as int, rest) implies vviews(out@)
                == ws.subrange(i as int, ws.len() as int) && fb_bytes_seq(ws, i as int).len()
                == 0 by {
                assert(ws.subrange(i as int, ws.len() as int) =~= vviews(out@));
            }
        }
        return Ok((out, at));
    }
    let (x, p1) = match fb_decode(input, at, &ss[i]) {
        Ok(v) => v,
        Err(e) => {
            proof {
                assert forall|ws: Seq<ValueV>| #[trigger]
                    fb_target_fields(ws, sviews(ss@), i as int, rest) implies false by {
                    lemma_prefix_concat(fb_bytes(ws[i as int]), fb_bytes_seq(ws, i + 1), rest);
                    assert(sviews(ss@)[i as int] == sview(ss@[i as int]));
                    assert(fb_target(ws[i as int], sview(ss@[i as int]), input@.skip(at as int)));
                }
            }
            return Err(e);
        },
    };
    let (mut tail, p2) = match fb_decode_fields(input, p1, ss, i + 1) {
        Ok(v) => v,
        Err(e) => {
            proof {
                assert forall|ws: Seq<ValueV>| #[trigger]
                    fb_target_fields(ws, sviews(ss@), i as int, rest) implies false by {
                    lemma_prefix_concat(fb_bytes(ws[i as int]), fb_bytes_seq(ws, i + 1), rest);
                    assert(sviews(ss@)[i as int] == sview(ss@[i as int]));
                    assert(fb_target(ws[i as int], sview(ss@[i as int]), input@.skip(at as int)));
                    crate::wire::lemma_skip_of_skip(input@, at as int, p1 - at);
                    assert(fb_target_fields(ws, sviews(ss@), i + 1, input@.skip(p1 as int)));
                }
            }
            return Err(e);
        },
    };
    let ghost tail0 = tail@;
    let mut out: Vec<Value> = Vec::new();
    out.push(x);
    out.append(&mut tail);
    proof {
        assert(out@ =~= seq![x] + tail0);
        assert forall|ws: Seq<ValueV>| #[trigger]
            fb_target_fields(ws, sviews(ss@), i as int, rest) implies vviews(out@) == ws.subrange(
            i as int,
            ws.len() as int,
        ) && p2 == at + fb_bytes_seq(ws, i as int).len() by {
            lemma_prefix_concat(fb_bytes(ws[i as int]), fb_bytes_seq(ws, i + 1), rest);
            assert(sviews(ss@)[i as int] == sview(ss@[i as int]));
            assert(fb_target(ws[i as int], sview(ss@[i as int]), input@.skip(at as int)));
            crate::wire::lemma_skip_of_skip(input@, at as int, p1 - at);
            assert(fb_target_fields(ws, sviews(ss@), (i + 1) as int, input@.skip(p1 as int)));
            assert(vviews(tail0) == ws.subrange((i + 1) as int, ws.len() as int) && p2 == p1
                + fb_bytes_seq(ws, (i + 1) as int).len());
            assert(vviews(out@) =~= ws.subrange(i as int, ws.len() as int)) by {
                assert(vviews(tail0) == ws.subrange(i + 1, ws.len() as int));
                assert forall|j: int| 0 <= j < ws.len() - i implies vviews(out@)[j]
                    == ws.subrange(i as int, ws.len() as int)[j] by {
                    if j == 0 {
                        assert(out@[0] == x);
                    } else {
                        assert(out@[j] == tail0[j - 1]);
                        assert(vviews(tail0)[j - 1] == ws.subrange(i + 1, ws.len() as int)[j - 1]);
                    }
                }
            };
        }
    }
    Ok((out, p2))
}

/// Decode `n` fallback key-value pairs of the dictionary shape `s`.
#[verifier::rlimit(100)]
#[verifier::spinoff_prover]
fn fb_decode_pairs(input: &[u8], at: usize, s: &Shape, n: u32) -> (r: Result<
    (Vec<(Value, Value)>, usize),
    DataError,
>)
    requires
        at <= input@.len(),
        (*s) matches Shape::Dict(_, _),
    ensures
        r matches Ok(p) ==> at <= p.1 <= input@.len(),
        forall|ps: Seq<(ValueV, ValueV)>| #[trigger]
            fb_target_pairs(
                ps,
                *sview(*s)->Dict_0,
                *sview(*s)->Dict_1,
                n as int,
                input@.skip(at as int),
            ) ==> (r matches Ok(p) && pair_views(p.0@) == ps && p.1 == at + fb_bytes_pairs(
                ps,
                0,
            ).len()),
    decreases *s, n, 0int,
{
    let total_len = input.len();
    let ghost rest = input@.skip(at as int);
    let (ks, xs): (&Shape, &Shape) = match s {
        Shape::Dict(k, v) => (k, v),
        _ => {
            proof {
                assert(false);
            }
            return Err(DataError::ShapeUnsupported);
        },
    };
    if n == 0 {
        let out: Vec<(Value, Value)> = Vec::new();
        proof {
            assert forall|ps: Seq<(ValueV, ValueV)>| #[trigger]
                fb_target_pairs(ps, *sview(*s)->Dict_0, *sview(*s)->Dict_1, 0int, rest) implies
                pair_views(out@) == ps && fb_bytes_pairs(ps, 0).len() == 0 by {
                assert(ps =~= pair_views(out@));
            }
        }
        return Ok((out, at));
    }
    let ghost sk = *sview(*s)->Dict_0;
    let ghost sx = *sview(*s)->Dict_1;
    let (kv, pk) = match fb_decode(input, at, ks) {
        Ok(v) => v,
        Err(e) => {
            proof {
                assert forall|ps: Seq<(ValueV, ValueV)>| #[trigger]
                    fb_target_pairs(ps, sk, sx, n as int, rest) implies false by {
                    assert(fb_bytes_pairs(ps, 0) =~= (fb_bytes(ps[0].0) + fb_bytes(ps[0].1))
                        + fb_bytes_pairs(ps, 1));
                    lemma_prefix_concat(fb_bytes(ps[0].0) + fb_bytes(ps[0].1), fb_bytes_pairs(
                        ps,
                        1,
                    ), rest);
                    lemma_prefix_concat(fb_bytes(ps[0].0), fb_bytes(ps[0].1), rest);
                    assert(fb_target(ps[0].0, sk, rest));
                }
            }
            return Err(e);
        },
    };
    let ghost rest2 = input@.skip(pk as int);
    let (xv, px) = match fb_decode(input, pk, xs) {
        Ok(v) => v,
        Err(e) => {
            proof {
                assert forall|ps: Seq<(ValueV, ValueV)>| #[trigger]
                    fb_target_pairs(ps, sk, sx, n as int, rest) implies false by {
                    assert(fb_bytes_pairs(ps, 0) =~= (fb_bytes(ps[0].0) + fb_bytes(ps[0].1))
                        + fb_bytes_pairs(ps, 1));
                    lemma_prefix_concat(fb_bytes(ps[0].0) + fb_bytes(ps[0].1), fb_bytes_pairs(
                        ps,
                        1,
                    ), rest);
                    lemma_prefix_concat(fb_bytes(ps[0].0), fb_bytes(ps[0].1), rest);
                    assert(fb_target(ps[0].0, sk, rest));
                    crate::wire::lemma_skip_of_skip(input@, at as int, pk - at);
                    assert(fb_bytes(ps[0].1).is_prefix_of(input@.skip(pk as int)));
                    assert(fb_target(ps[0].1, sx, input@.skip(pk as int)));
                }
            }
            return Err(e);
        },
    };
    let (mut tail, p2) = match fb_decode_pairs(input, px, s, n - 1) {
        Ok(v) => v,
        Err(e) => {
            proof {
                assert forall|ps: Seq<(ValueV, ValueV)>| #[trigger]
                    fb_target_pairs(ps, sk, sx, n as int, rest) implies false by {
                    assert(fb_bytes_pairs(ps, 0) =~= (fb_bytes(ps[0].0) + fb_bytes(ps[0].1))
                        + fb_bytes_pairs(ps, 1));
                    lemma_prefix_concat(fb_bytes(ps[0].0) + fb_bytes(ps[0].1), fb_bytes_pairs(
                        ps,
                        1,
                    ), rest);
                    lemma_prefix_concat(fb_bytes(ps[0].0), fb_bytes(ps[0].1), rest);
                    assert(fb_target(ps[0].0, sk, rest));
                    crate::wire::lemma_skip_of_skip(input@, at as int, pk - at);
                    assert(fb_bytes(ps[0].1).is_prefix_of(input@.skip(pk as int)));
                    assert(fb_target(ps[0].1, sx, input@.skip(pk as int)));
                    lemma_fb_pairs_drop(ps, 1);
                    crate::wire::lemma_skip_of_skip(input@, pk as int, px - pk);
                    assert(fb_target_pairs(
                        ps.drop_first(),
                        sk,
                        sx,
                        (n - 1) as int,
                        input@.skip(px as int),
                    ));
                }
            }
            return Err(e);
        },
    };
    let ghost tail0 = tail@;
    let mut out: Vec<(Value, Value)> = Vec::new();
    out.push((kv, xv));
    out.append(&mut tail);
    proof {
        assert(out@ =~= seq![(kv, xv)] + tail0);
        assert forall|ps: Seq<(ValueV, ValueV)>| #[trigger]
            fb_target_pairs(ps, sk, sx, n as int, rest) implies pair_views(out@) == ps && p2 == at
            + fb_bytes_pairs(ps, 0).len() by {
            assert(fb_bytes_pairs(ps, 0) =~= (fb_bytes(ps[0].0) + fb_bytes(ps[0].1))
                + fb_bytes_pairs(ps, 1));
            lemma_prefix_concat(fb_bytes(ps[0].0) + fb_bytes(ps[0].1), fb_bytes_pairs(
                ps,
                1,
            ), rest);
            lemma_prefix_concat(fb_bytes(ps[0].0), fb_bytes(ps[0].1), rest);
            assert(fb_target(ps[0].0, sk, rest));
            crate::wire::lemma_skip_of_skip(input@, at as int, pk - at);
            assert(fb_bytes(ps[0].1).is_prefix_of(input@.skip(pk as int)));
            assert(fb_target(ps[0].1, sx, input@.skip(pk as int)));
            lemma_fb_pairs_drop(ps, 1);
            crate::wire::lemma_skip_of_skip(input@, pk as int, px - pk);
            assert(fb_target_pairs(
                ps.drop_first(),
                sk,
                sx,
                (n - 1) as int,
                input@.skip(px as int),
            ));
            assert(pair_views(out@) =~= ps) by {
                assert(pair_views(tail0) == ps.drop_first());
                assert forall|j: int| 0 <= j < ps.len() implies pair_views(out@)[j] == ps[j] by {
                    if j == 0 {
                        assert(out@[0] == (kv, xv));
                    } else {
                        assert(out@[j] == tail0[j - 1]);
                        assert(pair_views(tail0)[j - 1] == ps.drop_first()[j - 1]);
                    }
                }
            };
        }
    }
    Ok((out, p2))
}

/// Decode one fallback enum value: a bare string is a unit variant's
/// name; otherwise a one-pair map from the variant name to its
/// payload.
#[verifier::rlimit(100)]
#[verifier::spinoff_prover]
fn fb_decode_choice(input: &[u8], at: usize, s: &Shape) -> (r: Result<(Value, usize), DataError>)
    requires
        at <= input@.len(),
        (*s) matches Shape::Choice(_),
    ensures
        r matches Ok(p) ==> at <= p.1 <= input@.len(),
        forall|w: ValueV| #[trigger]
            fb_target(w, sview(*s), input@.skip(at as int)) ==> (r matches Ok(p) && vview(p.0)
                == w && p.1 == at + fb_bytes(w).len()),
    decreases *s, 0x1_0000_0000int, 0int,
{
    let total_len = input.len();
    let ghost rest = input@.skip(at as int);
    let vars: &Vec<Variant> = match s {
        Shape::Choice(vars) => vars,
        _ => {
            proof {
                assert(false);
            }
            return Err(DataError::ShapeUnsupported);
        },
    };
    match mp_read_str(input, at) {
        Some((name, p)) => {
            // A bare variant name: the unit-variant form. Map-encoded
            // variants cannot land here, a map header is never a
            // string marker.
            let j = match crate::value::find_variant_exec(vars, name.as_str()) {
                Some(j) => j,
                None => {
                    proof {
                        assert forall|w: ValueV| #[trigger]
                            fb_target(w, sview(*s), rest) implies false by {
                            fb_choice_cases(w, sview(*s), rest);
                            crate::value::lemma_find_variant(variant_views(vars@), w->EnumUnit_0, 0);
                        }
                    }
                    return Err(DataError::InvalidEncoding);
                },
            };
            match &vars[j].kind {
                crate::value::VariantKind::Unit => {
                    proof {
                        assert forall|w: ValueV| #[trigger]
                            fb_target(w, sview(*s), rest) implies w == ValueV::EnumUnit(name@)
                            && p == at + fb_bytes(w).len() by {
                            fb_choice_cases(w, sview(*s), rest);
                        }
                    }
                    Ok((Value::EnumUnit(name), p))
                },
                _ => {
                    proof {
                        assert forall|w: ValueV| #[trigger]
                            fb_target(w, sview(*s), rest) implies false by {
                            fb_choice_cases(w, sview(*s), rest);
                            crate::value::lemma_find_variant(variant_views(vars@), w->EnumUnit_0, 0);
                        }
                    }
                    Err(DataError::InvalidEncoding)
                },
            }
        },
        None => match mp_read_map_len_at(input, at) {
            Some((n, p)) => {
                if n != 1 {
                    proof {
                        assert forall|w: ValueV| #[trigger]
                            fb_target(w, sview(*s), rest) implies false by {
                            fb_choice_cases(w, sview(*s), rest);
                        }
                    }
                    return Err(DataError::InvalidEncoding);
                }
                let ghost rest1 = input@.skip(p as int);
                proof {
                    crate::wire::lemma_skip_of_skip(input@, at as int, p - at);
                }
                let (name, p2) = match mp_read_str(input, p) {
                    Some(x) => x,
                    None => {
                        proof {
                            assert forall|w: ValueV| #[trigger]
                                fb_target(w, sview(*s), rest) implies false by {
                                fb_choice_cases(w, sview(*s), rest);
                                fb_choice_map_split(w, rest, input@, at as int, p as int);
                            }
                        }
                        return Err(DataError::InvalidEncoding);
                    },
                };
                let j = match crate::value::find_variant_exec(vars, name.as_str()) {
                    Some(j) => j,
                    None => {
                        proof {
                            assert forall|w: ValueV| #[trigger]
                                fb_target(w, sview(*s), rest) implies false by {
                                fb_choice_cases(w, sview(*s), rest);
                                fb_choice_map_split(w, rest, input@, at as int, p as int);
                                crate::value::lemma_find_variant(
                                    variant_views(vars@),
                                    fb_choice_name(w),
                                    0,
                                );
                            }
                        }
                        return Err(DataError::InvalidEncoding);
                    },
                };
                let ghost rest2 = input@.skip(p2 as int);
                proof {
                    crate::wire::lemma_skip_of_skip(input@, p as int, p2 - p);
                }
                match &vars[j].kind {
                    crate::value::VariantKind::Unit => {
                        proof {
                            assert forall|w: ValueV| #[trigger]
                                fb_target(w, sview(*s), rest) implies false by {
                                fb_choice_cases(w, sview(*s), rest);
                                fb_choice_map_split(w, rest, input@, at as int, p as int);
                                crate::value::lemma_find_variant(
                                    variant_views(vars@),
                                    fb_choice_name(w),
                                    0,
                                );
                            }
                        }
                        Err(DataError::InvalidEncoding)
                    },
                    crate::value::VariantKind::Newtype(t) => {
                        proof {
                            assert forall|w: ValueV| #[trigger]
                                fb_target(w, sview(*s), rest) implies (w matches
                            ValueV::EnumNewtype(nm2, wx) && nm2 == name@ && fb_target(
                                *wx,
                                sview(**t),
                                rest2,
                            ) && fb_bytes(w).len() == (p2 - at) + fb_bytes(*wx).len()) by {
                                fb_choice_cases(w, sview(*s), rest);
                                fb_choice_map_split(w, rest, input@, at as int, p as int);
                                crate::value::lemma_find_variant(
                                    variant_views(vars@),
                                    fb_choice_name(w),
                                    0,
                                );
                                crate::wire::lemma_skip_of_skip(input@, p as int, p2 - p);
                            }
                        }
                        match fb_decode(input, p2, t) {
                            Ok((x, p3)) => {
                                proof {
                                    assert forall|w: ValueV| #[trigger]
                                        fb_target(w, sview(*s), rest) implies vview(
                                        Value::EnumNewtype(name, Box::new(x)),
                                    ) == w && p3 == at + fb_bytes(w).len() by {
                                        match w {
                                            ValueV::EnumNewtype(nm2, wx) => {
                                                assert(fb_target(*wx, sview(**t), rest2));
                                            },
                                            _ => {},
                                        }
                                    }
                                }
                                Ok((Value::EnumNewtype(name, Box::new(x)), p3))
                            },
                            Err(e) => {
                                proof {
                                    assert forall|w: ValueV| #[trigger]
                                        fb_target(w, sview(*s), rest) implies false by {
                                        match w {
                                            ValueV::EnumNewtype(nm2, wx) => {
                                                assert(fb_target(*wx, sview(**t), rest2));
                                            },
                                            _ => {},
                                        }
                                    }
                                }
                                Err(e)
                            },
                        }
                    },
                    crate::value::VariantKind::Fields(ts) => {
                        proof {
                            assert forall|w: ValueV| #[trigger]
                                fb_target(w, sview(*s), rest) implies (w matches
                            ValueV::EnumFields(nm2, wxs) && nm2 == name@ && wxs.len() < 0x1_0000_0000
                                && (mp_arr(wxs.len() as u32) + fb_bytes_seq(wxs, 0)).is_prefix_of(
                                rest2,
                            ) && wxs.len() == ts@.len() && fb_bytes(w).len() == (p2 - at) + mp_arr(
                                wxs.len() as u32,
                            ).len() + fb_bytes_seq(wxs, 0).len()) by {
                                fb_choice_cases(w, sview(*s), rest);
                                fb_choice_map_split(w, rest, input@, at as int, p as int);
                                crate::value::lemma_find_variant(
                                    variant_views(vars@),
                                    fb_choice_name(w),
                                    0,
                                );
                                crate::wire::lemma_skip_of_skip(input@, p as int, p2 - p);
                            }
                        }
                        match mp_read_array_len_at(input, p2) {
                            Some((n2, p3)) => {
                                if n2 as u64 != ts.len() as u64 {
                                    proof {
                                        assert forall|w: ValueV| #[trigger]
                                            fb_target(w, sview(*s), rest) implies false by {
                                            match w {
                                                ValueV::EnumFields(nm4, wxs) => {
                                                    lemma_prefix_concat(mp_arr(wxs.len() as u32),
                                                        fb_bytes_seq(wxs, 0), rest2);
                                                },
                                                _ => {},
                                            }
                                        }
                                    }
                                    return Err(DataError::InvalidEncoding);
                                }
                                proof {
                                    assert forall|w: ValueV| #[trigger]
                                        fb_target(w, sview(*s), rest) implies (w matches
                                    ValueV::EnumFields(nm3, wxs) && p3 == p2 + mp_arr(
                                        wxs.len() as u32,
                                    ).len() && fb_target_fields(
                                        wxs,
                                        sviews(ts@),
                                        0,
                                        input@.skip(p3 as int),
                                    )) by {
                                        match w {
                                            ValueV::EnumFields(nm4, wxs) => {
                                                lemma_prefix_concat(mp_arr(wxs.len() as u32),
                                                    fb_bytes_seq(wxs, 0), rest2);
                                                crate::wire::lemma_skip_of_skip(input@, p2 as int,
                                                    p3 - p2);
                                            },
                                            _ => {},
                                        }
                                    }
                                }
                                match fb_decode_fields(input, p3, ts, 0) {
                                    Ok((out, p4)) => {
                                        proof {
                                            assert forall|w: ValueV| #[trigger]
                                                fb_target(w, sview(*s), rest) implies vview(
                                                Value::EnumFields(name, out),
                                            ) == w && p4 == at + fb_bytes(w).len() by {
                                                match w {
                                                    ValueV::EnumFields(nm4, wxs) => {
                                                        assert(fb_target_fields(
                                                            wxs,
                                                            sviews(ts@),
                                                            0,
                                                            input@.skip(p3 as int),
                                                        ));
                                                        assert(wxs.subrange(0, wxs.len() as int)
                                                            =~= wxs);
                                                    },
                                                    _ => {},
                                                }
                                            }
                                        }
                                        Ok((Value::EnumFields(name, out), p4))
                                    },
                                    Err(e) => {
                                        proof {
                                            assert forall|w: ValueV| #[trigger]
                                                fb_target(w, sview(*s), rest) implies false by {
                                                match w {
                                                    ValueV::EnumFields(nm4, wxs) => {
                                                        assert(fb_target_fields(
                                                            wxs,
                                                            sviews(ts@),
                                                            0,
                                                            input@.skip(p3 as int),
                                                        ));
                                                    },
                                                    _ => {},
                                                }
                                            }
                                        }
                                        Err(e)
                                    },
                                }
                            },
                            None => {
                                proof {
                                    assert forall|w: ValueV| #[trigger]
                                        fb_target(w, sview(*s), rest) implies false by {
                                        match w {
                                            ValueV::EnumFields(nm4, wxs) => {
                                                lemma_prefix_concat(mp_arr(wxs.len() as u32),
                                                    fb_bytes_seq(wxs, 0), rest2);
                                            },
                                            _ => {},
                                        }
                                    }
                                }
                                Err(DataError::InvalidEncoding)
                            },
                        }
                    },
                }
            },
            None => {
                proof {
                    assert forall|w: ValueV| #[trigger] fb_target(w, sview(*s), rest) implies
                    false by {
                        fb_choice_cases(w, sview(*s), rest);
                    }
                }
                Err(DataError::InvalidEncoding)
            },
        },
    }
}

/// The variant name a fallback enum value carries.
pub open spec fn fb_choice_name(w: ValueV) -> Seq<char> {
    match w {
        ValueV::EnumUnit(nm) => nm,
        ValueV::EnumNewtype(nm, _) => nm,
        ValueV::EnumFields(nm, _) => nm,
        _ => Seq::empty(),
    }
}

/// Case analysis for enum targets: a unit variant's bytes start with
/// its name string, the other variants' with a one-pair map header.
proof fn fb_choice_cases(w: ValueV, s: ShapeV, rest: Seq<u8>)
    requires
        fb_target(w, s, rest),
        s is Choice,
    ensures
        w is EnumUnit ==> mp_str(fb_choice_name(w)).is_prefix_of(rest) && fb_bytes(w) == mp_str(
            fb_choice_name(w),
        ) && vstd::utf8::encode_utf8(fb_choice_name(w)).len() < 0x1_0000_0000,
        w is EnumNewtype || w is EnumFields ==> mp_map(1).is_prefix_of(rest),
        w is EnumUnit || w is EnumNewtype || w is EnumFields,
{
    match w {
        ValueV::EnumNewtype(nm, x) => {
            assert(fb_bytes(w) =~= mp_map(1) + (mp_str(nm) + fb_bytes(*x)));
            lemma_prefix_concat(mp_map(1), mp_str(nm) + fb_bytes(*x), rest);
        },
        ValueV::EnumFields(nm, xs) => {
            assert(fb_bytes(w) =~= mp_map(1) + (mp_str(nm) + (mp_arr(xs.len() as u32)
                + fb_bytes_seq(xs, 0))));
            lemma_prefix_concat(mp_map(1), mp_str(nm) + (mp_arr(xs.len() as u32) + fb_bytes_seq(
                xs,
                0,
            )), rest);
        },
        _ => {},
    }
}

/// After the one-pair map header, the variant name string prefixes
/// the input, and the payload follows the name.
proof fn fb_choice_map_split(w: ValueV, rest: Seq<u8>, whole: Seq<u8>, at: int, p: int)
    requires
        w is EnumNewtype || w is EnumFields,
        dense_wf(w),
        fb_bytes(w).is_prefix_of(rest),
        rest == whole.skip(at),
        0 <= at <= p <= whole.len(),
        p == at + mp_map(1).len(),
    ensures
        mp_str(fb_choice_name(w)).is_prefix_of(whole.skip(p)),
        vstd::utf8::encode_utf8(fb_choice_name(w)).len() < 0x1_0000_0000,
        w matches ValueV::EnumNewtype(nm, x) ==> fb_bytes(*x).is_prefix_of(
            whole.skip(p + mp_str(nm).len()),
        ),
        w matches ValueV::EnumFields(nm, xs) ==> (mp_arr(xs.len() as u32) + fb_bytes_seq(
            xs,
            0,
        )).is_prefix_of(whole.skip(p + mp_str(nm).len())),
{
    crate::wire::lemma_skip_of_skip(whole, at, p - at);
    match w {
        ValueV::EnumNewtype(nm, x) => {
            assert(fb_bytes(w) =~= mp_map(1) + (mp_str(nm) + fb_bytes(*x)));
            lemma_prefix_concat(mp_map(1), mp_str(nm) + fb_bytes(*x), rest);
            lemma_prefix_concat(mp_str(nm), fb_bytes(*x), whole.skip(p));
            crate::wire::lemma_skip_of_skip(whole, p, mp_str(nm).len() as int);
        },
        ValueV::EnumFields(nm, xs) => {
            assert(fb_bytes(w) =~= mp_map(1) + (mp_str(nm) + (mp_arr(xs.len() as u32)
                + fb_bytes_seq(xs, 0))));
            lemma_prefix_concat(mp_map(1), mp_str(nm) + (mp_arr(xs.len() as u32) + fb_bytes_seq(
                xs,
                0,
            )), rest);
            lemma_prefix_concat(mp_str(nm), mp_arr(xs.len() as u32) + fb_bytes_seq(xs, 0),
                whole.skip(p));
            crate::wire::lemma_skip_of_skip(whole, p, mp_str(nm).len() as int);
        },
        _ => {},
    }
}

} // verus!

verus! {

/// Whether the fallback encoding of the value begins with the nil
/// marker: the unit does, an absent option does, and a present option
/// passes the question on to its payload.
pub open spec fn fb_starts_nil(v: ValueV) -> bool
    decreases v,
{
    match v {
        ValueV::Unit => true,
        ValueV::Opt(o) => match o {
            None => true,
            Some(x) => fb_starts_nil(*x),
        },
        _ => false,
    }
}

/// Whether every present option in the value has a payload that does
/// not itself encode as nil. MessagePack folds `unit` and an absent
/// option into the same nil byte, so such payloads cannot be told
/// apart from absence when decoding.
pub open spec fn fb_opt_ok(v: ValueV) -> bool
    decreases v, 1int,
{
    match v {
        ValueV::Opt(o) => match o {
            None => true,
            Some(x) => !fb_starts_nil(*x) && fb_opt_ok(*x),
        },
        ValueV::List(vs) => seq_fb_opt_ok(vs),
        ValueV::Dict(ps) => pairs_fb_opt_ok(ps),
        ValueV::EnumNewtype(_, x) => fb_opt_ok(*x),
        ValueV::EnumFields(_, xs) => seq_fb_opt_ok(xs),
        _ => true,
    }
}

/// Whether every value in the sequence keeps its options decodable.
pub open spec fn seq_fb_opt_ok(vs: Seq<ValueV>) -> bool
    decreases vs, 2int,
{
    forall|i: int| 0 <= i < vs.len() ==> fb_opt_ok(#[trigger] vs[i])
}

/// Whether every pair keeps its options decodable.
pub open spec fn pairs_fb_opt_ok(ps: Seq<(ValueV, ValueV)>) -> bool
    decreases ps, 2int,
{
    forall|i: int| 0 <= i < ps.len() ==> fb_opt_ok(#[trigger] ps[i].0) && fb_opt_ok(ps[i].1)
}

/// A value that does not begin with nil really does not: its fallback
/// encoding is nonempty and its first byte is not the nil marker.
pub proof fn lemma_fb_head(v: ValueV)
    requires
        dense_wf(v),
        !fb_starts_nil(v),
    ensures
        fb_bytes(v).len() >= 1,
        fb_bytes(v)[0] != 0xc0,
    decreases v,
{
    match v {
        ValueV::I8(n) => {
            assert(-32 <= n < 0 ==> (n as i64) as u8 >= 0xe0) by (bit_vector);
        },
        ValueV::I16(n) => {
            assert(-32 <= n < 0 ==> (n as i64) as u8 >= 0xe0) by (bit_vector);
        },
        ValueV::I32(n) => {
            assert(-32 <= n < 0 ==> (n as i64) as u8 >= 0xe0) by (bit_vector);
        },
        ValueV::I64(n) => {
            assert(-32 <= n < 0 ==> n as u8 >= 0xe0) by (bit_vector);
        },
        ValueV::Opt(o) => {
            lemma_fb_head(*o->0);
        },
        _ => {},
    }
}

/// A concatenation that prefixes a sequence splits into a prefix and
/// a prefix of the rest.
pub proof fn lemma_prefix_concat(a: Seq<u8>, b: Seq<u8>, s: Seq<u8>)
    requires
        (a + b).is_prefix_of(s),
    ensures
        a.is_prefix_of(s),
        b.is_prefix_of(s.skip(a.len() as int)),
{
    assert((a + b) =~= s.subrange(0, (a + b).len() as int));
    assert forall|i: int| 0 <= i < a.len() implies a[i] == s.subrange(0, a.len() as int)[i] by {
        assert(a[i] == (a + b)[i]);
    }
    assert(a =~= s.subrange(0, a.len() as int));
    assert forall|i: int| 0 <= i < b.len() implies b[i] == s.skip(a.len() as int).subrange(
        0,
        b.len() as int,
    )[i] by {
        assert(b[i] == (a + b)[a.len() + i]);
        assert(s.subrange(0, (a + b).len() as int)[a.len() + i] == s[a.len() + i]);
    }
    assert(b =~= s.skip(a.len() as int).subrange(0, b.len() as int));
}

/// Dropping the first value drops its bytes off the front of the
/// concatenated encodings.
pub proof fn lemma_fb_seq_drop(vs: Seq<ValueV>, i: int)
    requires
        1 <= i <= vs.len(),
    ensures
        fb_bytes_seq(vs, i) == fb_bytes_seq(vs.drop_first(), i - 1),
    decreases vs.len() - i,
{
    if i < vs.len() {
        lemma_fb_seq_drop(vs, i + 1);
        assert(vs.drop_first()[i - 1] == vs[i]);
    }
}

/// The pairwise version of the drop lemma.
pub proof fn lemma_fb_pairs_drop(ps: Seq<(ValueV, ValueV)>, i: int)
    requires
        1 <= i <= ps.len(),
    ensures
        fb_bytes_pairs(ps, i) == fb_bytes_pairs(ps.drop_first(), i - 1),
    decreases ps.len() - i,
{
    if i < ps.len() {
        lemma_fb_pairs_drop(ps, i + 1);
        assert(ps.drop_first()[i - 1] == ps[i]);
    }
}

} // verus!
