//! The dense wire format, as mathematics: what the structured
//! serializer emits for every value, and what the shape-directed
//! parser makes of a byte sequence.

use crate::data::framed_fixed_bytes;
use crate::value::{ShapeV, ValueV, VariantKindV, find_variant};
use vstd::bytes::{
    spec_u16_to_le_bytes, spec_u16_from_le_bytes, spec_u32_to_le_bytes, spec_u32_from_le_bytes,
    spec_u64_to_le_bytes, spec_u64_from_le_bytes,
};
use vstd::prelude::*;
use vstd::utf8::{decode_utf8, encode_utf8, valid_utf8};

verus! {

/// The four-byte little-endian count prefix.
pub open spec fn count_bytes(n: nat) -> Seq<u8> {
    spec_u32_to_le_bytes(n as u32)
}

/// The dense encoding of a value: fixed-width little-endian
/// primitives, four-byte length prefixes on strings and byte strings,
/// one-byte presence tags, counted element lists, and variant names
/// as framed strings.
pub open spec fn dense_bytes(v: ValueV) -> Seq<u8>
    decreases v, 0int, 0int,
{
    match v {
        ValueV::Bool(b) => seq![
            if b {
                1u8
            } else {
                0u8
            },
        ],
        ValueV::U8(n) => seq![n],
        ValueV::U16(n) => spec_u16_to_le_bytes(n),
        ValueV::U32(n) => spec_u32_to_le_bytes(n),
        ValueV::U64(n) => spec_u64_to_le_bytes(n),
        ValueV::I8(n) => seq![n as u8],
        ValueV::I16(n) => spec_u16_to_le_bytes(n as u16),
        ValueV::I32(n) => spec_u32_to_le_bytes(n as u32),
        ValueV::I64(n) => spec_u64_to_le_bytes(n as u64),
        ValueV::F32Bits(n) => spec_u32_to_le_bytes(n),
        ValueV::F64Bits(n) => spec_u64_to_le_bytes(n),
        ValueV::Str(cs) => framed_fixed_bytes(encode_utf8(cs)),
        ValueV::Bytes(bs) => framed_fixed_bytes(bs),
        ValueV::Unit => seq![1u8],
        ValueV::Opt(o) => match o {
            None => seq![0u8],
            Some(x) => seq![1u8] + dense_bytes(*x),
        },
        ValueV::List(vs) => count_bytes(vs.len()) + dense_bytes_seq(vs, 0),
        ValueV::Dict(ps) => count_bytes(ps.len()) + dense_bytes_pairs(ps, 0),
        ValueV::EnumUnit(nm) => framed_fixed_bytes(encode_utf8(nm)),
        ValueV::EnumNewtype(nm, x) => framed_fixed_bytes(encode_utf8(nm)) + dense_bytes(*x),
        ValueV::EnumFields(nm, xs) => framed_fixed_bytes(encode_utf8(nm)) + count_bytes(xs.len())
            + dense_bytes_seq(xs, 0),
    }
}

/// The concatenated encodings of `vs[i..]`.
pub open spec fn dense_bytes_seq(vs: Seq<ValueV>, i: int) -> Seq<u8>
    decreases vs, vs.len() - i, 1int,
{
    if i < 0 || i >= vs.len() {
        Seq::empty()
    } else {
        dense_bytes(vs[i]) + dense_bytes_seq(vs, i + 1)
    }
}

/// The concatenated encodings of the pairs `ps[i..]`, key before value.
pub open spec fn dense_bytes_pairs(ps: Seq<(ValueV, ValueV)>, i: int) -> Seq<u8>
    decreases ps, ps.len() - i, 1int,
{
    if i < 0 || i >= ps.len() {
        Seq::empty()
    } else {
        dense_bytes_pair(ps[i]) + dense_bytes_pairs(ps, i + 1)
    }
}

/// The encoding of one key-value pair.
pub open spec fn dense_bytes_pair(p: (ValueV, ValueV)) -> Seq<u8>
    decreases p, 0int, 2int,
{
    dense_bytes(p.0) + dense_bytes(p.1)
}

/// Parse a four-byte length prefix and that many body bytes off the
/// front of `bs`.
pub open spec fn parse_framed(bs: Seq<u8>) -> Option<(Seq<u8>, int)> {
    if bs.len() >= 4 {
        let n = spec_u32_from_le_bytes(bs.take(4)) as int;
        if 4 + n <= bs.len() {
            Some((bs.skip(4).take(n), 4 + n))
        } else {
            None
        }
    } else {
        None
    }
}

/// Parse one value of shape `s` off the front of `bs`: the value and
/// how many bytes it took, or nothing where the bytes do not carry a
/// value of that shape. A shape with an open-ended component parses
/// nothing: the dense format is not self-describing.
pub open spec fn dense_parse(s: ShapeV, bs: Seq<u8>) -> Option<(ValueV, int)>
    decreases s, 0x1_0000_0000int, 0int,
{
    match s {
        ShapeV::Bool => if bs.len() >= 1 {
            Some((ValueV::Bool(bs[0] != 0), 1))
        } else {
            None
        },
        ShapeV::U8 => if bs.len() >= 1 {
            Some((ValueV::U8(bs[0]), 1))
        } else {
            None
        },
        ShapeV::U16 => if bs.len() >= 2 {
            Some((ValueV::U16(spec_u16_from_le_bytes(bs.take(2))), 2))
        } else {
            None
        },
        ShapeV::U32 => if bs.len() >= 4 {
            Some((ValueV::U32(spec_u32_from_le_bytes(bs.take(4))), 4))
        } else {
            None
        },
        ShapeV::U64 => if bs.len() >= 8 {
            Some((ValueV::U64(spec_u64_from_le_bytes(bs.take(8))), 8))
        } else {
            None
        },
        ShapeV::I8 => if bs.len() >= 1 {
            Some((ValueV::I8(bs[0] as i8), 1))
        } else {
            None
        },
        ShapeV::I16 => if bs.len() >= 2 {
            Some((ValueV::I16(spec_u16_from_le_bytes(bs.take(2)) as i16), 2))
        } else {
            None
        },
        ShapeV::I32 => if bs.len() >= 4 {
            Some((ValueV::I32(spec_u32_from_le_bytes(bs.take(4)) as i32), 4))
        } else {
            None
        },
        ShapeV::I64 => if bs.len() >= 8 {
            Some((ValueV::I64(spec_u64_from_le_bytes(bs.take(8)) as i64), 8))
        } else {
            None
        },
        ShapeV::F32Bits => if bs.len() >= 4 {
            Some((ValueV::F32Bits(spec_u32_from_le_bytes(bs.take(4))), 4))
        } else {
            None
        },
        ShapeV::F64Bits => if bs.len() >= 8 {
            Some((ValueV::F64Bits(spec_u64_from_le_bytes(bs.take(8))), 8))
        } else {
            None
        },
        ShapeV::Str => match parse_framed(bs) {
            Some((body, k)) => if valid_utf8(body) {
                Some((ValueV::Str(decode_utf8(body)), k))
            } else {
                None
            },
            None => None,
        },
        ShapeV::Bytes => match parse_framed(bs) {
            Some((body, k)) => Some((ValueV::Bytes(body), k)),
            None => None,
        },
        ShapeV::Unit => if bs.len() >= 1 && bs[0] == 1 {
            Some((ValueV::Unit, 1))
        } else {
            None
        },
        ShapeV::Optional(inner) => if bs.len() >= 1 {
            if bs[0] == 0 {
                Some((ValueV::Opt(None), 1))
            } else {
                match dense_parse(*inner, bs.skip(1)) {
                    Some((x, k)) => Some((ValueV::Opt(Some(Box::new(x))), 1 + k)),
                    None => None,
                }
            }
        } else {
            None
        },
        ShapeV::List(_) => if bs.len() >= 4 {
            let n = spec_u32_from_le_bytes(bs.take(4)) as int;
            match parse_rep(s, bs.skip(4), n) {
                Some((vs, k)) => Some((ValueV::List(vs), 4 + k)),
                None => None,
            }
        } else {
            None
        },
        ShapeV::Tuple(ss) => if bs.len() >= 4 {
            let n = spec_u32_from_le_bytes(bs.take(4)) as int;
            if n == ss.len() {
                match parse_fields(ss, 0, bs.skip(4)) {
                    Some((vs, k)) => Some((ValueV::List(vs), 4 + k)),
                    None => None,
                }
            } else {
                None
            }
        } else {
            None
        },
        ShapeV::Record(ss) => if bs.len() >= 4 {
            let n = spec_u32_from_le_bytes(bs.take(4)) as int;
            if n == ss.len() {
                match parse_fields(ss, 0, bs.skip(4)) {
                    Some((vs, k)) => Some((ValueV::List(vs), 4 + k)),
                    None => None,
                }
            } else {
                None
            }
        } else {
            None
        },
        ShapeV::Dict(_, _) => if bs.len() >= 4 {
            let n = spec_u32_from_le_bytes(bs.take(4)) as int;
            match parse_pairs(s, bs.skip(4), n) {
                Some((ps, k)) => Some((ValueV::Dict(ps), 4 + k)),
                None => None,
            }
        } else {
            None
        },
        ShapeV::Choice(vars) => match parse_framed(bs) {
            Some((body, k)) => if valid_utf8(body) {
                let nm = decode_utf8(body);
                match find_variant(vars, nm, 0) {
                    Some(j) => if 0 <= j < vars.len() {
                        match vars[j].kind {
                            VariantKindV::Unit => Some((ValueV::EnumUnit(nm), k)),
                            VariantKindV::Newtype(t) => match dense_parse(*t, bs.skip(k)) {
                                Some((x, k2)) => Some(
                                    (ValueV::EnumNewtype(nm, Box::new(x)), k + k2),
                                ),
                                None => None,
                            },
                            VariantKindV::Fields(ts) => if bs.len() >= k + 4 {
                                let n = spec_u32_from_le_bytes(bs.skip(k).take(4)) as int;
                                if n == ts.len() {
                                    match parse_fields(ts, 0, bs.skip(k + 4)) {
                                        Some((xs, k2)) => Some(
                                            (ValueV::EnumFields(nm, xs), k + 4 + k2),
                                        ),
                                        None => None,
                                    }
                                } else {
                                    None
                                }
                            } else {
                                None
                            },
                        }
                    } else {
                        None
                    },
                    None => None,
                }
            } else {
                None
            },
            None => None,
        },
        ShapeV::Any => None,
    }
}

/// Parse `n` values of the element shape of the list shape `s` off
/// the front of `bs`.
pub open spec fn parse_rep(s: ShapeV, bs: Seq<u8>, n: int) -> Option<(Seq<ValueV>, int)>
    decreases s, n, 1int,
{
    if n <= 0 {
        Some((Seq::empty(), 0))
    } else {
        match s {
            ShapeV::List(e) => match dense_parse(*e, bs) {
                Some((x, k)) => match parse_rep(s, bs.skip(k), n - 1) {
                    Some((xs, k2)) => Some((seq![x] + xs, k + k2)),
                    None => None,
                },
                None => None,
            },
            _ => None,
        }
    }
}

/// Parse one value for each of the shapes `ss[i..]` off the front of
/// `bs`, in order.
pub open spec fn parse_fields(ss: Seq<ShapeV>, i: int, bs: Seq<u8>) -> Option<(Seq<ValueV>, int)>
    decreases ss, ss.len() - i, 1int,
{
    if i < 0 || i >= ss.len() {
        Some((Seq::empty(), 0))
    } else {
        match dense_parse(ss[i], bs) {
            Some((x, k)) => match parse_fields(ss, i + 1, bs.skip(k)) {
                Some((xs, k2)) => Some((seq![x] + xs, k + k2)),
                None => None,
            },
            None => None,
        }
    }
}

/// Parse `n` key-value pairs of the dictionary shape `s` off the
/// front of `bs`.
pub open spec fn parse_pairs(s: ShapeV, bs: Seq<u8>, n: int) -> Option<
    (Seq<(ValueV, ValueV)>, int),
>
    decreases s, n, 1int,
{
    if n <= 0 {
        Some((Seq::empty(), 0))
    } else {
        match s {
            ShapeV::Dict(ks, xs) => match dense_parse(*ks, bs) {
                Some((kv, k1)) => match dense_parse(*xs, bs.skip(k1)) {
                    Some((xv, k2)) => match parse_pairs(s, bs.skip(k1 + k2), n - 1) {
                        Some((ps, k3)) => Some((seq![(kv, xv)] + ps, k1 + k2 + k3)),
                        None => None,
                    },
                    None => None,
                },
                None => None,
            },
            _ => None,
        }
    }
}

} // verus!

use crate::value::{dense_wf, fits, pairs_dense_wf, pairs_fit, seq_dense_wf, seq_fits_elem, seq_fits_zip};
use crate::value::lemma_find_variant;

verus! {

/// Concatenation splits exactly at the left part's length.
proof fn lemma_concat_parts(a: Seq<u8>, b: Seq<u8>)
    ensures
        (a + b).take(a.len() as int) =~= a,
        (a + b).skip(a.len() as int) =~= b,
{
}

/// Framing round trip: a framed body followed by anything parses back
/// to exactly that body.
pub proof fn lemma_parse_framed(body: Seq<u8>, rest: Seq<u8>)
    requires
        body.len() < 0x1_0000_0000,
    ensures
        parse_framed(framed_fixed_bytes(body) + rest) == Some((body, 4 + body.len() as int)),
        framed_fixed_bytes(body).len() == 4 + body.len(),
{
    vstd::bytes::lemma_auto_spec_u32_to_from_le_bytes();
    let prefix = spec_u32_to_le_bytes(body.len() as u32);
    let bs = framed_fixed_bytes(body) + rest;
    assert(bs =~= prefix + (body + rest));
    lemma_concat_parts(prefix, body + rest);
    assert(bs.take(4) =~= prefix);
    assert(spec_u32_from_le_bytes(prefix) == body.len() as u32);
    assert(bs.skip(4) =~= body + rest);
    lemma_concat_parts(body, rest);
    assert(bs.skip(4).take(body.len() as int) =~= body);
}

/// The dense round trip: parsing the encoding of a well-formed value
/// against a shape it fits, with anything after it, gives the value
/// back and consumes exactly its encoding.
#[verifier::rlimit(100)]
#[verifier::spinoff_prover]
pub proof fn lemma_dense_round_trip(v: ValueV, s: ShapeV, rest: Seq<u8>)
    requires
        fits(v, s),
        dense_wf(v),
    ensures
        dense_parse(s, dense_bytes(v) + rest) == Some((v, dense_bytes(v).len() as int)),
    decreases v, 0x1_0000_0000int, 0int,
{
    let bs = dense_bytes(v) + rest;
    match v {
        ValueV::Bool(b) => {
            assert(bs[0] == dense_bytes(v)[0]);
        },
        ValueV::U8(n) => {
            assert(bs[0] == n);
        },
        ValueV::U16(n) => {
            vstd::bytes::lemma_auto_spec_u16_to_from_le_bytes();
            lemma_concat_parts(dense_bytes(v), rest);
            assert(bs.take(2) =~= spec_u16_to_le_bytes(n));
        },
        ValueV::U32(n) => {
            vstd::bytes::lemma_auto_spec_u32_to_from_le_bytes();
            lemma_concat_parts(dense_bytes(v), rest);
            assert(bs.take(4) =~= spec_u32_to_le_bytes(n));
        },
        ValueV::U64(n) => {
            vstd::bytes::lemma_auto_spec_u64_to_from_le_bytes();
            lemma_concat_parts(dense_bytes(v), rest);
            assert(bs.take(8) =~= spec_u64_to_le_bytes(n));
        },
        ValueV::I8(n) => {
            assert(bs[0] == n as u8);
            assert((n as u8) as i8 == n) by (bit_vector);
        },
        ValueV::I16(n) => {
            vstd::bytes::lemma_auto_spec_u16_to_from_le_bytes();
            lemma_concat_parts(dense_bytes(v), rest);
            assert(bs.take(2) =~= spec_u16_to_le_bytes(n as u16));
            assert((n as u16) as i16 == n) by (bit_vector);
        },
        ValueV::I32(n) => {
            vstd::bytes::lemma_auto_spec_u32_to_from_le_bytes();
            lemma_concat_parts(dense_bytes(v), rest);
            assert(bs.take(4) =~= spec_u32_to_le_bytes(n as u32));
            assert((n as u32) as i32 == n) by (bit_vector);
        },
        ValueV::I64(n) => {
            vstd::bytes::lemma_auto_spec_u64_to_from_le_bytes();
            lemma_concat_parts(dense_bytes(v), rest);
            assert(bs.take(8) =~= spec_u64_to_le_bytes(n as u64));
            assert((n as u64) as i64 == n) by (bit_vector);
        },
        ValueV::F32Bits(n) => {
            vstd::bytes::lemma_auto_spec_u32_to_from_le_bytes();
            lemma_concat_parts(dense_bytes(v), rest);
            assert(bs.take(4) =~= spec_u32_to_le_bytes(n));
        },
        ValueV::F64Bits(n) => {
            vstd::bytes::lemma_auto_spec_u64_to_from_le_bytes();
            lemma_concat_parts(dense_bytes(v), rest);
            assert(bs.take(8) =~= spec_u64_to_le_bytes(n));
        },
        ValueV::Str(cs) => {
            let body = encode_utf8(cs);
            lemma_parse_framed(body, rest);
            vstd::utf8::encode_utf8_valid_utf8(cs);
            vstd::utf8::encode_utf8_decode_utf8(cs);
        },
        ValueV::Bytes(b) => {
            lemma_parse_framed(b, rest);
        },
        ValueV::Unit => {
            assert(bs[0] == 1);
        },
        ValueV::Opt(o) => {
            match o {
                None => {
                    assert(bs[0] == 0);
                },
                Some(x) => {
                    assert(bs[0] == 1);
                    let inner = s->Optional_0;
                    assert(bs.skip(1) =~= dense_bytes(*x) + rest);
                    lemma_dense_round_trip(*x, *inner, rest);
                },
            }
        },
        ValueV::List(vs) => {
            vstd::bytes::lemma_auto_spec_u32_to_from_le_bytes();
            let cnt = count_bytes(vs.len());
            let tail = dense_bytes_seq(vs, 0);
            assert(bs =~= cnt + (tail + rest));
            lemma_concat_parts(cnt, tail + rest);
            assert(bs.take(4) =~= cnt);
            assert(spec_u32_from_le_bytes(cnt) == vs.len() as u32);
            assert(bs.skip(4) =~= tail + rest);
            match s {
                ShapeV::List(_) => {
                    lemma_rep_round_trip(vs, 0, s, rest);
                },
                ShapeV::Tuple(ss) => {
                    lemma_fields_round_trip(vs, ss, 0, rest);
                },
                ShapeV::Record(ss) => {
                    lemma_fields_round_trip(vs, ss, 0, rest);
                },
                _ => {},
            }
            assert(vs.subrange(0, vs.len() as int) =~= vs);
        },
        ValueV::Dict(ps) => {
            vstd::bytes::lemma_auto_spec_u32_to_from_le_bytes();
            let cnt = count_bytes(ps.len());
            let tail = dense_bytes_pairs(ps, 0);
            assert(bs =~= cnt + (tail + rest));
            lemma_concat_parts(cnt, tail + rest);
            assert(bs.take(4) =~= cnt);
            assert(spec_u32_from_le_bytes(cnt) == ps.len() as u32);
            assert(bs.skip(4) =~= tail + rest);
            lemma_pairs_round_trip(ps, 0, s, rest);
            assert(ps.subrange(0, ps.len() as int) =~= ps);
        },
        ValueV::EnumUnit(nm) => {
            let body = encode_utf8(nm);
            lemma_parse_framed(body, rest);
            vstd::utf8::encode_utf8_valid_utf8(nm);
            vstd::utf8::encode_utf8_decode_utf8(nm);
            let vars = s->Choice_0;
            lemma_find_variant(vars, nm, 0);
        },
        ValueV::EnumNewtype(nm, x) => {
            let body = encode_utf8(nm);
            let name_frame = framed_fixed_bytes(body);
            assert(bs =~= name_frame + (dense_bytes(*x) + rest));
            lemma_parse_framed_more(body, dense_bytes(*x) + rest);
            vstd::utf8::encode_utf8_valid_utf8(nm);
            vstd::utf8::encode_utf8_decode_utf8(nm);
            let vars = s->Choice_0;
            lemma_find_variant(vars, nm, 0);
            let j = find_variant(vars, nm, 0)->Some_0;
            let t = vars[j].kind->Newtype_0;
            lemma_concat_parts(name_frame, dense_bytes(*x) + rest);
            assert(bs.skip(name_frame.len() as int) =~= dense_bytes(*x) + rest);
            lemma_dense_round_trip(*x, *t, rest);
        },
        ValueV::EnumFields(nm, xs) => {
            vstd::bytes::lemma_auto_spec_u32_to_from_le_bytes();
            let body = encode_utf8(nm);
            let name_frame = framed_fixed_bytes(body);
            let cnt = count_bytes(xs.len());
            let tail = dense_bytes_seq(xs, 0);
            assert(bs =~= name_frame + ((cnt + tail) + rest));
            lemma_parse_framed_more(body, (cnt + tail) + rest);
            vstd::utf8::encode_utf8_valid_utf8(nm);
            vstd::utf8::encode_utf8_decode_utf8(nm);
            let vars = s->Choice_0;
            lemma_find_variant(vars, nm, 0);
            let j = find_variant(vars, nm, 0)->Some_0;
            let ts = vars[j].kind->Fields_0;
            let kn = name_frame.len() as int;
            lemma_concat_parts(name_frame, (cnt + tail) + rest);
            assert(bs.skip(kn) =~= (cnt + tail) + rest);
            assert(bs.skip(kn) =~= cnt + (tail + rest));
            assert(bs.skip(kn).take(4) =~= cnt) by {
                lemma_concat_parts(cnt, tail + rest);
            };
            assert(spec_u32_from_le_bytes(cnt) == xs.len() as u32);
            assert(bs.len() >= kn + 4);
            assert(bs.skip(kn + 4) =~= tail + rest) by {
                lemma_concat_parts(cnt, tail + rest);
                assert(bs.skip(kn).skip(4) =~= tail + rest);
                crate::wire::lemma_skip_of_skip(bs, kn, 4);
            };
            lemma_fields_round_trip(xs, ts, 0, rest);
            assert(xs.subrange(0, xs.len() as int) =~= xs);
        },
    }
}

/// Framing with a known tail: the tail is what follows the frame.
proof fn lemma_parse_framed_more(body: Seq<u8>, rest: Seq<u8>)
    requires
        body.len() < 0x1_0000_0000,
    ensures
        parse_framed(framed_fixed_bytes(body) + rest) == Some((body, 4 + body.len() as int)),
        4 + body.len() == framed_fixed_bytes(body).len(),
{
    vstd::bytes::lemma_auto_spec_u32_to_from_le_bytes();
    lemma_parse_framed(body, rest);
}

/// Round trip of a run of list elements: parsing the concatenated
/// encodings of `vs[i..]` gives those values back.
proof fn lemma_rep_round_trip(vs: Seq<ValueV>, i: int, s: ShapeV, rest: Seq<u8>)
    requires
        0 <= i <= vs.len(),
        s matches ShapeV::List(_),
        seq_fits_elem(vs, *s->List_0),
        seq_dense_wf(vs),
    ensures
        parse_rep(s, dense_bytes_seq(vs, i) + rest, vs.len() - i) == Some(
            (vs.subrange(i, vs.len() as int), dense_bytes_seq(vs, i).len() as int),
        ),
    decreases vs, vs.len() - i, 1int,
{
    let e = s->List_0;
    if i == vs.len() {
        assert(dense_bytes_seq(vs, i) =~= Seq::<u8>::empty());
        assert(vs.subrange(i, vs.len() as int) =~= Seq::<ValueV>::empty());
        assert(dense_bytes_seq(vs, i) + rest =~= rest);
    } else {
        let head = dense_bytes(vs[i]);
        let tail = dense_bytes_seq(vs, i + 1);
        assert(dense_bytes_seq(vs, i) + rest =~= head + (tail + rest));
        lemma_dense_round_trip(vs[i], *e, tail + rest);
        lemma_concat_parts(head, tail + rest);
        assert((dense_bytes_seq(vs, i) + rest).skip(head.len() as int) =~= tail + rest);
        lemma_rep_round_trip(vs, i + 1, s, rest);
        assert(seq![vs[i]] + vs.subrange(i + 1, vs.len() as int) =~= vs.subrange(
            i,
            vs.len() as int,
        ));
    }
}

/// Round trip of positional fields: parsing the concatenated
/// encodings of `vs[i..]` against the shapes `ss[i..]` gives the
/// values back.
proof fn lemma_fields_round_trip(vs: Seq<ValueV>, ss: Seq<ShapeV>, i: int, rest: Seq<u8>)
    requires
        0 <= i <= vs.len(),
        vs.len() == ss.len(),
        seq_fits_zip(vs, ss),
        seq_dense_wf(vs),
    ensures
        parse_fields(ss, i, dense_bytes_seq(vs, i) + rest) == Some(
            (vs.subrange(i, vs.len() as int), dense_bytes_seq(vs, i).len() as int),
        ),
    decreases vs, vs.len() - i, 1int,
{
    if i == vs.len() {
        assert(dense_bytes_seq(vs, i) =~= Seq::<u8>::empty());
        assert(vs.subrange(i, vs.len() as int) =~= Seq::<ValueV>::empty());
        assert(dense_bytes_seq(vs, i) + rest =~= rest);
    } else {
        let head = dense_bytes(vs[i]);
        let tail = dense_bytes_seq(vs, i + 1);
        assert(dense_bytes_seq(vs, i) + rest =~= head + (tail + rest));
        lemma_dense_round_trip(vs[i], ss[i], tail + rest);
        lemma_concat_parts(head, tail + rest);
        assert((dense_bytes_seq(vs, i) + rest).skip(head.len() as int) =~= tail + rest);
        lemma_fields_round_trip(vs, ss, i + 1, rest);
        assert(seq![vs[i]] + vs.subrange(i + 1, vs.len() as int) =~= vs.subrange(
            i,
            vs.len() as int,
        ));
    }
}

/// Round trip of dictionary pairs.
proof fn lemma_pairs_round_trip(ps: Seq<(ValueV, ValueV)>, i: int, s: ShapeV, rest: Seq<u8>)
    requires
        0 <= i <= ps.len(),
        s matches ShapeV::Dict(_, _),
        pairs_fit(ps, *s->Dict_0, *s->Dict_1),
        pairs_dense_wf(ps),
    ensures
        parse_pairs(s, dense_bytes_pairs(ps, i) + rest, ps.len() - i) == Some(
            (ps.subrange(i, ps.len() as int), dense_bytes_pairs(ps, i).len() as int),
        ),
    decreases ps, ps.len() - i, 1int,
{
    let ks = s->Dict_0;
    let xs = s->Dict_1;
    if i == ps.len() {
        assert(dense_bytes_pairs(ps, i) =~= Seq::<u8>::empty());
        assert(ps.subrange(i, ps.len() as int) =~= Seq::<(ValueV, ValueV)>::empty());
        assert(dense_bytes_pairs(ps, i) + rest =~= rest);
    } else {
        let hk = dense_bytes(ps[i].0);
        let hx = dense_bytes(ps[i].1);
        let tail = dense_bytes_pairs(ps, i + 1);
        assert(dense_bytes_pair(ps[i]) =~= hk + hx);
        assert(dense_bytes_pairs(ps, i) =~= (hk + hx) + tail);
        assert(dense_bytes_pairs(ps, i) + rest =~= hk + (hx + (tail + rest)));
        lemma_dense_round_trip(ps[i].0, *ks, hx + (tail + rest));
        lemma_concat_parts(hk, hx + (tail + rest));
        assert((dense_bytes_pairs(ps, i) + rest).skip(hk.len() as int) =~= hx + (tail + rest));
        lemma_dense_round_trip(ps[i].1, *xs, tail + rest);
        lemma_concat_parts(hx, tail + rest);
        assert((hx + (tail + rest)).skip(hx.len() as int) =~= tail + rest);
        crate::wire::lemma_skip_of_skip(
            dense_bytes_pairs(ps, i) + rest,
            hk.len() as int,
            hx.len() as int,
        );
        assert((dense_bytes_pairs(ps, i) + rest).skip(hk.len() as int + hx.len() as int) =~= tail + rest);
        lemma_pairs_round_trip(ps, i + 1, s, rest);
        assert(seq![ps[i]] + ps.subrange(i + 1, ps.len() as int) =~= ps.subrange(
            i,
            ps.len() as int,
        ));
    }
}

} // verus!
