//! The structured deserializer: shape-directed decoding of the dense
//! format. An open-ended decode target always fails with
//! `ShapeUnsupported`; in probe mode a shape that the dense path
//! cannot carry fails the same way before consuming anything.

use crate::data_read::DataReader;
use crate::dense::{dense_parse, parse_framed, parse_fields, parse_pairs, parse_rep};
use crate::error::{DataError, Mode};
use crate::value::{
    Shape, ShapeV, Value, ValueV, Variant, find_variant, lemma_pair_views_push, lemma_vviews_push,
    pair_views, probe_safe, probe_safe_exec, seq_probe_safe, seq_shape_known, shape_known, sview,
    sviews, variant_views, variants_known, variant_known, vview, vviews,
};
use crate::wire;
use vstd::prelude::*;

verus! {

/// Decode one value of shape `s` off the front of the reader. The
/// result is exactly what the wire-format parser says of the bytes: on
/// success the parsed value, with exactly its bytes consumed; failure
/// exactly when the bytes carry no value of that shape. In probe mode
/// a shape the dense path cannot carry fails fast with
/// `ShapeUnsupported` and consumes nothing.
#[verifier::rlimit(100)]
#[verifier::spinoff_prover]
pub fn deserialize_value(rd: &mut DataReader, s: &Shape) -> (r: Result<Value, DataError>)
    requires
        old(rd).wf(),
    ensures
        final(rd).wf(),
        final(rd).spec_mode() == old(rd).spec_mode(),
        final(rd).spec_original_len() == old(rd).spec_original_len(),
        match r {
            Ok(v) => {
                &&& old(rd).spec_mode() == Mode::Probe ==> probe_safe(sview(*s))
                &&& dense_parse(sview(*s), old(rd)@) matches Some((vv, k)) && vv == vview(v) && 0
                    <= k <= old(rd)@.len() && final(rd)@ == old(rd)@.skip(k)
            },
            Err(e) => {
                &&& (old(rd).spec_mode() == Mode::Probe && !probe_safe(sview(*s))) ==> (e
                    == DataError::ShapeUnsupported && final(rd)@ == old(rd)@)
                &&& (old(rd).spec_mode() == Mode::Normal || probe_safe(sview(*s)))
                    ==> dense_parse(sview(*s), old(rd)@) is None
                &&& e == DataError::ShapeUnsupported ==> !shape_known(sview(*s)) || (old(rd).spec_mode() == Mode::Probe && !probe_safe(sview(*s)))
            },
        },
        sview(*s) is Any ==> r == Err::<Value, DataError>(DataError::ShapeUnsupported) && final(rd)@ == old(rd)@,
        old(rd).spec_mode() == Mode::Normal && sview(*s) is Unit && old(rd)@.len() >= 1 && old(rd)@[0] != 1 ==> r == Err::<Value, DataError>(DataError::InvalidEncoding),
        (old(rd).spec_mode() == Mode::Normal || probe_safe(sview(*s))) && (sview(
            *s,
        ) matches ShapeV::Choice(vars2) && parse_framed(old(rd)@) matches Some((body, kf))
            && vstd::utf8::valid_utf8(body) && find_variant(
            vars2,
            vstd::utf8::decode_utf8(body),
            0,
        ) is None) ==> r == Err::<Value, DataError>(DataError::InvalidEncoding),
    decreases *s, 0x1_0000_0000int, 1int,
{
    let ghost pre = rd@;
    let m = rd.get_mode();
    if m == Mode::Probe && !probe_safe_exec(s) {
        return Err(DataError::ShapeUnsupported);
    }
    match s {
        Shape::Bool => deserialize_scalar(rd, s),
        Shape::U8 => deserialize_scalar(rd, s),
        Shape::U16 => deserialize_scalar(rd, s),
        Shape::U32 => deserialize_scalar(rd, s),
        Shape::U64 => deserialize_scalar(rd, s),
        Shape::I8 => deserialize_scalar(rd, s),
        Shape::I16 => deserialize_scalar(rd, s),
        Shape::I32 => deserialize_scalar(rd, s),
        Shape::I64 => deserialize_scalar(rd, s),
        Shape::F32Bits => deserialize_scalar(rd, s),
        Shape::F64Bits => deserialize_scalar(rd, s),
        Shape::Str => deserialize_scalar(rd, s),
        Shape::Bytes => deserialize_scalar(rd, s),
        Shape::Unit => deserialize_scalar(rd, s),
        Shape::Optional(inner) => match rd.read_fixed::<u8>() {
            Ok(tag) => {
                if tag == 0 {
                    Ok(Value::Opt(None))
                } else {
                    let ghost mid = rd@;
                    match deserialize_value(rd, inner) {
                        Ok(x) => {
                            proof {
                                let k = dense_parse(sview(**inner), mid)->Some_0.1;
                                wire::lemma_skip_of_skip(pre, 1, k);
                            }
                            Ok(Value::Opt(Some(Box::new(x))))
                        },
                        Err(e) => Err(e),
                    }
                }
            },
            Err(e) => Err(e),
        },
        Shape::List(_) => {
            let n = match rd.read_fixed::<u32>() {
                Ok(n) => n,
                Err(e) => {
                    return Err(e);
                },
            };
            let ghost mid = rd@;
            match deserialize_elems(rd, s, n) {
                Ok(out) => {
                    proof {
                        let k = parse_rep(sview(*s), mid, n as int)->Some_0.1;
                        wire::lemma_skip_of_skip(pre, 4, k);
                    }
                    Ok(Value::List(out))
                },
                Err(e) => Err(e),
            }
        },
        Shape::Tuple(ss) => {
            let n = match rd.read_fixed::<u32>() {
                Ok(n) => n,
                Err(e) => {
                    return Err(e);
                },
            };
            if n as u64 != ss.len() as u64 {
                return Err(DataError::InvalidEncoding);
            }
            let ghost mid = rd@;
            match deserialize_fields(rd, ss) {
                Ok(out) => {
                    proof {
                        let k = parse_fields(sviews(ss@), 0, mid)->Some_0.1;
                        wire::lemma_skip_of_skip(pre, 4, k);
                    }
                    Ok(Value::List(out))
                },
                Err(e) => Err(e),
            }
        },
        Shape::Record(ss) => {
            let n = match rd.read_fixed::<u32>() {
                Ok(n) => n,
                Err(e) => {
                    return Err(e);
                },
            };
            if n as u64 != ss.len() as u64 {
                return Err(DataError::InvalidEncoding);
            }
            let ghost mid = rd@;
            match deserialize_fields(rd, ss) {
                Ok(out) => {
                    proof {
                        let k = parse_fields(sviews(ss@), 0, mid)->Some_0.1;
                        wire::lemma_skip_of_skip(pre, 4, k);
                    }
                    Ok(Value::List(out))
                },
                Err(e) => Err(e),
            }
        },
        Shape::Dict(_, _) => {
            let n = match rd.read_fixed::<u32>() {
                Ok(n) => n,
                Err(e) => {
                    return Err(e);
                },
            };
            let ghost mid = rd@;
            match deserialize_dict_pairs(rd, s, n) {
                Ok(out) => {
                    proof {
                        let k = parse_pairs(sview(*s), mid, n as int)->Some_0.1;
                        wire::lemma_skip_of_skip(pre, 4, k);
                    }
                    Ok(Value::Dict(out))
                },
                Err(e) => Err(e),
            }
        },
        Shape::Choice(_) => deserialize_choice(rd, s),
        Shape::Any => Err(DataError::ShapeUnsupported),
    }
}


/// Whether the shape is a leaf of the format: a primitive, text, raw
/// bytes or the unit marker.
pub open spec fn scalar_shape(s: ShapeV) -> bool {
    ||| s is Bool
    ||| s is U8
    ||| s is U16
    ||| s is U32
    ||| s is U64
    ||| s is I8
    ||| s is I16
    ||| s is I32
    ||| s is I64
    ||| s is F32Bits
    ||| s is F64Bits
    ||| s is Str
    ||| s is Bytes
    ||| s is Unit
}

/// Decode one leaf value.
#[verifier::rlimit(100)]
#[verifier::spinoff_prover]
fn deserialize_scalar(rd: &mut DataReader, s: &Shape) -> (r: Result<Value, DataError>)
    requires
        old(rd).wf(),
        scalar_shape(sview(*s)),
    ensures
        final(rd).wf(),
        final(rd).spec_mode() == old(rd).spec_mode(),
        final(rd).spec_original_len() == old(rd).spec_original_len(),
        match r {
            Ok(v) => {
                &&& dense_parse(sview(*s), old(rd)@) matches Some((vv, k)) && vv == vview(v) && 0
                    <= k <= old(rd)@.len() && final(rd)@ == old(rd)@.skip(k)
            },
            Err(e) => dense_parse(sview(*s), old(rd)@) is None && e
                != DataError::ShapeUnsupported,
        },
        sview(*s) is Unit && old(rd)@.len() >= 1 && old(rd)@[0] != 1 ==> r == Err::<
            Value,
            DataError,
        >(DataError::InvalidEncoding),
{
    match s {
        Shape::Bool => match rd.read_fixed::<bool>() {
            Ok(b) => Ok(Value::Bool(b)),
            Err(e) => Err(e),
        },
        Shape::U8 => match rd.read_fixed::<u8>() {
            Ok(n) => Ok(Value::U8(n)),
            Err(e) => Err(e),
        },
        Shape::U16 => match rd.read_fixed::<u16>() {
            Ok(n) => Ok(Value::U16(n)),
            Err(e) => Err(e),
        },
        Shape::U32 => match rd.read_fixed::<u32>() {
            Ok(n) => Ok(Value::U32(n)),
            Err(e) => Err(e),
        },
        Shape::U64 => match rd.read_fixed::<u64>() {
            Ok(n) => Ok(Value::U64(n)),
            Err(e) => Err(e),
        },
        Shape::I8 => match rd.read_fixed::<i8>() {
            Ok(n) => Ok(Value::I8(n)),
            Err(e) => Err(e),
        },
        Shape::I16 => match rd.read_fixed::<i16>() {
            Ok(n) => Ok(Value::I16(n)),
            Err(e) => Err(e),
        },
        Shape::I32 => match rd.read_fixed::<i32>() {
            Ok(n) => Ok(Value::I32(n)),
            Err(e) => Err(e),
        },
        Shape::I64 => match rd.read_fixed::<i64>() {
            Ok(n) => Ok(Value::I64(n)),
            Err(e) => Err(e),
        },
        Shape::F32Bits => match rd.read_fixed::<u32>() {
            Ok(n) => Ok(Value::F32Bits(n)),
            Err(e) => Err(e),
        },
        Shape::F64Bits => match rd.read_fixed::<u64>() {
            Ok(n) => Ok(Value::F64Bits(n)),
            Err(e) => Err(e),
        },
        Shape::Str => match rd.read_fixed_str() {
            Ok(t) => Ok(Value::Str(t.to_owned())),
            Err(e) => Err(e),
        },
        Shape::Bytes => match rd.read_fixed_buf() {
            Ok(b) => Ok(Value::Bytes(vstd::slice::slice_to_vec(b))),
            Err(e) => Err(e),
        },
        Shape::Unit => match rd.read_fixed::<u8>() {
            Ok(tag) => {
                if tag != 1 {
                    return Err(DataError::InvalidEncoding);
                }
                Ok(Value::Unit)
            },
            Err(e) => Err(e),
        },
        _ => {
            proof {
                assert(false);
            }
            Err(DataError::ShapeUnsupported)
        },
    }
}

/// Decode one enum value of the choice shape `s`: a framed variant
/// name, then the named variant's payload. An unknown name is a hard
/// `InvalidEncoding` failure.
#[verifier::rlimit(100)]
#[verifier::spinoff_prover]
fn deserialize_choice(rd: &mut DataReader, s: &Shape) -> (r: Result<Value, DataError>)
    requires
        old(rd).wf(),
        (*s) matches Shape::Choice(_),
        old(rd).spec_mode() == Mode::Probe ==> probe_safe(sview(*s)),
    ensures
        final(rd).wf(),
        final(rd).spec_mode() == old(rd).spec_mode(),
        final(rd).spec_original_len() == old(rd).spec_original_len(),
        match r {
            Ok(v) => {
                &&& dense_parse(sview(*s), old(rd)@) matches Some((vv, k)) && vv == vview(v) && 0
                    <= k <= old(rd)@.len() && final(rd)@ == old(rd)@.skip(k)
            },
            Err(e) => dense_parse(sview(*s), old(rd)@) is None && (e
                == DataError::ShapeUnsupported ==> !shape_known(sview(*s))),
        },
        (sview(*s) matches ShapeV::Choice(vars2) && parse_framed(old(rd)@) matches Some(
            (body, kf),
        ) && vstd::utf8::valid_utf8(body) && find_variant(
            vars2,
            vstd::utf8::decode_utf8(body),
            0,
        ) is None) ==> r == Err::<Value, DataError>(DataError::InvalidEncoding),
    decreases *s, 0x1_0000_0000int, 0int,
{
    let ghost pre = rd@;
    let vars: &Vec<Variant> = match s {
        Shape::Choice(vars) => vars,
        _ => {
            return Err(DataError::ShapeUnsupported);
        },
    };
    proof {
        assert((*s) matches Shape::Choice(vb) && vars@ == vb@);
    }
            let name = match rd.read_fixed_str() {
                Ok(t) => t,
                Err(e) => {
                    return Err(e);
                },
            };
            let ghost kname = pre.len() - rd@.len();
            let j = match crate::value::find_variant_exec(vars, name) {
                Some(j) => j,
                None => {
                    return Err(DataError::InvalidEncoding);
                },
            };
            proof {
                assert(variant_views(vars@)[j as int] == crate::value::variant_view(
                    vars@[j as int],
                ));
            }
            match &vars[j].kind {
                crate::value::VariantKind::Unit => Ok(Value::EnumUnit(name.to_owned())),
                crate::value::VariantKind::Newtype(t) => {
                    proof {
                        if old(rd).spec_mode() == Mode::Probe {
                            assert(crate::value::variants_probe_safe(variant_views(vars@)));
                            assert(crate::value::variant_probe_safe(
                                variant_views(vars@)[j as int],
                            ));
                            assert(probe_safe(sview(**t)));
                        }
                    }
                    let ghost mid = rd@;
                    match deserialize_value(rd, t) {
                        Ok(x) => {
                            proof {
                                let k = dense_parse(sview(**t), mid)->Some_0.1;
                                wire::lemma_skip_of_skip(pre, kname, k);
                            }
                            Ok(Value::EnumNewtype(name.to_owned(), Box::new(x)))
                        },
                        Err(e) => {
                            proof {
                                if e == DataError::ShapeUnsupported {
                                    assert(!shape_known(sview(**t)));
                                    assert(!variant_known(variant_views(vars@)[j as int]));
                                    assert(!variants_known(variant_views(vars@)));
                                }
                            }
                            Err(e)
                        },
                    }
                },
                crate::value::VariantKind::Fields(ts) => {
                    let n = match rd.read_fixed::<u32>() {
                        Ok(n) => n,
                        Err(e) => {
                            return Err(e);
                        },
                    };
                    if n as u64 != ts.len() as u64 {
                        return Err(DataError::InvalidEncoding);
                    }
                    proof {
                        if old(rd).spec_mode() == Mode::Probe {
                            assert(crate::value::variants_probe_safe(variant_views(vars@)));
                            assert(crate::value::variant_probe_safe(
                                variant_views(vars@)[j as int],
                            ));
                            assert(crate::value::seq_probe_safe(sviews(ts@)));
                        }
                        wire::lemma_skip_of_skip(pre, kname, 4);
                    }
                    let ghost mid = rd@;
                    match deserialize_fields(rd, ts) {
                        Ok(out) => {
                            proof {
                                let k = parse_fields(sviews(ts@), 0, mid)->Some_0.1;
                                wire::lemma_skip_of_skip(pre, kname + 4, k);
                            }
                            Ok(Value::EnumFields(name.to_owned(), out))
                        },
                        Err(e) => {
                            proof {
                                if e == DataError::ShapeUnsupported {
                                    assert(!seq_shape_known(sviews(ts@)));
                                    assert(!variant_known(variant_views(vars@)[j as int]));
                                    assert(!variants_known(variant_views(vars@)));
                                }
                            }
                            Err(e)
                        },
                    }
                },
            }
}

/// Decode `n` values of the element shape of the list shape `s`.
fn deserialize_elems(rd: &mut DataReader, s: &Shape, n: u32) -> (r: Result<Vec<Value>, DataError>)
    requires
        old(rd).wf(),
        (*s) matches Shape::List(_),
        old(rd).spec_mode() == Mode::Probe ==> probe_safe(sview(*s)),
    ensures
        final(rd).wf(),
        final(rd).spec_mode() == old(rd).spec_mode(),
        final(rd).spec_original_len() == old(rd).spec_original_len(),
        match r {
            Ok(out) => parse_rep(sview(*s), old(rd)@, n as int) matches Some((xs, k)) && xs
                == vviews(out@) && 0 <= k <= old(rd)@.len() && final(rd)@ == old(rd)@.skip(k),
            Err(e) => parse_rep(sview(*s), old(rd)@, n as int) is None && (e
                == DataError::ShapeUnsupported ==> !shape_known(sview(*s))),
        },
    decreases *s, 0x1_0000_0000int, 0int,
{
    let ghost sv = sview(*s);
    let ghost b0 = old(rd)@;
    let elem: &Shape = match s {
        Shape::List(e) => e,
        _ => {
            return Err(DataError::ShapeUnsupported);
        },
    };
    let mut out: Vec<Value> = Vec::new();
    let mut i: u32 = 0;
    proof {
        assert(vviews(out@) =~= Seq::<ValueV>::empty());
    }
    while i < n
        invariant
            rd.wf(),
            rd.spec_mode() == old(rd).spec_mode(),
            rd.spec_original_len() == old(rd).spec_original_len(),
            old(rd).spec_mode() == Mode::Probe ==> probe_safe(sv),
            sv == sview(*s),
            (*s) matches Shape::List(eb) && *elem == *eb,
            sv matches ShapeV::List(e2) && *e2 == sview(*elem),
            b0 == old(rd)@,
            i <= n,
            out@.len() == i,
            b0.len() >= rd@.len(),
            rd@ == b0.skip(b0.len() - rd@.len()),
            match parse_rep(sv, rd@, (n - i) as int) {
                Some((xs, k)) => parse_rep(sv, b0, n as int) == Some(
                    (vviews(out@) + xs, (b0.len() - rd@.len()) + k),
                ),
                None => parse_rep(sv, b0, n as int) is None,
            },
        decreases n - i,
    {
        let ghost mid = rd@;
        match deserialize_value(rd, elem) {
            Ok(x) => {
                proof {
                    let (vv, k) = dense_parse(sview(*elem), mid)->Some_0;
                    assert(rd@ == mid.skip(k) && 0 <= k <= mid.len());
                    assert(mid.len() - rd@.len() == k);
                    lemma_vviews_push(out@, x);
                    assert(vviews(out@.push(x)) =~= vviews(out@).push(vview(x)));
                    wire::lemma_skip_of_skip(b0, b0.len() - mid.len(), mid.len() - rd@.len());
                    match parse_rep(sv, rd@, (n - i - 1) as int) {
                        Some((xs1, k1)) => {
                            assert(parse_rep(sv, mid, (n - i) as int) == Some(
                                (seq![vview(x)] + xs1, (mid.len() - rd@.len()) + k1),
                            ));
                            assert(vviews(out@).push(vview(x)) + xs1 =~= vviews(out@) + (seq![
                                vview(x),
                            ] + xs1));
                        },
                        None => {
                            assert(parse_rep(sv, mid, (n - i) as int) is None);
                        },
                    }
                }
                out.push(x);
                i = i + 1;
            },
            Err(e) => {
                proof {
                    assert(probe_safe(sv) ==> probe_safe(sview(*elem)));
                    assert(dense_parse(sview(*elem), mid) is None);
                    assert(parse_rep(sv, mid, (n - i) as int) is None);
                    if e == DataError::ShapeUnsupported {
                        assert(!shape_known(sview(*elem)));
                        assert(!shape_known(sv));
                    }
                }
                return Err(e);
            },
        }
    }
    proof {
        assert(parse_rep(sv, rd@, 0) == Some((Seq::<ValueV>::empty(), 0int)));
        assert(vviews(out@) + Seq::<ValueV>::empty() =~= vviews(out@));
    }
    Ok(out)
}

/// Decode one value for each shape in `ss`, in order.
fn deserialize_fields(rd: &mut DataReader, ss: &Vec<Shape>) -> (r: Result<Vec<Value>, DataError>)
    requires
        old(rd).wf(),
        old(rd).spec_mode() == Mode::Probe ==> seq_probe_safe(sviews(ss@)),
    ensures
        final(rd).wf(),
        final(rd).spec_mode() == old(rd).spec_mode(),
        final(rd).spec_original_len() == old(rd).spec_original_len(),
        match r {
            Ok(out) => parse_fields(sviews(ss@), 0, old(rd)@) matches Some((xs, k)) && xs
                == vviews(out@) && 0 <= k <= old(rd)@.len() && final(rd)@ == old(rd)@.skip(k),
            Err(e) => parse_fields(sviews(ss@), 0, old(rd)@) is None && (e
                == DataError::ShapeUnsupported ==> !seq_shape_known(sviews(ss@))),
        },
    decreases ss@, 0x1_0000_0000int, 0int,
{
    let ghost ssv = sviews(ss@);
    let ghost b0 = old(rd)@;
    let n = ss.len();
    let mut out: Vec<Value> = Vec::new();
    let mut i: usize = 0;
    proof {
        assert(vviews(out@) =~= Seq::<ValueV>::empty());
    }
    while i < n
        invariant
            rd.wf(),
            rd.spec_mode() == old(rd).spec_mode(),
            rd.spec_original_len() == old(rd).spec_original_len(),
            old(rd).spec_mode() == Mode::Probe ==> seq_probe_safe(ssv),
            ssv == sviews(ss@),
            n == ss@.len() == ssv.len(),
            b0 == old(rd)@,
            i <= n,
            out@.len() == i,
            b0.len() >= rd@.len(),
            rd@ == b0.skip(b0.len() - rd@.len()),
            match parse_fields(ssv, i as int, rd@) {
                Some((xs, k)) => parse_fields(ssv, 0, b0) == Some(
                    (vviews(out@) + xs, (b0.len() - rd@.len()) + k),
                ),
                None => parse_fields(ssv, 0, b0) is None,
            },
        decreases n - i,
    {
        let ghost mid = rd@;
        proof {
            assert(ssv[i as int] == sview(ss@[i as int]));
        }
        match deserialize_value(rd, &ss[i]) {
            Ok(x) => {
                proof {
                    let k = dense_parse(ssv[i as int], mid)->Some_0.1;
                    assert(rd@ == mid.skip(k) && 0 <= k <= mid.len());
                    assert(mid.len() - rd@.len() == k);
                    lemma_vviews_push(out@, x);
                    assert(vviews(out@.push(x)) =~= vviews(out@).push(vview(x)));
                    wire::lemma_skip_of_skip(b0, b0.len() - mid.len(), mid.len() - rd@.len());
                    match parse_fields(ssv, i + 1, rd@) {
                        Some((xs1, k1)) => {
                            assert(parse_fields(ssv, i as int, mid) == Some(
                                (seq![vview(x)] + xs1, (mid.len() - rd@.len()) + k1),
                            ));
                            assert(vviews(out@).push(vview(x)) + xs1 =~= vviews(out@) + (seq![
                                vview(x),
                            ] + xs1));
                        },
                        None => {
                            assert(parse_fields(ssv, i as int, mid) is None);
                        },
                    }
                }
                out.push(x);
                i = i + 1;
            },
            Err(e) => {
                proof {
                    assert(dense_parse(ssv[i as int], mid) is None);
                    assert(parse_fields(ssv, i as int, mid) is None);
                    if e == DataError::ShapeUnsupported {
                        assert(!shape_known(ssv[i as int]));
                        assert(!seq_shape_known(ssv));
                    }
                }
                return Err(e);
            },
        }
    }
    proof {
        assert(parse_fields(ssv, n as int, rd@) == Some((Seq::<ValueV>::empty(), 0int)));
        assert(vviews(out@) + Seq::<ValueV>::empty() =~= vviews(out@));
    }
    Ok(out)
}

/// Decode `n` key-value pairs of the dictionary shape `s`.
fn deserialize_dict_pairs(rd: &mut DataReader, s: &Shape, n: u32) -> (r: Result<
    Vec<(Value, Value)>,
    DataError,
>)
    requires
        old(rd).wf(),
        (*s) matches Shape::Dict(_, _),
        old(rd).spec_mode() == Mode::Probe ==> probe_safe(sview(*s)),
    ensures
        final(rd).wf(),
        final(rd).spec_mode() == old(rd).spec_mode(),
        final(rd).spec_original_len() == old(rd).spec_original_len(),
        match r {
            Ok(out) => parse_pairs(sview(*s), old(rd)@, n as int) matches Some((xs, k)) && xs
                == pair_views(out@) && 0 <= k <= old(rd)@.len() && final(rd)@ == old(rd)@.skip(k),
            Err(e) => parse_pairs(sview(*s), old(rd)@, n as int) is None && (e
                == DataError::ShapeUnsupported ==> !shape_known(sview(*s))),
        },
    decreases *s, 0x1_0000_0000int, 0int,
{
    let ghost sv = sview(*s);
    let ghost b0 = old(rd)@;
    let (ks, xs): (&Shape, &Shape) = match s {
        Shape::Dict(k, v) => (k, v),
        _ => {
            return Err(DataError::ShapeUnsupported);
        },
    };
    let mut out: Vec<(Value, Value)> = Vec::new();
    let mut i: u32 = 0;
    proof {
        assert(pair_views(out@) =~= Seq::<(ValueV, ValueV)>::empty());
    }
    while i < n
        invariant
            rd.wf(),
            rd.spec_mode() == old(rd).spec_mode(),
            rd.spec_original_len() == old(rd).spec_original_len(),
            old(rd).spec_mode() == Mode::Probe ==> probe_safe(sv),
            sv == sview(*s),
            (*s) matches Shape::Dict(kb, xb) && *ks == *kb && *xs == *xb,
            sv matches ShapeV::Dict(k2, x2) && *k2 == sview(*ks) && *x2 == sview(*xs),
            b0 == old(rd)@,
            i <= n,
            out@.len() == i,
            b0.len() >= rd@.len(),
            rd@ == b0.skip(b0.len() - rd@.len()),
            match parse_pairs(sv, rd@, (n - i) as int) {
                Some((ps, k)) => parse_pairs(sv, b0, n as int) == Some(
                    (pair_views(out@) + ps, (b0.len() - rd@.len()) + k),
                ),
                None => parse_pairs(sv, b0, n as int) is None,
            },
        decreases n - i,
    {
        let ghost mid = rd@;
        let kv = match deserialize_value(rd, ks) {
            Ok(kv) => kv,
            Err(e) => {
                proof {
                    assert(probe_safe(sv) ==> probe_safe(sview(*ks)));
                    assert(dense_parse(sview(*ks), mid) is None);
                    assert(parse_pairs(sv, mid, (n - i) as int) is None);
                    if e == DataError::ShapeUnsupported {
                        assert(!shape_known(sview(*ks)));
                        assert(!shape_known(sv));
                    }
                }
                return Err(e);
            },
        };
        let ghost mid2 = rd@;
        let xv = match deserialize_value(rd, xs) {
            Ok(xv) => xv,
            Err(e) => {
                proof {
                    assert(probe_safe(sv) ==> probe_safe(sview(*xs)));
                    assert(dense_parse(sview(*xs), mid2) is None);
                    assert(parse_pairs(sv, mid, (n - i) as int) is None);
                    if e == DataError::ShapeUnsupported {
                        assert(!shape_known(sview(*xs)));
                        assert(!shape_known(sv));
                    }
                }
                return Err(e);
            },
        };
        proof {
            lemma_pair_views_push(out@, (kv, xv));
            assert(pair_views(out@.push((kv, xv))) =~= pair_views(out@).push(
                (vview(kv), vview(xv)),
            ));
            let pk1 = dense_parse(sview(*ks), mid)->Some_0.1;
            assert(mid2 == mid.skip(pk1) && 0 <= pk1 <= mid.len());
            let pk2 = dense_parse(sview(*xs), mid2)->Some_0.1;
            assert(rd@ == mid2.skip(pk2) && 0 <= pk2 <= mid2.len());
            wire::lemma_skip_of_skip(mid, pk1, pk2);
            wire::lemma_skip_of_skip(b0, b0.len() - mid.len(), mid.len() - rd@.len());
            let k1 = mid.len() - mid2.len();
            let k2 = mid2.len() - rd@.len();
            match parse_pairs(sv, rd@, (n - i - 1) as int) {
                Some((ps1, kk)) => {
                    assert(parse_pairs(sv, mid, (n - i) as int) == Some(
                        (seq![(vview(kv), vview(xv))] + ps1, k1 + k2 + kk),
                    ));
                    assert(pair_views(out@).push((vview(kv), vview(xv))) + ps1 =~= pair_views(out@)
                        + (seq![(vview(kv), vview(xv))] + ps1));
                },
                None => {
                    assert(parse_pairs(sv, mid, (n - i) as int) is None);
                },
            }
        }
        out.push((kv, xv));
        i = i + 1;
    }
    proof {
        assert(parse_pairs(sv, rd@, 0) == Some((Seq::<(ValueV, ValueV)>::empty(), 0int)));
        assert(pair_views(out@) + Seq::<(ValueV, ValueV)>::empty() =~= pair_views(out@));
    }
    Ok(out)
}

} // verus!

verus! {

impl<'a> DataReader<'a> {
    /// Run the shape-directed dense decoder at the front of the
    /// reader.
    pub fn serde_deserialize(&mut self, shape: &Shape) -> (r: Result<Value, DataError>)
        requires
            old(self).wf(),
        ensures
            final(self).wf(),
            final(self).spec_mode() == old(self).spec_mode(),
            final(self).spec_original_len() == old(self).spec_original_len(),
            match r {
                Ok(v) => {
                    &&& old(self).spec_mode() == Mode::Probe ==> probe_safe(sview(*shape))
                    &&& dense_parse(sview(*shape), old(self)@) matches Some((vv, k)) && vv
                        == vview(v) && 0 <= k <= old(self)@.len() && final(self)@ == old(self)@.skip(k)
                },
                Err(e) => {
                    &&& (old(self).spec_mode() == Mode::Probe && !probe_safe(sview(*shape)))
                        ==> (e == DataError::ShapeUnsupported && final(self)@ == old(self)@)
                    &&& (old(self).spec_mode() == Mode::Normal || probe_safe(sview(*shape)))
                        ==> dense_parse(sview(*shape), old(self)@) is None
                    &&& e == DataError::ShapeUnsupported ==> !shape_known(sview(*shape)) || (old(self).spec_mode() == Mode::Probe && !probe_safe(sview(*shape)))
                },
            },
            sview(*shape) is Any ==> r == Err::<Value, DataError>(DataError::ShapeUnsupported)
                && final(self)@ == old(self)@,
            old(self).spec_mode() == Mode::Normal && sview(*shape) is Unit && old(self)@.len() >= 1
                && old(self)@[0] != 1 ==> r == Err::<Value, DataError>(
                DataError::InvalidEncoding,
            ),
            (old(self).spec_mode() == Mode::Normal || probe_safe(sview(*shape))) && (sview(
                *shape,
            ) matches ShapeV::Choice(vars2) && parse_framed(old(self)@) matches Some((body, kf))
                && vstd::utf8::valid_utf8(body) && find_variant(
                vars2,
                vstd::utf8::decode_utf8(body),
                0,
            ) is None) ==> r == Err::<Value, DataError>(DataError::InvalidEncoding),
    {
        deserialize_value(self, shape)
    }
}

impl crate::data_owned_reader::DataOwnedReader {
    /// Run the shape-directed dense decoder at the offset, moving
    /// past exactly the bytes of the decoded value.
    pub fn serde_deserialize(&mut self, shape: &Shape) -> (r: Result<Value, DataError>)
        requires
            old(self).wf(),
        ensures
            final(self).wf(),
            final(self)@ == old(self)@,
            match r {
                Ok(v) => {
                    &&& dense_parse(sview(*shape), old(self).remaining()) matches Some((vv, k))
                        && vv == vview(v) && final(self).spec_offset() == old(self).spec_offset()
                        + k
                },
                Err(e) => dense_parse(sview(*shape), old(self).remaining()) is None && final(self).spec_offset() == old(self).spec_offset() && (e == DataError::ShapeUnsupported
                    ==> !shape_known(sview(*shape))),
            },
            sview(*shape) is Any ==> r == Err::<Value, DataError>(DataError::ShapeUnsupported),
            sview(*shape) is Unit && old(self).remaining().len() >= 1 && old(self).remaining()[0]
                != 1 ==> r == Err::<Value, DataError>(DataError::InvalidEncoding),
            (sview(*shape) matches ShapeV::Choice(vars2) && parse_framed(old(self).remaining())
                matches Some((body, kf)) && vstd::utf8::valid_utf8(body) && find_variant(
                vars2,
                vstd::utf8::decode_utf8(body),
                0,
            ) is None) ==> r == Err::<Value, DataError>(DataError::InvalidEncoding),
    {
        let mut dr = self.get_reader();
        let out = match deserialize_value(&mut dr, shape) {
            Ok(v) => v,
            Err(e) => {
                return Err(e);
            },
        };
        let consumed = dr.offset();
        match self.add_offset(consumed) {
            Ok(_) => Ok(out),
            Err(_) => {
                proof {
                    assert(false);
                }
                Err(DataError::OutOfBounds)
            },
        }
    }
}

/// The sequence-access construct of the dense format: it tracks how
/// many elements were consumed against the declared count and reports
/// exhaustion by count, never by remaining buffer size.
pub struct SeqAssess {
    len: u32,
    current: u32,
}

impl SeqAssess {
    /// How many elements the wire announced.
    pub closed spec fn spec_len(&self) -> u32 {
        self.len
    }

    /// How many elements were consumed so far.
    pub closed spec fn spec_current(&self) -> u32 {
        self.current
    }

    /// Read the four-byte element count off the reader.
    pub fn new(rd: &mut DataReader) -> (r: Result<SeqAssess, DataError>)
        requires
            old(rd).wf(),
        ensures
            final(rd).wf(),
            final(rd).spec_mode() == old(rd).spec_mode(),
            final(rd).spec_original_len() == old(rd).spec_original_len(),
            match r {
                Ok(sa) => old(rd)@.len() >= 4 && sa.spec_len()
                    == vstd::bytes::spec_u32_from_le_bytes(old(rd)@.take(4)) && sa.spec_current()
                    == 0 && final(rd)@ == old(rd)@.skip(4),
                Err(e) => e == DataError::UnexpectedEnd && old(rd)@.len() < 4 && final(rd)@
                    == old(rd)@,
            },
    {
        let len = match rd.read_fixed::<u32>() {
            Ok(n) => n,
            Err(e) => {
                return Err(e);
            },
        };
        Ok(SeqAssess { len, current: 0 })
    }

    /// Decode the next element of shape `s`, or nothing once the
    /// declared count is exhausted.
    pub fn next_element(&mut self, rd: &mut DataReader, s: &Shape) -> (r: Result<
        Option<Value>,
        DataError,
    >)
        requires
            old(rd).wf(),
        ensures
            final(rd).wf(),
            final(rd).spec_mode() == old(rd).spec_mode(),
            final(rd).spec_original_len() == old(rd).spec_original_len(),
            final(self).spec_len() == old(self).spec_len(),
            old(self).spec_current() >= old(self).spec_len() ==> r == Ok::<Option<Value>, DataError>(
                None,
            ) && final(rd)@ == old(rd)@ && final(self).spec_current() == old(self).spec_current(),
            old(self).spec_current() < old(self).spec_len() ==> match r {
                Ok(o) => {
                    &&& o matches Some(v)
                    &&& dense_parse(sview(*s), old(rd)@) matches Some((vv, k)) && vv == vview(v)
                        && final(rd)@ == old(rd)@.skip(k)
                    &&& final(self).spec_current() == old(self).spec_current() + 1
                },
                Err(e) => (old(rd).spec_mode() == Mode::Normal || probe_safe(sview(*s)))
                    ==> dense_parse(sview(*s), old(rd)@) is None,
            },
    {
        if self.current >= self.len {
            return Ok(None);
        }
        let v = match deserialize_value(rd, s) {
            Ok(v) => v,
            Err(e) => {
                return Err(e);
            },
        };
        self.current = self.current + 1;
        Ok(Some(v))
    }
}

/// The pair-access construct for maps: a declared pair count, keys
/// and values decoded alternately.
pub struct MapAccess {
    len: u32,
    current: u32,
}

impl MapAccess {
    /// How many pairs the wire announced.
    pub closed spec fn spec_len(&self) -> u32 {
        self.len
    }

    /// How many keys were consumed so far.
    pub closed spec fn spec_current(&self) -> u32 {
        self.current
    }

    /// Read the four-byte pair count off the reader.
    pub fn new(rd: &mut DataReader) -> (r: Result<MapAccess, DataError>)
        requires
            old(rd).wf(),
        ensures
            final(rd).wf(),
            final(rd).spec_mode() == old(rd).spec_mode(),
            final(rd).spec_original_len() == old(rd).spec_original_len(),
            match r {
                Ok(ma) => old(rd)@.len() >= 4 && ma.spec_len()
                    == vstd::bytes::spec_u32_from_le_bytes(old(rd)@.take(4)) && ma.spec_current()
                    == 0 && final(rd)@ == old(rd)@.skip(4),
                Err(e) => e == DataError::UnexpectedEnd && old(rd)@.len() < 4 && final(rd)@
                    == old(rd)@,
            },
    {
        let len = match rd.read_fixed::<u32>() {
            Ok(n) => n,
            Err(e) => {
                return Err(e);
            },
        };
        Ok(MapAccess { len, current: 0 })
    }

    /// Decode the next key of shape `s`, or nothing once the declared
    /// count is exhausted.
    pub fn next_key(&mut self, rd: &mut DataReader, s: &Shape) -> (r: Result<
        Option<Value>,
        DataError,
    >)
        requires
            old(rd).wf(),
        ensures
            final(rd).wf(),
            final(rd).spec_mode() == old(rd).spec_mode(),
            final(rd).spec_original_len() == old(rd).spec_original_len(),
            final(self).spec_len() == old(self).spec_len(),
            old(self).spec_current() >= old(self).spec_len() ==> r == Ok::<Option<Value>, DataError>(
                None,
            ) && final(rd)@ == old(rd)@ && final(self).spec_current() == old(self).spec_current(),
            old(self).spec_current() < old(self).spec_len() ==> match r {
                Ok(o) => {
                    &&& o matches Some(v)
                    &&& dense_parse(sview(*s), old(rd)@) matches Some((vv, k)) && vv == vview(v)
                        && final(rd)@ == old(rd)@.skip(k)
                    &&& final(self).spec_current() == old(self).spec_current() + 1
                },
                Err(e) => (old(rd).spec_mode() == Mode::Normal || probe_safe(sview(*s)))
                    ==> dense_parse(sview(*s), old(rd)@) is None,
            },
    {
        if self.current >= self.len {
            return Ok(None);
        }
        let v = match deserialize_value(rd, s) {
            Ok(v) => v,
            Err(e) => {
                return Err(e);
            },
        };
        self.current = self.current + 1;
        Ok(Some(v))
    }

    /// Decode the value that follows a key.
    pub fn next_value(&mut self, rd: &mut DataReader, s: &Shape) -> (r: Result<Value, DataError>)
        requires
            old(rd).wf(),
        ensures
            final(rd).wf(),
            final(rd).spec_mode() == old(rd).spec_mode(),
            final(rd).spec_original_len() == old(rd).spec_original_len(),
            final(self).spec_len() == old(self).spec_len(),
            final(self).spec_current() == old(self).spec_current(),
            match r {
                Ok(v) => {
                    &&& dense_parse(sview(*s), old(rd)@) matches Some((vv, k)) && vv == vview(v)
                        && final(rd)@ == old(rd)@.skip(k)
                },
                Err(e) => (old(rd).spec_mode() == Mode::Normal || probe_safe(sview(*s)))
                    ==> dense_parse(sview(*s), old(rd)@) is None,
            },
    {
        deserialize_value(rd, s)
    }
}

/// The variant-access construct for enums: the variant name read off
/// the wire, to be matched against the known variant set.
pub struct VariantAccess {
    /// The variant name the wire carried.
    pub name: String,
}

impl VariantAccess {
    /// Read the framed variant name off the reader.
    pub fn new(rd: &mut DataReader) -> (r: Result<VariantAccess, DataError>)
        requires
            old(rd).wf(),
        ensures
            final(rd).wf(),
            final(rd).spec_mode() == old(rd).spec_mode(),
            final(rd).spec_original_len() == old(rd).spec_original_len(),
            match r {
                Ok(va) => {
                    &&& old(rd)@.len() >= 4
                    &&& {
                        let body = old(rd)@.skip(4).take(
                            vstd::bytes::spec_u32_from_le_bytes(old(rd)@.take(4)) as int,
                        );
                        &&& vstd::utf8::valid_utf8(body)
                        &&& va.name@ == vstd::utf8::decode_utf8(body)
                        &&& final(rd)@ == old(rd)@.skip(4 + body.len() as int)
                    }
                },
                Err(e) => final(rd).spec_original_len() == old(rd).spec_original_len() && ((e
                    == DataError::UnexpectedEnd && old(rd)@.len() < 4) || (e
                    == DataError::OutOfBounds && old(rd)@.len() >= 4 && 4
                    + vstd::bytes::spec_u32_from_le_bytes(old(rd)@.take(4)) > old(rd)@.len()) || (
                e == DataError::InvalidEncoding && old(rd)@.len() >= 4 && 4
                    + vstd::bytes::spec_u32_from_le_bytes(old(rd)@.take(4)) <= old(rd)@.len()
                    && !vstd::utf8::valid_utf8(
                    old(rd)@.skip(4).take(
                        vstd::bytes::spec_u32_from_le_bytes(old(rd)@.take(4)) as int,
                    ),
                ))),
            },
    {
        let name = match rd.read_fixed_str() {
            Ok(t) => t,
            Err(e) => {
                return Err(e);
            },
        };
        Ok(VariantAccess { name: name.to_owned() })
    }
}

} // verus!
