//! The structured serializer: one dense byte encoding per value,
//! appended to a buffer. In probe mode it fails fast on unit markers
//! instead of emitting bytes the decoder could not dispatch on.

use crate::data::Data;
use crate::dense::{dense_bytes, dense_bytes_pair, dense_bytes_pairs, dense_bytes_seq};
use crate::error::{DataError, Mode};
use crate::value::{
    Value, ValueV, dense_wf, has_unit, pair_views, pairs_dense_wf, pairs_have_unit, seq_dense_wf,
    seq_has_unit, vview, vviews,
};
use vstd::prelude::*;

verus! {

/// When the dense serializer succeeds: every length fits its wire
/// prefix, and in probe mode the value carries no unit marker.
pub open spec fn ser_ok(v: ValueV, m: Mode) -> bool {
    dense_wf(v) && (m == Mode::Probe ==> !has_unit(v))
}

/// Append a four-byte length prefix and the raw bytes, after the one
/// check the frame needs: the length must fit the prefix.
fn write_checked_framed(data: &mut Data, bs: &[u8]) -> (r: Result<(), DataError>)
    requires
        old(data).wf(),
    ensures
        final(data).wf(),
        final(data).spec_pos() == old(data).spec_pos(),
        final(data).spec_mode() == old(data).spec_mode(),
        match r {
            Ok(()) => bs@.len() < 0x1_0000_0000 && final(data)@ == old(data)@
                + crate::data::framed_fixed_bytes(bs@),
            Err(e) => e == DataError::OutOfBounds && bs@.len() >= 0x1_0000_0000 && final(data)@
                == old(data)@,
        },
{
    if bs.len() as u64 >= 0x1_0000_0000u64 {
        return Err(DataError::OutOfBounds);
    }
    data.write_framed(bs);
    Ok(())
}

/// Append the dense encoding of `v`. Succeeds exactly on `ser_ok`
/// values; on failure the old bytes are still a prefix of the buffer,
/// so a caller can roll back by truncating to its checkpoint.
/// `OutOfBounds` reports a length that cannot fit its prefix, and
/// `ShapeUnsupported` a unit marker met in probe mode.
#[verifier::rlimit(100)]
#[verifier::spinoff_prover]
pub fn serialize_value(data: &mut Data, v: &Value) -> (r: Result<(), DataError>)
    requires
        old(data).wf(),
    ensures
        final(data).wf(),
        final(data).spec_pos() == old(data).spec_pos(),
        final(data).spec_mode() == old(data).spec_mode(),
        match r {
            Ok(()) => ser_ok(vview(*v), old(data).spec_mode()) && final(data)@ == old(data)@
                + dense_bytes(vview(*v)),
            Err(e) => !ser_ok(vview(*v), old(data).spec_mode()) && old(data)@.is_prefix_of(
                final(data)@,
            ) && (e == DataError::OutOfBounds || e == DataError::ShapeUnsupported) && (e
                == DataError::ShapeUnsupported ==> old(data).spec_mode() == Mode::Probe
                && has_unit(vview(*v))) && (e == DataError::OutOfBounds ==> !dense_wf(vview(*v))),
        },
    decreases *v, 0int,
{
    let ghost pre0 = data@;
    match v {
        Value::Bool(b) => {
            data.write_buf_byte(
                if *b {
                    1u8
                } else {
                    0u8
                },
            );
            proof {
                assert(data@ == pre0 + dense_bytes(vview(*v)));
            }
            Ok(())
        },
        Value::U8(n) => {
            data.write_buf_byte(*n);
            proof {
                assert(dense_bytes(vview(*v)) =~= seq![*n]);
                assert(data@ == pre0 + dense_bytes(vview(*v)));
            }
            Ok(())
        },
        Value::U16(n) => {
            data.write_fixed(n);
            proof {
                assert(data@ == pre0 + dense_bytes(vview(*v)));
            }
            Ok(())
        },
        Value::U32(n) => {
            data.write_fixed(n);
            proof {
                assert(data@ == pre0 + dense_bytes(vview(*v)));
            }
            Ok(())
        },
        Value::U64(n) => {
            data.write_fixed(n);
            proof {
                assert(data@ == pre0 + dense_bytes(vview(*v)));
            }
            Ok(())
        },
        Value::I8(n) => {
            data.write_fixed(n);
            proof {
                assert(data@ == pre0 + dense_bytes(vview(*v)));
            }
            Ok(())
        },
        Value::I16(n) => {
            data.write_fixed(n);
            proof {
                assert(data@ == pre0 + dense_bytes(vview(*v)));
            }
            Ok(())
        },
        Value::I32(n) => {
            data.write_fixed(n);
            proof {
                assert(data@ == pre0 + dense_bytes(vview(*v)));
            }
            Ok(())
        },
        Value::I64(n) => {
            data.write_fixed(n);
            proof {
                assert(data@ == pre0 + dense_bytes(vview(*v)));
            }
            Ok(())
        },
        Value::F32Bits(n) => {
            data.write_fixed(n);
            proof {
                assert(data@ == pre0 + dense_bytes(vview(*v)));
            }
            Ok(())
        },
        Value::F64Bits(n) => {
            data.write_fixed(n);
            proof {
                assert(data@ == pre0 + dense_bytes(vview(*v)));
            }
            Ok(())
        },
        Value::Str(s) => {
            let bs = s.as_str().as_bytes();
            let r0 = write_checked_framed(data, bs);
            proof {
                assert(bs@ == vstd::utf8::encode_utf8(s@));
                if r0 is Ok {
                    assert(data@ == pre0 + dense_bytes(vview(*v)));
                    assert(ser_ok(vview(*v), old(data).spec_mode()));
                } else {
                    assert(!dense_wf(vview(*v)));
                }
            }
            r0
        },
        Value::Bytes(b) => {
            let r0 = write_checked_framed(data, b.as_slice());
            proof {
                if r0 is Ok {
                    assert(data@ == pre0 + dense_bytes(vview(*v)));
                } else {
                    assert(!dense_wf(vview(*v)));
                }
            }
            r0
        },
        Value::Unit => {
            let m = data.get_mode();
            if m == Mode::Probe {
                return Err(DataError::ShapeUnsupported);
            }
            data.write_buf_byte(1u8);
            proof {
                assert(data@ == pre0 + dense_bytes(vview(*v)));
                assert(ser_ok(vview(*v), old(data).spec_mode()));
            }
            Ok(())
        },
        Value::Opt(o) => match o {
            None => {
                data.write_buf_byte(0u8);
                proof {
                    assert(data@ == pre0 + dense_bytes(vview(*v)));
                    assert(ser_ok(vview(*v), old(data).spec_mode()));
                }
                Ok(())
            },
            Some(x) => {
                let ghost pre = data@;
                data.write_buf_byte(1u8);
                match serialize_value(data, x) {
                    Ok(()) => {
                        proof {
                            assert(data@ =~= pre + dense_bytes(vview(*v)));
                            assert(ser_ok(vview(*v), old(data).spec_mode()));
                        }
                        Ok(())
                    },
                    Err(e) => {
                        proof {
                            assert(pre.is_prefix_of(data@));
                        }
                        Err(e)
                    },
                }
            },
        },
        Value::List(vs) => {
            let ghost pre = data@;
            if vs.len() as u64 >= 0x1_0000_0000u64 {
                return Err(DataError::OutOfBounds);
            }
            let n = vs.len() as u32;
            data.write_fixed(&n);
            match serialize_elems(data, vs) {
                Ok(()) => {
                    proof {
                        assert(data@ =~= pre + dense_bytes(vview(*v)));
                        assert(ser_ok(vview(*v), old(data).spec_mode()));
                    }
                    Ok(())
                },
                Err(e) => {
                    proof {
                        assert(pre.is_prefix_of(data@));
                    }
                    Err(e)
                },
            }
        },
        Value::Dict(ps) => {
            let ghost pre = data@;
            if ps.len() as u64 >= 0x1_0000_0000u64 {
                return Err(DataError::OutOfBounds);
            }
            let n = ps.len() as u32;
            data.write_fixed(&n);
            match serialize_pairs(data, ps) {
                Ok(()) => {
                    proof {
                        assert(data@ =~= pre + dense_bytes(vview(*v)));
                        assert(ser_ok(vview(*v), old(data).spec_mode()));
                    }
                    Ok(())
                },
                Err(e) => {
                    proof {
                        assert(pre.is_prefix_of(data@));
                    }
                    Err(e)
                },
            }
        },
        Value::EnumUnit(nm) => {
            let r0 = write_checked_framed(data, nm.as_str().as_bytes());
            proof {
                if r0 is Ok {
                    assert(data@ == pre0 + dense_bytes(vview(*v)));
                } else {
                    assert(!dense_wf(vview(*v)));
                }
            }
            r0
        },
        Value::EnumNewtype(nm, x) => {
            let ghost pre = data@;
            match write_checked_framed(data, nm.as_str().as_bytes()) {
                Ok(()) => {},
                Err(e) => {
                    return Err(e);
                },
            }
            match serialize_value(data, x) {
                Ok(()) => {
                    proof {
                        assert(data@ =~= pre + dense_bytes(vview(*v)));
                        assert(ser_ok(vview(*v), old(data).spec_mode()));
                    }
                    Ok(())
                },
                Err(e) => {
                    proof {
                        assert(pre.is_prefix_of(data@));
                    }
                    Err(e)
                },
            }
        },
        Value::EnumFields(nm, xs) => {
            let ghost pre = data@;
            if xs.len() as u64 >= 0x1_0000_0000u64 {
                return Err(DataError::OutOfBounds);
            }
            match write_checked_framed(data, nm.as_str().as_bytes()) {
                Ok(()) => {},
                Err(e) => {
                    return Err(e);
                },
            }
            let n = xs.len() as u32;
            data.write_fixed(&n);
            match serialize_elems(data, xs) {
                Ok(()) => {
                    proof {
                        assert(data@ =~= pre + dense_bytes(vview(*v)));
                        assert(ser_ok(vview(*v), old(data).spec_mode()));
                    }
                    Ok(())
                },
                Err(e) => {
                    proof {
                        assert(pre.is_prefix_of(data@));
                    }
                    Err(e)
                },
            }
        },
    }
}

/// Append the dense encodings of all the values, in order.
fn serialize_elems(data: &mut Data, vs: &Vec<Value>) -> (r: Result<(), DataError>)
    requires
        old(data).wf(),
    ensures
        final(data).wf(),
        final(data).spec_pos() == old(data).spec_pos(),
        final(data).spec_mode() == old(data).spec_mode(),
        match r {
            Ok(()) => seq_dense_wf(vviews(vs@)) && (old(data).spec_mode() == Mode::Probe
                ==> !seq_has_unit(vviews(vs@))) && final(data)@ == old(data)@ + dense_bytes_seq(
                vviews(vs@),
                0,
            ),
            Err(e) => !(seq_dense_wf(vviews(vs@)) && (old(data).spec_mode() == Mode::Probe
                ==> !seq_has_unit(vviews(vs@)))) && old(data)@.is_prefix_of(final(data)@) && (e
                == DataError::OutOfBounds || e == DataError::ShapeUnsupported) && (e
                == DataError::ShapeUnsupported ==> old(data).spec_mode() == Mode::Probe
                && seq_has_unit(vviews(vs@))) && (e == DataError::OutOfBounds ==> !seq_dense_wf(
                vviews(vs@),
            )),
        },
    decreases vs@, 1int,
{
    let ghost pre = old(data)@;
    let ghost vv = vviews(vs@);
    let n = vs.len();
    let mut i: usize = 0;
    while i < n
        invariant
            data.wf(),
            data.spec_pos() == old(data).spec_pos(),
            data.spec_mode() == old(data).spec_mode(),
            n == vs@.len(),
            i <= n,
            vv == vviews(vs@),
            vv.len() == n,
            pre == old(data)@,
            pre + dense_bytes_seq(vv, 0) =~= data@ + dense_bytes_seq(vv, i as int),
            pre.is_prefix_of(data@),
            forall|l: int| 0 <= l < i ==> dense_wf(#[trigger] vv[l]),
            old(data).spec_mode() == Mode::Probe ==> forall|l: int|
                0 <= l < i ==> !has_unit(#[trigger] vv[l]),
        decreases n - i,
    {
        let ghost mid = data@;
        match serialize_value(data, &vs[i]) {
            Ok(()) => {
                proof {
                    assert(vv[i as int] == vview(vs@[i as int]));
                    assert(dense_bytes_seq(vv, i as int) =~= dense_bytes(vv[i as int])
                        + dense_bytes_seq(vv, i + 1));
                    assert(pre + dense_bytes_seq(vv, 0) =~= (mid + dense_bytes(vv[i as int]))
                        + dense_bytes_seq(vv, i + 1));
                    assert(pre.is_prefix_of(data@)) by {
                        assert(mid.is_prefix_of(data@));
                    };
                }
            },
            Err(e) => {
                proof {
                    assert(vv[i as int] == vview(vs@[i as int]));
                    if e == DataError::OutOfBounds {
                        assert(!dense_wf(vv[i as int]));
                        assert(!seq_dense_wf(vv));
                    } else {
                        assert(has_unit(vv[i as int]));
                        assert(seq_has_unit(vv));
                    }
                    assert(pre.is_prefix_of(data@)) by {
                        assert(mid.is_prefix_of(data@));
                    };
                }
                return Err(e);
            },
        }
        i = i + 1;
    }
    proof {
        assert(dense_bytes_seq(vv, n as int) =~= Seq::<u8>::empty());
        assert(data@ =~= data@ + dense_bytes_seq(vv, n as int));
        assert(data@ =~= pre + dense_bytes_seq(vv, 0));
    }
    Ok(())
}

/// Append the dense encodings of all the pairs, key before value.
#[verifier::rlimit(100)]
#[verifier::spinoff_prover]
fn serialize_pairs(data: &mut Data, ps: &Vec<(Value, Value)>) -> (r: Result<(), DataError>)
    requires
        old(data).wf(),
    ensures
        final(data).wf(),
        final(data).spec_pos() == old(data).spec_pos(),
        final(data).spec_mode() == old(data).spec_mode(),
        match r {
            Ok(()) => pairs_dense_wf(pair_views(ps@)) && (old(data).spec_mode() == Mode::Probe
                ==> !pairs_have_unit(pair_views(ps@))) && final(data)@ == old(data)@
                + dense_bytes_pairs(pair_views(ps@), 0),
            Err(e) => !(pairs_dense_wf(pair_views(ps@)) && (old(data).spec_mode() == Mode::Probe
                ==> !pairs_have_unit(pair_views(ps@)))) && old(data)@.is_prefix_of(final(data)@)
                && (e == DataError::OutOfBounds || e == DataError::ShapeUnsupported) && (e
                == DataError::ShapeUnsupported ==> old(data).spec_mode() == Mode::Probe
                && pairs_have_unit(pair_views(ps@))) && (e == DataError::OutOfBounds
                ==> !pairs_dense_wf(pair_views(ps@))),
        },
    decreases ps@, 1int,
{
    let ghost pre = old(data)@;
    let ghost pv = pair_views(ps@);
    let n = ps.len();
    let mut i: usize = 0;
    while i < n
        invariant
            data.wf(),
            data.spec_pos() == old(data).spec_pos(),
            data.spec_mode() == old(data).spec_mode(),
            n == ps@.len(),
            i <= n,
            pv == pair_views(ps@),
            pv.len() == n,
            pre == old(data)@,
            pre + dense_bytes_pairs(pv, 0) =~= data@ + dense_bytes_pairs(pv, i as int),
            pre.is_prefix_of(data@),
            forall|l: int|
                0 <= l < i ==> dense_wf(#[trigger] pv[l].0) && dense_wf(pv[l].1),
            old(data).spec_mode() == Mode::Probe ==> forall|l: int|
                0 <= l < i ==> !has_unit(#[trigger] pv[l].0) && !has_unit(pv[l].1),
        decreases n - i,
    {
        let ghost mid = data@;
        proof {
            assert(pv[i as int] == (vview(ps@[i as int].0), vview(ps@[i as int].1)));
            assert(dense_bytes_pairs(pv, i as int) =~= dense_bytes_pair(pv[i as int])
                + dense_bytes_pairs(pv, i + 1));
        }
        match serialize_value(data, &ps[i].0) {
            Ok(()) => {},
            Err(e) => {
                proof {
                    if e == DataError::OutOfBounds {
                        assert(!dense_wf(pv[i as int].0));
                        assert(!pairs_dense_wf(pv));
                    } else {
                        assert(has_unit(pv[i as int].0));
                        assert(pairs_have_unit(pv));
                    }
                    assert(pre.is_prefix_of(data@)) by {
                        assert(mid.is_prefix_of(data@));
                    };
                }
                return Err(e);
            },
        }
        match serialize_value(data, &ps[i].1) {
            Ok(()) => {
                proof {
                    assert(data@ =~= mid + dense_bytes_pair(pv[i as int]));
                    assert(pre + dense_bytes_pairs(pv, 0) =~= (mid + dense_bytes_pair(
                        pv[i as int],
                    )) + dense_bytes_pairs(pv, i + 1));
                    assert(pre.is_prefix_of(data@)) by {
                        assert(mid.is_prefix_of(data@));
                    };
                    assert(dense_wf(pv[i as int].0) && dense_wf(pv[i as int].1));
                    if old(data).spec_mode() == Mode::Probe {
                        assert(!has_unit(pv[i as int].0) && !has_unit(pv[i as int].1));
                    }
                }
            },
            Err(e) => {
                proof {
                    if e == DataError::OutOfBounds {
                        assert(!dense_wf(pv[i as int].1));
                        assert(!pairs_dense_wf(pv));
                    } else {
                        assert(has_unit(pv[i as int].1));
                        assert(pairs_have_unit(pv));
                    }
                    assert(pre.is_prefix_of(data@)) by {
                        assert(mid.is_prefix_of(data@));
                    };
                }
                return Err(e);
            },
        }
        i = i + 1;
        proof {
            assert(dense_wf(pv[(i - 1) as int].0));
            assert(dense_wf(pv[(i - 1) as int].1));
            if old(data).spec_mode() == Mode::Probe {
                assert(!has_unit(pv[(i - 1) as int].0));
                assert(!has_unit(pv[(i - 1) as int].1));
            }
        }
    }
    proof {
        assert(dense_bytes_pairs(pv, n as int) =~= Seq::<u8>::empty());
        assert(data@ =~= data@ + dense_bytes_pairs(pv, n as int));
        assert(data@ =~= pre + dense_bytes_pairs(pv, 0));
    }
    Ok(())
}

impl Data {
    /// Run the dense serializer on `value`, appending its encoding.
    /// Succeeds exactly when every length fits its wire prefix and, in
    /// probe mode, the value carries no unit marker.
    pub fn serde_serialize(&mut self, value: &Value) -> (r: Result<(), DataError>)
        requires
            old(self).wf(),
        ensures
            final(self).wf(),
            final(self).spec_pos() == old(self).spec_pos(),
            final(self).spec_mode() == old(self).spec_mode(),
            match r {
                Ok(()) => ser_ok(vview(*value), old(self).spec_mode()) && final(self)@ == old(self)@ + dense_bytes(vview(*value)),
                Err(e) => !ser_ok(vview(*value), old(self).spec_mode()) && old(self)@.is_prefix_of(final(self)@) && (e == DataError::OutOfBounds || e == DataError::ShapeUnsupported) && (e == DataError::ShapeUnsupported ==> old(self).spec_mode() == Mode::Probe && has_unit(vview(*value))) && (e == DataError::OutOfBounds ==> !dense_wf(vview(*value))),
            },
    {
        serialize_value(self, value)
    }
}

} // verus!
