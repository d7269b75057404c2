//! The pack engine: try the dense format under probe mode, roll back
//! on a shape the dense format cannot carry, and fall back to the
//! self-describing MessagePack codec behind a four-byte length prefix.

use crate::data::{Data, framed_fixed_bytes};
use crate::dense::{lemma_parse_framed, parse_framed};
use crate::data_owned_reader::DataOwnedReader;
use crate::data_read::DataReader;
use crate::de::deserialize_value;
use crate::dense::{dense_bytes, dense_parse, lemma_dense_round_trip};
use crate::error::{DataError, Mode};
use crate::fallback::{fb_bytes, fb_decode, fb_encode, fb_opt_ok, fb_target};
use crate::value::{
    Shape, ShapeV, Value, ValueV, dense_wf, fits, lemma_has_unit_not_probe_safe, probe_safe,
    probe_safe_exec, sview, vview,
};
use vstd::prelude::*;

verus! {

/// The bytes one packed value occupies: the bare dense encoding where
/// the shape can travel the dense path, otherwise the framed fallback
/// encoding. Encoder and decoder agree on the path because both decide
/// it from the same static condition on the shape.
pub open spec fn pack_bytes(v: ValueV, s: ShapeV) -> Seq<u8> {
    if probe_safe(s) {
        dense_bytes(v)
    } else {
        framed_fixed_bytes(fb_bytes(v))
    }
}

impl Data {
    /// Pack one value of shape `shape`: record a checkpoint, run the
    /// dense serializer in probe mode, and on a shape mismatch
    /// truncate back to the checkpoint and append the framed fallback
    /// encoding instead. Succeeds exactly on values whose lengths fit
    /// the wire (and whose fallback frame fits its prefix); on failure
    /// the buffer is rolled back to the checkpoint, and the mode is
    /// always restored to normal.
    pub fn pack_serialize(&mut self, value: &Value, shape: &Shape) -> (r: Result<(), DataError>)
        requires
            old(self).wf(),
            fits(vview(*value), sview(*shape)),
        ensures
            final(self).wf(),
            final(self).spec_pos() == old(self).spec_pos(),
            final(self).spec_mode() == Mode::Normal,
            match r {
                Ok(()) => dense_wf(vview(*value)) && final(self)@ == old(self)@ + pack_bytes(
                    vview(*value),
                    sview(*shape),
                ),
                Err(e) => e == DataError::OutOfBounds && final(self)@ == old(self)@ && (!dense_wf(
                    vview(*value),
                ) || (!probe_safe(sview(*shape)) && fb_bytes(vview(*value)).len()
                    >= 0x1_0000_0000)),
            },
    {
        let checkpoint = self.len();
        let ghost pre = self@;
        self.set_mode(Mode::Probe);
        let dense = self.serde_serialize(value);
        self.set_mode(Mode::Normal);
        match dense {
            Ok(()) => {
                if probe_safe_exec(shape) {
                    return Ok(());
                }
                // The shape holds a construct the dense decoder could
                // not dispatch on: roll back and take the fallback.
            },
            Err(e) => {
                if e != DataError::ShapeUnsupported {
                    self.truncate(checkpoint);
                    proof {
                        assert(self@ =~= pre);
                    }
                    return Err(e);
                }
                proof {
                    lemma_has_unit_not_probe_safe(vview(*value), sview(*shape));
                }
            },
        }
        self.truncate(checkpoint);
        proof {
            assert(self@ =~= pre);
        }
        let mut scratch: Vec<u8> = Vec::new();
        match fb_encode(&mut scratch, value) {
            Ok(()) => {},
            Err(e) => {
                return Err(e);
            },
        }
        if scratch.len() as u64 >= 0x1_0000_0000u64 {
            return Err(DataError::OutOfBounds);
        }
        self.write_framed(scratch.as_slice());
        Ok(())
    }

    /// Pack one value into a fresh buffer.
    pub fn pack_from(value: &Value, shape: &Shape) -> (r: Result<Data, DataError>)
        requires
            fits(vview(*value), sview(*shape)),
        ensures
            match r {
                Ok(data) => dense_wf(vview(*value)) && data@ == pack_bytes(
                    vview(*value),
                    sview(*shape),
                ) && data.wf() && data.spec_mode() == Mode::Normal,
                Err(e) => e == DataError::OutOfBounds && (!dense_wf(vview(*value)) || (
                !probe_safe(sview(*shape)) && fb_bytes(vview(*value)).len() >= 0x1_0000_0000)),
            },
    {
        let mut data = Data::new();
        match data.pack_serialize(value, shape) {
            Ok(()) => {
                proof {
                    assert(data@ =~= pack_bytes(vview(*value), sview(*shape)));
                }
                Ok(data)
            },
            Err(e) => Err(e),
        }
    }
}

impl<'a> DataReader<'a> {
    /// Unpack one value of shape `shape`: attempt the dense decoder in
    /// probe mode, and exactly where the shape cannot travel the dense
    /// path, read the four-byte length prefix and decode the framed
    /// fallback bytes instead. On dense input of the shape the packed
    /// value comes back exactly.
    pub fn pack_deserialize(&mut self, shape: &Shape) -> (r: Result<Value, DataError>)
        requires
            old(self).wf(),
        ensures
            final(self).wf(),
            final(self).spec_original_len() == old(self).spec_original_len(),
            final(self).spec_mode() == old(self).spec_mode(),
            probe_safe(sview(*shape)) ==> match r {
                Ok(v) => dense_parse(sview(*shape), old(self)@) matches Some((vv, k)) && vv
                    == vview(v) && 0 <= k <= old(self)@.len() && final(self)@ == old(self)@.skip(
                    k,
                ),
                Err(e) => dense_parse(sview(*shape), old(self)@) is None,
            },
            (!probe_safe(sview(*shape)) && r is Ok) ==> old(self)@.len() >= 4 && 4
                + vstd::bytes::spec_u32_from_le_bytes(old(self)@.take(4)) <= old(self)@.len()
                && final(self)@ == old(self)@.skip(
                4 + vstd::bytes::spec_u32_from_le_bytes(old(self)@.take(4)) as int,
            ),
            r is Err ==> final(self)@ == old(self)@,
            !probe_safe(sview(*shape)) ==> (forall|w: ValueV|
                old(self)@.len() >= 4 && 4 + vstd::bytes::spec_u32_from_le_bytes(old(self)@.take(4))
                    <= old(self)@.len() && #[trigger] fb_target(
                    w,
                    sview(*shape),
                    old(self)@.skip(4).take(
                        vstd::bytes::spec_u32_from_le_bytes(old(self)@.take(4)) as int,
                    ),
                ) ==> (r matches Ok(v) && vview(v) == w)),
    {
        let mut check = DataReader::from(self.as_slice());
        check.set_mode(Mode::Probe);
        match deserialize_value(&mut check, shape) {
            Ok(v) => {
                let consumed = check.offset();
                self.advance_exact(consumed);
                Ok(v)
            },
            Err(e) => {
                if e != DataError::ShapeUnsupported {
                    return Err(e);
                }
                if probe_safe_exec(shape) {
                    // The bytes do not carry the shape densely; with a
                    // dense-capable shape no fallback frame can follow.
                    return Err(e);
                }
                // Probe the frame on a copy too, so that a bad frame
                // leaves the reader where it was.
                let mut fr = DataReader::from(self.as_slice());
                let buff = match fr.read_fixed_buf() {
                    Ok(b) => b,
                    Err(e2) => {
                        return Err(e2);
                    },
                };
                proof {
                    assert(buff@.skip(0) =~= buff@);
                }
                match fb_decode(buff, 0, shape) {
                    Ok((v, _)) => {
                        let consumed = fr.offset();
                        self.advance_exact(consumed);
                        Ok(v)
                    },
                    Err(e2) => Err(e2),
                }
            },
        }
    }

    /// Decode one value of shape `shape` from the dense format, plain.
    pub fn pack_to(&mut self, shape: &Shape) -> (r: Result<Value, DataError>)
        requires
            old(self).wf(),
        ensures
            final(self).wf(),
            final(self).spec_mode() == old(self).spec_mode(),
            final(self).spec_original_len() == old(self).spec_original_len(),
            match r {
                Ok(v) => {
                    &&& old(self).spec_mode() == Mode::Probe ==> probe_safe(sview(*shape))
                    &&& dense_parse(sview(*shape), old(self)@) matches Some((vv, k)) && vv
                        == vview(v) && 0 <= k <= old(self)@.len() && final(self)@ == old(self)@.skip(k)
                },
                Err(e) => {
                    &&& (old(self).spec_mode() == Mode::Probe && !probe_safe(sview(*shape)))
                        ==> (e == DataError::ShapeUnsupported && final(self)@ == old(self)@)
                    &&& (old(self).spec_mode() == Mode::Normal || probe_safe(sview(*shape)))
                        ==> dense_parse(sview(*shape), old(self)@) is None
                    &&& e == DataError::ShapeUnsupported ==> !crate::value::shape_known(
                        sview(*shape),
                    ) || (old(self).spec_mode() == Mode::Probe && !probe_safe(sview(*shape)))
                },
            },
            sview(*shape) is Any ==> r == Err::<Value, DataError>(DataError::ShapeUnsupported)
                && final(self)@ == old(self)@,
    {
        deserialize_value(self, shape)
    }
}

impl DataOwnedReader {
    /// Unpack one value of shape `shape` at the offset, as the
    /// borrowed reader does, moving past what was consumed.
    pub fn pack_deserialize(&mut self, shape: &Shape) -> (r: Result<Value, DataError>)
        requires
            old(self).wf(),
        ensures
            final(self).wf(),
            final(self)@ == old(self)@,
            probe_safe(sview(*shape)) ==> match r {
                Ok(v) => dense_parse(sview(*shape), old(self).remaining()) matches Some((vv, k))
                    && vv == vview(v) && final(self).spec_offset() == old(self).spec_offset() + k,
                Err(e) => dense_parse(sview(*shape), old(self).remaining()) is None,
            },
            (!probe_safe(sview(*shape)) && r is Ok) ==> old(self).remaining().len() >= 4 && final(self).spec_offset() == old(self).spec_offset() + 4 + vstd::bytes::spec_u32_from_le_bytes(
                old(self).remaining().take(4),
            ),
            r is Err ==> final(self).spec_offset() == old(self).spec_offset(),
            !probe_safe(sview(*shape)) ==> (forall|w: ValueV|
                old(self).remaining().len() >= 4 && 4 + vstd::bytes::spec_u32_from_le_bytes(
                    old(self).remaining().take(4),
                ) <= old(self).remaining().len() && #[trigger] fb_target(
                    w,
                    sview(*shape),
                    old(self).remaining().skip(4).take(
                        vstd::bytes::spec_u32_from_le_bytes(old(self).remaining().take(4)) as int,
                    ),
                ) ==> (r matches Ok(v) && vview(v) == w)),
    {
        let offset = self.get_offset();
        let mut dr = self.get_reader();
        let out = match dr.pack_deserialize(shape) {
            Ok(v) => v,
            Err(e) => {
                return Err(e);
            },
        };
        let consumed = dr.offset();
        match self.add_offset(consumed) {
            Ok(_) => Ok(out),
            Err(_) => {
                proof {
                    assert(false);
                }
                Err(DataError::OutOfBounds)
            },
        }
    }

    /// Decode one value of shape `shape` from the dense format at the
    /// offset, moving past what was consumed.
    pub fn pack_to(&mut self, shape: &Shape) -> (r: Result<Value, DataError>)
        requires
            old(self).wf(),
        ensures
            final(self).wf(),
            final(self)@ == old(self)@,
            match r {
                Ok(v) => {
                    &&& dense_parse(sview(*shape), old(self).remaining()) matches Some((vv, k))
                        && vv == vview(v) && final(self).spec_offset() == old(self).spec_offset()
                        + k
                },
                Err(e) => dense_parse(sview(*shape), old(self).remaining()) is None && final(self).spec_offset() == old(self).spec_offset() && (e == DataError::ShapeUnsupported
                    ==> !crate::value::shape_known(sview(*shape))),
            },
            sview(*shape) is Any ==> r == Err::<Value, DataError>(DataError::ShapeUnsupported),
    {
        self.serde_deserialize(shape)
    }
}

/// Pack symmetry on the fallback path: a value whose shape cannot
/// travel the dense path is packed as a four-byte length prefix and
/// its self-describing MessagePack bytes, and those bytes are exactly
/// a decode target of the fallback codec for the same value — the
/// condition `pack_deserialize` promises to decode. Present options
/// must not wrap payloads that themselves encode as nil (`unit`, or
/// an absent option): MessagePack folds those into absence.
pub proof fn lemma_pack_symmetry_fallback(v: ValueV, s: ShapeV)
    requires
        fits(v, s),
        dense_wf(v),
        fb_opt_ok(v),
        !probe_safe(s),
        fb_bytes(v).len() < 0x1_0000_0000,
    ensures
        pack_bytes(v, s) == framed_fixed_bytes(fb_bytes(v)),
        parse_framed(pack_bytes(v, s)) == Some((fb_bytes(v), pack_bytes(v, s).len() as int)),
        fb_target(v, s, fb_bytes(v)),
{
    lemma_parse_framed(fb_bytes(v), Seq::empty());
    assert(framed_fixed_bytes(fb_bytes(v)) + Seq::<u8>::empty() =~= framed_fixed_bytes(
        fb_bytes(v),
    ));
    assert(fb_bytes(v).is_prefix_of(fb_bytes(v)));
}

/// Pack symmetry on the dense path: a value whose shape can travel the
/// dense path is packed as its bare dense bytes, with no fallback
/// length prefix in front, and parsing them gives the value back.
pub proof fn lemma_pack_symmetry_dense(v: ValueV, s: ShapeV, rest: Seq<u8>)
    requires
        fits(v, s),
        dense_wf(v),
        probe_safe(s),
    ensures
        pack_bytes(v, s) == dense_bytes(v),
        dense_parse(s, pack_bytes(v, s) + rest) == Some((v, dense_bytes(v).len() as int)),
{
    lemma_dense_round_trip(v, s, rest);
}

} // verus!
