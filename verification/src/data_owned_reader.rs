//! The owned reader: self-contained storage plus an explicit offset.
//! Each read runs a transient borrowed reader over the remaining
//! bytes, so one decode implementation serves both storage kinds.

use crate::data_read::{DataReader, ReadNumberFixed, ReadNumberVar, k_of, spec_varint_of};
use crate::error::{DataError, Mode};
use crate::wire;
use vstd::prelude::*;

verus! {

/// A reader that owns its bytes and survives the data it was built
/// from; the offset persists across reads.
pub struct DataOwnedReader {
    inner: Vec<u8>,
    offset: usize,
}

impl View for DataOwnedReader {
    type V = Seq<u8>;

    closed spec fn view(&self) -> Seq<u8> {
        self.inner@
    }
}

impl DataOwnedReader {
    /// The read offset.
    pub closed spec fn spec_offset(&self) -> int {
        self.offset as int
    }

    /// The reader invariant: the offset stays within the storage.
    pub open spec fn wf(&self) -> bool {
        0 <= self.spec_offset() <= self@.len()
    }

    /// The bytes not yet consumed.
    pub open spec fn remaining(&self) -> Seq<u8> {
        self@.skip(self.spec_offset())
    }

    /// Take ownership of `inner`, with the offset at zero.
    pub fn new(inner: Vec<u8>) -> (r: DataOwnedReader)
        ensures
            r@ == inner@,
            r.spec_offset() == 0,
            r.wf(),
    {
        DataOwnedReader { inner, offset: 0 }
    }

    /// Give the storage back.
    pub fn into_inner(self) -> (r: Vec<u8>)
        ensures
            r@ == self@,
    {
        self.inner
    }

    /// A borrowed reader over the remaining bytes.
    pub fn get_reader(&self) -> (r: DataReader)
        requires
            self.wf(),
        ensures
            r@ == self.remaining(),
            r.spec_offset() == 0,
            r.spec_mode() == Mode::Normal,
            r.wf(),
    {
        let s = vstd::slice::slice_subrange(self.inner.as_slice(), self.offset, self.inner.len());
        DataReader::from(s)
    }

    /// A borrowed reader over all the bytes, the consumed ones too.
    pub fn get_all_reader(&self) -> (r: DataReader)
        ensures
            r@ == self@,
            r.spec_offset() == 0,
            r.spec_mode() == Mode::Normal,
            r.wf(),
    {
        DataReader::from(self.inner.as_slice())
    }

    /// The read offset.
    pub fn get_offset(&self) -> (r: usize)
        ensures
            r == self.spec_offset(),
    {
        self.offset
    }

    /// Move the read offset; `OutOfBounds`, and no move, past the end.
    pub fn set_offset(&mut self, offset: usize) -> (r: Result<(), DataError>)
        requires
            old(self).wf(),
        ensures
            final(self).wf(),
            final(self)@ == old(self)@,
            match r {
                Ok(()) => offset <= old(self)@.len() && final(self).spec_offset() == offset,
                Err(e) => e == DataError::OutOfBounds && offset > old(self)@.len() && final(self).spec_offset() == old(self).spec_offset(),
            },
    {
        if offset > self.inner.len() {
            return Err(DataError::OutOfBounds);
        }
        self.offset = offset;
        Ok(())
    }

    /// Move the read offset forward; `OutOfBounds`, and no move, past
    /// the end. On success the new offset comes back.
    pub fn add_offset(&mut self, offset: usize) -> (r: Result<usize, DataError>)
        requires
            old(self).wf(),
        ensures
            final(self).wf(),
            final(self)@ == old(self)@,
            match r {
                Ok(n) => old(self).spec_offset() + offset <= old(self)@.len() && n == final(self).spec_offset() == old(self).spec_offset() + offset,
                Err(e) => e == DataError::OutOfBounds && old(self).spec_offset() + offset > old(self)@.len() && final(self).spec_offset() == old(self).spec_offset(),
            },
    {
        if offset > self.inner.len() - self.offset {
            return Err(DataError::OutOfBounds);
        }
        self.offset = self.offset + offset;
        Ok(self.offset)
    }

    /// Move the read offset back; `OutOfBounds`, and no move, when it
    /// would pass the start. On success the new offset comes back.
    pub fn sub_offset(&mut self, offset: usize) -> (r: Result<usize, DataError>)
        requires
            old(self).wf(),
        ensures
            final(self).wf(),
            final(self)@ == old(self)@,
            match r {
                Ok(n) => offset <= old(self).spec_offset() && n == final(self).spec_offset() == old(self).spec_offset() - offset,
                Err(e) => e == DataError::OutOfBounds && offset > old(self).spec_offset() && final(self).spec_offset() == old(self).spec_offset(),
            },
    {
        if offset > self.offset {
            return Err(DataError::OutOfBounds);
        }
        self.offset = self.offset - offset;
        Ok(self.offset)
    }

    /// Read one fixed-width value at the offset and move past it.
    pub fn read_fixed<T: ReadNumberFixed>(&mut self) -> (r: Result<T, DataError>)
        requires
            old(self).wf(),
        ensures
            final(self).wf(),
            final(self)@ == old(self)@,
            match r {
                Ok(v) => old(self).remaining().len() >= T::fixed_len() && v == T::of_le_bytes(
                    old(self).remaining().take(T::fixed_len() as int),
                ) && final(self).spec_offset() == old(self).spec_offset() + T::fixed_len(),
                Err(e) => e == DataError::UnexpectedEnd && old(self).remaining().len()
                    < T::fixed_len() && final(self).spec_offset() == old(self).spec_offset(),
            },
    {
        let mut dr = self.get_reader();
        let out = match T::read(&mut dr) {
            Ok(v) => v,
            Err(e) => {
                return Err(e);
            },
        };
        let consumed = dr.offset();
        let total = self.inner.len();
        proof {
            assert(self.spec_offset() + consumed <= total);
        }
        self.offset = self.offset + consumed;
        Ok(out)
    }

    /// Read one variable-length value at the offset and move past it,
    /// exactly as a borrowed reader over the remaining bytes would.
    pub fn read_var_integer<T: ReadNumberVar>(&mut self) -> (r: Result<T, DataError>)
        requires
            old(self).wf(),
        ensures
            final(self).wf(),
            final(self)@ == old(self)@,
            match r {
                Ok(v) => {
                    &&& wire::varint_parse_at(old(self).remaining(), T::var_groups()) matches Some(
                        (n, k),
                    ) && 0 < k <= old(self).remaining().len() && T::var_in_range(n) && v
                        == T::of_varint(n) && final(self).spec_offset() == old(self).spec_offset()
                        + k
                },
                Err(e) => final(self).spec_offset() == old(self).spec_offset() && (e
                    == DataError::UnexpectedEnd || e == DataError::InvalidEncoding) && (
                wire::varint_parse_at(old(self).remaining(), T::var_groups()) matches Some(
                    (n, k),
                ) ==> !T::var_in_range(n)),
            },
    {
        let mut dr = self.get_reader();
        let out = match T::read(&mut dr) {
            Ok(v) => v,
            Err(e) => {
                return Err(e);
            },
        };
        let consumed = dr.offset();
        let total = self.inner.len();
        proof {
            assert(self.spec_offset() + consumed <= total);
        }
        self.offset = self.offset + consumed;
        Ok(out)
    }

    /// Read a four-byte length prefix at the offset, then borrow that
    /// many bytes, moving past both.
    pub fn read_fixed_buf(&mut self) -> (r: Result<&[u8], DataError>)
        requires
            old(self).wf(),
        ensures
            final(self).wf(),
            final(self)@ == old(self)@,
            match r {
                Ok(v) => {
                    &&& old(self).remaining().len() >= 4
                    &&& v@ == old(self).remaining().skip(4).take(
                        vstd::bytes::spec_u32_from_le_bytes(old(self).remaining().take(4)) as int,
                    )
                    &&& v@.len() == vstd::bytes::spec_u32_from_le_bytes(
                        old(self).remaining().take(4),
                    )
                    &&& final(self).spec_offset() == old(self).spec_offset() + 4 + v@.len()
                },
                Err(e) => final(self).spec_offset() == old(self).spec_offset() && ((e
                    == DataError::UnexpectedEnd && old(self).remaining().len() < 4) || (e
                    == DataError::OutOfBounds && old(self).remaining().len() >= 4 && 4
                    + vstd::bytes::spec_u32_from_le_bytes(old(self).remaining().take(4)) > old(
                    self,
                ).remaining().len())),
            },
    {
        let offset = self.offset;
        let s = vstd::slice::slice_subrange(self.inner.as_slice(), self.offset, self.inner.len());
        let mut dr = DataReader::from(s);
        let out = match dr.read_fixed_buf() {
            Ok(v) => v,
            Err(e) => {
                return Err(e);
            },
        };
        let consumed = dr.offset();
        let total = self.inner.len();
        proof {
            assert(offset + consumed <= total);
        }
        self.offset = offset + consumed;
        Ok(out)
    }

    /// Read a varint length prefix at the offset, then borrow that
    /// many bytes, moving past both.
    pub fn read_var_buf(&mut self) -> (r: Result<&[u8], DataError>)
        requires
            old(self).wf(),
        ensures
            final(self).wf(),
            final(self)@ == old(self)@,
            match r {
                Ok(v) => {
                    &&& wire::varint_parse(old(self).remaining()) is Some
                    &&& v@ == old(self).remaining().skip(
                        k_of(old(self).remaining()) as int,
                    ).take(spec_varint_of(old(self).remaining()) as int)
                    &&& v@.len() == spec_varint_of(old(self).remaining())
                    &&& final(self).spec_offset() == old(self).spec_offset() + k_of(
                        old(self).remaining(),
                    ) + v@.len()
                },
                Err(e) => final(self).spec_offset() == old(self).spec_offset() && (((e
                    == DataError::UnexpectedEnd || e == DataError::InvalidEncoding)
                    && wire::varint_parse(old(self).remaining()) is None) || (e
                    == DataError::OutOfBounds && wire::varint_parse(old(self).remaining())
                    is Some && k_of(old(self).remaining()) + spec_varint_of(old(self).remaining())
                    > old(self).remaining().len())),
            },
    {
        let offset = self.offset;
        let s = vstd::slice::slice_subrange(self.inner.as_slice(), self.offset, self.inner.len());
        let mut dr = DataReader::from(s);
        let out = match dr.read_var_buf() {
            Ok(v) => v,
            Err(e) => {
                return Err(e);
            },
        };
        let consumed = dr.offset();
        let total = self.inner.len();
        proof {
            assert(offset + consumed <= total);
        }
        self.offset = offset + consumed;
        Ok(out)
    }

    /// Read a four-byte length prefix at the offset, then borrow that
    /// many bytes as UTF-8 checked text, moving past both.
    pub fn read_fixed_str(&mut self) -> (r: Result<&str, DataError>)
        requires
            old(self).wf(),
        ensures
            final(self).wf(),
            final(self)@ == old(self)@,
            match r {
                Ok(v) => {
                    &&& old(self).remaining().len() >= 4
                    &&& {
                        let body = old(self).remaining().skip(4).take(
                            vstd::bytes::spec_u32_from_le_bytes(
                                old(self).remaining().take(4),
                            ) as int,
                        );
                        &&& body.len() == vstd::bytes::spec_u32_from_le_bytes(
                            old(self).remaining().take(4),
                        )
                        &&& vstd::utf8::valid_utf8(body)
                        &&& v@ == vstd::utf8::decode_utf8(body)
                        &&& final(self).spec_offset() == old(self).spec_offset() + 4 + body.len()
                    }
                },
                Err(e) => final(self).spec_offset() == old(self).spec_offset() && ((e
                    == DataError::UnexpectedEnd && old(self).remaining().len() < 4) || (e
                    == DataError::OutOfBounds && old(self).remaining().len() >= 4 && 4
                    + vstd::bytes::spec_u32_from_le_bytes(old(self).remaining().take(4)) > old(
                    self,
                ).remaining().len()) || (e == DataError::InvalidEncoding && old(
                    self,
                ).remaining().len() >= 4 && 4 + vstd::bytes::spec_u32_from_le_bytes(
                    old(self).remaining().take(4),
                ) <= old(self).remaining().len() && !vstd::utf8::valid_utf8(
                    old(self).remaining().skip(4).take(
                        vstd::bytes::spec_u32_from_le_bytes(old(self).remaining().take(4)) as int,
                    ),
                ))),
            },
    {
        let offset = self.offset;
        let s = vstd::slice::slice_subrange(self.inner.as_slice(), self.offset, self.inner.len());
        let mut dr = DataReader::from(s);
        let out = match dr.read_fixed_str() {
            Ok(v) => v,
            Err(e) => {
                return Err(e);
            },
        };
        let consumed = dr.offset();
        let total = self.inner.len();
        proof {
            assert(offset + consumed <= total);
        }
        self.offset = offset + consumed;
        Ok(out)
    }

    /// Read a varint length prefix at the offset, then borrow that
    /// many bytes as UTF-8 checked text, moving past both.
    pub fn read_var_str(&mut self) -> (r: Result<&str, DataError>)
        requires
            old(self).wf(),
        ensures
            final(self).wf(),
            final(self)@ == old(self)@,
            match r {
                Ok(v) => {
                    &&& wire::varint_parse(old(self).remaining()) is Some
                    &&& {
                        let body = old(self).remaining().skip(
                            k_of(old(self).remaining()) as int,
                        ).take(spec_varint_of(old(self).remaining()) as int);
                        &&& body.len() == spec_varint_of(old(self).remaining())
                        &&& vstd::utf8::valid_utf8(body)
                        &&& v@ == vstd::utf8::decode_utf8(body)
                        &&& final(self).spec_offset() == old(self).spec_offset() + k_of(
                            old(self).remaining(),
                        ) + body.len()
                    }
                },
                Err(e) => final(self).spec_offset() == old(self).spec_offset() && (((e
                    == DataError::UnexpectedEnd || e == DataError::InvalidEncoding)
                    && wire::varint_parse(old(self).remaining()) is None) || (e
                    == DataError::OutOfBounds && wire::varint_parse(old(self).remaining())
                    is Some && k_of(old(self).remaining()) + spec_varint_of(old(self).remaining())
                    > old(self).remaining().len()) || (e == DataError::InvalidEncoding
                    && wire::varint_parse(old(self).remaining()) is Some && k_of(
                    old(self).remaining(),
                ) + spec_varint_of(old(self).remaining()) <= old(self).remaining().len()
                    && !vstd::utf8::valid_utf8(
                    old(self).remaining().skip(k_of(old(self).remaining()) as int).take(
                        spec_varint_of(old(self).remaining()) as int,
                    ),
                ))),
            },
    {
        let offset = self.offset;
        let s = vstd::slice::slice_subrange(self.inner.as_slice(), self.offset, self.inner.len());
        let mut dr = DataReader::from(s);
        let out = match dr.read_var_str() {
            Ok(v) => v,
            Err(e) => {
                return Err(e);
            },
        };
        let consumed = dr.offset();
        let total = self.inner.len();
        proof {
            assert(offset + consumed <= total);
        }
        self.offset = offset + consumed;
        Ok(out)
    }

    /// Copy out the next `len` bytes and move past them.
    pub fn read_buff(&mut self, len: usize) -> (r: Result<Vec<u8>, DataError>)
        requires
            old(self).wf(),
        ensures
            final(self).wf(),
            final(self)@ == old(self)@,
            match r {
                Ok(v) => len <= old(self).remaining().len() && v@ == old(self).remaining().take(
                    len as int,
                ) && final(self).spec_offset() == old(self).spec_offset() + len,
                Err(e) => e == DataError::UnexpectedEnd && len > old(self).remaining().len()
                    && final(self).spec_offset() == old(self).spec_offset(),
            },
    {
        let mut dr = self.get_reader();
        let out = match dr.read_buff(len) {
            Ok(v) => v,
            Err(e) => {
                return Err(e);
            },
        };
        let consumed = dr.offset();
        let total = self.inner.len();
        proof {
            assert(self.spec_offset() + consumed <= total);
        }
        self.offset = self.offset + consumed;
        Ok(out)
    }
}

} // verus!
