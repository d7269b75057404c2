//! The borrowed reader: a zero-copy cursor over a byte slice that only
//! shrinks from the front.

use crate::error::{DataError, Mode};
use crate::wire;
use vstd::prelude::*;

verus! {

/// A value with a fixed-width wire decoding.
pub trait ReadNumberFixed: Sized {
    /// How many bytes the decoding consumes.
    spec fn fixed_len() -> nat;

    /// The value the leading `fixed_len()` bytes denote.
    spec fn of_le_bytes(bs: Seq<u8>) -> Self;

    /// Read one value off the front of the reader. On success exactly
    /// `fixed_len()` bytes are consumed; when too few bytes remain,
    /// nothing is consumed and `UnexpectedEnd` comes back.
    fn read(dr: &mut DataReader) -> (r: Result<Self, DataError>)
        requires
            old(dr).wf(),
        ensures
            final(dr).wf(),
            final(dr).spec_mode() == old(dr).spec_mode(),
            final(dr).spec_original_len() == old(dr).spec_original_len(),
            match r {
                Ok(v) => old(dr)@.len() >= Self::fixed_len() && v == Self::of_le_bytes(
                    old(dr)@.take(Self::fixed_len() as int),
                ) && final(dr)@ == old(dr)@.skip(Self::fixed_len() as int),
                Err(e) => e == DataError::UnexpectedEnd && old(dr)@.len() < Self::fixed_len()
                    && final(dr)@ == old(dr)@,
            },
    ;
}

/// A value with a variable-length wire decoding: a varint, possibly
/// zig-zag folded. Each target allows only as many continuation
/// groups as its width needs (three for 16 bits, five for 32, ten for
/// 64); more groups, or a value that overflows the target, is an
/// `InvalidEncoding`.
pub trait ReadNumberVar: Sized {
    /// How many varint groups this target allows.
    spec fn var_groups() -> nat;

    /// Whether the decoded varint fits this target.
    spec fn var_in_range(n: u64) -> bool;

    /// The value a varint of `n` denotes.
    spec fn of_varint(n: u64) -> Self;

    /// Read one value off the front of the reader. On success exactly
    /// the varint groups are consumed; a varint that overflows the
    /// target or runs past the target's group limit gives
    /// `InvalidEncoding`, truncated input gives `UnexpectedEnd`;
    /// nothing is consumed on failure.
    fn read(dr: &mut DataReader) -> (r: Result<Self, DataError>)
        requires
            old(dr).wf(),
        ensures
            final(dr).wf(),
            final(dr).spec_mode() == old(dr).spec_mode(),
            final(dr).spec_original_len() == old(dr).spec_original_len(),
            match r {
                Ok(v) => {
                    &&& wire::varint_parse_at(old(dr)@, Self::var_groups()) matches Some((n, k))
                        && 0 < k <= old(dr)@.len() && Self::var_in_range(n) && v
                        == Self::of_varint(n) && final(dr)@ == old(dr)@.skip(k as int)
                },
                Err(e) => final(dr)@ == old(dr)@ && (e == DataError::UnexpectedEnd || e
                    == DataError::InvalidEncoding) && (wire::varint_parse_at(
                    old(dr)@,
                    Self::var_groups(),
                ) matches Some((n, k)) ==> !Self::var_in_range(n)),
            },
    ;
}

/// The value of the varint at the front of `bs`, where one parses.
pub open spec fn spec_varint_of(bs: Seq<u8>) -> u64 {
    wire::varint_parse(bs)->Some_0.0
}

/// The byte count of the varint at the front of `bs`, where one parses.
pub open spec fn k_of(bs: Seq<u8>) -> nat {
    wire::varint_parse(bs)->Some_0.1
}

/// The borrowed read cursor: a slice of the not-yet-consumed bytes and
/// the length the slice started with, so the offset is always their
/// difference. Reads hand out subslices of the original storage and
/// never copy.
pub struct DataReader<'a> {
    buff: &'a [u8],
    original_len: usize,
    mode: Mode,
}

impl<'a> View for DataReader<'a> {
    type V = Seq<u8>;

    closed spec fn view(&self) -> Seq<u8> {
        self.buff@
    }
}

impl<'a> DataReader<'a> {
    /// The length the reader started with.
    pub closed spec fn spec_original_len(&self) -> int {
        self.original_len as int
    }

    /// The codec mode.
    pub closed spec fn spec_mode(&self) -> Mode {
        self.mode
    }

    /// Bytes consumed so far.
    pub open spec fn spec_offset(&self) -> int {
        self.spec_original_len() - self@.len()
    }

    /// The reader invariant: it never holds more than it started with.
    pub open spec fn wf(&self) -> bool {
        self@.len() <= self.spec_original_len()
    }

    /// A reader over `bytes`, at offset zero.
    pub fn from(bytes: &'a [u8]) -> (r: DataReader<'a>)
        ensures
            r@ == bytes@,
            r.spec_offset() == 0,
            r.spec_mode() == Mode::Normal,
            r.wf(),
    {
        DataReader { buff: bytes, original_len: bytes.len(), mode: Mode::Normal }
    }

    /// The codec mode, read back.
    pub fn get_mode(&self) -> (r: Mode)
        ensures
            r == self.spec_mode(),
    {
        self.mode
    }

    /// Switch the codec mode; the bytes and the offset stay.
    pub fn set_mode(&mut self, m: Mode)
        ensures
            final(self).spec_mode() == m,
            final(self)@ == old(self)@,
            final(self).spec_original_len() == old(self).spec_original_len(),
            final(self).wf() == old(self).wf(),
    {
        self.mode = m;
    }

    /// The remaining byte count.
    pub fn len(&self) -> (r: usize)
        ensures
            r == self@.len(),
    {
        self.buff.len()
    }

    /// The remaining bytes.
    pub fn as_slice(&self) -> (r: &'a [u8])
        ensures
            r@ == self@,
    {
        self.buff
    }

    /// Drop `cnt` bytes off the front; `UnexpectedEnd`, and no change,
    /// when fewer remain.
    pub fn advance(&mut self, cnt: usize) -> (r: Result<(), DataError>)
        requires
            old(self).wf(),
        ensures
            final(self).wf(),
            final(self).spec_mode() == old(self).spec_mode(),
            final(self).spec_original_len() == old(self).spec_original_len(),
            match r {
                Ok(()) => cnt <= old(self)@.len() && final(self)@ == old(self)@.skip(cnt as int),
                Err(e) => e == DataError::UnexpectedEnd && cnt > old(self)@.len() && final(self)@
                    == old(self)@,
            },
    {
        if cnt > self.buff.len() {
            return Err(DataError::UnexpectedEnd);
        }
        self.buff = vstd::slice::slice_subrange(self.buff, cnt, self.buff.len());
        Ok(())
    }

    /// Bytes consumed so far.
    pub fn offset(&self) -> (r: usize)
        requires
            self.wf(),
        ensures
            r == self.spec_offset(),
    {
        self.original_len - self.buff.len()
    }

    /// Point the reader at other storage, with a fresh original length.
    pub fn reload(&mut self, buff: &'a [u8], original_len: usize)
        requires
            buff@.len() <= original_len,
        ensures
            final(self)@ == buff@,
            final(self).spec_original_len() == original_len,
            final(self).spec_mode() == old(self).spec_mode(),
            final(self).wf(),
    {
        self.buff = buff;
        self.original_len = original_len;
    }

    /// Copy out the next `len` bytes.
    pub fn read_buff(&mut self, len: usize) -> (r: Result<Vec<u8>, DataError>)
        requires
            old(self).wf(),
        ensures
            final(self).wf(),
            final(self).spec_mode() == old(self).spec_mode(),
            final(self).spec_original_len() == old(self).spec_original_len(),
            match r {
                Ok(v) => len <= old(self)@.len() && v@ == old(self)@.take(len as int) && final(self)@ == old(self)@.skip(len as int),
                Err(e) => e == DataError::UnexpectedEnd && len > old(self)@.len() && final(self)@
                    == old(self)@,
            },
    {
        if len > self.buff.len() {
            return Err(DataError::UnexpectedEnd);
        }
        let head = vstd::slice::slice_subrange(self.buff, 0, len);
        let out = vstd::slice::slice_to_vec(head);
        self.buff = vstd::slice::slice_subrange(self.buff, len, self.buff.len());
        Ok(out)
    }

    /// Borrow the next `len` bytes without copying.
    pub fn read_exact(&mut self, len: usize) -> (r: Result<&'a [u8], DataError>)
        requires
            old(self).wf(),
        ensures
            final(self).wf(),
            final(self).spec_mode() == old(self).spec_mode(),
            final(self).spec_original_len() == old(self).spec_original_len(),
            match r {
                Ok(v) => len <= old(self)@.len() && v@ == old(self)@.take(len as int) && final(self)@ == old(self)@.skip(len as int),
                Err(e) => e == DataError::UnexpectedEnd && len > old(self)@.len() && final(self)@
                    == old(self)@,
            },
    {
        if len > self.buff.len() {
            return Err(DataError::UnexpectedEnd);
        }
        let head = vstd::slice::slice_subrange(self.buff, 0, len);
        self.buff = vstd::slice::slice_subrange(self.buff, len, self.buff.len());
        Ok(head)
    }

    /// Drop `cnt` bytes off the front, `cnt` known to be available.
    pub fn advance_exact(&mut self, cnt: usize)
        requires
            old(self).wf(),
            cnt <= old(self)@.len(),
        ensures
            final(self).wf(),
            final(self).spec_mode() == old(self).spec_mode(),
            final(self).spec_original_len() == old(self).spec_original_len(),
            final(self)@ == old(self)@.skip(cnt as int),
    {
        self.buff = vstd::slice::slice_subrange(self.buff, cnt, self.buff.len());
    }

    /// Look at the varint at the front, allowing at most `groups`
    /// continuation groups, without consuming anything.
    pub fn peek_varint(&self, groups: usize) -> (r: Result<(u64, usize), DataError>)
        requires
            self.wf(),
        ensures
            match r {
                Ok((n, k)) => wire::varint_parse_at(self@, groups as nat) == Some((n, k as nat))
                    && 0 < k <= self@.len(),
                Err(e) => wire::varint_parse_at(self@, groups as nat) is None && (e
                    == DataError::UnexpectedEnd || e == DataError::InvalidEncoding),
            },
    {
        proof {
            assert(self@.skip(0) =~= self@);
        }
        match read_varint_at(self.buff, 0, groups) {
            Ok((n, newat)) => Ok((n, newat)),
            Err(e) => Err(e),
        }
    }

    /// Read the varint at the front; on success exactly its groups are
    /// consumed, on failure nothing is.
    pub fn read_varint(&mut self) -> (r: Result<u64, DataError>)
        requires
            old(self).wf(),
        ensures
            final(self).wf(),
            final(self).spec_mode() == old(self).spec_mode(),
            final(self).spec_original_len() == old(self).spec_original_len(),
            match r {
                Ok(n) => wire::varint_parse(old(self)@) == Some((n, k_of(old(self)@))) && 0
                    < k_of(old(self)@) <= old(self)@.len() && final(self)@ == old(self)@.skip(
                    k_of(old(self)@) as int,
                ),
                Err(e) => wire::varint_parse(old(self)@) is None && final(self)@ == old(self)@ && (
                e == DataError::UnexpectedEnd || e == DataError::InvalidEncoding),
            },
    {
        match read_varint_at(self.buff, 0, wire::VARINT_MAX_GROUPS) {
            Ok((n, newat)) => {
                proof {
                    assert(old(self)@.skip(0) =~= old(self)@);
                }
                self.buff = vstd::slice::slice_subrange(self.buff, newat, self.buff.len());
                Ok(n)
            },
            Err(e) => {
                proof {
                    assert(old(self)@.skip(0) =~= old(self)@);
                }
                Err(e)
            },
        }
    }
}

impl<'a> DataReader<'a> {
    /// Read one fixed-width value.
    pub fn read_fixed<T: ReadNumberFixed>(&mut self) -> (r: Result<T, DataError>)
        requires
            old(self).wf(),
        ensures
            final(self).wf(),
            final(self).spec_mode() == old(self).spec_mode(),
            final(self).spec_original_len() == old(self).spec_original_len(),
            match r {
                Ok(v) => old(self)@.len() >= T::fixed_len() && v == T::of_le_bytes(
                    old(self)@.take(T::fixed_len() as int),
                ) && final(self)@ == old(self)@.skip(T::fixed_len() as int),
                Err(e) => e == DataError::UnexpectedEnd && old(self)@.len() < T::fixed_len()
                    && final(self)@ == old(self)@,
            },
    {
        T::read(self)
    }

    /// Read one variable-length value, under the target's group limit.
    pub fn read_var_integer<T: ReadNumberVar>(&mut self) -> (r: Result<T, DataError>)
        requires
            old(self).wf(),
        ensures
            final(self).wf(),
            final(self).spec_mode() == old(self).spec_mode(),
            final(self).spec_original_len() == old(self).spec_original_len(),
            match r {
                Ok(v) => {
                    &&& wire::varint_parse_at(old(self)@, T::var_groups()) matches Some((n, k))
                        && 0 < k <= old(self)@.len() && T::var_in_range(n) && v == T::of_varint(n)
                        && final(self)@ == old(self)@.skip(k as int)
                },
                Err(e) => final(self)@ == old(self)@ && (e == DataError::UnexpectedEnd || e
                    == DataError::InvalidEncoding) && (wire::varint_parse_at(
                    old(self)@,
                    T::var_groups(),
                ) matches Some((n, k)) ==> !T::var_in_range(n)),
            },
    {
        T::read(self)
    }

    /// Read a four-byte length prefix, then borrow that many bytes.
    /// `OutOfBounds` when the announced length runs past the input.
    pub fn read_fixed_buf(&mut self) -> (r: Result<&'a [u8], DataError>)
        requires
            old(self).wf(),
        ensures
            final(self).wf(),
            final(self).spec_mode() == old(self).spec_mode(),
            final(self).spec_original_len() == old(self).spec_original_len(),
            match r {
                Ok(v) => {
                    &&& old(self)@.len() >= 4
                    &&& v@ == old(self)@.skip(4).take(
                        vstd::bytes::spec_u32_from_le_bytes(old(self)@.take(4)) as int,
                    )
                    &&& 4 + v@.len() <= old(self)@.len()
                    &&& v@.len() == vstd::bytes::spec_u32_from_le_bytes(old(self)@.take(4))
                    &&& final(self)@ == old(self)@.skip(4 + v@.len() as int)
                },
                Err(e) => e == DataError::UnexpectedEnd && old(self)@.len() < 4 || e
                    == DataError::OutOfBounds && old(self)@.len() >= 4 && old(self)@.len() < 4
                    + vstd::bytes::spec_u32_from_le_bytes(old(self)@.take(4)),
            },
    {
        let len = match <u32 as ReadNumberFixed>::read(self) {
            Ok(v) => v,
            Err(e) => {
                return Err(e);
            },
        };
        let len = len as usize;
        if len > self.buff.len() {
            return Err(DataError::OutOfBounds);
        }
        match self.read_exact(len) {
            Ok(v) => Ok(v),
            Err(e) => Err(e),
        }
    }

    /// Read a varint length prefix, then borrow that many bytes.
    pub fn read_var_buf(&mut self) -> (r: Result<&'a [u8], DataError>)
        requires
            old(self).wf(),
        ensures
            final(self).wf(),
            final(self).spec_mode() == old(self).spec_mode(),
            final(self).spec_original_len() == old(self).spec_original_len(),
            match r {
                Ok(v) => {
                    &&& wire::varint_parse(old(self)@) is Some
                    &&& k_of(old(self)@) + spec_varint_of(old(self)@) <= old(self)@.len()
                    &&& v@ == old(self)@.skip(k_of(old(self)@) as int).take(
                        spec_varint_of(old(self)@) as int,
                    )
                    &&& v@.len() == spec_varint_of(old(self)@)
                    &&& final(self)@ == old(self)@.skip(
                        k_of(old(self)@) as int + spec_varint_of(old(self)@) as int,
                    )
                },
                Err(e) => ((e == DataError::UnexpectedEnd || e == DataError::InvalidEncoding)
                    && wire::varint_parse(old(self)@) is None) || (e == DataError::OutOfBounds
                    && wire::varint_parse(old(self)@) is Some && k_of(old(self)@) + spec_varint_of(
                    old(self)@,
                ) > old(self)@.len()),
            },
    {
        let ghost pre = self@;
        let len64 = match self.read_varint() {
            Ok(v) => v,
            Err(e) => {
                return Err(e);
            },
        };
        let remaining = self.len();
        if len64 > remaining as u64 {
            return Err(DataError::OutOfBounds);
        }
        let len = len64 as usize;
        let ghost mid = self@;
        proof {
            assert(mid == pre.skip(k_of(pre) as int));
            assert(len as int == spec_varint_of(pre) as int);
        }
        match self.read_exact(len) {
            Ok(v) => {
                proof {
                    let k = k_of(pre) as int;
                    let n = spec_varint_of(pre) as int;
                    assert(self@ == mid.skip(n));
                    assert forall|i: int| 0 <= i < self@.len() implies self@[i] == pre.skip(
                        k + n,
                    )[i] by {
                        assert(self@[i] == mid[i + n]);
                        assert(mid[i + n] == pre[i + n + k]);
                    }
                    assert(self@.len() == pre.skip(k + n).len());
                    assert(self@ =~= pre.skip(k + n));
                    assert(v@ == mid.take(n));
                    assert(v@ =~= pre.skip(k).take(n));
                }
                Ok(v)
            },
            Err(e) => Err(e),
        }
    }

    /// Read a four-byte length prefix, then borrow that many bytes as
    /// text. `InvalidEncoding` when they are not valid UTF-8; input is
    /// treated as untrusted and always checked.
    pub fn read_fixed_str(&mut self) -> (r: Result<&'a str, DataError>)
        requires
            old(self).wf(),
        ensures
            final(self).wf(),
            final(self).spec_mode() == old(self).spec_mode(),
            final(self).spec_original_len() == old(self).spec_original_len(),
            match r {
                Ok(v) => {
                    &&& old(self)@.len() >= 4
                    &&& {
                        let body = old(self)@.skip(4).take(
                            vstd::bytes::spec_u32_from_le_bytes(old(self)@.take(4)) as int,
                        );
                        &&& body.len() == vstd::bytes::spec_u32_from_le_bytes(old(self)@.take(4))
                        &&& 4 + body.len() <= old(self)@.len()
                        &&& vstd::utf8::valid_utf8(body)
                        &&& v@ == vstd::utf8::decode_utf8(body)
                        &&& final(self)@ == old(self)@.skip(4 + body.len() as int)
                    }
                },
                Err(e) => (e == DataError::UnexpectedEnd && old(self)@.len() < 4) || (e
                    == DataError::OutOfBounds && old(self)@.len() >= 4 && 4
                    + vstd::bytes::spec_u32_from_le_bytes(old(self)@.take(4)) > old(self)@.len())
                    || (e == DataError::InvalidEncoding && old(self)@.len() >= 4 && 4
                    + vstd::bytes::spec_u32_from_le_bytes(old(self)@.take(4)) <= old(self)@.len()
                    && !vstd::utf8::valid_utf8(
                    old(self)@.skip(4).take(
                        vstd::bytes::spec_u32_from_le_bytes(old(self)@.take(4)) as int,
                    ),
                )),
            },
    {
        let body = match self.read_fixed_buf() {
            Ok(v) => v,
            Err(e) => {
                return Err(e);
            },
        };
        match bytes_to_str(body) {
            Some(s) => Ok(s),
            None => Err(DataError::InvalidEncoding),
        }
    }

    /// Read a varint length prefix, then borrow that many bytes as
    /// text, checked to be valid UTF-8.
    pub fn read_var_str(&mut self) -> (r: Result<&'a str, DataError>)
        requires
            old(self).wf(),
        ensures
            final(self).wf(),
            final(self).spec_mode() == old(self).spec_mode(),
            final(self).spec_original_len() == old(self).spec_original_len(),
            match r {
                Ok(v) => {
                    &&& wire::varint_parse(old(self)@) is Some
                    &&& k_of(old(self)@) + spec_varint_of(old(self)@) <= old(self)@.len()
                    &&& {
                        let body = old(self)@.skip(k_of(old(self)@) as int).take(
                            spec_varint_of(old(self)@) as int,
                        );
                        &&& body.len() == spec_varint_of(old(self)@)
                        &&& k_of(old(self)@) + body.len() <= old(self)@.len()
                        &&& vstd::utf8::valid_utf8(body)
                        &&& v@ == vstd::utf8::decode_utf8(body)
                        &&& final(self)@ == old(self)@.skip(k_of(old(self)@) as int + body.len() as int)
                    }
                },
                Err(e) => ((e == DataError::UnexpectedEnd || e == DataError::InvalidEncoding)
                    && wire::varint_parse(old(self)@) is None) || (e == DataError::OutOfBounds
                    && wire::varint_parse(old(self)@) is Some && k_of(old(self)@) + spec_varint_of(
                    old(self)@,
                ) > old(self)@.len()) || (e == DataError::InvalidEncoding && wire::varint_parse(
                    old(self)@,
                ) is Some && k_of(old(self)@) + spec_varint_of(old(self)@) <= old(self)@.len()
                    && !vstd::utf8::valid_utf8(
                    old(self)@.skip(k_of(old(self)@) as int).take(spec_varint_of(old(self)@) as int),
                )),
            },
    {
        let body = match self.read_var_buf() {
            Ok(v) => v,
            Err(e) => {
                return Err(e);
            },
        };
        match bytes_to_str(body) {
            Some(s) => Ok(s),
            None => Err(DataError::InvalidEncoding),
        }
    }
}

/// Relies on `std::str::from_utf8`: it succeeds exactly on valid
/// UTF-8 and decodes those bytes to their characters; the inverse of
/// `str::as_bytes`.
#[verifier::external_body]
fn bytes_to_str<'x>(b: &'x [u8]) -> (r: Option<&'x str>)
    ensures
        match r {
            Some(s) => vstd::utf8::valid_utf8(b@) && s@ == vstd::utf8::decode_utf8(b@),
            None => !vstd::utf8::valid_utf8(b@),
        },
{
    std::str::from_utf8(b).ok()
}

impl ReadNumberFixed for u8 {
    open spec fn fixed_len() -> nat {
        1
    }

    open spec fn of_le_bytes(bs: Seq<u8>) -> u8 {
        bs[0]
    }

    fn read(dr: &mut DataReader) -> (r: Result<Self, DataError>) {
        match dr.read_exact(1) {
            Ok(s) => Ok(*vstd::slice::slice_index_get(s, 0)),
            Err(e) => Err(e),
        }
    }
}

impl ReadNumberFixed for i8 {
    open spec fn fixed_len() -> nat {
        1
    }

    open spec fn of_le_bytes(bs: Seq<u8>) -> i8 {
        bs[0] as i8
    }

    fn read(dr: &mut DataReader) -> (r: Result<Self, DataError>) {
        match dr.read_exact(1) {
            Ok(s) => Ok(#[verifier::truncate] (*vstd::slice::slice_index_get(s, 0) as i8)),
            Err(e) => Err(e),
        }
    }
}

impl ReadNumberFixed for bool {
    open spec fn fixed_len() -> nat {
        1
    }

    open spec fn of_le_bytes(bs: Seq<u8>) -> bool {
        bs[0] != 0
    }

    fn read(dr: &mut DataReader) -> (r: Result<Self, DataError>) {
        match dr.read_exact(1) {
            Ok(s) => Ok(*vstd::slice::slice_index_get(s, 0) != 0),
            Err(e) => Err(e),
        }
    }
}

impl ReadNumberFixed for u16 {
    open spec fn fixed_len() -> nat {
        2
    }

    open spec fn of_le_bytes(bs: Seq<u8>) -> u16 {
        vstd::bytes::spec_u16_from_le_bytes(bs)
    }

    fn read(dr: &mut DataReader) -> (r: Result<Self, DataError>) {
        match dr.read_exact(2) {
            Ok(s) => Ok(vstd::bytes::u16_from_le_bytes(s)),
            Err(e) => Err(e),
        }
    }
}

impl ReadNumberFixed for i16 {
    open spec fn fixed_len() -> nat {
        2
    }

    open spec fn of_le_bytes(bs: Seq<u8>) -> i16 {
        vstd::bytes::spec_u16_from_le_bytes(bs) as i16
    }

    fn read(dr: &mut DataReader) -> (r: Result<Self, DataError>) {
        match dr.read_exact(2) {
            Ok(s) => Ok(#[verifier::truncate] (vstd::bytes::u16_from_le_bytes(s) as i16)),
            Err(e) => Err(e),
        }
    }
}

impl ReadNumberFixed for u32 {
    open spec fn fixed_len() -> nat {
        4
    }

    open spec fn of_le_bytes(bs: Seq<u8>) -> u32 {
        vstd::bytes::spec_u32_from_le_bytes(bs)
    }

    fn read(dr: &mut DataReader) -> (r: Result<Self, DataError>) {
        match dr.read_exact(4) {
            Ok(s) => Ok(vstd::bytes::u32_from_le_bytes(s)),
            Err(e) => Err(e),
        }
    }
}

impl ReadNumberFixed for i32 {
    open spec fn fixed_len() -> nat {
        4
    }

    open spec fn of_le_bytes(bs: Seq<u8>) -> i32 {
        vstd::bytes::spec_u32_from_le_bytes(bs) as i32
    }

    fn read(dr: &mut DataReader) -> (r: Result<Self, DataError>) {
        match dr.read_exact(4) {
            Ok(s) => Ok(#[verifier::truncate] (vstd::bytes::u32_from_le_bytes(s) as i32)),
            Err(e) => Err(e),
        }
    }
}

impl ReadNumberFixed for u64 {
    open spec fn fixed_len() -> nat {
        8
    }

    open spec fn of_le_bytes(bs: Seq<u8>) -> u64 {
        vstd::bytes::spec_u64_from_le_bytes(bs)
    }

    fn read(dr: &mut DataReader) -> (r: Result<Self, DataError>) {
        match dr.read_exact(8) {
            Ok(s) => Ok(vstd::bytes::u64_from_le_bytes(s)),
            Err(e) => Err(e),
        }
    }
}

impl ReadNumberFixed for i64 {
    open spec fn fixed_len() -> nat {
        8
    }

    open spec fn of_le_bytes(bs: Seq<u8>) -> i64 {
        vstd::bytes::spec_u64_from_le_bytes(bs) as i64
    }

    fn read(dr: &mut DataReader) -> (r: Result<Self, DataError>) {
        match dr.read_exact(8) {
            Ok(s) => Ok(#[verifier::truncate] (vstd::bytes::u64_from_le_bytes(s) as i64)),
            Err(e) => Err(e),
        }
    }
}

impl ReadNumberVar for u16 {
    open spec fn var_groups() -> nat {
        3
    }

    open spec fn var_in_range(n: u64) -> bool {
        n <= u16::MAX
    }

    open spec fn of_varint(n: u64) -> u16 {
        n as u16
    }

    fn read(dr: &mut DataReader) -> (r: Result<Self, DataError>) {
        let (n, k) = match dr.peek_varint(3) {
            Ok(p) => p,
            Err(e) => {
                return Err(e);
            },
        };
        if n > u16::MAX as u64 {
            return Err(DataError::InvalidEncoding);
        }
        dr.advance_exact(k);
        Ok(n as u16)
    }
}

impl ReadNumberVar for u32 {
    open spec fn var_groups() -> nat {
        5
    }

    open spec fn var_in_range(n: u64) -> bool {
        n <= u32::MAX
    }

    open spec fn of_varint(n: u64) -> u32 {
        n as u32
    }

    fn read(dr: &mut DataReader) -> (r: Result<Self, DataError>) {
        let (n, k) = match dr.peek_varint(5) {
            Ok(p) => p,
            Err(e) => {
                return Err(e);
            },
        };
        if n > u32::MAX as u64 {
            return Err(DataError::InvalidEncoding);
        }
        dr.advance_exact(k);
        Ok(n as u32)
    }
}

impl ReadNumberVar for u64 {
    open spec fn var_groups() -> nat {
        wire::VARINT_MAX_GROUPS as nat
    }

    open spec fn var_in_range(n: u64) -> bool {
        true
    }

    open spec fn of_varint(n: u64) -> u64 {
        n
    }

    fn read(dr: &mut DataReader) -> (r: Result<Self, DataError>) {
        dr.read_varint()
    }
}

impl ReadNumberVar for i16 {
    open spec fn var_groups() -> nat {
        3
    }

    open spec fn var_in_range(n: u64) -> bool {
        i16::MIN <= wire::unzigzag64(n) <= i16::MAX
    }

    open spec fn of_varint(n: u64) -> i16 {
        wire::unzigzag64(n) as i16
    }

    fn read(dr: &mut DataReader) -> (r: Result<Self, DataError>) {
        let (n, k) = match dr.peek_varint(3) {
            Ok(p) => p,
            Err(e) => {
                return Err(e);
            },
        };
        let v = crate::data::zigzag_decode64(n);
        if v < i16::MIN as i64 || v > i16::MAX as i64 {
            return Err(DataError::InvalidEncoding);
        }
        dr.advance_exact(k);
        Ok(#[verifier::truncate] (v as i16))
    }
}

impl ReadNumberVar for i32 {
    open spec fn var_groups() -> nat {
        5
    }

    open spec fn var_in_range(n: u64) -> bool {
        i32::MIN <= wire::unzigzag64(n) <= i32::MAX
    }

    open spec fn of_varint(n: u64) -> i32 {
        wire::unzigzag64(n) as i32
    }

    fn read(dr: &mut DataReader) -> (r: Result<Self, DataError>) {
        let (n, k) = match dr.peek_varint(5) {
            Ok(p) => p,
            Err(e) => {
                return Err(e);
            },
        };
        let v = crate::data::zigzag_decode64(n);
        if v < i32::MIN as i64 || v > i32::MAX as i64 {
            return Err(DataError::InvalidEncoding);
        }
        dr.advance_exact(k);
        Ok(#[verifier::truncate] (v as i32))
    }
}

impl ReadNumberVar for i64 {
    open spec fn var_groups() -> nat {
        wire::VARINT_MAX_GROUPS as nat
    }

    open spec fn var_in_range(n: u64) -> bool {
        true
    }

    open spec fn of_varint(n: u64) -> i64 {
        wire::unzigzag64(n)
    }

    fn read(dr: &mut DataReader) -> (r: Result<Self, DataError>) {
        let n = match dr.read_varint() {
            Ok(n) => n,
            Err(e) => {
                return Err(e);
            },
        };
        Ok(crate::data::zigzag_decode64(n))
    }
}

/// Parse the varint that starts at `bs[at]`, allowing `depth` more
/// groups; the executable mirror of `wire::varint_parse_at`.
fn read_varint_at(bs: &[u8], at: usize, depth: usize) -> (r: Result<(u64, usize), DataError>)
    requires
        at <= bs@.len(),
    ensures
        match r {
            Ok((n, newat)) => at < newat <= bs@.len() && wire::varint_parse_at(
                bs@.skip(at as int),
                depth as nat,
            ) == Some((n, (newat - at) as nat)),
            Err(e) => wire::varint_parse_at(bs@.skip(at as int), depth as nat) is None && (e
                == DataError::UnexpectedEnd || e == DataError::InvalidEncoding),
        },
    decreases depth,
{
    if at == bs.len() {
        return Err(DataError::UnexpectedEnd);
    }
    if depth == 0 {
        return Err(DataError::InvalidEncoding);
    }
    let b = *vstd::slice::slice_index_get(bs, at);
    proof {
        assert(bs@.skip(at as int)[0] == bs@[at as int]);
    }
    if b < 128 {
        Ok((b as u64, at + 1))
    } else {
        proof {
            assert(bs@.skip(at as int).drop_first() =~= bs@.skip(at + 1));
        }
        match read_varint_at(bs, at + 1, depth - 1) {
            Ok((m, newat)) => {
                let low: u64 = (b - 128) as u64;
                if m <= (u64::MAX - low) / 128 {
                    Ok((low + 128 * m, newat))
                } else {
                    Err(DataError::InvalidEncoding)
                }
            },
            Err(e) => Err(e),
        }
    }
}

} // verus!
