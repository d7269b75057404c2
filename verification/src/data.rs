//! The growable byte buffer with an append cursor, a bounded
//! write-at-offset operation and a parse position.

use crate::error::{DataError, Mode};
use crate::wire;
use vstd::prelude::*;

verus! {

/// A value with a fixed-width wire encoding: integers and booleans as
/// little-endian bytes, strings and byte strings as a four-byte length
/// prefix followed by the raw bytes.
pub trait WriteNumberFixed {
    /// The exact bytes this value appends.
    spec fn fixed_bytes(&self) -> Seq<u8>;

    /// Whether the value can be framed: a length prefix must fit in
    /// four bytes. Always true for integers and booleans.
    spec fn fixed_wf(&self) -> bool;

    /// Append the fixed-width encoding of this value.
    fn write(&self, data: &mut Data)
        requires
            old(data).wf(),
            self.fixed_wf(),
        ensures
            final(data).wf(),
            final(data)@ == old(data)@ + self.fixed_bytes(),
            final(data).spec_pos() == old(data).spec_pos(),
            final(data).spec_mode() == old(data).spec_mode(),
    ;

    /// Overwrite the fixed-width encoding of this value at `idx`,
    /// never extending the buffer.
    fn write_at(&self, idx: usize, data: &mut Data) -> (r: Result<(), DataError>)
        requires
            old(data).wf(),
            self.fixed_wf(),
        ensures
            final(data).wf(),
            final(data).spec_pos() == old(data).spec_pos(),
            final(data).spec_mode() == old(data).spec_mode(),
            final(data)@.len() == old(data)@.len(),
            match r {
                Ok(()) => idx + self.fixed_bytes().len() <= old(data)@.len() && final(data)@
                    == old(data)@.take(idx as int) + self.fixed_bytes() + old(data)@.skip(
                    idx + self.fixed_bytes().len(),
                ),
                Err(e) => e == DataError::OutOfBounds && idx + self.fixed_bytes().len() > old(data)@.len() && final(data)@ == old(data)@,
            },
    ;
}

/// A value with a variable-length wire encoding: varint groups for
/// unsigned integers, zig-zag then varint for signed ones, a varint
/// length prefix followed by the raw bytes for strings and byte
/// strings.
pub trait WriteNumberVar {
    /// The exact bytes this value appends.
    spec fn var_bytes(&self) -> Seq<u8>;

    /// Append the variable-length encoding of this value.
    fn write(&self, data: &mut Data)
        requires
            old(data).wf(),
        ensures
            final(data).wf(),
            final(data)@ == old(data)@ + self.var_bytes(),
            final(data).spec_pos() == old(data).spec_pos(),
            final(data).spec_mode() == old(data).spec_mode(),
    ;
}

/// The growable buffer. Bytes are only ever appended or patched in
/// place below the append length; the parse position never passes the
/// append length.
pub struct Data {
    buff: Vec<u8>,
    pos: usize,
    mode: Mode,
}

impl View for Data {
    type V = Seq<u8>;

    closed spec fn view(&self) -> Seq<u8> {
        self.buff@
    }
}

impl Data {
    /// The internal parse position.
    pub closed spec fn spec_pos(&self) -> int {
        self.pos as int
    }

    /// The codec mode.
    pub closed spec fn spec_mode(&self) -> Mode {
        self.mode
    }

    /// The codec mode, read back.
    pub fn get_mode(&self) -> (r: Mode)
        ensures
            r == self.spec_mode(),
    {
        self.mode
    }

    /// Switch the codec mode; the bytes and the parse position stay.
    pub fn set_mode(&mut self, m: Mode)
        ensures
            final(self).spec_mode() == m,
            final(self)@ == old(self)@,
            final(self).spec_pos() == old(self).spec_pos(),
            final(self).wf() == old(self).wf(),
    {
        self.mode = m;
    }

    /// The buffer invariant: the parse position stays within the
    /// appended region.
    pub open spec fn wf(&self) -> bool {
        0 <= self.spec_pos() <= self@.len()
    }

    /// An empty buffer.
    pub fn new() -> (r: Data)
        ensures
            r@ =~= Seq::<u8>::empty(),
            r.spec_pos() == 0,
            r.spec_mode() == Mode::Normal,
            r.wf(),
    {
        Data { buff: Vec::with_capacity(4096), pos: 0, mode: Mode::Normal }
    }

    /// A buffer of `len` copies of `default`.
    pub fn with_len(len: usize, default: u8) -> (r: Data)
        ensures
            r@ =~= Seq::<u8>::new(len as nat, |i: int| default),
            r.spec_pos() == 0,
            r.spec_mode() == Mode::Normal,
            r.wf(),
    {
        let mut data = Data::new();
        data.buff.resize(len, default);
        data
    }

    /// An empty buffer with room for `cap` bytes before it regrows.
    pub fn with_capacity(cap: usize) -> (r: Data)
        ensures
            r@ =~= Seq::<u8>::empty(),
            r.spec_pos() == 0,
            r.spec_mode() == Mode::Normal,
            r.wf(),
    {
        Data { buff: Vec::with_capacity(cap), pos: 0, mode: Mode::Normal }
    }

    /// Give up the buffer and take its bytes.
    pub fn into_inner(self) -> (r: Vec<u8>)
        ensures
            r@ == self@,
    {
        self.buff
    }

    /// The appended bytes.
    pub fn as_slice(&self) -> (r: &[u8])
        ensures
            r@ == self@,
    {
        self.buff.as_slice()
    }

    /// The append length.
    pub fn len(&self) -> (r: usize)
        ensures
            r == self@.len(),
    {
        self.buff.len()
    }

    /// Append raw bytes.
    pub fn write_buf(&mut self, buff: &[u8])
        requires
            old(self).wf(),
        ensures
            final(self).wf(),
            final(self)@ == old(self)@ + buff@,
            final(self).spec_pos() == old(self).spec_pos(),
            final(self).spec_mode() == old(self).spec_mode(),
    {
        self.buff.extend_from_slice(buff);
    }

    /// Overwrite `buff.len()` bytes at `idx`. Fails with `OutOfBounds`
    /// when the patch would reach past the appended region; the buffer
    /// never grows here.
    pub fn write_buf_at(&mut self, idx: usize, buff: &[u8]) -> (r: Result<(), DataError>)
        requires
            old(self).wf(),
        ensures
            final(self).wf(),
            final(self).spec_pos() == old(self).spec_pos(),
            final(self).spec_mode() == old(self).spec_mode(),
            final(self)@.len() == old(self)@.len(),
            match r {
                Ok(()) => idx + buff@.len() <= old(self)@.len() && final(self)@ == old(self)@.take(idx as int) + buff@ + old(self)@.skip(idx + buff@.len()),
                Err(e) => e == DataError::OutOfBounds && idx + buff@.len() > old(self)@.len()
                    && final(self)@ == old(self)@,
            },
    {
        let size = buff.len();
        if size > self.buff.len() || idx > self.buff.len() - size {
            return Err(DataError::OutOfBounds);
        }
        let mut i: usize = 0;
        while i < size
            invariant
                idx + size <= self.buff@.len(),
                idx + size <= usize::MAX,
                i <= size == buff@.len(),
                self.buff@.len() == old(self)@.len(),
                self.buff@ =~= old(self)@.take(idx as int) + buff@.take(i as int) + old(self)@.skip(idx + i),
                self.pos == old(self).pos,
                self.mode == old(self).mode,
            decreases size - i,
        {
            let b = buff[i];
            self.buff.set(idx + i, b);
            proof {
                assert(self.buff@ =~= old(self)@.take(idx as int) + buff@.take(i + 1) + old(self)@.skip(idx + i + 1));
            }
            i = i + 1;
        }
        proof {
            assert(buff@.take(size as int) =~= buff@);
        }
        Ok(())
    }

    /// Append the fixed-width encoding of `v`.
    pub fn write_fixed<T: WriteNumberFixed + ?Sized>(&mut self, v: &T)
        requires
            old(self).wf(),
            v.fixed_wf(),
        ensures
            final(self).wf(),
            final(self)@ == old(self)@ + v.fixed_bytes(),
            final(self).spec_pos() == old(self).spec_pos(),
            final(self).spec_mode() == old(self).spec_mode(),
    {
        v.write(self)
    }

    /// Overwrite the fixed-width encoding of `v` at `idx`.
    pub fn write_fixed_at<T: WriteNumberFixed + ?Sized>(&mut self, idx: usize, v: &T) -> (r:
        Result<(), DataError>)
        requires
            old(self).wf(),
            v.fixed_wf(),
        ensures
            final(self).wf(),
            final(self).spec_pos() == old(self).spec_pos(),
            final(self).spec_mode() == old(self).spec_mode(),
            final(self)@.len() == old(self)@.len(),
            match r {
                Ok(()) => idx + v.fixed_bytes().len() <= old(self)@.len() && final(self)@ == old(self)@.take(idx as int) + v.fixed_bytes() + old(self)@.skip(
                    idx + v.fixed_bytes().len(),
                ),
                Err(e) => e == DataError::OutOfBounds && idx + v.fixed_bytes().len() > old(self)@.len() && final(self)@ == old(self)@,
            },
    {
        v.write_at(idx, self)
    }

    /// Append the variable-length encoding of `v`.
    pub fn write_var_integer<T: WriteNumberVar + ?Sized>(&mut self, v: &T)
        requires
            old(self).wf(),
        ensures
            final(self).wf(),
            final(self)@ == old(self)@ + v.var_bytes(),
            final(self).spec_pos() == old(self).spec_pos(),
            final(self).spec_mode() == old(self).spec_mode(),
    {
        v.write(self)
    }

    /// Make room for `size` more bytes, returning the append length.
    /// The contents never change here; growth is amortized doubling
    /// through the backing store.
    pub fn check_reserve(&mut self, size: usize) -> (r: usize)
        requires
            old(self).wf(),
        ensures
            final(self).wf(),
            final(self)@ == old(self)@,
            final(self).spec_pos() == old(self).spec_pos(),
            final(self).spec_mode() == old(self).spec_mode(),
            r == old(self)@.len(),
    {
        self.buff.reserve(size);
        self.buff.len()
    }

    /// The internal parse position.
    pub fn position(&self) -> (r: usize)
        ensures
            r == self.spec_pos(),
    {
        self.pos
    }

    /// Move the parse position. Fails with `OutOfBounds`, and moves
    /// nothing, when `n` lies past the appended region; never grows.
    pub fn set_position(&mut self, n: usize) -> (r: Result<(), DataError>)
        requires
            old(self).wf(),
        ensures
            final(self).wf(),
            final(self)@ == old(self)@,
            final(self).spec_mode() == old(self).spec_mode(),
            match r {
                Ok(()) => n <= old(self)@.len() && final(self).spec_pos() == n,
                Err(e) => e == DataError::OutOfBounds && n > old(self)@.len() && final(self).spec_pos() == old(self).spec_pos(),
            },
    {
        if n > self.buff.len() {
            return Err(DataError::OutOfBounds);
        }
        self.pos = n;
        Ok(())
    }

    /// Discard the bytes past `n`, in place; a no-op when `n` is not
    /// below the append length. The parse position is clamped so it
    /// stays within the shortened region.
    pub fn truncate(&mut self, n: usize)
        requires
            old(self).wf(),
        ensures
            final(self).wf(),
            final(self).spec_mode() == old(self).spec_mode(),
            final(self)@ == if n <= old(self)@.len() {
                old(self)@.take(n as int)
            } else {
                old(self)@
            },
            final(self).spec_pos() == if old(self).spec_pos() <= final(self)@.len() {
                old(self).spec_pos()
            } else {
                final(self)@.len() as int
            },
    {
        self.buff.truncate(n);
        if self.pos > self.buff.len() {
            self.pos = self.buff.len();
        }
    }

    /// Zero both the append length and the parse position.
    pub fn reset(&mut self)
        ensures
            final(self)@ =~= Seq::<u8>::empty(),
            final(self).spec_pos() == 0,
            final(self).spec_mode() == old(self).spec_mode(),
            final(self).wf(),
    {
        self.buff.clear();
        self.pos = 0;
    }

    /// Zero both the append length and the parse position.
    pub fn clear(&mut self)
        ensures
            final(self)@ =~= Seq::<u8>::empty(),
            final(self).spec_pos() == 0,
            final(self).spec_mode() == old(self).spec_mode(),
            final(self).wf(),
    {
        self.reset()
    }
}

/// Rollback, stated once and for all: appending bytes and then
/// truncating back to the old length restores the old contents
/// exactly, as if nothing had been written.
pub proof fn lemma_write_truncate_rollback(prefix: Seq<u8>, appended: Seq<u8>)
    ensures
        (prefix + appended).take(prefix.len() as int) =~= prefix,
{
}

impl Data {
    /// Append the varint groups of `value`, least significant first.
    pub fn write_varint(&mut self, value: u64)
        requires
            old(self).wf(),
        ensures
            final(self).wf(),
            final(self)@ == old(self)@ + wire::varint_bytes(value),
            final(self).spec_pos() == old(self).spec_pos(),
            final(self).spec_mode() == old(self).spec_mode(),
    {
        let mut v: u64 = value;
        while v >= 128
            invariant
                old(self).wf(),
                self.wf(),
                old(self)@ + wire::varint_bytes(value) =~= self@ + wire::varint_bytes(v),
                self.spec_pos() == old(self).spec_pos(),
                self.spec_mode() == old(self).spec_mode(),
            decreases v,
        {
            let b: u8 = (v % 128 + 128) as u8;
            let ghost pre = self@;
            self.write_buf_byte(b);
            proof {
                assert(wire::varint_bytes(v) =~= seq![b] + wire::varint_bytes(v / 128));
                assert(pre + wire::varint_bytes(v) =~= (pre + seq![b]) + wire::varint_bytes(
                    v / 128,
                ));
            }
            v = v / 128;
        }
        let ghost pre = self@;
        self.write_buf_byte(v as u8);
        proof {
            assert(wire::varint_bytes(v) =~= seq![v as u8]);
            assert(pre + wire::varint_bytes(v) =~= pre + seq![v as u8]);
        }
    }

    /// Append one byte.
    pub fn write_buf_byte(&mut self, b: u8)
        requires
            old(self).wf(),
        ensures
            final(self).wf(),
            final(self)@ == old(self)@ + seq![b],
            final(self).spec_pos() == old(self).spec_pos(),
            final(self).spec_mode() == old(self).spec_mode(),
    {
        self.buff.push(b);
        proof {
            assert(self@ =~= old(self)@ + seq![b]);
        }
    }
}

/// The zig-zag transform, executable.
pub fn zigzag_encode64(v: i64) -> (r: u64)
    ensures
        r == wire::zigzag64(v),
{
    if v >= 0 {
        (v as u64) * 2
    } else {
        ((-(v + 1)) as u64) * 2 + 1
    }
}

/// The inverse zig-zag transform, executable.
pub fn zigzag_decode64(u: u64) -> (r: i64)
    ensures
        r == wire::unzigzag64(u),
{
    if u % 2 == 0 {
        (u / 2) as i64
    } else {
        -((u / 2) as i64) - 1
    }
}

impl WriteNumberFixed for u8 {
    open spec fn fixed_bytes(&self) -> Seq<u8> {
        seq![*self]
    }

    open spec fn fixed_wf(&self) -> bool {
        true
    }

    fn write(&self, data: &mut Data) {
        data.write_buf_byte(*self);
    }

    fn write_at(&self, idx: usize, data: &mut Data) -> (r: Result<(), DataError>) {
        let b: [u8; 1] = [*self];
        proof {
            assert(b@ =~= seq![*self]);
        }
        data.write_buf_at(idx, &b)
    }
}

impl WriteNumberFixed for i8 {
    open spec fn fixed_bytes(&self) -> Seq<u8> {
        seq![*self as u8]
    }

    open spec fn fixed_wf(&self) -> bool {
        true
    }

    fn write(&self, data: &mut Data) {
        data.write_buf_byte(*self as u8);
    }

    fn write_at(&self, idx: usize, data: &mut Data) -> (r: Result<(), DataError>) {
        let b: [u8; 1] = [*self as u8];
        proof {
            assert(b@ =~= seq![*self as u8]);
        }
        data.write_buf_at(idx, &b)
    }
}

impl WriteNumberFixed for bool {
    open spec fn fixed_bytes(&self) -> Seq<u8> {
        seq![
            if *self {
                1u8
            } else {
                0u8
            },
        ]
    }

    open spec fn fixed_wf(&self) -> bool {
        true
    }

    fn write(&self, data: &mut Data) {
        data.write_buf_byte(
            if *self {
                1u8
            } else {
                0u8
            },
        );
    }

    fn write_at(&self, idx: usize, data: &mut Data) -> (r: Result<(), DataError>) {
        let v: u8 = if *self {
            1u8
        } else {
            0u8
        };
        v.write_at(idx, data)
    }
}

impl WriteNumberFixed for u16 {
    open spec fn fixed_bytes(&self) -> Seq<u8> {
        vstd::bytes::spec_u16_to_le_bytes(*self)
    }

    open spec fn fixed_wf(&self) -> bool {
        true
    }

    fn write(&self, data: &mut Data) {
        let b = vstd::bytes::u16_to_le_bytes(*self);
        data.write_buf(b.as_slice());
    }

    fn write_at(&self, idx: usize, data: &mut Data) -> (r: Result<(), DataError>) {
        let b = vstd::bytes::u16_to_le_bytes(*self);
        data.write_buf_at(idx, b.as_slice())
    }
}

impl WriteNumberFixed for i16 {
    open spec fn fixed_bytes(&self) -> Seq<u8> {
        vstd::bytes::spec_u16_to_le_bytes(*self as u16)
    }

    open spec fn fixed_wf(&self) -> bool {
        true
    }

    fn write(&self, data: &mut Data) {
        let b = vstd::bytes::u16_to_le_bytes(#[verifier::truncate] (*self as u16));
        data.write_buf(b.as_slice());
    }

    fn write_at(&self, idx: usize, data: &mut Data) -> (r: Result<(), DataError>) {
        let b = vstd::bytes::u16_to_le_bytes(#[verifier::truncate] (*self as u16));
        data.write_buf_at(idx, b.as_slice())
    }
}

impl WriteNumberFixed for u32 {
    open spec fn fixed_bytes(&self) -> Seq<u8> {
        vstd::bytes::spec_u32_to_le_bytes(*self)
    }

    open spec fn fixed_wf(&self) -> bool {
        true
    }

    fn write(&self, data: &mut Data) {
        let b = vstd::bytes::u32_to_le_bytes(*self);
        data.write_buf(b.as_slice());
    }

    fn write_at(&self, idx: usize, data: &mut Data) -> (r: Result<(), DataError>) {
        let b = vstd::bytes::u32_to_le_bytes(*self);
        data.write_buf_at(idx, b.as_slice())
    }
}

impl WriteNumberFixed for i32 {
    open spec fn fixed_bytes(&self) -> Seq<u8> {
        vstd::bytes::spec_u32_to_le_bytes(*self as u32)
    }

    open spec fn fixed_wf(&self) -> bool {
        true
    }

    fn write(&self, data: &mut Data) {
        let b = vstd::bytes::u32_to_le_bytes(#[verifier::truncate] (*self as u32));
        data.write_buf(b.as_slice());
    }

    fn write_at(&self, idx: usize, data: &mut Data) -> (r: Result<(), DataError>) {
        let b = vstd::bytes::u32_to_le_bytes(#[verifier::truncate] (*self as u32));
        data.write_buf_at(idx, b.as_slice())
    }
}

impl WriteNumberFixed for u64 {
    open spec fn fixed_bytes(&self) -> Seq<u8> {
        vstd::bytes::spec_u64_to_le_bytes(*self)
    }

    open spec fn fixed_wf(&self) -> bool {
        true
    }

    fn write(&self, data: &mut Data) {
        let b = vstd::bytes::u64_to_le_bytes(*self);
        data.write_buf(b.as_slice());
    }

    fn write_at(&self, idx: usize, data: &mut Data) -> (r: Result<(), DataError>) {
        let b = vstd::bytes::u64_to_le_bytes(*self);
        data.write_buf_at(idx, b.as_slice())
    }
}

impl WriteNumberFixed for i64 {
    open spec fn fixed_bytes(&self) -> Seq<u8> {
        vstd::bytes::spec_u64_to_le_bytes(*self as u64)
    }

    open spec fn fixed_wf(&self) -> bool {
        true
    }

    fn write(&self, data: &mut Data) {
        let b = vstd::bytes::u64_to_le_bytes(#[verifier::truncate] (*self as u64));
        data.write_buf(b.as_slice());
    }

    fn write_at(&self, idx: usize, data: &mut Data) -> (r: Result<(), DataError>) {
        let b = vstd::bytes::u64_to_le_bytes(#[verifier::truncate] (*self as u64));
        data.write_buf_at(idx, b.as_slice())
    }
}

/// The framed encoding shared by strings and byte strings: a four-byte
/// little-endian length prefix, then the raw bytes.
pub open spec fn framed_fixed_bytes(bytes: Seq<u8>) -> Seq<u8> {
    vstd::bytes::spec_u32_to_le_bytes(bytes.len() as u32) + bytes
}

/// A framed body must announce its length in four bytes.
pub open spec fn framed_fixed_wf(bytes: Seq<u8>) -> bool {
    bytes.len() < 0x1_0000_0000
}

impl Data {
    /// Append a four-byte length prefix and the raw bytes.
    pub(crate) fn write_framed(&mut self, bytes: &[u8])
        requires
            old(self).wf(),
            framed_fixed_wf(bytes@),
        ensures
            final(self).wf(),
            final(self)@ == old(self)@ + framed_fixed_bytes(bytes@),
            final(self).spec_pos() == old(self).spec_pos(),
            final(self).spec_mode() == old(self).spec_mode(),
    {
        let len = bytes.len() as u32;
        let prefix = vstd::bytes::u32_to_le_bytes(len);
        let ghost pre = self@;
        self.write_buf(prefix.as_slice());
        self.write_buf(bytes);
        proof {
            assert(self@ =~= pre + framed_fixed_bytes(bytes@));
        }
    }

    /// Overwrite a four-byte length prefix and the raw bytes at `idx`.
    fn write_framed_at(&mut self, idx: usize, bytes: &[u8]) -> (r: Result<(), DataError>)
        requires
            old(self).wf(),
            framed_fixed_wf(bytes@),
        ensures
            final(self).wf(),
            final(self).spec_pos() == old(self).spec_pos(),
            final(self).spec_mode() == old(self).spec_mode(),
            final(self)@.len() == old(self)@.len(),
            match r {
                Ok(()) => idx + framed_fixed_bytes(bytes@).len() <= old(self)@.len() && final(self)@ == old(self)@.take(idx as int) + framed_fixed_bytes(bytes@) + old(self)@.skip(
                    idx + framed_fixed_bytes(bytes@).len(),
                ),
                Err(e) => e == DataError::OutOfBounds && idx + framed_fixed_bytes(bytes@).len()
                    > old(self)@.len() && final(self)@ == old(self)@,
            },
    {
        let len = bytes.len() as u32;
        let mut whole = vstd::bytes::u32_to_le_bytes(len);
        whole.extend_from_slice(bytes);
        proof {
            assert(whole@ =~= framed_fixed_bytes(bytes@));
        }
        self.write_buf_at(idx, whole.as_slice())
    }
}

impl WriteNumberFixed for str {
    open spec fn fixed_bytes(&self) -> Seq<u8> {
        framed_fixed_bytes(vstd::utf8::encode_utf8(self@))
    }

    open spec fn fixed_wf(&self) -> bool {
        framed_fixed_wf(vstd::utf8::encode_utf8(self@))
    }

    fn write(&self, data: &mut Data) {
        data.write_framed(self.as_bytes());
    }

    fn write_at(&self, idx: usize, data: &mut Data) -> (r: Result<(), DataError>) {
        data.write_framed_at(idx, self.as_bytes())
    }
}

impl WriteNumberFixed for String {
    open spec fn fixed_bytes(&self) -> Seq<u8> {
        framed_fixed_bytes(vstd::utf8::encode_utf8(self@))
    }

    open spec fn fixed_wf(&self) -> bool {
        framed_fixed_wf(vstd::utf8::encode_utf8(self@))
    }

    fn write(&self, data: &mut Data) {
        data.write_framed(self.as_str().as_bytes());
    }

    fn write_at(&self, idx: usize, data: &mut Data) -> (r: Result<(), DataError>) {
        data.write_framed_at(idx, self.as_str().as_bytes())
    }
}

impl WriteNumberFixed for [u8] {
    open spec fn fixed_bytes(&self) -> Seq<u8> {
        framed_fixed_bytes(self@)
    }

    open spec fn fixed_wf(&self) -> bool {
        framed_fixed_wf(self@)
    }

    fn write(&self, data: &mut Data) {
        data.write_framed(self);
    }

    fn write_at(&self, idx: usize, data: &mut Data) -> (r: Result<(), DataError>) {
        data.write_framed_at(idx, self)
    }
}

impl WriteNumberFixed for Vec<u8> {
    open spec fn fixed_bytes(&self) -> Seq<u8> {
        framed_fixed_bytes(self@)
    }

    open spec fn fixed_wf(&self) -> bool {
        framed_fixed_wf(self@)
    }

    fn write(&self, data: &mut Data) {
        data.write_framed(self.as_slice());
    }

    fn write_at(&self, idx: usize, data: &mut Data) -> (r: Result<(), DataError>) {
        data.write_framed_at(idx, self.as_slice())
    }
}

impl WriteNumberVar for u16 {
    open spec fn var_bytes(&self) -> Seq<u8> {
        wire::varint_bytes(*self as u64)
    }

    fn write(&self, data: &mut Data) {
        data.write_varint(*self as u64);
    }
}

impl WriteNumberVar for u32 {
    open spec fn var_bytes(&self) -> Seq<u8> {
        wire::varint_bytes(*self as u64)
    }

    fn write(&self, data: &mut Data) {
        data.write_varint(*self as u64);
    }
}

impl WriteNumberVar for u64 {
    open spec fn var_bytes(&self) -> Seq<u8> {
        wire::varint_bytes(*self)
    }

    fn write(&self, data: &mut Data) {
        data.write_varint(*self);
    }
}

impl WriteNumberVar for i16 {
    open spec fn var_bytes(&self) -> Seq<u8> {
        wire::varint_bytes(wire::zigzag64(*self as i64))
    }

    fn write(&self, data: &mut Data) {
        data.write_varint(zigzag_encode64(*self as i64));
    }
}

impl WriteNumberVar for i32 {
    open spec fn var_bytes(&self) -> Seq<u8> {
        wire::varint_bytes(wire::zigzag64(*self as i64))
    }

    fn write(&self, data: &mut Data) {
        data.write_varint(zigzag_encode64(*self as i64));
    }
}

impl WriteNumberVar for i64 {
    open spec fn var_bytes(&self) -> Seq<u8> {
        wire::varint_bytes(wire::zigzag64(*self))
    }

    fn write(&self, data: &mut Data) {
        data.write_varint(zigzag_encode64(*self));
    }
}

/// The framed encoding with a varint length prefix.
pub open spec fn framed_var_bytes(bytes: Seq<u8>) -> Seq<u8> {
    wire::varint_bytes(bytes.len() as u64) + bytes
}

impl Data {
    /// Append a varint length prefix and the raw bytes.
    pub(crate) fn write_framed_var(&mut self, bytes: &[u8])
        requires
            old(self).wf(),
        ensures
            final(self).wf(),
            final(self)@ == old(self)@ + framed_var_bytes(bytes@),
            final(self).spec_pos() == old(self).spec_pos(),
            final(self).spec_mode() == old(self).spec_mode(),
    {
        let len = bytes.len() as u64;
        let ghost pre = self@;
        self.write_varint(len);
        self.write_buf(bytes);
        proof {
            assert(self@ =~= pre + framed_var_bytes(bytes@));
        }
    }
}

impl WriteNumberVar for str {
    open spec fn var_bytes(&self) -> Seq<u8> {
        framed_var_bytes(vstd::utf8::encode_utf8(self@))
    }

    fn write(&self, data: &mut Data) {
        data.write_framed_var(self.as_bytes());
    }
}

impl WriteNumberVar for String {
    open spec fn var_bytes(&self) -> Seq<u8> {
        framed_var_bytes(vstd::utf8::encode_utf8(self@))
    }

    fn write(&self, data: &mut Data) {
        data.write_framed_var(self.as_str().as_bytes());
    }
}

impl WriteNumberVar for [u8] {
    open spec fn var_bytes(&self) -> Seq<u8> {
        framed_var_bytes(self@)
    }

    fn write(&self, data: &mut Data) {
        data.write_framed_var(self);
    }
}

impl WriteNumberVar for Vec<u8> {
    open spec fn var_bytes(&self) -> Seq<u8> {
        framed_var_bytes(self@)
    }

    fn write(&self, data: &mut Data) {
        data.write_framed_var(self.as_slice());
    }
}

} // verus!
