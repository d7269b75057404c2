//! The wire format, as mathematics: variable-length integers and the
//! zig-zag transform, with the laws they obey.

use vstd::prelude::*;

verus! {

/// Largest number of groups a `u64` varint may occupy.
pub const VARINT_MAX_GROUPS: usize = 10;

/// The varint encoding of `n`: seven payload bits per byte, high bit
/// set on every byte but the last, least-significant group first.
/// Minimal by construction: the last group is never a padding group.
pub open spec fn varint_bytes(n: u64) -> Seq<u8>
    decreases n,
{
    if n < 128 {
        seq![n as u8]
    } else {
        seq![(n % 128 + 128) as u8] + varint_bytes(n / 128)
    }
}

/// Parse a varint at the front of `bs`, allowing at most `depth`
/// groups; yields the value and the number of bytes consumed.
/// Rejects values that overflow 64 bits.
pub open spec fn varint_parse_at(bs: Seq<u8>, depth: nat) -> Option<(u64, nat)>
    decreases depth,
{
    if bs.len() == 0 || depth == 0 {
        None
    } else {
        let b = bs[0];
        if b < 128 {
            Some((b as u64, 1))
        } else {
            match varint_parse_at(bs.drop_first(), (depth - 1) as nat) {
                Some((m, k)) => if m <= (u64::MAX - (b - 128)) as u64 / 128 {
                    Some((((b - 128) + 128 * m) as u64, k + 1))
                } else {
                    None
                },
                None => None,
            }
        }
    }
}

/// Parse a varint at the front of `bs` with the group limit of `u64`.
pub open spec fn varint_parse(bs: Seq<u8>) -> Option<(u64, nat)> {
    varint_parse_at(bs, VARINT_MAX_GROUPS as nat)
}

/// Number of bytes of the varint encoding of `n`.
pub open spec fn varint_len(n: u64) -> nat {
    varint_bytes(n).len()
}

/// A varint encoding never exceeds the group limit.
pub proof fn lemma_varint_bytes_len(n: u64)
    ensures
        1 <= varint_bytes(n).len() <= VARINT_MAX_GROUPS,
{
    assert(spec_pow128(0) == 1);
    assert(spec_pow128(1) == 128 * spec_pow128(0));
    assert(spec_pow128(2) == 128 * spec_pow128(1));
    assert(spec_pow128(3) == 128 * spec_pow128(2));
    assert(spec_pow128(4) == 128 * spec_pow128(3));
    assert(spec_pow128(5) == 128 * spec_pow128(4));
    assert(spec_pow128(6) == 128 * spec_pow128(5));
    assert(spec_pow128(7) == 128 * spec_pow128(6));
    assert(spec_pow128(8) == 128 * spec_pow128(7));
    assert(spec_pow128(9) == 128 * spec_pow128(8));
    assert(spec_pow128(10) == 128 * spec_pow128(9));
    assert((n as nat) < spec_pow128(VARINT_MAX_GROUPS as nat));
    lemma_varint_bytes_len_bound(n, VARINT_MAX_GROUPS as nat);
}

/// A value below `2^32` fits in five varint groups.
pub proof fn lemma_varint_len_u32(n: u64)
    requires
        n < 0x1_0000_0000,
    ensures
        1 <= varint_len(n) <= 5,
{
    assert(spec_pow128(0) == 1);
    assert(spec_pow128(1) == 128 * spec_pow128(0));
    assert(spec_pow128(2) == 128 * spec_pow128(1));
    assert(spec_pow128(3) == 128 * spec_pow128(2));
    assert(spec_pow128(4) == 128 * spec_pow128(3));
    assert(spec_pow128(5) == 128 * spec_pow128(4));
    lemma_varint_bytes_len_bound(n, 5);
}

/// If `n < 128^k` then the encoding of `n` fits in `k` groups.
proof fn lemma_varint_bytes_len_bound(n: u64, k: nat)
    requires
        k >= 1,
        (n as nat) < spec_pow128(k),
    ensures
        1 <= varint_bytes(n).len() <= k,
    decreases k,
{
    if n >= 128 {
        assert(spec_pow128(k) == 128 * spec_pow128((k - 1) as nat));
        assert(((n / 128) as nat) < spec_pow128((k - 1) as nat)) by {
            vstd::arithmetic::div_mod::lemma_multiply_divide_lt(
                n as int,
                spec_pow128((k - 1) as nat) as int,
                128,
            );
        };
        lemma_varint_bytes_len_bound(n / 128, (k - 1) as nat);
    }
}

/// 128 raised to `e`.
pub open spec fn spec_pow128(e: nat) -> nat
    decreases e,
{
    if e == 0 {
        1
    } else {
        128 * spec_pow128((e - 1) as nat)
    }
}

/// The varint round trip: parsing the encoding of `n`, with anything
/// after it, yields `n` and consumes exactly the encoding.
pub proof fn lemma_varint_round_trip(n: u64, rest: Seq<u8>)
    ensures
        varint_parse(varint_bytes(n) + rest) == Some((n, varint_bytes(n).len())),
{
    lemma_varint_bytes_len(n);
    lemma_varint_round_trip_at(n, rest, VARINT_MAX_GROUPS as nat);
}

proof fn lemma_varint_round_trip_at(n: u64, rest: Seq<u8>, depth: nat)
    requires
        varint_bytes(n).len() <= depth,
    ensures
        varint_parse_at(varint_bytes(n) + rest, depth) == Some((n, varint_bytes(n).len())),
    decreases n,
{
    let bs = varint_bytes(n) + rest;
    if n < 128 {
        assert(bs[0] == n as u8);
    } else {
        assert(bs[0] == (n % 128 + 128) as u8);
        assert(bs.drop_first() =~= varint_bytes(n / 128) + rest);
        lemma_varint_round_trip_at(n / 128, rest, (depth - 1) as nat);
        assert(n % 128 + 128 * (n / 128) == n) by {
            vstd::arithmetic::div_mod::lemma_fundamental_div_mod(n as int, 128);
        };
    }
}

/// The encoder is minimal: any sequence of bytes that parses to `n`
/// is at least as long as the canonical encoding of `n`.
pub proof fn lemma_varint_minimal(bs: Seq<u8>, n: u64, k: nat)
    ensures
        varint_parse(bs) == Some((n, k)) ==> varint_len(n) <= k,
{
    lemma_varint_minimal_at(bs, n, k, VARINT_MAX_GROUPS as nat);
}

proof fn lemma_varint_minimal_at(bs: Seq<u8>, n: u64, k: nat, depth: nat)
    ensures
        varint_parse_at(bs, depth) == Some((n, k)) ==> varint_len(n) <= k,
    decreases depth,
{
    if bs.len() > 0 && depth > 0 {
        let b = bs[0];
        if b >= 128 {
            match varint_parse_at(bs.drop_first(), (depth - 1) as nat) {
                Some((m, k1)) => {
                    lemma_varint_minimal_at(bs.drop_first(), m, k1, (depth - 1) as nat);
                    if m <= (u64::MAX - (b - 128)) as u64 / 128 {
                        let v = ((b - 128) + 128 * m) as u64;
                        assert(v / 128 == m && v % 128 == b - 128) by {
                            vstd::arithmetic::div_mod::lemma_fundamental_div_mod_converse(
                                v as int,
                                128,
                                m as int,
                                (b - 128) as int,
                            );
                        };
                    }
                },
                None => {},
            }
        }
    }
}

/// Varint length is monotone in the value.
pub proof fn lemma_varint_len_monotone(a: u64, b: u64)
    requires
        a <= b,
    ensures
        varint_len(a) <= varint_len(b),
    decreases b,
{
    if b >= 128 {
        if a < 128 {
            lemma_varint_bytes_len(b);
        } else {
            lemma_varint_len_monotone(a / 128, b / 128);
        }
    }
}

/// The zig-zag transform of a signed 64-bit value: non-negative `v`
/// maps to `2v`, negative `v` to `2|v| - 1`, so small magnitudes stay
/// small.
pub open spec fn zigzag64(v: i64) -> u64 {
    if v >= 0 {
        (2 * (v as int)) as u64
    } else {
        (2 * -(v as int) - 1) as u64
    }
}

/// The inverse zig-zag transform.
pub open spec fn unzigzag64(u: u64) -> i64 {
    if u % 2 == 0 {
        (u / 2) as i64
    } else {
        (-((u / 2) as int) - 1) as i64
    }
}

/// Zig-zag is a bijection: decoding the encoding gives the value back.
pub proof fn lemma_zigzag_round_trip(v: i64)
    ensures
        unzigzag64(zigzag64(v)) == v,
{
}

/// The opposite composition is the identity as well.
pub proof fn lemma_unzigzag_round_trip(u: u64)
    ensures
        zigzag64(unzigzag64(u)) == u,
{
}

/// A strictly smaller magnitude never needs more varint bytes after
/// zig-zag. (With equal magnitudes the negative value can be one byte
/// shorter: `64` maps to `128`, two groups, while `-64` maps to `127`,
/// one group.)
pub proof fn lemma_zigzag_len_monotone(a: i64, b: i64)
    requires
        abs64(a) < abs64(b),
    ensures
        varint_len(zigzag64(a)) <= varint_len(zigzag64(b)),
{
    lemma_varint_len_monotone(zigzag64(a), zigzag64(b));
}

/// Dropping `a` bytes and then `b` more is dropping `a + b` at once.
pub proof fn lemma_skip_of_skip(s: Seq<u8>, a: int, b: int)
    requires
        0 <= a,
        0 <= b,
        a + b <= s.len(),
    ensures
        s.skip(a).skip(b) =~= s.skip(a + b),
{
}

/// The absolute value of a signed 64-bit integer, as an unbounded int.
pub open spec fn abs64(v: i64) -> int {
    if v >= 0 {
        v as int
    } else {
        -(v as int)
    }
}

} // verus!
