//! Unsigned variable-length integers: little-endian base-128 with the high
//! bit of each byte as the continuation flag.
//!
//! `varint_bytes` is the mathematical encoder; `parse_varint` the
//! mathematical decoder. The decoder accumulates 7-bit groups, shifting by
//! 7 per byte, and fails once the shift reaches 64 bits.

use vstd::prelude::*;

verus! {

/// Outcome of decoding a varint from a byte sequence.
pub enum VarintParse {
    /// The decoded value, and the index just past its final byte.
    Found(u64, int),
    /// The bytes ran out before a byte with a clear high bit.
    Short,
    /// The accumulated shift reached 64 bits.
    Overflow,
}

/// The canonical encoding of `n`: 7-bit groups from least to most
/// significant, every byte but the last with its high bit set.
pub open spec fn varint_bytes(n: u64) -> Seq<u8>
    decreases n,
        via varint_bytes_decreases
{
    if n < 128 {
        seq![n as u8]
    } else {
        seq![((n & 0x7f) | 0x80) as u8] + varint_bytes(n >> 7)
    }
}

#[via_fn]
proof fn varint_bytes_decreases(n: u64) {
    assert(n >= 128 ==> (n >> 7) < n) by (bit_vector);
}

/// Decoding from position `i` of `s`, with `shift` bits already consumed
/// into the accumulator `acc`.
pub open spec fn parse_varint_at(s: Seq<u8>, i: int, shift: u64, acc: u64) -> VarintParse
    decreases s.len() - i,
{
    if i < 0 || i >= s.len() {
        VarintParse::Short
    } else if shift >= 64 {
        VarintParse::Overflow
    } else {
        let b = s[i];
        let acc2 = acc | (((b & 0x7f) as u64) << shift);
        if b & 0x80 == 0 {
            VarintParse::Found(acc2, i + 1)
        } else {
            parse_varint_at(s, i + 1, (shift + 7) as u64, acc2)
        }
    }
}

/// Decoding a whole varint starting at position `i` of `s`.
pub open spec fn parse_varint(s: Seq<u8>, i: int) -> VarintParse {
    parse_varint_at(s, i, 0, 0)
}

/// A byte with its high bit set marks a continuation.
proof fn lemma_continuation_bit()
    by (bit_vector)
    ensures
        forall|b: u8| b >= 0x80 ==> #[trigger] (b & 0x80) != 0,
{
}

/// Ten continuation bytes in a row push the shift to 70 bits, so the
/// eleventh byte read finds it at or past 64 and decoding fails.
pub proof fn lemma_varint_overflow(s: Seq<u8>, i: int)
    requires
        0 <= i,
        i + 10 < s.len(),
        forall|k: int| i <= k < i + 10 ==> s[k] >= 0x80,
    ensures
        parse_varint(s, i) == VarintParse::Overflow,
{
    lemma_continuation_bit();
    reveal_with_fuel(parse_varint_at, 12);
}

/// Decoding the canonical encoding of `n`, embedded in a larger sequence,
/// yields `n` shifted into place, and consumes exactly its bytes.
proof fn lemma_parse_varint_bytes_at(s: Seq<u8>, i: int, shift: u64, acc: u64, n: u64)
    requires
        0 <= i,
        i + varint_bytes(n).len() <= s.len(),
        s.subrange(i, i + varint_bytes(n).len() as int) == varint_bytes(n),
        shift < 64,
        (n << shift) >> shift == n,
        acc >> shift == 0,
    ensures
        parse_varint_at(s, i, shift, acc) == VarintParse::Found(
            acc | (n << shift),
            i + varint_bytes(n).len() as int,
        ),
    decreases n,
{
    let bs = varint_bytes(n);
    let b = s[i];
    assert(b == bs[0]);
    if n < 128 {
        assert(bs == seq![n as u8]);
        assert(b == n as u8);
        assert((n as u8) & 0x80 == 0 && (((n as u8) & 0x7f) as u64) == n) by (bit_vector)
            requires
                n < 128,
        ;
    } else {
        assert(bs == seq![((n & 0x7f) | 0x80) as u8] + varint_bytes(n >> 7));
        assert(b == ((n & 0x7f) | 0x80) as u8);
        let m = n >> 7;
        let acc2 = acc | (((b & 0x7f) as u64) << shift);
        assert(b & 0x80 != 0 && ((b & 0x7f) as u64) == (n & 0x7f)) by (bit_vector)
            requires
                b == ((n & 0x7f) | 0x80) as u8,
                n >= 128,
        ;
        // The next seven bits belong to `m`; check the helper's premises.
        assert(shift + 7 < 64 && (m << ((shift + 7) as u64)) >> ((shift + 7) as u64) == m
            && acc2 >> ((shift + 7) as u64) == 0) by (bit_vector)
            requires
                shift < 64,
                (n << shift) >> shift == n,
                acc >> shift == 0,
                n >= 128,
                m == n >> 7,
                acc2 == acc | (((n & 0x7f) as u64) << shift),
        ;
        assert(s.subrange(i + 1, i + 1 + varint_bytes(m).len() as int) =~= varint_bytes(m)) by {
            assert(forall|k: int| 0 <= k < varint_bytes(m).len()
                ==> s.subrange(i, i + bs.len() as int)[k + 1] == #[trigger] varint_bytes(m)[k]);
        }
        assert(m < n) by (bit_vector)
            requires
                n >= 128,
                m == n >> 7,
        ;
        lemma_parse_varint_bytes_at(s, i + 1, (shift + 7) as u64, acc2, m);
        assert((acc2 | (m << ((shift + 7) as u64))) == (acc | (n << shift))) by (bit_vector)
            requires
                shift < 64,
                (n << shift) >> shift == n,
                acc >> shift == 0,
                n >= 128,
                m == n >> 7,
                acc2 == acc | (((n & 0x7f) as u64) << shift),
        ;
    }
}

/// The canonical encoding of `n`, embedded at position `i` of a larger
/// sequence, decodes to `n` and consumes exactly its bytes.
pub proof fn lemma_parse_varint_embed(s: Seq<u8>, i: int, n: u64)
    requires
        0 <= i,
        i + varint_bytes(n).len() <= s.len(),
        s.subrange(i, i + varint_bytes(n).len() as int) == varint_bytes(n),
    ensures
        parse_varint(s, i) == VarintParse::Found(n, i + varint_bytes(n).len() as int),
{
    assert((n << 0u64) >> 0u64 == n && 0u64 >> 0u64 == 0 && 0u64 | (n << 0u64) == n)
        by (bit_vector);
    lemma_parse_varint_bytes_at(s, i, 0, 0, n);
}

/// Round trip: decoding the canonical encoding of any `n` yields `n` and
/// consumes exactly the encoded bytes.
pub proof fn lemma_varint_round_trip(n: u64)
    ensures
        parse_varint(varint_bytes(n), 0) == VarintParse::Found(
            n,
            varint_bytes(n).len() as int,
        ),
{
    let bs = varint_bytes(n);
    assert(bs.subrange(0, bs.len() as int) =~= bs);
    lemma_parse_varint_embed(bs, 0, n);
}

} // verus!
