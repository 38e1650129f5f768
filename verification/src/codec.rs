//! Byte-level framing: a writer that appends frames to a growable buffer
//! and a reader that consumes them from a byte slice.
//!
//! Every variable-length field on the wire is either a varint, a
//! length-prefixed byte string (`varint(len) || bytes`), or length-prefixed
//! UTF-8 text (the same, validated on read). The only fixed-width fields
//! are single bytes, raw byte runs of a known length, and big-endian
//! 32- and 64-bit integers.

use vstd::prelude::*;
use vstd::slice::{slice_index_get, slice_subrange, slice_to_vec};
use vstd::utf8::{decode_utf8, encode_utf8, valid_utf8};
use vstd::string::StringSliceAdditionalSpecFns;
use crate::Error;
use crate::varint::{VarintParse, parse_varint, parse_varint_at, varint_bytes};

verus! {

/// Outcome of decoding one field from a byte sequence: the decoded value
/// with the index just past it, or the error the reader reports.
#[verifier::ext_equal]
pub enum Decoded<T> {
    Found(T, int),
    Fail(Error),
}

// ---------------------------------------------------------------------
// Specification-level encoders and decoders.
// ---------------------------------------------------------------------

/// A length-prefixed byte string: `varint(len) || bytes`.
pub open spec fn bytes_frame(b: Seq<u8>) -> Seq<u8>
    recommends
        b.len() <= u64::MAX,
{
    varint_bytes(b.len() as u64) + b
}

/// Length-prefixed UTF-8 text: the framed bytes of the text's encoding.
pub open spec fn string_frame(t: Seq<char>) -> Seq<u8> {
    bytes_frame(encode_utf8(t))
}

/// Big-endian bytes of a 64-bit value.
pub open spec fn u64_be_bytes(x: u64) -> Seq<u8> {
    seq![
        (x >> 56) as u8,
        (x >> 48) as u8,
        (x >> 40) as u8,
        (x >> 32) as u8,
        (x >> 24) as u8,
        (x >> 16) as u8,
        (x >> 8) as u8,
        x as u8,
    ]
}

/// Big-endian bytes of a signed 32-bit value (two's complement).
pub open spec fn i32_be_bytes(x: i32) -> Seq<u8> {
    seq![
        ((x as u32) >> 24) as u8,
        ((x as u32) >> 16) as u8,
        ((x as u32) >> 8) as u8,
        (x as u32) as u8,
    ]
}

/// One byte.
pub open spec fn parse_u8(s: Seq<u8>, i: int) -> Decoded<u8> {
    if 0 <= i < s.len() {
        Decoded::Found(s[i], i + 1)
    } else {
        Decoded::Fail(Error::Eof)
    }
}

/// A raw run of exactly `n` bytes.
pub open spec fn parse_exact(s: Seq<u8>, i: int, n: int) -> Decoded<Seq<u8>> {
    if 0 <= i && 0 <= n && i + n <= s.len() {
        Decoded::Found(s.subrange(i, i + n), i + n)
    } else {
        Decoded::Fail(Error::Eof)
    }
}

/// A varint, with the reader's error mapping: missing bytes are `Eof`,
/// a shift past 64 bits is `Varint`.
pub open spec fn parse_len(s: Seq<u8>, i: int) -> Decoded<u64> {
    match parse_varint(s, i) {
        VarintParse::Found(v, j) => Decoded::Found(v, j),
        VarintParse::Short => Decoded::Fail(Error::Eof),
        VarintParse::Overflow => Decoded::Fail(Error::Varint),
    }
}

/// A length-prefixed byte string.
pub open spec fn parse_lp_bytes(s: Seq<u8>, i: int) -> Decoded<Seq<u8>> {
    match parse_len(s, i) {
        Decoded::Found(n, j) => parse_exact(s, j, n as int),
        Decoded::Fail(e) => Decoded::Fail(e),
    }
}

/// Length-prefixed text: a byte string whose payload must be valid UTF-8.
pub open spec fn parse_lp_string(s: Seq<u8>, i: int) -> Decoded<Seq<char>> {
    match parse_lp_bytes(s, i) {
        Decoded::Found(b, j) => if valid_utf8(b) {
            Decoded::Found(decode_utf8(b), j)
        } else {
            Decoded::Fail(Error::Utf8)
        },
        Decoded::Fail(e) => Decoded::Fail(e),
    }
}

/// A big-endian 64-bit value.
pub open spec fn parse_u64_be(s: Seq<u8>, i: int) -> Decoded<u64> {
    if 0 <= i && i + 8 <= s.len() {
        Decoded::Found(
            ((s[i] as u64) << 56) | ((s[i + 1] as u64) << 48) | ((s[i + 2] as u64) << 40)
                | ((s[i + 3] as u64) << 32) | ((s[i + 4] as u64) << 24) | ((s[i + 5] as u64) << 16)
                | ((s[i + 6] as u64) << 8) | (s[i + 7] as u64),
            i + 8,
        )
    } else {
        Decoded::Fail(Error::Eof)
    }
}

/// A big-endian signed 32-bit value.
pub open spec fn parse_i32_be(s: Seq<u8>, i: int) -> Decoded<i32> {
    if 0 <= i && i + 4 <= s.len() {
        Decoded::Found(
            (((s[i] as u32) << 24) | ((s[i + 1] as u32) << 16) | ((s[i + 2] as u32) << 8) | (s[i
                + 3] as u32)) as i32,
            i + 4,
        )
    } else {
        Decoded::Fail(Error::Eof)
    }
}

// ---------------------------------------------------------------------
// Round-trip lemmas.
// ---------------------------------------------------------------------

/// A varint embedded at position `i` decodes to what was encoded.
pub proof fn lemma_parse_len_embed(s: Seq<u8>, i: int, n: u64)
    requires
        0 <= i,
        i + varint_bytes(n).len() <= s.len(),
        s.subrange(i, i + varint_bytes(n).len() as int) == varint_bytes(n),
    ensures
        parse_len(s, i) == Decoded::<u64>::Found(n, i + varint_bytes(n).len() as int),
{
    crate::varint::lemma_parse_varint_embed(s, i, n);
}

/// A length-prefixed byte string embedded at position `i` decodes to the
/// bytes that were framed.
pub proof fn lemma_parse_lp_bytes_embed(s: Seq<u8>, i: int, b: Seq<u8>)
    requires
        0 <= i,
        b.len() <= u64::MAX,
        i + bytes_frame(b).len() <= s.len(),
        s.subrange(i, i + bytes_frame(b).len() as int) == bytes_frame(b),
    ensures
        parse_lp_bytes(s, i) =~= Decoded::<Seq<u8>>::Found(b, i + bytes_frame(b).len() as int),
{
    let lenb = varint_bytes(b.len() as u64);
    assert(s.subrange(i, i + lenb.len() as int) =~= lenb) by {
        assert(forall|k: int| 0 <= k < lenb.len()
            ==> s.subrange(i, i + bytes_frame(b).len() as int)[k] == #[trigger] lenb[k]);
    }
    lemma_parse_len_embed(s, i, b.len() as u64);
    let j = i + lenb.len() as int;
    assert(s.subrange(j, j + b.len() as int) =~= b) by {
        assert(forall|k: int| 0 <= k < b.len()
            ==> s.subrange(i, i + bytes_frame(b).len() as int)[lenb.len() + k] == #[trigger] b[k]);
    }
}

/// Byte-string round trip: reading a written byte string gives it back.
pub proof fn lemma_bytes_frame_round_trip(b: Seq<u8>)
    requires
        b.len() <= u64::MAX,
    ensures
        parse_lp_bytes(bytes_frame(b), 0) =~= Decoded::<Seq<u8>>::Found(
            b,
            bytes_frame(b).len() as int,
        ),
{
    let s = bytes_frame(b);
    assert(s.subrange(0, s.len() as int) =~= s);
    lemma_parse_lp_bytes_embed(s, 0, b);
}

/// Length-prefixed text embedded at position `i` decodes to the text that
/// was encoded.
pub proof fn lemma_parse_lp_string_embed(s: Seq<u8>, i: int, t: Seq<char>)
    requires
        0 <= i,
        encode_utf8(t).len() <= u64::MAX,
        i + bytes_frame(encode_utf8(t)).len() <= s.len(),
        s.subrange(i, i + bytes_frame(encode_utf8(t)).len() as int) == bytes_frame(encode_utf8(t)),
    ensures
        parse_lp_string(s, i) =~= Decoded::<Seq<char>>::Found(
            t,
            i + bytes_frame(encode_utf8(t)).len() as int,
        ),
{
    broadcast use vstd::utf8::encode_utf8_valid_utf8, vstd::utf8::encode_utf8_decode_utf8;

    lemma_parse_lp_bytes_embed(s, i, encode_utf8(t));
}

/// A big-endian 64-bit value embedded at position `i` decodes to what was
/// encoded.
pub proof fn lemma_parse_u64_be_embed(s: Seq<u8>, i: int, x: u64)
    requires
        0 <= i,
        i + 8 <= s.len(),
        s.subrange(i, i + 8) == u64_be_bytes(x),
    ensures
        parse_u64_be(s, i) == Decoded::<u64>::Found(x, i + 8),
{
    assert(forall|k: int| 0 <= k < 8 ==> s[i + k] == #[trigger] u64_be_bytes(x)[k]);
    assert((((x >> 56) as u8 as u64) << 56) | (((x >> 48) as u8 as u64) << 48) | (((x
        >> 40) as u8 as u64) << 40) | (((x >> 32) as u8 as u64) << 32) | (((x
        >> 24) as u8 as u64) << 24) | (((x >> 16) as u8 as u64) << 16) | (((x >> 8) as u8 as u64)
        << 8) | (x as u8 as u64) == x) by (bit_vector);
}

/// A big-endian signed 32-bit value embedded at position `i` decodes to
/// what was encoded.
pub proof fn lemma_parse_i32_be_embed(s: Seq<u8>, i: int, x: i32)
    requires
        0 <= i,
        i + 4 <= s.len(),
        s.subrange(i, i + 4) == i32_be_bytes(x),
    ensures
        parse_i32_be(s, i) == Decoded::<i32>::Found(x, i + 4),
{
    assert(forall|k: int| 0 <= k < 4 ==> s[i + k] == #[trigger] i32_be_bytes(x)[k]);
    let u = x as u32;
    assert(((((u >> 24) as u8 as u32) << 24) | (((u >> 16) as u8 as u32) << 16) | (((u
        >> 8) as u8 as u32) << 8) | (u as u8 as u32)) as i32 == x) by (bit_vector)
        requires
            u == x as u32,
    ;
}

// ---------------------------------------------------------------------
// The executable writer.
// ---------------------------------------------------------------------

/// Appends frames to a growable byte buffer.
pub struct FrameWriter {
    pub buf: Vec<u8>,
}

impl FrameWriter {
    /// An empty buffer.
    pub fn new() -> (w: FrameWriter)
        ensures
            w.buf@ == Seq::<u8>::empty(),
    {
        FrameWriter { buf: Vec::new() }
    }

    /// Append one byte.
    pub fn write_u8(&mut self, b: u8)
        ensures
            final(self).buf@ == old(self).buf@ + seq![b],
    {
        self.buf.push(b);
    }

    /// Append a raw run of bytes, with no length prefix.
    pub fn write_all(&mut self, bytes: &[u8])
        ensures
            final(self).buf@ == old(self).buf@ + bytes@,
    {
        self.buf.extend_from_slice(bytes);
    }

    /// Append a length as a varint.
    pub fn write_len(&mut self, len: u64)
        ensures
            final(self).buf@ == old(self).buf@ + varint_bytes(len),
    {
        let ghost start = self.buf@;
        let mut n: u64 = len;
        while n >= 0x80
            invariant
                start + varint_bytes(len) == self.buf@ + varint_bytes(n),
            decreases n,
        {
            self.buf.push(((n & 0x7F) as u8) | 0x80);
            proof {
                assert((n >> 7) < n && ((n & 0x7F) as u8) | 0x80 == ((n & 0x7f) | 0x80) as u8)
                    by (bit_vector)
                    requires
                        n >= 0x80,
                ;
                assert(varint_bytes(n) == seq![((n & 0x7f) | 0x80) as u8] + varint_bytes(n >> 7));
            }
            n = n >> 7;
        }
        self.buf.push(n as u8);
        proof {
            assert(varint_bytes(n) == seq![n as u8]);
            assert(self.buf@ =~= start + varint_bytes(len));
        }
    }

    /// Append a length-prefixed byte string.
    pub fn write_bytes(&mut self, bytes: &[u8])
        ensures
            final(self).buf@ == old(self).buf@ + bytes_frame(bytes@),
    {
        let n = bytes.len();
        self.write_len(n as u64);
        self.write_all(bytes);
        proof {
            assert(self.buf@ =~= old(self).buf@ + bytes_frame(bytes@));
        }
    }

    /// Append length-prefixed text: the UTF-8 bytes of `val` behind a
    /// varint length.
    pub fn write_string(&mut self, val: &str)
        ensures
            final(self).buf@ == old(self).buf@ + bytes_frame(encode_utf8(val@)),
    {
        self.write_bytes(val.as_bytes());
    }

    /// Append a 64-bit value in big-endian order.
    pub fn write_u64_be(&mut self, x: u64)
        ensures
            final(self).buf@ == old(self).buf@ + u64_be_bytes(x),
    {
        self.buf.push((x >> 56) as u8);
        self.buf.push((x >> 48) as u8);
        self.buf.push((x >> 40) as u8);
        self.buf.push((x >> 32) as u8);
        self.buf.push((x >> 24) as u8);
        self.buf.push((x >> 16) as u8);
        self.buf.push((x >> 8) as u8);
        self.buf.push(x as u8);
        proof {
            assert(self.buf@ =~= old(self).buf@ + u64_be_bytes(x));
        }
    }

    /// Append a signed 32-bit value in big-endian order.
    pub fn write_i32(&mut self, x: i32)
        ensures
            final(self).buf@ == old(self).buf@ + i32_be_bytes(x),
    {
        let u = x as u32;
        self.buf.push((u >> 24) as u8);
        self.buf.push((u >> 16) as u8);
        self.buf.push((u >> 8) as u8);
        self.buf.push(u as u8);
        proof {
            assert(self.buf@ =~= old(self).buf@ + i32_be_bytes(x));
        }
    }
}

// ---------------------------------------------------------------------
// The executable reader.
// ---------------------------------------------------------------------

/// Consumes frames from a byte slice, left to right. Decoding errors are
/// fatal: after an `Err` the position is unspecified and the caller is
/// expected to drop the reader.
pub struct FrameReader<'a> {
    pub data: &'a [u8],
    pub pos: usize,
}

impl<'a> FrameReader<'a> {
    /// The position lies inside the buffer.
    pub open spec fn wf(self) -> bool {
        self.pos <= self.data@.len()
    }

    /// A reader at the start of `data`.
    pub fn new(data: &'a [u8]) -> (r: FrameReader<'a>)
        ensures
            r.data@ == data@,
            r.pos == 0,
            r.wf(),
    {
        FrameReader { data, pos: 0 }
    }

    /// Read one byte.
    pub fn read_u8(&mut self) -> (r: Result<u8, Error>)
        requires
            old(self).wf(),
        ensures
            final(self).wf(),
            final(self).data@ == old(self).data@,
            match parse_u8(old(self).data@, old(self).pos as int) {
                Decoded::Found(v, j) => r == Ok::<u8, Error>(v) && final(self).pos == j,
                Decoded::Fail(e) => r == Err::<u8, Error>(e),
            },
    {
        if self.pos < self.data.len() {
            let b = *slice_index_get(self.data, self.pos);
            self.pos = self.pos + 1;
            Ok(b)
        } else {
            Err(Error::Eof)
        }
    }

    /// Read a raw run of exactly `n` bytes.
    pub fn read_exact(&mut self, n: usize) -> (r: Result<Vec<u8>, Error>)
        requires
            old(self).wf(),
        ensures
            final(self).wf(),
            final(self).data@ == old(self).data@,
            match parse_exact(old(self).data@, old(self).pos as int, n as int) {
                Decoded::Found(v, j) => r matches Ok(out) && out@ == v && final(self).pos == j,
                Decoded::Fail(e) => r == Err::<Vec<u8>, Error>(e),
            },
    {
        if n <= self.data.len() - self.pos {
            let out = slice_to_vec(slice_subrange(self.data, self.pos, self.pos + n));
            self.pos = self.pos + n;
            Ok(out)
        } else {
            Err(Error::Eof)
        }
    }

    /// Read a varint length.
    pub fn read_len(&mut self) -> (r: Result<u64, Error>)
        requires
            old(self).wf(),
        ensures
            final(self).wf(),
            final(self).data@ == old(self).data@,
            match parse_len(old(self).data@, old(self).pos as int) {
                Decoded::Found(v, j) => r == Ok::<u64, Error>(v) && final(self).pos == j,
                Decoded::Fail(e) => r == Err::<u64, Error>(e),
            },
    {
        let ghost s = self.data@;
        let ghost start = self.pos as int;
        let mut acc: u64 = 0;
        let mut shift: u64 = 0;
        loop
            invariant
                self.wf(),
                self.data@ == s,
                s == old(self).data@,
                start == old(self).pos as int,
                parse_varint_at(s, start, 0, 0) == parse_varint_at(
                    s,
                    self.pos as int,
                    shift,
                    acc,
                ),
            decreases s.len() - self.pos,
        {
            if self.pos >= self.data.len() {
                return Err(Error::Eof);
            }
            let b = *slice_index_get(self.data, self.pos);
            self.pos = self.pos + 1;
            if shift >= 64 {
                return Err(Error::Varint);
            }
            let group = ((b & 0x7F) as u64) << shift;
            acc = acc | group;
            if b & 0x80 == 0 {
                return Ok(acc);
            }
            shift = shift + 7;
        }
    }

    /// Read a length-prefixed byte string.
    pub fn read_bytes(&mut self) -> (r: Result<Vec<u8>, Error>)
        requires
            old(self).wf(),
        ensures
            final(self).wf(),
            final(self).data@ == old(self).data@,
            match parse_lp_bytes(old(self).data@, old(self).pos as int) {
                Decoded::Found(v, j) => r matches Ok(out) && out@ == v && final(self).pos == j,
                Decoded::Fail(e) => r == Err::<Vec<u8>, Error>(e),
            },
    {
        let len = self.read_len()?;
        let total = self.data.len();
        if len > usize::MAX as u64 {
            // The buffer itself cannot hold that many bytes.
            assert(len as int > total as int);
            return Err(Error::Eof);
        }
        self.read_exact(len as usize)
    }

    /// Read length-prefixed text, rejecting payloads that are not valid
    /// UTF-8.
    pub fn read_string(&mut self) -> (r: Result<String, Error>)
        requires
            old(self).wf(),
        ensures
            final(self).wf(),
            final(self).data@ == old(self).data@,
            match parse_lp_string(old(self).data@, old(self).pos as int) {
                Decoded::Found(v, j) => r matches Ok(out) && out@ == v && final(self).pos == j,
                Decoded::Fail(e) => r == Err::<String, Error>(e),
            },
    {
        let bytes = self.read_bytes()?;
        string_from_utf8(bytes)
    }

    /// Read a big-endian 64-bit value.
    pub fn read_u64_be(&mut self) -> (r: Result<u64, Error>)
        requires
            old(self).wf(),
        ensures
            final(self).wf(),
            final(self).data@ == old(self).data@,
            match parse_u64_be(old(self).data@, old(self).pos as int) {
                Decoded::Found(v, j) => r == Ok::<u64, Error>(v) && final(self).pos == j,
                Decoded::Fail(e) => r == Err::<u64, Error>(e),
            },
    {
        let b0 = self.read_u8()?;
        let b1 = self.read_u8()?;
        let b2 = self.read_u8()?;
        let b3 = self.read_u8()?;
        let b4 = self.read_u8()?;
        let b5 = self.read_u8()?;
        let b6 = self.read_u8()?;
        let b7 = self.read_u8()?;
        Ok(
            ((b0 as u64) << 56) | ((b1 as u64) << 48) | ((b2 as u64) << 40) | ((b3 as u64) << 32)
                | ((b4 as u64) << 24) | ((b5 as u64) << 16) | ((b6 as u64) << 8) | (b7 as u64),
        )
    }

    /// Read a big-endian signed 32-bit value.
    pub fn read_i32(&mut self) -> (r: Result<i32, Error>)
        requires
            old(self).wf(),
        ensures
            final(self).wf(),
            final(self).data@ == old(self).data@,
            match parse_i32_be(old(self).data@, old(self).pos as int) {
                Decoded::Found(v, j) => r == Ok::<i32, Error>(v) && final(self).pos == j,
                Decoded::Fail(e) => r == Err::<i32, Error>(e),
            },
    {
        let b0 = self.read_u8()?;
        let b1 = self.read_u8()?;
        let b2 = self.read_u8()?;
        let b3 = self.read_u8()?;
        Ok(
            (((b0 as u32) << 24) | ((b1 as u32) << 16) | ((b2 as u32) << 8) | (b3 as u32)) as i32,
        )
    }
}

/// Relies on `String::from_utf8`: it succeeds exactly on valid UTF-8
/// input and returns the string those bytes spell.
#[verifier::external_body]
fn string_from_utf8(bytes: Vec<u8>) -> (r: Result<String, Error>)
    ensures
        r is Ok <==> valid_utf8(bytes@),
        r matches Ok(s) ==> s@ == decode_utf8(bytes@),
        r matches Err(e) ==> e == Error::Utf8,
{
    match String::from_utf8(bytes) {
        Ok(s) => Ok(s),
        Err(_) => Err(Error::Utf8),
    }
}

} // verus!
