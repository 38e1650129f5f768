//! Typed column values on the wire: a tag byte followed by a payload.
//!
//! Tags: 0 null, 1 non-negative integer (varint), 2 negative integer
//! (varint of the zig-zag encoding), 3 a 64-bit float carried as its raw
//! big-endian IEEE-754 bits, 4/5 empty/non-empty byte strings, 6/7
//! empty/non-empty text. Writers use tag 1 for every non-negative integer
//! and the compact empty tags; readers accept tag 2 for any integer.
//! Text payloads are carried opaquely, without UTF-8 validation.

use vstd::prelude::*;
use crate::Error;
use crate::codec::{
    Decoded, FrameReader, FrameWriter, bytes_frame, lemma_parse_len_embed,
    lemma_parse_lp_bytes_embed, lemma_parse_u64_be_embed, parse_len, parse_lp_bytes, parse_u64_be,
    parse_u8, u64_be_bytes,
};
use crate::varint::varint_bytes;

verus! {

/// Zig-zag encoding: maps small-magnitude signed values to small
/// unsigned values.
pub open spec fn zigzag_encode_spec(v: i64) -> u64 {
    ((v << 1) ^ (v >> 63)) as u64
}

/// Zig-zag decoding, the inverse of `zigzag_encode_spec`.
pub open spec fn zigzag_decode_spec(e: u64) -> i64 {
    ((e >> 1) as i64) ^ (if e & 1 == 1 { -1i64 } else { 0i64 })
}

/// Encode a signed 64-bit value for the tag-2 wire form.
pub fn zigzag_encode(v: i64) -> (e: u64)
    ensures
        e == zigzag_encode_spec(v),
{
    ((v << 1u64) ^ (v >> 63u64)) as u64
}

/// Decode the tag-2 wire form back to a signed 64-bit value.
pub fn zigzag_decode(e: u64) -> (v: i64)
    ensures
        v == zigzag_decode_spec(e),
{
    proof {
        assert(e & 1 == 0 || e & 1 == 1) by (bit_vector);
    }
    let sign: i64 = -((e & 1) as i64);
    ((e >> 1u64) as i64) ^ sign
}

/// Zig-zag round trip: decoding an encoding returns the original value,
/// for every signed 64-bit value including the minimum.
pub proof fn lemma_zigzag_round_trip(v: i64)
    ensures
        zigzag_decode_spec(zigzag_encode_spec(v)) == v,
{
    let e = zigzag_encode_spec(v);
    assert(((e >> 1) as i64) ^ (if e & 1 == 1 { -1i64 } else { 0i64 }) == v) by (bit_vector)
        requires
            e == ((v << 1) ^ (v >> 63)) as u64,
    ;
}

/// A typed column value. Floats are carried as their raw IEEE-754 bits:
/// the codec never interprets them, only moves them across the wire.
pub enum Value {
    Null,
    I64(i64),
    F64(u64),
    Bytes(Vec<u8>),
    Text(Vec<u8>),
}

/// The mathematical shape of a `Value`.
#[verifier::ext_equal]
pub enum ValueV {
    Null,
    I64(i64),
    F64(u64),
    Bytes(Seq<u8>),
    Text(Seq<u8>),
}

impl View for Value {
    type V = ValueV;

    open spec fn view(&self) -> ValueV {
        match self {
            Value::Null => ValueV::Null,
            Value::I64(x) => ValueV::I64(*x),
            Value::F64(bits) => ValueV::F64(*bits),
            Value::Bytes(b) => ValueV::Bytes(b@),
            Value::Text(b) => ValueV::Text(b@),
        }
    }
}

/// The view of a sequence of values.
pub open spec fn values_view(vs: Seq<Value>) -> Seq<ValueV> {
    vs.map_values(|x: Value| x@)
}

/// A value's payloads fit behind 64-bit length prefixes.
pub open spec fn value_wf(v: ValueV) -> bool {
    match v {
        ValueV::Bytes(b) => b.len() <= u64::MAX,
        ValueV::Text(b) => b.len() <= u64::MAX,
        _ => true,
    }
}

/// The canonical encoding of one value: non-negative integers use tag 1,
/// empty byte strings and empty text the compact tags 4 and 6.
pub open spec fn value_bytes(v: ValueV) -> Seq<u8>
    recommends
        value_wf(v),
{
    match v {
        ValueV::Null => seq![0u8],
        ValueV::I64(x) => if x >= 0 {
            seq![1u8] + varint_bytes(x as u64)
        } else {
            seq![2u8] + varint_bytes(zigzag_encode_spec(x))
        },
        ValueV::F64(bits) => seq![3u8] + u64_be_bytes(bits),
        ValueV::Bytes(b) => if b.len() == 0 {
            seq![4u8]
        } else {
            seq![5u8] + bytes_frame(b)
        },
        ValueV::Text(b) => if b.len() == 0 {
            seq![6u8]
        } else {
            seq![7u8] + bytes_frame(b)
        },
    }
}

/// Decode one value at position `i`: a tag byte, then its payload.
/// An unknown tag fails with `UnknownValue`.
pub open spec fn parse_value(s: Seq<u8>, i: int) -> Decoded<ValueV> {
    match parse_u8(s, i) {
        Decoded::Found(tag, j) => if tag == 0 {
            Decoded::Found(ValueV::Null, j)
        } else if tag == 1 {
            match parse_len(s, j) {
                Decoded::Found(n, k) => Decoded::Found(ValueV::I64(n as i64), k),
                Decoded::Fail(e) => Decoded::Fail(e),
            }
        } else if tag == 2 {
            match parse_len(s, j) {
                Decoded::Found(n, k) => Decoded::Found(ValueV::I64(zigzag_decode_spec(n)), k),
                Decoded::Fail(e) => Decoded::Fail(e),
            }
        } else if tag == 3 {
            match parse_u64_be(s, j) {
                Decoded::Found(bits, k) => Decoded::Found(ValueV::F64(bits), k),
                Decoded::Fail(e) => Decoded::Fail(e),
            }
        } else if tag == 4 {
            Decoded::Found(ValueV::Bytes(Seq::empty()), j)
        } else if tag == 5 {
            match parse_lp_bytes(s, j) {
                Decoded::Found(b, k) => Decoded::Found(ValueV::Bytes(b), k),
                Decoded::Fail(e) => Decoded::Fail(e),
            }
        } else if tag == 6 {
            Decoded::Found(ValueV::Text(Seq::empty()), j)
        } else if tag == 7 {
            match parse_lp_bytes(s, j) {
                Decoded::Found(b, k) => Decoded::Found(ValueV::Text(b), k),
                Decoded::Fail(e) => Decoded::Fail(e),
            }
        } else {
            Decoded::Fail(Error::UnknownValue(tag))
        },
        Decoded::Fail(e) => Decoded::Fail(e),
    }
}

/// The concatenated encodings of a run of values.
pub open spec fn values_payload(vs: Seq<ValueV>) -> Seq<u8>
    decreases vs.len(),
{
    if vs.len() == 0 {
        Seq::empty()
    } else {
        value_bytes(vs[0]) + values_payload(vs.skip(1))
    }
}

/// Appending a value appends its encoding.
pub proof fn lemma_values_payload_push(vs: Seq<ValueV>, x: ValueV)
    ensures
        values_payload(vs.push(x)) =~= values_payload(vs) + value_bytes(x),
    decreases vs.len(),
{
    reveal_with_fuel(values_payload, 3);
    let w = vs.push(x);
    if vs.len() == 0 {
        assert(w.skip(1) =~= vs);
        assert(w[0] == x);
        assert(values_payload(w) == value_bytes(x) + values_payload(vs));
        assert(values_payload(vs) == Seq::<u8>::empty());
        assert(values_payload(w) =~= values_payload(vs) + value_bytes(x));
    } else {
        assert(w.skip(1) =~= vs.skip(1).push(x));
        lemma_values_payload_push(vs.skip(1), x);
        assert(w[0] == vs[0]);
        assert(values_payload(w) == value_bytes(vs[0]) + values_payload(vs.skip(1).push(x)));
        assert(values_payload(vs) == value_bytes(vs[0]) + values_payload(vs.skip(1)));
        assert(values_payload(w) =~= values_payload(vs) + value_bytes(x));
    }
}

/// A value list frame: `varint(n) || value_1 || ... || value_n`.
pub open spec fn values_bytes(vs: Seq<ValueV>) -> Seq<u8>
    recommends
        vs.len() <= u64::MAX,
{
    varint_bytes(vs.len() as u64) + values_payload(vs)
}

/// Decode exactly `n` values starting at position `i`.
pub open spec fn parse_values_n(s: Seq<u8>, i: int, n: nat) -> Decoded<Seq<ValueV>>
    decreases n,
{
    if n == 0 {
        Decoded::Found(Seq::empty(), i)
    } else {
        match parse_value(s, i) {
            Decoded::Found(v, j) => match parse_values_n(s, j, (n - 1) as nat) {
                Decoded::Found(vs, k) => Decoded::Found(seq![v] + vs, k),
                Decoded::Fail(e) => Decoded::Fail(e),
            },
            Decoded::Fail(e) => Decoded::Fail(e),
        }
    }
}

/// Decode a value list frame: a varint count, then that many values.
pub open spec fn parse_values(s: Seq<u8>, i: int) -> Decoded<Seq<ValueV>> {
    match parse_len(s, i) {
        Decoded::Found(n, j) => parse_values_n(s, j, n as nat),
        Decoded::Fail(e) => Decoded::Fail(e),
    }
}

/// Prepend already-decoded values to a decoding outcome.
pub open spec fn prepend_values(pre: Seq<ValueV>, d: Decoded<Seq<ValueV>>) -> Decoded<
    Seq<ValueV>,
> {
    match d {
        Decoded::Found(vs, e) => Decoded::Found(pre + vs, e),
        Decoded::Fail(e) => Decoded::Fail(e),
    }
}

/// Append one value's canonical encoding.
pub fn write_value(w: &mut FrameWriter, v: &Value)
    ensures
        final(w).buf@ == old(w).buf@ + value_bytes(v@),
{
    match v {
        Value::Null => {
            w.write_u8(0);
        },
        Value::I64(x) => {
            if *x >= 0 {
                w.write_u8(1);
                w.write_len(*x as u64);
            } else {
                w.write_u8(2);
                let encoded = zigzag_encode(*x);
                w.write_len(encoded);
            }
        },
        Value::F64(bits) => {
            w.write_u8(3);
            w.write_u64_be(*bits);
        },
        Value::Bytes(b) => {
            if b.len() == 0 {
                w.write_u8(4);
            } else {
                w.write_u8(5);
                w.write_bytes(b.as_slice());
            }
        },
        Value::Text(b) => {
            if b.len() == 0 {
                w.write_u8(6);
            } else {
                w.write_u8(7);
                w.write_bytes(b.as_slice());
            }
        },
    }
    proof {
        assert(final(w).buf@ =~= old(w).buf@ + value_bytes(v@));
    }
}

/// Read one value.
pub fn read_value(r: &mut FrameReader) -> (out: Result<Value, Error>)
    requires
        old(r).wf(),
    ensures
        final(r).wf(),
        final(r).data@ == old(r).data@,
        match parse_value(old(r).data@, old(r).pos as int) {
            Decoded::Found(v, j) => out matches Ok(got) && got@ == v && final(r).pos == j,
            Decoded::Fail(e) => out == Err::<Value, Error>(e),
        },
{
    let tag = r.read_u8()?;
    match tag {
        0 => Ok(Value::Null),
        1 => {
            let n = r.read_len()?;
            Ok(Value::I64(n as i64))
        },
        2 => {
            let n = r.read_len()?;
            Ok(Value::I64(zigzag_decode(n)))
        },
        3 => {
            let bits = r.read_u64_be()?;
            Ok(Value::F64(bits))
        },
        4 => Ok(Value::Bytes(Vec::new())),
        5 => {
            let b = r.read_bytes()?;
            Ok(Value::Bytes(b))
        },
        6 => Ok(Value::Text(Vec::new())),
        7 => {
            let b = r.read_bytes()?;
            Ok(Value::Text(b))
        },
        other => Err(Error::UnknownValue(other)),
    }
}

/// Append a value list frame: the count, then each value in order.
pub fn write_values(w: &mut FrameWriter, values: &Vec<Value>)
    ensures
        final(w).buf@ == old(w).buf@ + values_bytes(values_view(values@)),
{
    let n = values.len();
    w.write_len(n as u64);
    let ghost start = w.buf@;
    let mut k: usize = 0;
    while k < n
        invariant
            k <= n,
            n == values@.len(),
            w.buf@ == start + values_payload(values_view(values@.take(k as int))),
        decreases n - k,
    {
        write_value(w, &values[k]);
        proof {
            let vk = values@[k as int]@;
            let pre = values_view(values@.take(k as int));
            lemma_values_payload_push(pre, vk);
            assert(values_view(values@.take(k as int + 1)) =~= pre.push(vk));
            assert(w.buf@ =~= start + values_payload(values_view(values@.take(k as int + 1))));
        }
        k = k + 1;
    }
    proof {
        assert(values@.take(n as int) =~= values@);
        assert(final(w).buf@ =~= old(w).buf@ + values_bytes(values_view(values@)));
    }
}

/// Read a value list frame.
pub fn read_values(r: &mut FrameReader) -> (out: Result<Vec<Value>, Error>)
    requires
        old(r).wf(),
    ensures
        final(r).wf(),
        final(r).data@ == old(r).data@,
        match parse_values(old(r).data@, old(r).pos as int) {
            Decoded::Found(vs, j) => out matches Ok(got) && values_view(got@) == vs
                && final(r).pos == j,
            Decoded::Fail(e) => out == Err::<Vec<Value>, Error>(e),
        },
{
    let ghost s = old(r).data@;
    let n = r.read_len()?;
    let ghost list_start = r.pos as int;
    let mut out: Vec<Value> = Vec::new();
    let mut k: u64 = 0;
    while k < n
        invariant
            r.wf(),
            r.data@ == s,
            s == old(r).data@,
            parse_len(s, old(r).pos as int) == Decoded::<u64>::Found(n, list_start),
            k <= n,
            out@.len() == k,
            parse_values_n(s, list_start, n as nat) == prepend_values(
                values_view(out@),
                parse_values_n(s, r.pos as int, (n - k) as nat),
            ),
        decreases n - k,
    {
        let ghost pre = values_view(out@);
        let ghost pos0 = r.pos as int;
        let v = match read_value(r) {
            Ok(v) => v,
            Err(e) => {
                proof {
                    assert(parse_values_n(s, pos0, (n - k) as nat) == Decoded::<
                        Seq<ValueV>,
                    >::Fail(e));
                }
                return Err(e);
            },
        };
        proof {
            let rest = parse_values_n(s, r.pos as int, (n - k - 1) as nat);
            assert(parse_values_n(s, pos0, (n - k) as nat) == prepend_values(
                seq![v@],
                rest,
            ));
            assert(values_view(out@.push(v)) =~= pre.push(v@));
            match rest {
                Decoded::Found(vs, e) => {
                    assert(pre + (seq![v@] + vs) =~= pre.push(v@) + vs);
                },
                Decoded::Fail(_) => {},
            }
        }
        out.push(v);
        k = k + 1;
    }
    proof {
        assert(parse_values_n(s, r.pos as int, 0) == Decoded::<Seq<ValueV>>::Found(
            Seq::empty(),
            r.pos as int,
        ));
        assert(values_view(out@) + Seq::<ValueV>::empty() =~= values_view(out@));
    }
    Ok(out)
}

// ---------------------------------------------------------------------
// Round-trip lemmas.
// ---------------------------------------------------------------------

/// One value's canonical encoding, embedded at position `i`, decodes to
/// the value that was encoded.
pub proof fn lemma_parse_value_embed(s: Seq<u8>, i: int, v: ValueV)
    requires
        0 <= i,
        value_wf(v),
        i + value_bytes(v).len() <= s.len(),
        s.subrange(i, i + value_bytes(v).len() as int) == value_bytes(v),
    ensures
        parse_value(s, i) =~= Decoded::<ValueV>::Found(v, i + value_bytes(v).len() as int),
{
    let vb = value_bytes(v);
    assert(s[i] == vb[0]);
    let j = i + 1;
    match v {
        ValueV::Null => {},
        ValueV::I64(x) => {
            if x >= 0 {
                let enc = varint_bytes(x as u64);
                assert(s.subrange(j, j + enc.len() as int) =~= enc) by {
                    assert(forall|k: int| 0 <= k < enc.len()
                        ==> s.subrange(i, i + vb.len() as int)[k + 1] == #[trigger] enc[k]);
                }
                lemma_parse_len_embed(s, j, x as u64);
                assert((x as u64) as i64 == x);
            } else {
                let e = zigzag_encode_spec(x);
                let enc = varint_bytes(e);
                assert(s.subrange(j, j + enc.len() as int) =~= enc) by {
                    assert(forall|k: int| 0 <= k < enc.len()
                        ==> s.subrange(i, i + vb.len() as int)[k + 1] == #[trigger] enc[k]);
                }
                lemma_parse_len_embed(s, j, e);
                lemma_zigzag_round_trip(x);
            }
        },
        ValueV::F64(bits) => {
            let enc = u64_be_bytes(bits);
            assert(s.subrange(j, j + 8) =~= enc) by {
                assert(forall|k: int| 0 <= k < 8
                    ==> s.subrange(i, i + vb.len() as int)[k + 1] == #[trigger] enc[k]);
            }
            lemma_parse_u64_be_embed(s, j, bits);
        },
        ValueV::Bytes(b) => {
            if b.len() != 0 {
                let enc = bytes_frame(b);
                assert(s.subrange(j, j + enc.len() as int) =~= enc) by {
                    assert(forall|k: int| 0 <= k < enc.len()
                        ==> s.subrange(i, i + vb.len() as int)[k + 1] == #[trigger] enc[k]);
                }
                lemma_parse_lp_bytes_embed(s, j, b);
            } else {
                assert(b =~= Seq::<u8>::empty());
            }
        },
        ValueV::Text(b) => {
            if b.len() != 0 {
                let enc = bytes_frame(b);
                assert(s.subrange(j, j + enc.len() as int) =~= enc) by {
                    assert(forall|k: int| 0 <= k < enc.len()
                        ==> s.subrange(i, i + vb.len() as int)[k + 1] == #[trigger] enc[k]);
                }
                lemma_parse_lp_bytes_embed(s, j, b);
            } else {
                assert(b =~= Seq::<u8>::empty());
            }
        },
    }
}

/// Canonical round trip for one value: reading a written value gives the
/// value back.
pub proof fn lemma_value_round_trip(v: ValueV)
    requires
        value_wf(v),
    ensures
        parse_value(value_bytes(v), 0) =~= Decoded::<ValueV>::Found(
            v,
            value_bytes(v).len() as int,
        ),
{
    let s = value_bytes(v);
    assert(s.subrange(0, s.len() as int) =~= s);
    lemma_parse_value_embed(s, 0, v);
}

/// A non-negative integer encoded with tag 2 reads back as the same
/// value that its tag-1 encoding reads back as.
pub proof fn lemma_tag2_reads_as_tag1(x: i64)
    requires
        x >= 0,
    ensures
        parse_value(seq![2u8] + varint_bytes(zigzag_encode_spec(x)), 0) =~= Decoded::<
            ValueV,
        >::Found(ValueV::I64(x), 1 + varint_bytes(zigzag_encode_spec(x)).len() as int),
        parse_value(seq![1u8] + varint_bytes(x as u64), 0) =~= Decoded::<ValueV>::Found(
            ValueV::I64(x),
            1 + varint_bytes(x as u64).len() as int,
        ),
{
    let e = zigzag_encode_spec(x);
    let s2 = seq![2u8] + varint_bytes(e);
    assert(s2.subrange(1, 1 + varint_bytes(e).len() as int) =~= varint_bytes(e));
    lemma_parse_len_embed(s2, 1, e);
    lemma_zigzag_round_trip(x);
    let s1 = seq![1u8] + varint_bytes(x as u64);
    assert(s1.subrange(1, 1 + varint_bytes(x as u64).len() as int) =~= varint_bytes(x as u64));
    lemma_parse_len_embed(s1, 1, x as u64);
    assert((x as u64) as i64 == x);
}

/// A value list's encoding, embedded at position `i`, decodes to the
/// values that were encoded.
pub proof fn lemma_parse_values_n_embed(s: Seq<u8>, i: int, vs: Seq<ValueV>)
    requires
        0 <= i,
        forall|k: int| 0 <= k < vs.len() ==> value_wf(#[trigger] vs[k]),
        i + values_payload(vs).len() <= s.len(),
        s.subrange(i, i + values_payload(vs).len() as int) == values_payload(vs),
    ensures
        parse_values_n(s, i, vs.len()) =~= Decoded::<Seq<ValueV>>::Found(
            vs,
            i + values_payload(vs).len() as int,
        ),
    decreases vs.len(),
{
    if vs.len() != 0 {
        let head = value_bytes(vs[0]);
        let all = values_payload(vs);
        assert(all == head + values_payload(vs.skip(1)));
        assert(s.subrange(i, i + head.len() as int) =~= head) by {
            assert(forall|k: int| 0 <= k < head.len()
                ==> s.subrange(i, i + all.len() as int)[k] == #[trigger] head[k]);
        }
        lemma_parse_value_embed(s, i, vs[0]);
        let j = i + head.len() as int;
        let rest = values_payload(vs.skip(1));
        assert(s.subrange(j, j + rest.len() as int) =~= rest) by {
            assert(forall|k: int| 0 <= k < rest.len()
                ==> s.subrange(i, i + all.len() as int)[head.len() + k] == #[trigger] rest[k]);
        }
        lemma_parse_values_n_embed(s, j, vs.skip(1));
        assert(seq![vs[0]] + vs.skip(1) =~= vs);
    }
}

/// Value-list round trip: reading a written list gives the same values.
pub proof fn lemma_values_round_trip(vs: Seq<ValueV>)
    requires
        vs.len() <= u64::MAX,
        forall|k: int| 0 <= k < vs.len() ==> value_wf(#[trigger] vs[k]),
    ensures
        parse_values(values_bytes(vs), 0) =~= Decoded::<Seq<ValueV>>::Found(
            vs,
            values_bytes(vs).len() as int,
        ),
{
    let s = values_bytes(vs);
    let lenb = varint_bytes(vs.len() as u64);
    assert(s.subrange(0, lenb.len() as int) =~= lenb);
    lemma_parse_len_embed(s, 0, vs.len() as u64);
    let j = lenb.len() as int;
    assert(s.subrange(j, j + values_payload(vs).len() as int) =~= values_payload(vs));
    lemma_parse_values_n_embed(s, j, vs);
}

} // verus!
