//! Handshake frames: the version pair, the raw 16-byte salts, the three
//! varint hash parameters, the raw 32-byte hashed password, and the open
//! request (database path plus open flags).

use vstd::prelude::*;
use vstd::utf8::encode_utf8;
use crate::Error;
use crate::codec::{
    Decoded, FrameReader, FrameWriter, i32_be_bytes, lemma_parse_i32_be_embed,
    lemma_parse_len_embed, lemma_parse_lp_string_embed, parse_exact, parse_i32_be, parse_len,
    parse_lp_string, parse_u8, string_frame,
};
use crate::flags::Flags;
use crate::varint::varint_bytes;

verus! {

/// The length of each side's random salt, in bytes.
pub const SALT_LEN: usize = 16;

/// The length of the hashed password, in bytes.
pub const HASH_LEN: usize = 32;

/// A protocol version pair. Only major version 1 is spoken here.
#[derive(Clone, Copy, Debug, PartialEq, Eq, Structural)]
pub struct Version {
    pub major: u8,
    pub minor: u8,
}

/// The two raw bytes of a version pair.
pub open spec fn version_bytes(v: Version) -> Seq<u8> {
    seq![v.major, v.minor]
}

/// Decode a version pair.
pub open spec fn parse_version(s: Seq<u8>, i: int) -> Decoded<Version> {
    match parse_u8(s, i) {
        Decoded::Found(major, j) => match parse_u8(s, j) {
            Decoded::Found(minor, k) => Decoded::Found(Version { major, minor }, k),
            Decoded::Fail(e) => Decoded::Fail(e),
        },
        Decoded::Fail(e) => Decoded::Fail(e),
    }
}

/// The server's opening move: it announces version 1.0, two raw bytes.
pub fn write_protocol_version(w: &mut FrameWriter)
    ensures
        final(w).buf@ == old(w).buf@ + seq![1u8, 0u8],
{
    w.write_u8(1);
    w.write_u8(0);
    proof {
        assert(final(w).buf@ =~= old(w).buf@ + seq![1u8, 0u8]);
    }
}

/// Read the peer's version pair.
pub fn read_protocol_version(r: &mut FrameReader) -> (out: Result<Version, Error>)
    requires
        old(r).wf(),
    ensures
        final(r).wf(),
        final(r).data@ == old(r).data@,
        match parse_version(old(r).data@, old(r).pos as int) {
            Decoded::Found(v, j) => out == Ok::<Version, Error>(v) && final(r).pos == j,
            Decoded::Fail(e) => out == Err::<Version, Error>(e),
        },
{
    let major = r.read_u8()?;
    let minor = r.read_u8()?;
    Ok(Version { major, minor })
}

/// A client accepts major version 1 and nothing else.
pub fn check_version(v: Version) -> (out: Result<(), Error>)
    ensures
        v.major == 1 ==> out == Ok::<(), Error>(()),
        v.major != 1 ==> out == Err::<(), Error>(Error::UnsupportedVersion(v.major, v.minor)),
{
    if v.major == 1 {
        Ok(())
    } else {
        Err(Error::UnsupportedVersion(v.major, v.minor))
    }
}

/// Append a 16-byte salt, raw.
pub fn write_salt(w: &mut FrameWriter, salt: &Vec<u8>)
    requires
        salt@.len() == SALT_LEN,
    ensures
        final(w).buf@ == old(w).buf@ + salt@,
{
    w.write_all(salt.as_slice());
}

/// Read a 16-byte salt.
pub fn read_salt(r: &mut FrameReader) -> (out: Result<Vec<u8>, Error>)
    requires
        old(r).wf(),
    ensures
        final(r).wf(),
        final(r).data@ == old(r).data@,
        match parse_exact(old(r).data@, old(r).pos as int, SALT_LEN as int) {
            Decoded::Found(b, j) => out matches Ok(got) && got@ == b && got@.len() == SALT_LEN
                && final(r).pos == j,
            Decoded::Fail(e) => out == Err::<Vec<u8>, Error>(e),
        },
{
    r.read_exact(SALT_LEN)
}

/// Read a 32-byte hashed password.
pub fn read_auth_password(r: &mut FrameReader) -> (out: Result<Vec<u8>, Error>)
    requires
        old(r).wf(),
    ensures
        final(r).wf(),
        final(r).data@ == old(r).data@,
        match parse_exact(old(r).data@, old(r).pos as int, HASH_LEN as int) {
            Decoded::Found(b, j) => out matches Ok(got) && got@ == b && got@.len() == HASH_LEN
                && final(r).pos == j,
            Decoded::Fail(e) => out == Err::<Vec<u8>, Error>(e),
        },
{
    r.read_exact(HASH_LEN)
}

/// The three cost parameters of the key-derivation function.
#[derive(Clone, Copy, Debug, PartialEq, Eq, Structural)]
pub struct Params {
    pub m_cost: u32,
    pub t_cost: u32,
    pub p_cost: u32,
}

/// The server's default costs: 64 MiB of memory, eight passes, one lane.
impl Default for Params {
    fn default() -> (p: Params)
        ensures
            p.m_cost == 65536,
            p.t_cost == 8,
            p.p_cost == 1,
    {
        Params { m_cost: 65536, t_cost: 8, p_cost: 1 }
    }
}

/// The encoding of the hash parameters: three varints.
pub open spec fn params_bytes(p: Params) -> Seq<u8> {
    varint_bytes(p.m_cost as u64) + varint_bytes(p.t_cost as u64) + varint_bytes(p.p_cost as u64)
}

/// Decode the hash parameters. Each varint must fit in 32 bits; one that
/// does not fails with `Argon2Params`.
pub open spec fn parse_params(s: Seq<u8>, i: int) -> Decoded<Params> {
    match parse_len(s, i) {
        Decoded::Found(m, j) => if m > u32::MAX as u64 {
            Decoded::Fail(Error::Argon2Params)
        } else {
            match parse_len(s, j) {
                Decoded::Found(t, k) => if t > u32::MAX as u64 {
                    Decoded::Fail(Error::Argon2Params)
                } else {
                    match parse_len(s, k) {
                        Decoded::Found(p, l) => if p > u32::MAX as u64 {
                            Decoded::Fail(Error::Argon2Params)
                        } else {
                            Decoded::Found(
                                Params {
                                    m_cost: m as u32,
                                    t_cost: t as u32,
                                    p_cost: p as u32,
                                },
                                l,
                            )
                        },
                        Decoded::Fail(e) => Decoded::Fail(e),
                    }
                },
                Decoded::Fail(e) => Decoded::Fail(e),
            }
        },
        Decoded::Fail(e) => Decoded::Fail(e),
    }
}

/// Append the hash parameters.
pub fn write_hash_params(w: &mut FrameWriter, params: Params)
    ensures
        final(w).buf@ == old(w).buf@ + params_bytes(params),
{
    w.write_len(params.m_cost as u64);
    w.write_len(params.t_cost as u64);
    w.write_len(params.p_cost as u64);
    proof {
        assert(final(w).buf@ =~= old(w).buf@ + params_bytes(params));
    }
}

/// Read the hash parameters, rejecting any that overflow 32 bits.
pub fn read_hash_params(r: &mut FrameReader) -> (out: Result<Params, Error>)
    requires
        old(r).wf(),
    ensures
        final(r).wf(),
        final(r).data@ == old(r).data@,
        match parse_params(old(r).data@, old(r).pos as int) {
            Decoded::Found(p, j) => out == Ok::<Params, Error>(p) && final(r).pos == j,
            Decoded::Fail(e) => out == Err::<Params, Error>(e),
        },
{
    let m = r.read_len()?;
    if m > u32::MAX as u64 {
        return Err(Error::Argon2Params);
    }
    let t = r.read_len()?;
    if t > u32::MAX as u64 {
        return Err(Error::Argon2Params);
    }
    let p = r.read_len()?;
    if p > u32::MAX as u64 {
        return Err(Error::Argon2Params);
    }
    Ok(Params { m_cost: m as u32, t_cost: t as u32, p_cost: p as u32 })
}

/// The encoding of an open request: the database path, then the raw
/// big-endian flag bits.
pub open spec fn connect_bytes(path: Seq<char>, flags: i32) -> Seq<u8> {
    string_frame(path) + i32_be_bytes(flags)
}

/// Decode an open request.
pub open spec fn parse_connect(s: Seq<u8>, i: int) -> Decoded<(Seq<char>, i32)> {
    match parse_lp_string(s, i) {
        Decoded::Found(path, j) => match parse_i32_be(s, j) {
            Decoded::Found(bits, k) => Decoded::Found((path, bits), k),
            Decoded::Fail(e) => Decoded::Fail(e),
        },
        Decoded::Fail(e) => Decoded::Fail(e),
    }
}

/// Append an open request.
pub fn write_connect(w: &mut FrameWriter, path: &str, flags: Flags)
    ensures
        final(w).buf@ == old(w).buf@ + connect_bytes(path@, flags@),
{
    w.write_string(path);
    let bits = flags.bits();
    w.write_i32(bits);
    proof {
        assert(final(w).buf@ =~= old(w).buf@ + connect_bytes(path@, flags@));
    }
}

/// Read an open request.
pub fn read_connect(r: &mut FrameReader) -> (out: Result<(String, Flags), Error>)
    requires
        old(r).wf(),
    ensures
        final(r).wf(),
        final(r).data@ == old(r).data@,
        match parse_connect(old(r).data@, old(r).pos as int) {
            Decoded::Found(pf, j) => out matches Ok(got) && got.0@ == pf.0 && got.1@ == pf.1
                && final(r).pos == j,
            Decoded::Fail(e) => out == Err::<(String, Flags), Error>(e),
        },
{
    let path = r.read_string()?;
    let bits = r.read_i32()?;
    Ok((path, Flags::from_flags(bits)))
}

/// A version pair embedded at position `i` decodes to itself.
pub proof fn lemma_parse_version_embed(s: Seq<u8>, i: int, v: Version)
    requires
        0 <= i,
        i + 2 <= s.len(),
        s.subrange(i, i + 2) == version_bytes(v),
    ensures
        parse_version(s, i) == Decoded::<Version>::Found(v, i + 2),
{
    assert(s[i] == version_bytes(v)[0]);
    assert(s[i + 1] == version_bytes(v)[1]);
}

/// Hash-parameter round trip: parameters written are read back, and the
/// 32-bit checks never fire on them.
pub proof fn lemma_params_round_trip(p: Params)
    ensures
        parse_params(params_bytes(p), 0) == Decoded::<Params>::Found(
            p,
            params_bytes(p).len() as int,
        ),
{
    let s = params_bytes(p);
    let mb = varint_bytes(p.m_cost as u64);
    let tb = varint_bytes(p.t_cost as u64);
    let pb = varint_bytes(p.p_cost as u64);
    assert(s.subrange(0, mb.len() as int) =~= mb);
    lemma_parse_len_embed(s, 0, p.m_cost as u64);
    let j = mb.len() as int;
    assert(s.subrange(j, j + tb.len() as int) =~= tb);
    lemma_parse_len_embed(s, j, p.t_cost as u64);
    let k = j + tb.len() as int;
    assert(s.subrange(k, k + pb.len() as int) =~= pb);
    lemma_parse_len_embed(s, k, p.p_cost as u64);
}

/// Open-request round trip.
pub proof fn lemma_connect_round_trip(path: Seq<char>, flags: i32)
    requires
        encode_utf8(path).len() <= u64::MAX,
    ensures
        parse_connect(connect_bytes(path, flags), 0) =~= Decoded::<(Seq<char>, i32)>::Found(
            (path, flags),
            connect_bytes(path, flags).len() as int,
        ),
{
    let s = connect_bytes(path, flags);
    let sf = string_frame(path);
    assert(s.subrange(0, sf.len() as int) =~= sf);
    lemma_parse_lp_string_embed(s, 0, path);
    let j = sf.len() as int;
    assert(s.subrange(j, j + 4) =~= i32_be_bytes(flags));
    lemma_parse_i32_be_embed(s, j, flags);
}

} // verus!
