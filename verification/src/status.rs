//! Status frames: tag 0 for success, tag 1 for an error followed by a
//! length-prefixed human-readable message. One status frame precedes
//! every response that is not itself a status.

use vstd::prelude::*;
use vstd::utf8::encode_utf8;
use crate::Error;
use crate::codec::{
    Decoded, FrameReader, FrameWriter, parse_lp_string, parse_u8, string_frame,
};

verus! {

/// The outcome a peer reports: success, or an error with a message.
pub enum Status {
    Okay,
    Failed(String),
}

/// The mathematical shape of a `Status`.
#[verifier::ext_equal]
pub enum StatusV {
    Okay,
    Failed(Seq<char>),
}

impl View for Status {
    type V = StatusV;

    open spec fn view(&self) -> StatusV {
        match self {
            Status::Okay => StatusV::Okay,
            Status::Failed(m) => StatusV::Failed(m@),
        }
    }
}

/// An error message's encoding fits behind a 64-bit length prefix.
pub open spec fn status_wf(st: StatusV) -> bool {
    match st {
        StatusV::Okay => true,
        StatusV::Failed(m) => encode_utf8(m).len() <= u64::MAX,
    }
}

/// The encoding of a status frame.
pub open spec fn status_bytes(st: StatusV) -> Seq<u8>
    recommends
        status_wf(st),
{
    match st {
        StatusV::Okay => seq![0u8],
        StatusV::Failed(m) => seq![1u8] + string_frame(m),
    }
}

/// Decode a status frame. An unknown tag fails with `UnknownStatus`.
pub open spec fn parse_status(s: Seq<u8>, i: int) -> Decoded<StatusV> {
    match parse_u8(s, i) {
        Decoded::Found(tag, j) => if tag == 0 {
            Decoded::Found(StatusV::Okay, j)
        } else if tag == 1 {
            match parse_lp_string(s, j) {
                Decoded::Found(m, k) => Decoded::Found(StatusV::Failed(m), k),
                Decoded::Fail(e) => Decoded::Fail(e),
            }
        } else {
            Decoded::Fail(Error::UnknownStatus(tag))
        },
        Decoded::Fail(e) => Decoded::Fail(e),
    }
}

impl Status {
    /// Success becomes `Ok(())`; an error carries its message out.
    pub fn to_result(self) -> (r: Result<(), String>)
        ensures
            self@ is Okay ==> r == Ok::<(), String>(()),
            self@ matches StatusV::Failed(m) ==> r matches Err(out) && out@ == m,
    {
        match self {
            Status::Okay => Ok(()),
            Status::Failed(err) => Err(err),
        }
    }
}

/// Append a status frame.
pub fn write_status(w: &mut FrameWriter, status: &Status)
    ensures
        final(w).buf@ == old(w).buf@ + status_bytes(status@),
{
    match status {
        Status::Okay => {
            w.write_u8(0);
        },
        Status::Failed(err) => {
            w.write_u8(1);
            w.write_string(err.as_str());
        },
    }
    proof {
        assert(final(w).buf@ =~= old(w).buf@ + status_bytes(status@));
    }
}

/// Read a status frame.
pub fn read_status(r: &mut FrameReader) -> (out: Result<Status, Error>)
    requires
        old(r).wf(),
    ensures
        final(r).wf(),
        final(r).data@ == old(r).data@,
        match parse_status(old(r).data@, old(r).pos as int) {
            Decoded::Found(st, j) => out matches Ok(got) && got@ == st && final(r).pos == j,
            Decoded::Fail(e) => out == Err::<Status, Error>(e),
        },
{
    let tag = r.read_u8()?;
    match tag {
        0 => Ok(Status::Okay),
        1 => {
            let m = r.read_string()?;
            Ok(Status::Failed(m))
        },
        other => Err(Error::UnknownStatus(other)),
    }
}

/// A status frame embedded at position `i` decodes to the status that was
/// encoded.
pub proof fn lemma_parse_status_embed(s: Seq<u8>, i: int, st: StatusV)
    requires
        0 <= i,
        status_wf(st),
        i + status_bytes(st).len() <= s.len(),
        s.subrange(i, i + status_bytes(st).len() as int) == status_bytes(st),
    ensures
        parse_status(s, i) =~= Decoded::<StatusV>::Found(st, i + status_bytes(st).len() as int),
{
    let sb = status_bytes(st);
    assert(s[i] == sb[0]);
    match st {
        StatusV::Okay => {},
        StatusV::Failed(m) => {
            let enc = string_frame(m);
            assert(s.subrange(i + 1, i + 1 + enc.len() as int) =~= enc) by {
                assert(forall|k: int| 0 <= k < enc.len()
                    ==> s.subrange(i, i + sb.len() as int)[k + 1] == #[trigger] enc[k]);
            }
            crate::codec::lemma_parse_lp_string_embed(s, i + 1, m);
        },
    }
}

/// Status round trip: reading a written status gives the status back.
pub proof fn lemma_status_round_trip(st: StatusV)
    requires
        status_wf(st),
    ensures
        parse_status(status_bytes(st), 0) =~= Decoded::<StatusV>::Found(
            st,
            status_bytes(st).len() as int,
        ),
{
    let s = status_bytes(st);
    assert(s.subrange(0, s.len() as int) =~= s);
    lemma_parse_status_embed(s, 0, st);
}

} // verus!
