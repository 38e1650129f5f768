//! Command frames: a tag byte, then the command's body.
//!
//! Tags: 0 ping, 1 disconnect, 2 execute one SQL text, 3 query one SQL
//! text, 4 a transaction of `varint(n)` SQL texts.

use vstd::prelude::*;
use vstd::utf8::encode_utf8;
use crate::Error;
use crate::codec::{
    Decoded, FrameReader, FrameWriter, lemma_parse_len_embed, lemma_parse_lp_string_embed,
    parse_len, parse_lp_string, parse_u8, string_frame,
};
use crate::varint::varint_bytes;

verus! {

/// One request from the client to the server.
pub enum Command {
    Ping,
    Disconnect,
    SimpleExecute { sql: String },
    SimpleQuery { sql: String },
    Transaction { sqls: Vec<String> },
}

/// The mathematical shape of a `Command`.
#[verifier::ext_equal]
pub enum CommandV {
    Ping,
    Disconnect,
    SimpleExecute(Seq<char>),
    SimpleQuery(Seq<char>),
    Transaction(Seq<Seq<char>>),
}

/// The view of a list of SQL texts.
pub open spec fn sqls_view(ss: Seq<String>) -> Seq<Seq<char>> {
    ss.map_values(|x: String| x@)
}

impl View for Command {
    type V = CommandV;

    open spec fn view(&self) -> CommandV {
        match self {
            Command::Ping => CommandV::Ping,
            Command::Disconnect => CommandV::Disconnect,
            Command::SimpleExecute { sql } => CommandV::SimpleExecute(sql@),
            Command::SimpleQuery { sql } => CommandV::SimpleQuery(sql@),
            Command::Transaction { sqls } => CommandV::Transaction(sqls_view(sqls@)),
        }
    }
}

/// Every text's encoding, and the list itself, fit behind 64-bit length
/// prefixes.
pub open spec fn command_wf(c: CommandV) -> bool {
    match c {
        CommandV::Ping => true,
        CommandV::Disconnect => true,
        CommandV::SimpleExecute(t) => encode_utf8(t).len() <= u64::MAX,
        CommandV::SimpleQuery(t) => encode_utf8(t).len() <= u64::MAX,
        CommandV::Transaction(ts) => ts.len() <= u64::MAX && (forall|k: int|
            0 <= k < ts.len() ==> encode_utf8(#[trigger] ts[k]).len() <= u64::MAX),
    }
}

/// The concatenated encodings of a run of SQL texts.
pub open spec fn sqls_payload(ts: Seq<Seq<char>>) -> Seq<u8>
    decreases ts.len(),
{
    if ts.len() == 0 {
        Seq::empty()
    } else {
        string_frame(ts[0]) + sqls_payload(ts.skip(1))
    }
}

/// Appending a text appends its encoding.
pub proof fn lemma_sqls_payload_push(ts: Seq<Seq<char>>, x: Seq<char>)
    ensures
        sqls_payload(ts.push(x)) =~= sqls_payload(ts) + string_frame(x),
    decreases ts.len(),
{
    reveal_with_fuel(sqls_payload, 3);
    let w = ts.push(x);
    if ts.len() == 0 {
        assert(w.skip(1) =~= ts);
        assert(w[0] == x);
        assert(sqls_payload(w) == string_frame(x) + sqls_payload(ts));
        assert(sqls_payload(ts) == Seq::<u8>::empty());
        assert(sqls_payload(w) =~= sqls_payload(ts) + string_frame(x));
    } else {
        assert(w.skip(1) =~= ts.skip(1).push(x));
        lemma_sqls_payload_push(ts.skip(1), x);
        assert(w[0] == ts[0]);
        assert(sqls_payload(w) == string_frame(ts[0]) + sqls_payload(ts.skip(1).push(x)));
        assert(sqls_payload(ts) == string_frame(ts[0]) + sqls_payload(ts.skip(1)));
        assert(sqls_payload(w) =~= sqls_payload(ts) + string_frame(x));
    }
}

/// The encoding of a command frame.
pub open spec fn command_bytes(c: CommandV) -> Seq<u8>
    recommends
        command_wf(c),
{
    match c {
        CommandV::Ping => seq![0u8],
        CommandV::Disconnect => seq![1u8],
        CommandV::SimpleExecute(t) => seq![2u8] + string_frame(t),
        CommandV::SimpleQuery(t) => seq![3u8] + string_frame(t),
        CommandV::Transaction(ts) => seq![4u8] + varint_bytes(ts.len() as u64) + sqls_payload(ts),
    }
}

/// Decode exactly `n` SQL texts starting at position `i`.
pub open spec fn parse_sqls_n(s: Seq<u8>, i: int, n: nat) -> Decoded<Seq<Seq<char>>>
    decreases n,
{
    if n == 0 {
        Decoded::Found(Seq::empty(), i)
    } else {
        match parse_lp_string(s, i) {
            Decoded::Found(t, j) => match parse_sqls_n(s, j, (n - 1) as nat) {
                Decoded::Found(ts, k) => Decoded::Found(seq![t] + ts, k),
                Decoded::Fail(e) => Decoded::Fail(e),
            },
            Decoded::Fail(e) => Decoded::Fail(e),
        }
    }
}

/// Decode a command frame. An unknown tag fails with `UnknownCommand`.
pub open spec fn parse_command(s: Seq<u8>, i: int) -> Decoded<CommandV> {
    match parse_u8(s, i) {
        Decoded::Found(tag, j) => if tag == 0 {
            Decoded::Found(CommandV::Ping, j)
        } else if tag == 1 {
            Decoded::Found(CommandV::Disconnect, j)
        } else if tag == 2 {
            match parse_lp_string(s, j) {
                Decoded::Found(t, k) => Decoded::Found(CommandV::SimpleExecute(t), k),
                Decoded::Fail(e) => Decoded::Fail(e),
            }
        } else if tag == 3 {
            match parse_lp_string(s, j) {
                Decoded::Found(t, k) => Decoded::Found(CommandV::SimpleQuery(t), k),
                Decoded::Fail(e) => Decoded::Fail(e),
            }
        } else if tag == 4 {
            match parse_len(s, j) {
                Decoded::Found(n, k) => match parse_sqls_n(s, k, n as nat) {
                    Decoded::Found(ts, l) => Decoded::Found(CommandV::Transaction(ts), l),
                    Decoded::Fail(e) => Decoded::Fail(e),
                },
                Decoded::Fail(e) => Decoded::Fail(e),
            }
        } else {
            Decoded::Fail(Error::UnknownCommand(tag))
        },
        Decoded::Fail(e) => Decoded::Fail(e),
    }
}

/// Prepend already-decoded texts to a decoding outcome.
pub open spec fn prepend_sqls(pre: Seq<Seq<char>>, d: Decoded<Seq<Seq<char>>>) -> Decoded<
    Seq<Seq<char>>,
> {
    match d {
        Decoded::Found(ts, e) => Decoded::Found(pre + ts, e),
        Decoded::Fail(e) => Decoded::Fail(e),
    }
}

/// Append a command frame.
pub fn write_command(w: &mut FrameWriter, cmd: &Command)
    ensures
        final(w).buf@ == old(w).buf@ + command_bytes(cmd@),
{
    match cmd {
        Command::Ping => {
            w.write_u8(0);
        },
        Command::Disconnect => {
            w.write_u8(1);
        },
        Command::SimpleExecute { sql } => {
            w.write_u8(2);
            w.write_string(sql.as_str());
        },
        Command::SimpleQuery { sql } => {
            w.write_u8(3);
            w.write_string(sql.as_str());
        },
        Command::Transaction { sqls } => {
            w.write_u8(4);
            let n = sqls.len();
            w.write_len(n as u64);
            let ghost start = w.buf@;
            let mut k: usize = 0;
            while k < n
                invariant
                    k <= n,
                    n == sqls@.len(),
                    w.buf@ == start + sqls_payload(sqls_view(sqls@.take(k as int))),
                decreases n - k,
            {
                w.write_string(sqls[k].as_str());
                proof {
                    let tk = sqls@[k as int]@;
                    let pre = sqls_view(sqls@.take(k as int));
                    lemma_sqls_payload_push(pre, tk);
                    assert(sqls_view(sqls@.take(k as int + 1)) =~= pre.push(tk));
                    assert(w.buf@ =~= start + sqls_payload(sqls_view(sqls@.take(k as int + 1))));
                }
                k = k + 1;
            }
            proof {
                assert(sqls@.take(n as int) =~= sqls@);
            }
        },
    }
    proof {
        assert(final(w).buf@ =~= old(w).buf@ + command_bytes(cmd@));
    }
}

/// Read a command frame.
pub fn read_command(r: &mut FrameReader) -> (out: Result<Command, Error>)
    requires
        old(r).wf(),
    ensures
        final(r).wf(),
        final(r).data@ == old(r).data@,
        match parse_command(old(r).data@, old(r).pos as int) {
            Decoded::Found(c, j) => out matches Ok(got) && got@ == c && final(r).pos == j,
            Decoded::Fail(e) => out == Err::<Command, Error>(e),
        },
{
    let tag = r.read_u8()?;
    match tag {
        0 => Ok(Command::Ping),
        1 => Ok(Command::Disconnect),
        2 => {
            let sql = r.read_string()?;
            Ok(Command::SimpleExecute { sql })
        },
        3 => {
            let sql = r.read_string()?;
            Ok(Command::SimpleQuery { sql })
        },
        4 => {
            let ghost s = old(r).data@;
            let n = r.read_len()?;
            let ghost list_start = r.pos as int;
            let mut sqls: Vec<String> = Vec::new();
            let mut k: u64 = 0;
            while k < n
                invariant
                    r.wf(),
                    r.data@ == s,
                    s == old(r).data@,
                    parse_u8(s, old(r).pos as int) == Decoded::<u8>::Found(
                        4u8,
                        old(r).pos as int + 1,
                    ),
                    parse_len(s, old(r).pos as int + 1) == Decoded::<u64>::Found(n, list_start),
                    k <= n,
                    sqls@.len() == k,
                    parse_sqls_n(s, list_start, n as nat) == prepend_sqls(
                        sqls_view(sqls@),
                        parse_sqls_n(s, r.pos as int, (n - k) as nat),
                    ),
                decreases n - k,
            {
                let ghost pre = sqls_view(sqls@);
                let ghost pos0 = r.pos as int;
                let t = match r.read_string() {
                    Ok(t) => t,
                    Err(e) => {
                        proof {
                            assert(parse_sqls_n(s, pos0, (n - k) as nat) == Decoded::<
                                Seq<Seq<char>>,
                            >::Fail(e));
                        }
                        return Err(e);
                    },
                };
                proof {
                    let rest = parse_sqls_n(s, r.pos as int, (n - k - 1) as nat);
                    assert(parse_sqls_n(s, pos0, (n - k) as nat) == prepend_sqls(
                        seq![t@],
                        rest,
                    ));
                    assert(sqls_view(sqls@.push(t)) =~= pre.push(t@));
                    match rest {
                        Decoded::Found(ts, e) => {
                            assert(pre + (seq![t@] + ts) =~= pre.push(t@) + ts);
                        },
                        Decoded::Fail(_) => {},
                    }
                }
                sqls.push(t);
                k = k + 1;
            }
            proof {
                assert(parse_sqls_n(s, r.pos as int, 0) == Decoded::<Seq<Seq<char>>>::Found(
                    Seq::empty(),
                    r.pos as int,
                ));
                assert(sqls_view(sqls@) + Seq::<Seq<char>>::empty() =~= sqls_view(sqls@));
            }
            Ok(Command::Transaction { sqls })
        },
        other => Err(Error::UnknownCommand(other)),
    }
}

/// A run of SQL texts embedded at position `i` decodes to the texts that
/// were encoded.
pub proof fn lemma_parse_sqls_n_embed(s: Seq<u8>, i: int, ts: Seq<Seq<char>>)
    requires
        0 <= i,
        forall|k: int| 0 <= k < ts.len() ==> encode_utf8(#[trigger] ts[k]).len() <= u64::MAX,
        i + sqls_payload(ts).len() <= s.len(),
        s.subrange(i, i + sqls_payload(ts).len() as int) == sqls_payload(ts),
    ensures
        parse_sqls_n(s, i, ts.len()) =~= Decoded::<Seq<Seq<char>>>::Found(
            ts,
            i + sqls_payload(ts).len() as int,
        ),
    decreases ts.len(),
{
    if ts.len() != 0 {
        let head = string_frame(ts[0]);
        let all = sqls_payload(ts);
        assert(all == head + sqls_payload(ts.skip(1)));
        assert(s.subrange(i, i + head.len() as int) =~= head) by {
            assert(forall|k: int| 0 <= k < head.len()
                ==> s.subrange(i, i + all.len() as int)[k] == #[trigger] head[k]);
        }
        lemma_parse_lp_string_embed(s, i, ts[0]);
        let j = i + head.len() as int;
        let rest = sqls_payload(ts.skip(1));
        assert(s.subrange(j, j + rest.len() as int) =~= rest) by {
            assert(forall|k: int| 0 <= k < rest.len()
                ==> s.subrange(i, i + all.len() as int)[head.len() + k] == #[trigger] rest[k]);
        }
        lemma_parse_sqls_n_embed(s, j, ts.skip(1));
        assert(seq![ts[0]] + ts.skip(1) =~= ts);
    }
}

/// Command round trip: reading a written command gives the command back.
pub proof fn lemma_command_round_trip(c: CommandV)
    requires
        command_wf(c),
    ensures
        parse_command(command_bytes(c), 0) =~= Decoded::<CommandV>::Found(
            c,
            command_bytes(c).len() as int,
        ),
{
    let s = command_bytes(c);
    assert(s[0] == command_bytes(c)[0]);
    match c {
        CommandV::Ping => {},
        CommandV::Disconnect => {},
        CommandV::SimpleExecute(t) => {
            let enc = string_frame(t);
            assert(s.subrange(1, 1 + enc.len() as int) =~= enc);
            lemma_parse_lp_string_embed(s, 1, t);
        },
        CommandV::SimpleQuery(t) => {
            let enc = string_frame(t);
            assert(s.subrange(1, 1 + enc.len() as int) =~= enc);
            lemma_parse_lp_string_embed(s, 1, t);
        },
        CommandV::Transaction(ts) => {
            let lenb = varint_bytes(ts.len() as u64);
            assert(s.subrange(1, 1 + lenb.len() as int) =~= lenb);
            lemma_parse_len_embed(s, 1, ts.len() as u64);
            let j = 1 + lenb.len() as int;
            assert(s.subrange(j, j + sqls_payload(ts).len() as int) =~= sqls_payload(ts));
            lemma_parse_sqls_n_embed(s, j, ts);
        },
    }
}

} // verus!
