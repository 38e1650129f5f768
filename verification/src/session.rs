//! The per-connection session: after the handshake the server reads one
//! command, produces exactly its response bytes, and repeats until a
//! disconnect. The decisions live here as pure functions from a command
//! and the backend's outcome to the bytes that go on the wire; the caller
//! performs the I/O and the backend calls.

use vstd::prelude::*;
use crate::codec::FrameWriter;
use crate::command::{Command, CommandV};
use crate::query::{Query, query_bytes, write_query};
use crate::status::{Status, StatusV, status_bytes, write_status};

verus! {

/// What the session does with one command: answer with bytes, run a
/// backend call first, or close the connection (for which nothing at all
/// is written).
pub enum SessionAction {
    Respond(Vec<u8>),
    RunExecute(String),
    RunQuery(String),
    RunTransaction(Vec<String>),
    Close,
}

/// Decide a command. A ping needs no backend and is answered with exactly
/// one success status; a disconnect closes the connection with zero
/// response bytes; the rest name the backend call to make, whose outcome
/// the reply builders below turn into bytes.
pub fn session_dispatch(cmd: Command) -> (a: SessionAction)
    ensures
        cmd@ is Ping ==> (a matches SessionAction::Respond(b) && b@ == status_bytes(StatusV::Okay)),
        cmd@ is Disconnect ==> a is Close,
        cmd@ matches CommandV::SimpleExecute(t) ==> (a matches SessionAction::RunExecute(sql)
            && sql@ == t),
        cmd@ matches CommandV::SimpleQuery(t) ==> (a matches SessionAction::RunQuery(sql)
            && sql@ == t),
        cmd@ matches CommandV::Transaction(ts) ==> (a matches SessionAction::RunTransaction(sqls)
            && crate::command::sqls_view(sqls@) == ts),
{
    match cmd {
        Command::Ping => {
            let mut w = FrameWriter::new();
            write_status(&mut w, &Status::Okay);
            SessionAction::Respond(w.buf)
        },
        Command::Disconnect => SessionAction::Close,
        Command::SimpleExecute { sql } => SessionAction::RunExecute(sql),
        Command::SimpleQuery { sql } => SessionAction::RunQuery(sql),
        Command::Transaction { sqls } => SessionAction::RunTransaction(sqls),
    }
}

/// The response to an execute or transaction outcome: one status frame,
/// success or the backend's message.
pub fn status_reply(outcome: Result<(), String>) -> (b: Vec<u8>)
    ensures
        outcome is Ok ==> b@ == status_bytes(StatusV::Okay),
        outcome matches Err(m) ==> b@ == status_bytes(StatusV::Failed(m@)),
{
    let mut w = FrameWriter::new();
    match outcome {
        Ok(()) => write_status(&mut w, &Status::Okay),
        Err(m) => write_status(&mut w, &Status::Failed(m)),
    }
    w.buf
}

/// The response to a query outcome: on success one success status
/// followed by exactly one query frame; on a backend error exactly one
/// failure status and no query frame.
pub fn query_reply(outcome: Result<Query, String>) -> (b: Vec<u8>)
    ensures
        outcome matches Ok(q) ==> b@ == status_bytes(StatusV::Okay) + query_bytes(q@),
        outcome matches Err(m) ==> b@ == status_bytes(StatusV::Failed(m@)),
{
    let mut w = FrameWriter::new();
    match outcome {
        Ok(q) => {
            write_status(&mut w, &Status::Okay);
            write_query(&mut w, &q);
        },
        Err(m) => write_status(&mut w, &Status::Failed(m)),
    }
    w.buf
}

/// The message the server sends when the hashed passwords differ.
pub open spec fn auth_failure_text() -> Seq<char> {
    "Password verification failed"@
}

/// The server's answer to the authentication step: on a matching hash a
/// success status and the session goes on; otherwise a failure status
/// carrying the fixed message, after which the connection closes.
pub fn auth_response(hash_matches: bool) -> (r: (Vec<u8>, bool))
    ensures
        hash_matches ==> r.0@ == status_bytes(StatusV::Okay) && r.1,
        !hash_matches ==> r.0@ == status_bytes(StatusV::Failed(auth_failure_text())) && !r.1,
{
    let mut w = FrameWriter::new();
    if hash_matches {
        write_status(&mut w, &Status::Okay);
        (w.buf, true)
    } else {
        let msg: String = "Password verification failed".to_owned();
        write_status(&mut w, &Status::Failed(msg));
        (w.buf, false)
    }
}

/// The server's answer to the open step: on a successful backend open a
/// success status and the session goes on; otherwise a failure status
/// with the backend's message, after which the connection closes.
pub fn open_response(outcome: Result<(), String>) -> (r: (Vec<u8>, bool))
    ensures
        outcome is Ok ==> r.0@ == status_bytes(StatusV::Okay) && r.1,
        outcome matches Err(m) ==> r.0@ == status_bytes(StatusV::Failed(m@)) && !r.1,
{
    let mut w = FrameWriter::new();
    match outcome {
        Ok(()) => {
            write_status(&mut w, &Status::Okay);
            (w.buf, true)
        },
        Err(m) => {
            write_status(&mut w, &Status::Failed(m));
            (w.buf, false)
        },
    }
}

} // verus!
