//! A verified codec and protocol core for a password-authenticated,
//! varint-framed wire protocol in front of an embedded SQL database.
//!
//! The library covers the framing primitives (varints, length-prefixed
//! bytes and text), the typed value codec with zig-zag signed integers,
//! the handshake frames (version, salts, hash parameters, authentication),
//! the command/status/query frames, and the per-command session decisions.
//! Network I/O and the SQL engine live outside the library and exchange
//! plain values with it.

use vstd::prelude::*;

pub mod codec;
pub mod command;
pub mod consts;
pub mod flags;
pub mod handshake;
pub mod hash;
pub mod query;
pub mod session;
pub mod status;
pub mod value;
pub mod varint;

verus! {

/// Everything that can go wrong while encoding, decoding, or
/// authenticating. Transport failures surface as `Eof` (a frame needed
/// more bytes than the buffer holds).
#[derive(Debug, Clone, Copy)]
pub enum Error {
    /// The buffer ended before the frame was complete.
    Eof,
    /// A varint ran past 64 bits of shift.
    Varint,
    /// A length-prefixed text payload was not valid UTF-8.
    Utf8,
    /// Hash parameters were out of range.
    Argon2Params,
    /// The key-derivation function itself failed.
    Argon2,
    /// A status frame carried an unknown tag.
    UnknownStatus(u8),
    /// A command frame carried an unknown tag.
    UnknownCommand(u8),
    /// A value carried an unknown tag.
    UnknownValue(u8),
    /// A query frame's value count did not fit its column count.
    InvalidValuesLength(usize, usize),
    /// The peer speaks a protocol major version this side does not.
    UnsupportedVersion(u8, u8),
}

} // verus!
