//! Open-mode flags: a signed 32-bit bitfield in the embedded database's
//! convention. The protocol carries the bits opaquely; the backend
//! interprets them when a database is opened.

use vstd::prelude::*;
use crate::consts::{
    SQLITE_OPEN_CREATE, SQLITE_OPEN_NOMUTEX, SQLITE_OPEN_READWRITE, SQLITE_OPEN_URI,
};

verus! {

/// A bitfield of open modes.
#[derive(Clone, Copy, Debug, Hash)]
pub struct Flags {
    bits: i32,
}

impl View for Flags {
    type V = i32;

    closed spec fn view(&self) -> i32 {
        self.bits
    }
}

impl Flags {
    /// No bits set.
    pub fn empty() -> (f: Flags)
        ensures
            f@ == 0,
    {
        Flags { bits: 0 }
    }

    /// Adopt raw bits from the wire.
    pub fn from_flags(bits: i32) -> (f: Flags)
        ensures
            f@ == bits,
    {
        Flags { bits }
    }

    /// The raw bits.
    pub fn bits(&self) -> (b: i32)
        ensures
            b == self@,
    {
        self.bits
    }

    /// Set or clear one flag.
    pub fn set(&mut self, flag: i32, value: bool)
        ensures
            value ==> final(self)@ == (old(self)@ | flag),
            !value ==> final(self)@ == (old(self)@ & !flag),
    {
        if value {
            self.bits = self.bits | flag;
        } else {
            self.bits = self.bits & !flag;
        }
    }

    /// Whether every bit of `flag` is set.
    pub fn contains(&self, flag: i32) -> (r: bool)
        ensures
            r == ((self@ & flag) == flag),
    {
        (self.bits & flag) == flag
    }
}

/// The client's default open mode: read-write, create if missing, no
/// engine-level mutex, URI filenames.
impl Default for Flags {
    fn default() -> (f: Flags)
        ensures
            f@ == (SQLITE_OPEN_READWRITE | SQLITE_OPEN_CREATE | SQLITE_OPEN_NOMUTEX
                | SQLITE_OPEN_URI),
    {
        let mut flags = Flags::empty();
        flags.set(SQLITE_OPEN_READWRITE, true);
        flags.set(SQLITE_OPEN_CREATE, true);
        flags.set(SQLITE_OPEN_NOMUTEX, true);
        flags.set(SQLITE_OPEN_URI, true);
        proof {
            assert((((0i32 | 0x00000002) | 0x00000004) | 0x00008000) | 0x00000040 == (0x00000002i32
                | 0x00000004) | 0x00008000 | 0x00000040) by (bit_vector);
        }
        flags
    }
}

} // verus!
