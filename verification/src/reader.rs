//! Line assembly for the engine readers: bytes read one at a time from an
//! engine's output are accumulated until a line feed completes a line, and
//! a reader hands its stream back once it has seen a terminal line.

use vstd::prelude::*;

use crate::text::str_eq;

verus! {

/// True exactly of the three line values that end a backend's current
/// directive on the wire.
pub open spec fn spec_is_terminal_line(s: Seq<char>) -> bool {
    s == "702 END"@ || s == "703 STOP"@ || s == "704 PAUSE"@
}

/// Whether a decoded engine line is one of the three terminal lines.
pub fn is_terminal_line(line: &str) -> (r: bool)
    ensures
        r == spec_is_terminal_line(line@),
{
    str_eq(line, "702 END") || str_eq(line, "703 STOP") || str_eq(line, "704 PAUSE")
}

/// Accumulates the bytes of one engine output line until its line feed.
pub struct LineAccumulator {
    buffer: Vec<u8>,
}

impl View for LineAccumulator {
    type V = Seq<u8>;

    closed spec fn view(&self) -> Seq<u8> {
        self.buffer@
    }
}

impl LineAccumulator {
    /// An empty accumulator.
    pub fn new() -> (r: LineAccumulator)
        ensures
            r@ == Seq::<u8>::empty(),
    {
        LineAccumulator { buffer: Vec::new() }
    }

    /// Takes one byte from the stream: a line feed completes the line and
    /// hands its bytes out, emptying the accumulator; any other byte is
    /// appended.
    pub fn push_byte(&mut self, b: u8) -> (r: Option<Vec<u8>>)
        ensures
            b == 10 ==> (r matches Some(line) && line@ == old(self)@) && final(self)@ == Seq::<
                u8,
            >::empty(),
            b != 10 ==> r is None && final(self)@ == old(self)@.push(b),
    {
        if b == 10 {
            let line = core::mem::replace(&mut self.buffer, Vec::new());
            Some(line)
        } else {
            self.buffer.push(b);
            None
        }
    }
}

} // verus!
