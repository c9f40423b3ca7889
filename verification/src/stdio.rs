//! Byte-stream endpoints and the traits they share. The standard streams
//! are handles whose actual transport lives outside the library; the traits
//! carry the read/write shape that resources and sinks agree on.

use vstd::prelude::*;

verus! {

/// A failed stream operation.
#[derive(Clone, Copy, Debug, PartialEq, Eq, Structural)]
pub struct Error;

/// Types a byte stream can be read from. `read` fills a prefix of `buf` and
/// reports how many bytes it placed there, or nothing on failure; it never
/// resizes the buffer.
pub trait Read {
    /// The reader's soundness condition, preserved by reading.
    spec fn inv(&self) -> bool;

    fn read(&mut self, buf: &mut Vec<u8>) -> (r: Option<usize>)
        requires
            old(self).inv(),
        ensures
            final(self).inv(),
            final(buf)@.len() == old(buf)@.len(),
            r matches Some(n) ==> n <= old(buf)@.len(),
    ;
}

/// Types a byte stream can be written to. `write` consumes a prefix of
/// `buf` and reports how many bytes it took, or nothing on failure.
pub trait Write {
    /// The writer's soundness condition, preserved by writing.
    spec fn inv(&self) -> bool;

    fn write(&mut self, buf: &Vec<u8>) -> (r: Option<usize>)
        requires
            old(self).inv(),
        ensures
            final(self).inv(),
            r matches Some(n) ==> n <= buf@.len(),
    ;
}

/// Standard input.
#[derive(Clone, Copy, Debug, PartialEq, Eq, Structural)]
pub struct Stdin;

/// A handle on standard input.
pub fn stdin() -> (r: Stdin)
    ensures
        r == (Stdin {  }),
{
    Stdin
}

/// Standard output.
#[derive(Clone, Copy, Debug, PartialEq, Eq, Structural)]
pub struct Stdout;

/// A handle on standard output.
pub fn stdout() -> (r: Stdout)
    ensures
        r == (Stdout {  }),
{
    Stdout
}

/// Standard error.
#[derive(Clone, Copy, Debug, PartialEq, Eq, Structural)]
pub struct Stderr;

/// A handle on standard error.
pub fn stderr() -> (r: Stderr)
    ensures
        r == (Stderr {  }),
{
    Stderr
}

} // verus!
