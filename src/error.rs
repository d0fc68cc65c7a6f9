//! Errors of the line-notation parser and of the pattern compiler.

use vstd::prelude::*;

verus! {

/// Why a line-notation string or a pattern was refused. Offsets count
/// characters from the start of the input.
#[derive(Clone, Copy, Debug, PartialEq, Eq, Structural)]
pub enum Error {
    /// An unrecognized character at this offset.
    Character(usize),
    /// The grammar needed another character but the input had ended.
    EndOfLine,
    /// A `)` at this offset closes no open branch.
    UnmatchedBranch(usize),
    /// A `(` or `.` at this offset has no atom before it to branch from or
    /// to end a fragment.
    EmptyBranch(usize),
    /// The input ended inside a branch opened at this offset.
    UnclosedBranch(usize),
    /// The input ended with this ring-closure number still open.
    UnclosedRing(u8),
    /// A malformed or out-of-range number starts at this offset.
    InvalidNumber(usize),
    /// An atomic number outside `1..=118` starts at this offset.
    AtomicNumber(usize),
    /// A pattern construct at this offset cannot be compiled.
    Compile(usize),
}

} // verus!
