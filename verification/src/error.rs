//! Error values reported by the pattern compiler and by the matcher.

use vstd::prelude::*;

verus! {

/// Why a pattern source could not be compiled.
#[derive(Clone, Copy, Debug, PartialEq, Eq, Structural)]
pub enum CompileError {
    /// The source ends right after a backslash.
    DanglingEscape,
    /// A backslash is followed by a character other than `d`, `w` or `\`.
    UnsupportedEscape,
    /// A `[` is never closed by a `]`.
    UnterminatedCharacterSet,
}

/// Why a scan was given up without an answer.
///
/// Neither value means "no match": a scan that merely finds nothing
/// answers `Ok(false)`.
#[derive(Clone, Copy, Debug, PartialEq, Eq, Structural)]
pub enum MatchError {
    /// A start anchor that records position 0 was met after the first atom
    /// of a walk, a place where it cannot be acted on. A compiled pattern
    /// never holds such an atom; a sequence assembled by hand may.
    InvalidAtom,
    /// A walk failed on a start offset whose first character takes more
    /// than one unit of storage. The scan advances by one unit at a time,
    /// so the next offset would fall inside that character.
    MisalignedOffset,
}

/// Everything that can keep [`crate::match_pattern`] from answering.
#[derive(Clone, Copy, Debug, PartialEq, Eq, Structural)]
pub enum GrepError {
    /// The pattern did not compile.
    Compile(CompileError),
    /// The scan was given up.
    Match(MatchError),
}

} // verus!
