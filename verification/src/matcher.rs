//! The matcher: a scan of the input for the first start offset from
//! which an atom sequence can be walked to its end.

use crate::atom::{Atom, PatternKind};
use crate::compile::{compile, Regex};
use crate::cursor::{
    _peek_char, contains_char, is_alphanumeric, is_ascii_digit, match_alphanumeric, match_charset,
    match_digit, match_one_or_more, match_single_char, match_zero_or_more, run_length,
};
use crate::error::{GrepError, MatchError};
use crate::laws::match_outcome_is_never_invalid;
use crate::storage::is_single_unit;
use std::str::Chars;
use vstd::prelude::*;
use vstd::slice::slice_subrange;
use vstd::std_specs::iter::IteratorSpec;
use vstd::string::StrSliceExecFns;

verus! {

/// How the walk of an atom sequence over a text ends.
#[derive(Clone, Copy, Debug, PartialEq, Eq, Structural)]
pub enum Walk {
    /// Every atom was satisfied.
    Matched,
    /// An atom was not satisfied.
    Mismatch,
    /// The first atom is an active start anchor: the rest of the
    /// sequence has to be walked from the start of the input, once.
    Anchored,
    /// An active start anchor was met after the first atom.
    Invalid,
}

/// Whether an atom that takes exactly one character accepts `c`.
/// Quantified atoms and anchors are not of that kind and accept nothing
/// here.
pub open spec fn accepts(atom: Atom, c: char) -> bool {
    match atom {
        Atom::LiteralChar(x) => c == x,
        Atom::Wildcard => true,
        Atom::DigitClass => is_ascii_digit(c),
        Atom::AlphaNumericClass => is_alphanumeric(c),
        Atom::CharacterSet { literal, negated } => literal.contains(c) != negated,
        _ => false,
    }
}

/// What is left of `text` once `atom` has taken its characters from the
/// front, or `None` when `atom` is not satisfied there.
///
/// A quantified atom takes the whole run of its character, however long.
/// `OneOrMore` is satisfied by a run of one or more; `ZeroOrOne` by a run
/// of none or one, and by no longer run. An anchor takes nothing.
pub open spec fn consume(atom: Atom, text: Seq<char>) -> Option<Seq<char>> {
    match atom {
        Atom::OneOrMore(target) => {
            let run = run_length(text, target);
            if run >= 1 {
                Some(text.skip(run as int))
            } else {
                None
            }
        },
        Atom::ZeroOrOne(target) => {
            let run = run_length(text, target);
            if run <= 1 {
                Some(text.skip(run as int))
            } else {
                None
            }
        },
        Atom::StartAnchor(_) | Atom::EndAnchor(_) => Some(text),
        _ => if text.len() > 0 && accepts(atom, text[0]) {
            Some(text.drop_first())
        } else {
            None
        },
    }
}

/// The outcome of walking `atoms` from its atom `j` on over `text`, for a
/// pattern whose source has `pattern_len` characters.
///
/// An end anchor is active when the position it records is
/// `pattern_len - 1`; it is then satisfied only by an empty `text`. A
/// start anchor is active when it records position 0; the walk stops at
/// it. Any other anchor is passed over.
pub open spec fn walk(atoms: Seq<Atom>, pattern_len: nat, j: int, text: Seq<char>) -> Walk
    decreases atoms.len() - j,
{
    if j < 0 || j >= atoms.len() {
        Walk::Matched
    } else {
        match atoms[j] {
            Atom::StartAnchor(index) => if index != 0 {
                walk(atoms, pattern_len, j + 1, text)
            } else if j == 0 {
                Walk::Anchored
            } else {
                Walk::Invalid
            },
            Atom::EndAnchor(index) => if index + 1 == pattern_len && text.len() > 0 {
                Walk::Mismatch
            } else {
                walk(atoms, pattern_len, j + 1, text)
            },
            atom => match consume(atom, text) {
                Some(left) => walk(atoms, pattern_len, j + 1, left),
                None => Walk::Mismatch,
            },
        }
    }
}

/// The answer of a scan of `input` that has the start of character
/// `offset` and later start offsets still to try.
///
/// - With no start offset left, the answer is `false`: an empty input
///   matches nothing.
/// - A walk that succeeds answers `true` at once.
/// - A walk that stops at an active start anchor hands over to a scan
///   for the atoms after the anchor, which tries the first offset only.
/// - A walk that fails ends a scan that may not skip. One that may skip
///   goes on to the next offset, which lies one unit of storage further.
///   After a single-unit character that is the start of the next
///   character; after a wider one it is no start of a character, and the
///   scan is given up (see [`crate::storage`]).
pub open spec fn scan_from(
    input: Seq<char>,
    atoms: Seq<Atom>,
    pattern_len: nat,
    skip: bool,
    offset: int,
) -> Result<bool, MatchError>
    decreases atoms.len(), input.len() - offset,
    via scan_from_terminates
{
    if offset < 0 || offset >= input.len() {
        Ok(false)
    } else {
        match walk(atoms, pattern_len, 0, input.skip(offset)) {
            Walk::Matched => Ok(true),
            Walk::Anchored => scan_from(input, atoms.drop_first(), pattern_len, false, 0),
            Walk::Invalid => Err(MatchError::InvalidAtom),
            Walk::Mismatch => if !skip {
                Ok(false)
            } else if !is_single_unit(input[offset]) {
                Err(MatchError::MisalignedOffset)
            } else {
                scan_from(input, atoms, pattern_len, skip, offset + 1)
            },
        }
    }
}

#[via_fn]
proof fn scan_from_terminates(
    input: Seq<char>,
    atoms: Seq<Atom>,
    pattern_len: nat,
    skip: bool,
    offset: int,
) {
    if 0 <= offset < input.len() && walk(atoms, pattern_len, 0, input.skip(offset))
        == Walk::Anchored {
        assert(atoms.len() > 0);
    }
}

/// The answer of a scan of `input` for `atoms`, from the first start
/// offset on.
pub open spec fn scan(input: Seq<char>, atoms: Seq<Atom>, pattern_len: nat, skip: bool) -> Result<
    bool,
    MatchError,
> {
    scan_from(input, atoms, pattern_len, skip, 0)
}

/// The answer for an input line and a pattern source.
///
/// A source of exactly one character is never compiled: whatever the
/// character, the answer is whether the input holds it. Any other source
/// is compiled, and the input scanned for its atoms.
pub open spec fn match_outcome(input: Seq<char>, pattern: Seq<char>) -> Result<bool, GrepError> {
    if pattern.len() == 1 {
        Ok(input.contains(pattern[0]))
    } else {
        match compile(pattern) {
            Err(e) => Err(GrepError::Compile(e)),
            Ok(atoms) => match scan(input, atoms, pattern.len(), true) {
                Ok(found) => Ok(found),
                Err(e) => Err(GrepError::Match(e)),
            },
        }
    }
}

impl Regex {
    /// Walks `patterns` over the cursor.
    fn walk_atoms(&self, patterns: &[PatternKind], chars: &mut Chars) -> (outcome: Walk)
        ensures
            outcome == walk(
                patterns.deep_view(),
                self.pattern_len as nat,
                0,
                (*old(chars)).remaining(),
            ),
    {
        let ghost atoms = patterns.deep_view();
        let ghost pattern_len = self.pattern_len as nat;
        let ghost text = (*chars).remaining();
        let mut outcome = Walk::Matched;
        let mut j: usize = 0;
        while j < patterns.len()
            invariant_except_break
                outcome == Walk::Matched,
                j <= patterns@.len(),
                walk(atoms, pattern_len, 0, text) == walk(
                    atoms,
                    pattern_len,
                    j as int,
                    (*chars).remaining(),
                ),
            invariant
                atoms == patterns.deep_view(),
                pattern_len == self.pattern_len,
            ensures
                outcome == walk(atoms, pattern_len, 0, text),
            decreases patterns@.len() - j,
        {
            assert(atoms[j as int] == patterns@[j as int]@);
            let satisfied = match &patterns[j] {
                PatternKind::SingleChar(c) => match_single_char(chars, *c),
                PatternKind::AnyChar => chars.next().is_some(),
                PatternKind::Digit => match_digit(chars),
                PatternKind::AlphaNumeric => match_alphanumeric(chars),
                PatternKind::CharSet { literal, is_complement } => match_charset(
                    chars,
                    literal.as_str(),
                    *is_complement,
                ),
                PatternKind::OneOrMore(target) => match_one_or_more(chars, *target),
                PatternKind::ZeroOrOne(target) => match_zero_or_more(chars, *target),
                PatternKind::EndAnchor(index) => {
                    if self.pattern_len > 0 && *index == self.pattern_len - 1 {
                        _peek_char(chars).is_none()
                    } else {
                        true
                    }
                },
                PatternKind::StartAnchor(index) => {
                    if *index == 0 {
                        outcome = if j == 0 {
                            Walk::Anchored
                        } else {
                            Walk::Invalid
                        };
                        break ;
                    }
                    true
                },
            };
            if !satisfied {
                outcome = Walk::Mismatch;
                break ;
            }
            j = j + 1;
        }
        outcome
    }

    /// Scans `input` for `patterns`, which are the atoms of this pattern
    /// or the part of them still to be walked; of the pattern itself only
    /// the length of its source is read, to tell an active end anchor.
    /// With `is_skip` every start offset is tried in turn; without it,
    /// the first one only.
    pub fn match_input(&self, input: &str, patterns: &[PatternKind], is_skip: bool) -> (res: Result<
        bool,
        MatchError,
    >)
        ensures
            res == scan(input@, patterns.deep_view(), self.pattern_len as nat, is_skip),
        decreases patterns@.len(),
    {
        let ghost atoms = patterns.deep_view();
        let ghost pattern_len = self.pattern_len as nat;
        let ghost mut offset: int = 0;
        let mut start = input.chars();
        assert(input@.skip(0) =~= input@);
        loop
            invariant
                atoms == patterns.deep_view(),
                pattern_len == self.pattern_len,
                0 <= offset <= input@.len(),
                start.remaining() == input@.skip(offset),
                scan(input@, atoms, pattern_len, is_skip) == scan_from(
                    input@,
                    atoms,
                    pattern_len,
                    is_skip,
                    offset,
                ),
            decreases input@.len() - offset,
        {
            let mut iter = start.as_str().chars();
            let first = match start.next() {
                Some(c) => c,
                None => {
                    return Ok(false);
                },
            };
            assert(first == input@[offset]);
            assert(input@.skip(offset).drop_first() =~= input@.skip(offset + 1));
            match self.walk_atoms(patterns, &mut iter) {
                Walk::Matched => {
                    return Ok(true);
                },
                Walk::Anchored => {
                    let tail = slice_subrange(patterns, 1, patterns.len());
                    assert(tail.deep_view() =~= atoms.drop_first());
                    return self.match_input(input, tail, false);
                },
                Walk::Invalid => {
                    return Err(MatchError::InvalidAtom);
                },
                Walk::Mismatch => {
                    if !is_skip {
                        return Ok(false);
                    }
                    if first as u32 >= 0x80 {
                        return Err(MatchError::MisalignedOffset);
                    }
                    proof {
                        offset = offset + 1;
                    }
                },
            }
        }
    }
}

/// Says whether `input` matches `pattern`.
///
/// A pattern of one character is looked for as it stands, whatever the
/// character. A pattern that does not compile is reported, and so is a
/// scan that has to be given up; an invalid atom is never among the
/// reasons, since the atoms are compiled here.
pub fn match_pattern(input: &str, pattern: &str) -> (res: Result<bool, GrepError>)
    ensures
        res == match_outcome(input@, pattern@),
        pattern@.len() == 1 ==> res == Ok::<bool, GrepError>(input@.contains(pattern@[0])),
        res != Err::<bool, GrepError>(GrepError::Match(MatchError::InvalidAtom)),
{
    proof {
        match_outcome_is_never_invalid(input@, pattern@);
    }
    if pattern.unicode_len() == 1 {
        Ok(contains_char(input, pattern.get_char(0)))
    } else {
        match Regex::from_str(pattern) {
            Err(e) => Err(GrepError::Compile(e)),
            Ok(regex) => match regex.match_input(input, regex.pattern_vec.as_slice(), true) {
                Ok(found) => Ok(found),
                Err(e) => Err(GrepError::Match(e)),
            },
        }
    }
}

} // verus!
