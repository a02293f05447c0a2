//! The pattern compiler: from a pattern source to a sequence of atoms.
//!
//! The source is read once, left to right. Every step reads one atom,
//! which takes one or more source characters, and appends it; an anchor
//! records how many atoms stood before it.

use crate::atom::{Atom, PatternKind};
use crate::cursor::{_peek_char, lemma_run_length_is, run_length};
use crate::error::CompileError;
use std::str::Chars;
use vstd::prelude::*;
use vstd::std_specs::iter::IteratorSpec;
use vstd::string::StrSliceExecFns;

verus! {

/// The position of the first `]` of `s` at or after `from`, if there is
/// one.
pub open spec fn closing_bracket(s: Seq<char>, from: int) -> Option<int>
    decreases s.len() - from,
{
    if from < 0 || from >= s.len() {
        None
    } else if s[from] == ']' {
        Some(from)
    } else {
        closing_bracket(s, from + 1)
    }
}

/// The atom that starts at `pos` in `s`, for a sequence that holds
/// `index` atoms so far, and the position after it.
///
/// - `\d`, `\w` and `\\` are the digit class, the alphanumeric class and
///   a literal backslash; a backslash before anything else is refused.
/// - `^`, `$` and `.` are the two anchors, which record `index`, and the
///   wildcard.
/// - `[` opens a set, which runs to the next `]`. The `^`s right after
///   the `[` are not members: one or more of them complement the set.
/// - Any other character is a literal, or a quantified literal when a `+`
///   or a `?` follows it.
pub open spec fn parse_atom(s: Seq<char>, pos: int, index: nat) -> Result<(Atom, int), CompileError>
    recommends
        0 <= pos < s.len(),
{
    let c = s[pos];
    if c == '\\' {
        if pos + 1 >= s.len() {
            Err(CompileError::DanglingEscape)
        } else if s[pos + 1] == 'd' {
            Ok((Atom::DigitClass, pos + 2))
        } else if s[pos + 1] == 'w' {
            Ok((Atom::AlphaNumericClass, pos + 2))
        } else if s[pos + 1] == '\\' {
            Ok((Atom::LiteralChar('\\'), pos + 2))
        } else {
            Err(CompileError::UnsupportedEscape)
        }
    } else if c == '^' {
        Ok((Atom::StartAnchor(index), pos + 1))
    } else if c == '$' {
        Ok((Atom::EndAnchor(index), pos + 1))
    } else if c == '.' {
        Ok((Atom::Wildcard, pos + 1))
    } else if c == '[' {
        match closing_bracket(s, pos + 1) {
            None => Err(CompileError::UnterminatedCharacterSet),
            Some(close) => {
                let body = s.subrange(pos + 1, close);
                let carets = run_length(body, '^');
                Ok(
                    (
                        Atom::CharacterSet { literal: body.skip(carets as int), negated: carets > 0 },
                        close + 1,
                    ),
                )
            },
        }
    } else if pos + 1 < s.len() && s[pos + 1] == '+' {
        Ok((Atom::OneOrMore(c), pos + 2))
    } else if pos + 1 < s.len() && s[pos + 1] == '?' {
        Ok((Atom::ZeroOrOne(c), pos + 2))
    } else {
        Ok((Atom::LiteralChar(c), pos + 1))
    }
}

/// An atom ends after the position it starts at, and inside the source.
pub proof fn lemma_parse_atom_advances(s: Seq<char>, pos: int, index: nat)
    requires
        0 <= pos < s.len(),
    ensures
        parse_atom(s, pos, index) matches Ok((_, next)) ==> pos < next <= s.len(),
{
    if s[pos] == '[' {
        lemma_closing_bracket_found(s, pos + 1);
    }
}

/// What `closing_bracket` finds is a `]` at or after `from`, with no `]`
/// between `from` and it; when it finds nothing, there is no `]` from
/// `from` on.
pub proof fn lemma_closing_bracket_found(s: Seq<char>, from: int)
    requires
        0 <= from,
    ensures
        match closing_bracket(s, from) {
            Some(close) => from <= close < s.len() && s[close] == ']' && forall|i: int|
                from <= i < close ==> s[i] != ']',
            None => forall|i: int| from <= i < s.len() ==> s[i] != ']',
        },
    decreases s.len() - from,
{
    if from < s.len() && s[from] != ']' {
        lemma_closing_bracket_found(s, from + 1);
    }
}

/// The first `]` at or after `from` is at `close` when there is one at
/// `close` and none between `from` and `close`.
pub proof fn lemma_closing_bracket_is(s: Seq<char>, from: int, close: int)
    requires
        0 <= from <= close < s.len(),
        s[close] == ']',
        forall|i: int| from <= i < close ==> s[i] != ']',
    ensures
        closing_bracket(s, from) == Some(close),
    decreases close - from,
{
    if from < close {
        lemma_closing_bracket_is(s, from + 1, close);
    }
}

/// The atoms of `s` from `pos` on, appended to `acc`; or the first error
/// that reading them meets.
pub open spec fn compile_from(s: Seq<char>, pos: int, acc: Seq<Atom>) -> Result<
    Seq<Atom>,
    CompileError,
>
    decreases s.len() - pos,
    via compile_from_terminates
{
    if pos < 0 || pos >= s.len() {
        Ok(acc)
    } else {
        match parse_atom(s, pos, acc.len()) {
            Err(e) => Err(e),
            Ok((atom, next)) => compile_from(s, next, acc.push(atom)),
        }
    }
}

#[via_fn]
proof fn compile_from_terminates(s: Seq<char>, pos: int, acc: Seq<Atom>) {
    if 0 <= pos < s.len() {
        lemma_parse_atom_advances(s, pos, acc.len());
    }
}

/// The atom sequence of the pattern source `s`, or the reason why it has
/// none.
pub open spec fn compile(s: Seq<char>) -> Result<Seq<Atom>, CompileError> {
    compile_from(s, 0, Seq::empty())
}

/// Every anchor of `atoms` records its own position in `atoms`.
pub open spec fn anchors_in_place(atoms: Seq<Atom>) -> bool {
    forall|i: int|
        0 <= i < atoms.len() ==> match #[trigger] atoms[i] {
            Atom::StartAnchor(k) => k == i,
            Atom::EndAnchor(k) => k == i,
            _ => true,
        }
}

/// A compiled pattern.
#[derive(Debug, PartialEq, Eq)]
pub struct Regex {
    /// The atoms, in the order of the source.
    pub pattern_vec: Vec<PatternKind>,
    /// The length of the source, in characters.
    pub pattern_len: usize,
}

/// Reads the rest of a character set, whose `[` ends just before
/// `start`, and leaves the cursor after the closing `]`. Answers `None`
/// when the source ends before any `]`.
fn read_set(s: &str, chars: &mut Chars, start: usize) -> (res: Option<(PatternKind, usize)>)
    requires
        start <= s@.len() <= usize::MAX,
        (*old(chars)).remaining() == s@.skip(start as int),
    ensures
        match res {
            Some((atom, next)) => {
                &&& closing_bracket(s@, start as int) == Some(next - 1)
                &&& atom@ == (Atom::CharacterSet {
                    literal: s@.subrange(start as int, next - 1).skip(
                        run_length(s@.subrange(start as int, next - 1), '^') as int,
                    ),
                    negated: run_length(s@.subrange(start as int, next - 1), '^') > 0,
                })
                &&& (*final(chars)).remaining() == s@.skip(next as int)
            },
            None => closing_bracket(s@, start as int) is None,
        },
{
    let mut pos: usize = start;
    let mut first: usize = start;
    let mut is_complement = false;
    let mut res: Option<(PatternKind, usize)> = None;
    loop
        invariant_except_break
            res is None,
            start <= first <= pos <= s@.len() <= usize::MAX,
            (*chars).remaining() == s@.skip(pos as int),
            forall|i: int| start <= i < pos ==> s@[i] != ']',
            forall|i: int| start <= i < first ==> s@[i] == '^',
            first < pos ==> s@[first as int] != '^',
            is_complement == (first > start),
        ensures
            match res {
                Some((atom, next)) => {
                    &&& closing_bracket(s@, start as int) == Some(next - 1)
                    &&& atom@ == (Atom::CharacterSet {
                        literal: s@.subrange(start as int, next - 1).skip(
                            run_length(s@.subrange(start as int, next - 1), '^') as int,
                        ),
                        negated: run_length(s@.subrange(start as int, next - 1), '^') > 0,
                    })
                    &&& (*chars).remaining() == s@.skip(next as int)
                },
                None => closing_bracket(s@, start as int) is None,
            },
        decreases s@.len() - pos,
    {
        match chars.next() {
            None => {
                proof {
                    lemma_closing_bracket_found(s@, start as int);
                }
                break ;
            },
            Some(cc) => {
                assert(cc == s@[pos as int]);
                assert(s@.skip(pos as int).drop_first() =~= s@.skip(pos + 1));
                if cc == '^' && first == pos {
                    is_complement = true;
                    first = pos + 1;
                } else if cc == ']' {
                    let literal = s.substring_char(first, pos).to_owned();
                    proof {
                        let body = s@.subrange(start as int, pos as int);
                        lemma_closing_bracket_is(s@, start as int, pos as int);
                        lemma_run_length_is(body, '^', first - start);
                        assert(body.skip(first - start) =~= s@.subrange(first as int, pos as int));
                    }
                    res = Some((PatternKind::CharSet { literal, is_complement }, pos + 1));
                    break ;
                }
                pos = pos + 1;
            },
        }
    }
    res
}

/// Appends `atom` to `atoms`.
fn append(atoms: &mut Vec<PatternKind>, atom: PatternKind)
    ensures
        final(atoms).deep_view() == old(atoms).deep_view().push(atom@),
        final(atoms).len() == old(atoms).len() + 1,
{
    atoms.push(atom);
    assert(atoms.deep_view() =~= old(atoms).deep_view().push(atom@));
}

impl Regex {
    /// The atoms of this pattern, as mathematical values.
    pub open spec fn atoms(&self) -> Seq<Atom> {
        self.pattern_vec.deep_view()
    }

    /// What holds of every pattern that [`Regex::from_str`] hands out:
    /// each anchor records its own position, and there are no more atoms
    /// than source characters.
    pub open spec fn well_formed(&self) -> bool {
        &&& anchors_in_place(self.atoms())
        &&& self.atoms().len() <= self.pattern_len
    }

    /// Compiles the pattern source `s`: answers the atoms that
    /// [`compile`] gives for it, with the length of `s`, or the error
    /// that [`compile`] gives, and no partial result.
    pub fn from_str(s: &str) -> (res: Result<Regex, CompileError>)
        ensures
            match res {
                Ok(regex) => {
                    &&& compile(s@) == Ok::<Seq<Atom>, CompileError>(regex.atoms())
                    &&& regex.pattern_len == s@.len()
                    &&& regex.well_formed()
                },
                Err(e) => compile(s@) == Err::<Seq<Atom>, CompileError>(e),
            },
    {
        let pattern_len = s.unicode_len();
        let mut iterator = s.chars();
        let mut pattern_buffer: Vec<PatternKind> = Vec::new();
        let mut index: usize = 0;
        let mut pos: usize = 0;
        assert(s@.skip(0) =~= s@);
        assert(pattern_buffer.deep_view() =~= Seq::<Atom>::empty());
        loop
            invariant
                pattern_len == s@.len(),
                index == pattern_buffer.len(),
                index <= pos <= pattern_len,
                iterator.remaining() == s@.skip(pos as int),
                compile(s@) == compile_from(s@, pos as int, pattern_buffer.deep_view()),
                anchors_in_place(pattern_buffer.deep_view()),
            ensures
                pos == pattern_len,
            decreases pattern_len - pos,
        {
            let ghost at = pos as int;
            let c = match iterator.next() {
                Some(c) => c,
                None => {
                    assert(s@.skip(at).len() == 0);
                    break ;
                },
            };
            assert(c == s@[at]);
            assert(s@.skip(at).drop_first() =~= s@.skip(at + 1));
            pos = pos + 1;
            let pattern = if c == '\\' {
                match iterator.next() {
                    None => {
                        return Err(CompileError::DanglingEscape);
                    },
                    Some(escaped) => {
                        assert(escaped == s@[at + 1]);
                        assert(s@.skip(at + 1).drop_first() =~= s@.skip(at + 2));
                        pos = pos + 1;
                        if escaped == 'd' {
                            PatternKind::Digit
                        } else if escaped == 'w' {
                            PatternKind::AlphaNumeric
                        } else if escaped == '\\' {
                            PatternKind::SingleChar('\\')
                        } else {
                            return Err(CompileError::UnsupportedEscape);
                        }
                    },
                }
            } else if c == '^' {
                PatternKind::StartAnchor(index)
            } else if c == '$' {
                PatternKind::EndAnchor(index)
            } else if c == '.' {
                PatternKind::AnyChar
            } else if c == '[' {
                match read_set(s, &mut iterator, pos) {
                    None => {
                        return Err(CompileError::UnterminatedCharacterSet);
                    },
                    Some((set, next)) => {
                        pos = next;
                        set
                    },
                }
            } else {
                match _peek_char(&mut iterator) {
                    Some(quantifier) if quantifier == '+' || quantifier == '?' => {
                        iterator.next();
                        assert(s@.skip(at + 1).drop_first() =~= s@.skip(at + 2));
                        pos = pos + 1;
                        if quantifier == '+' {
                            PatternKind::OneOrMore(c)
                        } else {
                            PatternKind::ZeroOrOne(c)
                        }
                    },
                    _ => PatternKind::SingleChar(c),
                }
            };
            let ghost atom = pattern@;
            proof {
                lemma_parse_atom_advances(s@, at, index as nat);
                assert(parse_atom(s@, at, index as nat) == Ok::<(Atom, int), CompileError>(
                    (atom, pos as int),
                ));
            }
            append(&mut pattern_buffer, pattern);
            index = index + 1;
        }
        Ok(Regex { pattern_vec: pattern_buffer, pattern_len })
    }
}

} // verus!
