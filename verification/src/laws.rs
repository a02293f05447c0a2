//! What holds of the compiler and the matcher on every input.

use crate::atom::Atom;
use crate::compile::{
    anchors_in_place, closing_bracket, compile, compile_from, lemma_closing_bracket_found,
    lemma_closing_bracket_is, lemma_parse_atom_advances, parse_atom,
};
use crate::cursor::run_length;
use crate::error::{CompileError, GrepError, MatchError};
use crate::matcher::{consume, match_outcome, scan, scan_from, walk, Walk};
use crate::storage::is_single_unit;
use vstd::prelude::*;

verus! {

/// Whether no atom of `atoms` after the first is a start anchor that
/// records position 0.
pub open spec fn start_anchor_leads(atoms: Seq<Atom>) -> bool {
    forall|i: int| 0 < i < atoms.len() ==> #[trigger] atoms[i] != Atom::StartAnchor(0)
}

/// Whether `offset` is a start offset of `input` from which `atoms` can
/// be walked to the end.
pub open spec fn walks_from(
    input: Seq<char>,
    atoms: Seq<Atom>,
    pattern_len: nat,
    offset: int,
) -> bool {
    0 <= offset < input.len() && walk(atoms, pattern_len, 0, input.skip(offset)) == Walk::Matched
}

/// Whether no atom of `atoms` is a start anchor that records position 0.
pub open spec fn no_active_start_anchor(atoms: Seq<Atom>) -> bool {
    forall|i: int| 0 <= i < atoms.len() ==> #[trigger] atoms[i] != Atom::StartAnchor(0)
}

/// Reading on from `pos` keeps what `acc` holds: when `acc` has its
/// anchors in place and no more atoms than `pos` characters, so has the
/// result.
proof fn lemma_compile_from_keeps_shape(s: Seq<char>, pos: int, acc: Seq<Atom>)
    requires
        0 <= pos <= s.len(),
        acc.len() <= pos,
        anchors_in_place(acc),
    ensures
        compile_from(s, pos, acc) matches Ok(atoms) ==> anchors_in_place(atoms) && atoms.len()
            <= s.len(),
    decreases s.len() - pos,
{
    if pos < s.len() {
        lemma_parse_atom_advances(s, pos, acc.len());
        if let Ok((atom, next)) = parse_atom(s, pos, acc.len()) {
            lemma_compile_from_keeps_shape(s, next, acc.push(atom));
        }
    }
}

/// In a compiled pattern every anchor records its own position in the
/// atom sequence, and there are no more atoms than source characters.
pub proof fn compiled_anchors_are_in_place(pattern: Seq<char>)
    ensures
        compile(pattern) matches Ok(atoms) ==> anchors_in_place(atoms) && atoms.len()
            <= pattern.len(),
{
    lemma_compile_from_keeps_shape(pattern, 0, Seq::empty());
}

/// In a compiled pattern an end anchor can be active only as the last
/// atom, and only when every atom before it was read from a single
/// source character: an active end anchor records the last source
/// position, and no atom stands at a later position than that.
pub proof fn active_end_anchor_is_last(pattern: Seq<char>, i: int)
    requires
        compile(pattern) is Ok,
        0 <= i < compile(pattern)->Ok_0.len(),
        compile(pattern)->Ok_0[i] == Atom::EndAnchor((pattern.len() - 1) as nat),
    ensures
        i == pattern.len() - 1,
        compile(pattern)->Ok_0.len() == pattern.len(),
{
    compiled_anchors_are_in_place(pattern);
}

/// The atom read at `pos` is the same in `s` and in a longer source that
/// starts with `s`, as long as what follows `s` there does not start with
/// a quantifier.
proof fn lemma_parse_atom_in_prefix(s: Seq<char>, ext: Seq<char>, pos: int, index: nat)
    requires
        0 <= pos < s.len(),
        parse_atom(s, pos, index) is Ok,
        ext.len() > 0 ==> ext[0] != '+' && ext[0] != '?',
    ensures
        parse_atom(s + ext, pos, index) == parse_atom(s, pos, index),
{
    let t = s + ext;
    assert(t[pos] == s[pos]);
    if pos + 1 < s.len() {
        assert(t[pos + 1] == s[pos + 1]);
    } else if ext.len() > 0 {
        assert(t[pos + 1] == ext[0]);
    }
    if s[pos] == '[' {
        lemma_closing_bracket_found(s, pos + 1);
        let close = closing_bracket(s, pos + 1)->0;
        assert forall|i: int| pos + 1 <= i < close implies t[i] != ']' by {
            assert(t[i] == s[i]);
        }
        assert(t[close] == s[close]);
        lemma_closing_bracket_is(t, pos + 1, close);
        assert(t.subrange(pos + 1, close) =~= s.subrange(pos + 1, close));
    }
}

/// Compiling a source that starts with a source `s` which compiles, and
/// goes on with anything but a quantifier, first yields the atoms of `s`
/// and then reads on from the end of `s`.
proof fn lemma_compile_from_in_prefix(s: Seq<char>, ext: Seq<char>, pos: int, acc: Seq<Atom>)
    requires
        0 <= pos <= s.len(),
        compile_from(s, pos, acc) is Ok,
        ext.len() > 0 ==> ext[0] != '+' && ext[0] != '?',
    ensures
        compile_from(s + ext, pos, acc) == compile_from(
            s + ext,
            s.len() as int,
            compile_from(s, pos, acc)->Ok_0,
        ),
    decreases s.len() - pos,
{
    if pos < s.len() {
        lemma_parse_atom_advances(s, pos, acc.len());
        lemma_parse_atom_in_prefix(s, ext, pos, acc.len());
        let (atom, next) = parse_atom(s, pos, acc.len())->Ok_0;
        lemma_compile_from_in_prefix(s, ext, next, acc.push(atom));
    }
}

/// A set that is opened and never closed is an error, whatever stands
/// before it: when `prefix` compiles and `body` holds no `]`, the source
/// made of `prefix`, a `[` and `body` does not compile, for want of the
/// closing bracket.
pub proof fn unterminated_set_is_refused(prefix: Seq<char>, body: Seq<char>)
    requires
        compile(prefix) is Ok,
        !body.contains(']'),
    ensures
        compile(prefix + seq!['['] + body) == Err::<Seq<Atom>, CompileError>(
            CompileError::UnterminatedCharacterSet,
        ),
{
    let ext = seq!['['] + body;
    let t = prefix + ext;
    assert(t =~= prefix + seq!['['] + body);
    lemma_compile_from_in_prefix(prefix, ext, 0, Seq::empty());
    let at = prefix.len() as int;
    assert(t[at] == '[');
    lemma_closing_bracket_found(t, at + 1);
    if let Some(close) = closing_bracket(t, at + 1) {
        assert(t[close] == body[close - at - 1]);
        assert(body.contains(']'));
    }
}

/// Reading from an atom start at or before an unclosed `[` ends in an
/// error: no atom ends after the bracket without meeting it.
proof fn lemma_unclosed_bracket_stops_reading(s: Seq<char>, at: int, pos: int, acc: Seq<Atom>)
    requires
        0 <= pos <= at < s.len(),
        s[at] == '[',
        forall|i: int| at < i < s.len() ==> s[i] != ']',
    ensures
        compile_from(s, pos, acc) is Err,
    decreases at - pos,
{
    lemma_closing_bracket_found(s, pos + 1);
    if let Ok((atom, next)) = parse_atom(s, pos, acc.len()) {
        lemma_unclosed_bracket_stops_reading(s, at, next, acc.push(atom));
    }
}

/// No source with an unclosed set compiles, in part or in whole: when a
/// `[` has no `]` anywhere after it, compiling ends in an error, whatever
/// stands before the bracket.
pub proof fn unclosed_bracket_never_compiles(s: Seq<char>, at: int)
    requires
        0 <= at < s.len(),
        s[at] == '[',
        forall|i: int| at < i < s.len() ==> s[i] != ']',
    ensures
        compile(s) is Err,
{
    lemma_unclosed_bracket_stops_reading(s, at, 0, Seq::empty());
}

/// A backslash at the very end is an error, whatever stands before it:
/// when `prefix` compiles, `prefix` followed by a lone `\` does not, for
/// want of the escaped character.
pub proof fn dangling_escape_is_refused(prefix: Seq<char>)
    requires
        compile(prefix) is Ok,
    ensures
        compile(prefix.push('\\')) == Err::<Seq<Atom>, CompileError>(CompileError::DanglingEscape),
{
    let ext = seq!['\\'];
    let t = prefix + ext;
    assert(t =~= prefix.push('\\'));
    lemma_compile_from_in_prefix(prefix, ext, 0, Seq::empty());
    assert(t[prefix.len() as int] == '\\');
}

/// A backslash before a character that cannot be escaped is an error,
/// whatever stands around it: when `prefix` compiles and `escaped` is
/// none of `d`, `w` and `\`, the source made of `prefix`, a `\`,
/// `escaped` and any `suffix` does not compile.
pub proof fn unsupported_escape_is_refused(prefix: Seq<char>, escaped: char, suffix: Seq<char>)
    requires
        compile(prefix) is Ok,
        escaped != 'd' && escaped != 'w' && escaped != '\\',
    ensures
        compile(prefix + seq!['\\', escaped] + suffix) == Err::<Seq<Atom>, CompileError>(
            CompileError::UnsupportedEscape,
        ),
{
    let ext = seq!['\\', escaped] + suffix;
    let t = prefix + ext;
    assert(t =~= prefix + seq!['\\', escaped] + suffix);
    lemma_compile_from_in_prefix(prefix, ext, 0, Seq::empty());
    let at = prefix.len() as int;
    assert(t[at] == '\\');
    assert(t[at + 1] == escaped);
}

/// A run is never longer than the text it starts, so that what a
/// quantified atom leaves is a part of that text.
pub proof fn run_stays_within_text(text: Seq<char>, target: char)
    ensures
        run_length(text, target) <= text.len(),
    decreases text.len(),
{
    if text.len() > 0 && text[0] == target {
        run_stays_within_text(text.drop_first(), target);
    }
}

/// `OneOrMore` needs one occurrence: it is satisfied exactly when the
/// text starts with its character.
pub proof fn one_or_more_needs_one(target: char, text: Seq<char>)
    ensures
        consume(Atom::OneOrMore(target), text) is Some <==> text.len() > 0 && text[0] == target,
{
}

/// `ZeroOrOne` refuses a run of two: it is satisfied exactly when the
/// text does not start with its character twice.
pub proof fn zero_or_one_refuses_two(target: char, text: Seq<char>)
    ensures
        consume(Atom::ZeroOrOne(target), text) is None <==> text.len() >= 2 && text[0] == target
            && text[1] == target,
{
    if text.len() > 0 && text[0] == target {
        let tail = text.drop_first();
        if tail.len() > 0 {
            assert(tail[0] == text[1]);
        }
        assert(run_length(text, target) == 1 + run_length(tail, target));
    }
}

/// A walk meets no invalid atom when the only start anchor that records
/// position 0 is the first atom, and it stops at a start anchor only if
/// it sets out from that first atom.
proof fn lemma_walk_is_valid(atoms: Seq<Atom>, pattern_len: nat, j: int, text: Seq<char>)
    requires
        start_anchor_leads(atoms),
        0 <= j,
    ensures
        walk(atoms, pattern_len, j, text) != Walk::Invalid,
        j > 0 || no_active_start_anchor(atoms) ==> walk(atoms, pattern_len, j, text)
            != Walk::Anchored,
    decreases atoms.len() - j,
{
    if j < atoms.len() {
        match atoms[j] {
            Atom::StartAnchor(index) => {
                if index != 0 {
                    lemma_walk_is_valid(atoms, pattern_len, j + 1, text);
                }
            },
            Atom::EndAnchor(index) => {
                lemma_walk_is_valid(atoms, pattern_len, j + 1, text);
            },
            atom => {
                if let Some(left) = consume(atom, text) {
                    lemma_walk_is_valid(atoms, pattern_len, j + 1, left);
                }
            },
        }
    }
}

/// A scan meets no invalid atom when the only start anchor that records
/// position 0 is the first atom.
proof fn lemma_scan_is_valid(
    input: Seq<char>,
    atoms: Seq<Atom>,
    pattern_len: nat,
    skip: bool,
    offset: int,
)
    requires
        start_anchor_leads(atoms),
    ensures
        scan_from(input, atoms, pattern_len, skip, offset) != Err::<bool, MatchError>(
            MatchError::InvalidAtom,
        ),
    decreases atoms.len(), input.len() - offset,
{
    if 0 <= offset < input.len() {
        lemma_walk_is_valid(atoms, pattern_len, 0, input.skip(offset));
        match walk(atoms, pattern_len, 0, input.skip(offset)) {
            Walk::Anchored => {
                let tail = atoms.drop_first();
                assert forall|i: int| 0 < i < tail.len() implies #[trigger] tail[i]
                    != Atom::StartAnchor(0) by {
                    assert(tail[i] == atoms[i + 1]);
                }
                lemma_scan_is_valid(input, tail, pattern_len, false, 0);
            },
            Walk::Mismatch => {
                if skip && is_single_unit(input[offset]) {
                    lemma_scan_is_valid(input, atoms, pattern_len, skip, offset + 1);
                }
            },
            _ => {},
        }
    }
}

/// Atoms whose anchors are in place are never invalid for the matcher:
/// no scan for them ends in `InvalidAtom`.
pub proof fn anchors_in_place_are_valid(
    input: Seq<char>,
    atoms: Seq<Atom>,
    pattern_len: nat,
    skip: bool,
)
    requires
        anchors_in_place(atoms),
    ensures
        scan(input, atoms, pattern_len, skip) != Err::<bool, MatchError>(MatchError::InvalidAtom),
{
    lemma_scan_is_valid(input, atoms, pattern_len, skip, 0);
}

/// After a leading start anchor has handed over, no second handing over
/// takes place: for atoms whose anchors are in place, the walk of the
/// atoms after the first never stops at a start anchor.
pub proof fn anchored_at_most_once(atoms: Seq<Atom>, pattern_len: nat, text: Seq<char>)
    requires
        anchors_in_place(atoms),
        atoms.len() > 0,
    ensures
        walk(atoms.drop_first(), pattern_len, 0, text) != Walk::Anchored,
        walk(atoms.drop_first(), pattern_len, 0, text) != Walk::Invalid,
{
    let tail = atoms.drop_first();
    assert(no_active_start_anchor(tail)) by {
        assert forall|i: int| 0 <= i < tail.len() implies #[trigger] tail[i]
            != Atom::StartAnchor(0) by {
            assert(tail[i] == atoms[i + 1]);
        }
    }
    lemma_walk_is_valid(tail, pattern_len, 0, text);
}

/// A scan that may skip, from `offset` on, over single-unit characters
/// and for atoms without an active start anchor, answers whether there
/// is an offset at or after `offset` from which the atoms can be walked.
proof fn lemma_scan_from_finds_any_offset(
    input: Seq<char>,
    atoms: Seq<Atom>,
    pattern_len: nat,
    offset: int,
)
    requires
        0 <= offset,
        forall|i: int| 0 <= i < input.len() ==> is_single_unit(#[trigger] input[i]),
        no_active_start_anchor(atoms),
    ensures
        scan_from(input, atoms, pattern_len, true, offset) == Ok::<bool, MatchError>(
            exists|k: int| offset <= k && #[trigger] walks_from(input, atoms, pattern_len, k),
        ),
    decreases input.len() - offset,
{
    if offset < input.len() {
        lemma_walk_is_valid(atoms, pattern_len, 0, input.skip(offset));
        if walk(atoms, pattern_len, 0, input.skip(offset)) == Walk::Matched {
            assert(walks_from(input, atoms, pattern_len, offset));
        } else {
            lemma_scan_from_finds_any_offset(input, atoms, pattern_len, offset + 1);
            assert forall|k: int| offset <= k && #[trigger] walks_from(
                input,
                atoms,
                pattern_len,
                k,
            ) implies offset + 1 <= k by {}
        }
    }
}

/// Over an input of single-unit characters, and for atoms without an
/// active start anchor, a scan that may skip answers `true` exactly when
/// there is a start offset from which the atoms can be walked to the
/// end. It never fails.
pub proof fn skipping_scan_finds_any_offset(input: Seq<char>, atoms: Seq<Atom>, pattern_len: nat)
    requires
        forall|i: int| 0 <= i < input.len() ==> is_single_unit(#[trigger] input[i]),
        no_active_start_anchor(atoms),
    ensures
        scan(input, atoms, pattern_len, true) == Ok::<bool, MatchError>(
            exists|k: int| #[trigger] walks_from(input, atoms, pattern_len, k),
        ),
{
    lemma_scan_from_finds_any_offset(input, atoms, pattern_len, 0);
}

/// For atoms without an active start anchor, a scan that may not skip
/// answers whether the input is not empty and the atoms can be walked
/// from its first offset. It never fails.
pub proof fn fixed_scan_tries_the_first_offset(
    input: Seq<char>,
    atoms: Seq<Atom>,
    pattern_len: nat,
)
    requires
        no_active_start_anchor(atoms),
    ensures
        scan(input, atoms, pattern_len, false) == Ok::<bool, MatchError>(
            walks_from(input, atoms, pattern_len, 0),
        ),
{
    if input.len() > 0 {
        lemma_walk_is_valid(atoms, pattern_len, 0, input.skip(0));
    }
}

/// A leading active start anchor ties the match to the first offset:
/// over an input that is not empty, the scan answers as the scan for the
/// atoms after the anchor that may not skip, whether it may skip itself
/// or not.
pub proof fn leading_start_anchor_fixes_the_scan(
    input: Seq<char>,
    atoms: Seq<Atom>,
    pattern_len: nat,
    skip: bool,
)
    requires
        input.len() > 0,
        atoms.len() > 0,
        atoms[0] == Atom::StartAnchor(0),
    ensures
        scan(input, atoms, pattern_len, skip) == scan(
            input,
            atoms.drop_first(),
            pattern_len,
            false,
        ),
{
}

/// The matcher never finds an invalid atom in a pattern that it compiled
/// itself.
pub proof fn match_outcome_is_never_invalid(input: Seq<char>, pattern: Seq<char>)
    ensures
        match_outcome(input, pattern) != Err::<bool, GrepError>(
            GrepError::Match(MatchError::InvalidAtom),
        ),
{
    if pattern.len() != 1 {
        if let Ok(atoms) = compile(pattern) {
            compiled_anchors_are_in_place(pattern);
            anchors_in_place_are_valid(input, atoms, pattern.len(), true);
        }
    }
}

/// A pattern of a single character is taken literally, whatever the
/// character: the answer is whether the input holds it.
pub proof fn single_character_pattern_is_literal(input: Seq<char>, c: char)
    ensures
        match_outcome(input, seq![c]) == Ok::<bool, GrepError>(input.contains(c)),
{
    assert(seq![c].len() == 1);
    assert(seq![c][0] == c);
}

/// Matching has no hidden state: whatever two calls on the same input
/// and the same pattern answer, they answer the same.
pub proof fn matching_is_repeatable(
    input: Seq<char>,
    pattern: Seq<char>,
    first: Result<bool, GrepError>,
    second: Result<bool, GrepError>,
)
    requires
        first == match_outcome(input, pattern),
        second == match_outcome(input, pattern),
    ensures
        first == second,
{
}

} // verus!
