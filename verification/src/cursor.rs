//! Character cursors and the tests that consume from them.
//!
//! A cursor is a `Chars` iterator; what it has yet to yield is its
//! `remaining()` sequence. Every function here says what it answers and
//! where it leaves the cursor, in terms of that sequence.

use std::str::Chars;
use vstd::prelude::*;
use vstd::std_specs::iter::IteratorSpec;

verus! {

/// Whether `c` is alphanumeric in the sense of `char::is_alphanumeric`:
/// the Unicode property, which has no short closed form.
pub uninterp spec fn is_alphanumeric(c: char) -> bool;

/// `char::is_alphanumeric` depends on its argument alone; its answer is
/// named [`is_alphanumeric`] and nothing more is claimed of it.
#[verifier::external_body]
fn char_is_alphanumeric(c: char) -> (b: bool)
    ensures
        b == is_alphanumeric(c),
{
    c.is_alphanumeric()
}

/// `Chars::as_str` hands out the part of the string that the iterator has
/// not walked yet: its characters are those the iterator will still yield.
pub assume_specification<'a>[ Chars::<'a>::as_str ](chars: &Chars<'a>) -> (tail: &'a str)
    ensures
        tail@ == chars.remaining(),
;

/// Whether `c` is one of the ten ASCII digits.
pub open spec fn is_ascii_digit(c: char) -> bool {
    '0' <= c <= '9'
}

/// `text` without its first character; the empty sequence stays empty.
pub open spec fn rest(text: Seq<char>) -> Seq<char> {
    if text.len() > 0 {
        text.drop_first()
    } else {
        text
    }
}

/// The number of characters equal to `target` at the front of `text`
/// before the first one that differs.
pub open spec fn run_length(text: Seq<char>, target: char) -> nat
    decreases text.len(),
{
    if text.len() > 0 && text[0] == target {
        1 + run_length(text.drop_first(), target)
    } else {
        0
    }
}

/// The run at the front of `text` has length `k` exactly when the first
/// `k` characters equal `target` and the next one, if any, does not.
pub proof fn lemma_run_length_is(text: Seq<char>, target: char, k: int)
    requires
        0 <= k <= text.len(),
        forall|i: int| 0 <= i < k ==> text[i] == target,
        k == text.len() || text[k] != target,
    ensures
        run_length(text, target) == k,
    decreases k,
{
    if k > 0 {
        let tail = text.drop_first();
        assert forall|i: int| 0 <= i < k - 1 implies tail[i] == target by {
            assert(tail[i] == text[i + 1]);
        }
        lemma_run_length_is(tail, target, k - 1);
    }
}

/// The next character of the cursor, which stays where it is.
pub fn _peek_char(chars: &mut Chars) -> (next: Option<char>)
    ensures
        next == if (*old(chars)).remaining().len() > 0 {
            Some((*old(chars)).remaining()[0])
        } else {
            None
        },
        *final(chars) == *old(chars),
{
    chars.as_str().chars().next()
}

/// Takes one character and says whether it is alphanumeric.
pub fn match_alphanumeric(chars: &mut Chars) -> (ok: bool)
    ensures
        ok == ((*old(chars)).remaining().len() > 0 && is_alphanumeric(
            (*old(chars)).remaining()[0],
        )),
        (*final(chars)).remaining() == rest((*old(chars)).remaining()),
{
    match chars.next() {
        Some(c) => char_is_alphanumeric(c),
        None => false,
    }
}

/// Takes one character and says whether it is an ASCII digit.
pub fn match_digit(chars: &mut Chars) -> (ok: bool)
    ensures
        ok == ((*old(chars)).remaining().len() > 0 && is_ascii_digit(
            (*old(chars)).remaining()[0],
        )),
        (*final(chars)).remaining() == rest((*old(chars)).remaining()),
{
    match chars.next() {
        Some(c) => '0' <= c && c <= '9',
        None => false,
    }
}

/// Whether `c` occurs in `text`.
pub fn contains_char(text: &str, c: char) -> (found: bool)
    ensures
        found == text@.contains(c),
{
    let mut it = text.chars();
    let ghost mut seen: int = 0;
    loop
        invariant
            0 <= seen <= text@.len(),
            it.remaining() == text@.skip(seen),
            forall|i: int| 0 <= i < seen ==> text@[i] != c,
        decreases text@.len() - seen,
    {
        match it.next() {
            None => {
                return false;
            },
            Some(x) => {
                if x == c {
                    return true;
                }
                proof {
                    seen = seen + 1;
                }
            },
        }
    }
}

/// Takes one character and says whether the set accepts it: whether it
/// is among `literal`, or, for a complemented set, whether it is not.
pub fn match_charset(chars: &mut Chars, literal: &str, is_complement: bool) -> (ok: bool)
    ensures
        ok == ((*old(chars)).remaining().len() > 0 && (literal@.contains(
            (*old(chars)).remaining()[0],
        ) != is_complement)),
        (*final(chars)).remaining() == rest((*old(chars)).remaining()),
{
    match chars.next() {
        Some(c) => contains_char(literal, c) != is_complement,
        None => false,
    }
}

/// Takes one character and says whether it is `single_char`.
pub fn match_single_char(chars: &mut Chars, single_char: char) -> (ok: bool)
    ensures
        ok == ((*old(chars)).remaining().len() > 0 && (*old(chars)).remaining()[0]
            == single_char),
        (*final(chars)).remaining() == rest((*old(chars)).remaining()),
{
    match chars.next() {
        Some(c) => c == single_char,
        None => false,
    }
}

/// Takes the whole run of `target` at the front of the cursor, and
/// nothing after it, and counts it: exactly up to `limit`, and as
/// `limit + 1` when it is longer.
fn take_run(chars: &mut Chars, target: char, limit: u8) -> (count: u8)
    requires
        limit < u8::MAX,
    ensures
        count as nat == if run_length((*old(chars)).remaining(), target) <= limit {
            run_length((*old(chars)).remaining(), target)
        } else {
            (limit + 1) as nat
        },
        (*final(chars)).remaining() == (*old(chars)).remaining().skip(
            run_length((*old(chars)).remaining(), target) as int,
        ),
{
    let whole = chars.as_str();
    let ghost text = whole@;
    let ghost mut taken: int = 0;
    let mut count: u8 = 0;
    assert(text.skip(0) =~= text);
    loop
        invariant
            0 <= taken <= text.len(),
            (*chars).remaining() == text.skip(taken),
            forall|i: int| 0 <= i < taken ==> text[i] == target,
            count as int == if taken <= limit { taken } else { limit + 1 },
            limit < u8::MAX,
        ensures
            run_length(text, target) == taken,
        decreases text.len() - taken,
    {
        match _peek_char(chars) {
            Some(c) if c == target => {
                chars.next();
                if count <= limit {
                    count = count + 1;
                }
                proof {
                    taken = taken + 1;
                }
            },
            _ => {
                proof {
                    if taken < text.len() {
                        assert(text.skip(taken)[0] == text[taken]);
                    }
                    lemma_run_length_is(text, target, taken);
                }
                break ;
            },
        }
    }
    count
}

/// Takes the whole run of `target` at the front of the cursor, and
/// nothing after it, and says whether the run holds at least one
/// character.
pub fn match_one_or_more(chars: &mut Chars, target: char) -> (ok: bool)
    ensures
        ok == (run_length((*old(chars)).remaining(), target) >= 1),
        (*final(chars)).remaining() == (*old(chars)).remaining().skip(
            run_length((*old(chars)).remaining(), target) as int,
        ),
{
    take_run(chars, target, 0) >= 1
}

/// Takes the whole run of `target` at the front of the cursor, and
/// nothing after it, and says whether the run holds no character or
/// exactly one. A longer run is refused.
pub fn match_zero_or_more(chars: &mut Chars, target: char) -> (ok: bool)
    ensures
        ok == (run_length((*old(chars)).remaining(), target) <= 1),
        (*final(chars)).remaining() == (*old(chars)).remaining().skip(
            run_length((*old(chars)).remaining(), target) as int,
        ),
{
    take_run(chars, target, 1) <= 1
}

} // verus!
