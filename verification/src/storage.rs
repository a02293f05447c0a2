//! Where the characters of a text lie in storage.
//!
//! A text is stored as UTF-8, a character in one to four bytes. The
//! matcher counts start offsets in bytes; this module says how byte
//! offsets and characters meet.

use vstd::prelude::*;
use vstd::utf8::{
    decode_utf8, encode_scalar, encode_utf8, encode_utf8_decode_utf8, encode_utf8_first_scalar,
    encode_utf8_valid_utf8, has_width_1_encoding, is_char_boundary, length_of_first_scalar,
    pop_first_scalar, valid_utf8,
};

verus! {

/// Whether `c` takes a single unit of storage, one byte of UTF-8.
pub open spec fn is_single_unit(c: char) -> bool {
    has_width_1_encoding(c as u32)
}

/// The storage offset at which character `k` of `text` starts: the
/// number of bytes that the `k` characters before it take.
pub open spec fn storage_offset(text: Seq<char>, k: int) -> int {
    encode_utf8(text.take(k)).len() as int
}

/// Every character takes at least one byte, and exactly one when it is
/// a single-unit character.
pub proof fn single_unit_takes_one_byte(c: char)
    ensures
        encode_scalar(c as u32).len() >= 1,
        encode_scalar(c as u32).len() == 1 <==> is_single_unit(c),
{
}

/// The stored form of a text that is not empty starts with the bytes of
/// its first character, and goes on with the stored form of the rest.
proof fn lemma_first_character(text: Seq<char>)
    requires
        text.len() > 0,
    ensures
        valid_utf8(encode_utf8(text)),
        valid_utf8(encode_utf8(text.drop_first())),
        length_of_first_scalar(encode_utf8(text)) == encode_scalar(text[0] as u32).len(),
        pop_first_scalar(encode_utf8(text)) == encode_utf8(text.drop_first()),
        encode_utf8(text).len() == encode_scalar(text[0] as u32).len() + encode_utf8(
            text.drop_first(),
        ).len(),
{
    encode_utf8_valid_utf8(text);
    encode_utf8_valid_utf8(text.drop_first());
    encode_utf8_first_scalar(text);
    assert(pop_first_scalar(encode_utf8(text)) =~= encode_utf8(text.drop_first()));
}

/// The offset of a character is the offset of the same character in the
/// text without its first character, moved by the width of that first
/// character.
proof fn lemma_storage_offset_unfolds(text: Seq<char>, k: int)
    requires
        0 < k <= text.len(),
    ensures
        storage_offset(text, k) == encode_scalar(text[0] as u32).len() + storage_offset(
            text.drop_first(),
            k - 1,
        ),
{
    let head = text.take(k);
    assert(head[0] == text[0]);
    assert(head.drop_first() =~= text.drop_first().take(k - 1));
    lemma_first_character(head);
}

/// The next character starts where the last one ends: at its own offset
/// plus its width. After a single-unit character that is one unit on.
pub proof fn next_character_follows(text: Seq<char>, k: int)
    requires
        0 <= k < text.len(),
    ensures
        storage_offset(text, k + 1) == storage_offset(text, k) + encode_scalar(
            text[k] as u32,
        ).len(),
        is_single_unit(text[k]) <==> storage_offset(text, k + 1) == storage_offset(text, k) + 1,
    decreases k,
{
    single_unit_takes_one_byte(text[k]);
    if k == 0 {
        lemma_storage_offset_unfolds(text, 1);
        assert(text.take(0) =~= Seq::<char>::empty());
        assert(text.drop_first().take(0) =~= Seq::<char>::empty());
    } else {
        let tail = text.drop_first();
        lemma_storage_offset_unfolds(text, k);
        lemma_storage_offset_unfolds(text, k + 1);
        assert(tail[k - 1] == text[k]);
        next_character_follows(tail, k - 1);
    }
}

/// The start of every character, and the end of the text, is a character
/// boundary of the stored text, and what is stored from there on is the
/// text from that character on.
pub proof fn text_from_character_start(text: Seq<char>, k: int)
    requires
        0 <= k <= text.len(),
    ensures
        0 <= storage_offset(text, k) <= encode_utf8(text).len(),
        is_char_boundary(encode_utf8(text), storage_offset(text, k)),
        encode_utf8(text).subrange(storage_offset(text, k), encode_utf8(text).len() as int)
            == encode_utf8(text.skip(k)),
        decode_utf8(
            encode_utf8(text).subrange(storage_offset(text, k), encode_utf8(text).len() as int),
        ) == text.skip(k),
    decreases k,
{
    let bytes = encode_utf8(text);
    encode_utf8_valid_utf8(text);
    encode_utf8_decode_utf8(text.skip(k));
    if k == 0 {
        assert(text.take(0) =~= Seq::<char>::empty());
        assert(text.skip(0) =~= text);
        assert(bytes.subrange(0, bytes.len() as int) =~= bytes);
    } else {
        let tail = text.drop_first();
        let width = encode_scalar(text[0] as u32).len() as int;
        let inner = storage_offset(tail, k - 1);
        lemma_first_character(text);
        single_unit_takes_one_byte(text[0]);
        lemma_storage_offset_unfolds(text, k);
        text_from_character_start(tail, k - 1);
        reveal_with_fuel(is_char_boundary, 2);
        assert(tail.skip(k - 1) =~= text.skip(k));
        assert(bytes.subrange(width + inner, bytes.len() as int) =~= pop_first_scalar(
            bytes,
        ).subrange(inner, pop_first_scalar(bytes).len() as int));
    }
}

/// One unit after the start of a character lies another character
/// boundary of the stored text exactly when the character is a
/// single-unit one. After a wider character that offset is inside the
/// character, and no text starts there.
pub proof fn unit_after_character_start(text: Seq<char>, k: int)
    requires
        0 <= k < text.len(),
    ensures
        is_char_boundary(encode_utf8(text), storage_offset(text, k) + 1) <==> is_single_unit(
            text[k],
        ),
    decreases k,
{
    let bytes = encode_utf8(text);
    let tail = text.drop_first();
    let width = encode_scalar(text[0] as u32).len() as int;
    lemma_first_character(text);
    single_unit_takes_one_byte(text[0]);
    reveal_with_fuel(is_char_boundary, 2);
    if k == 0 {
        assert(text.take(0) =~= Seq::<char>::empty());
        assert(storage_offset(text, 0) == 0);
    } else {
        lemma_storage_offset_unfolds(text, k);
        assert(tail[k - 1] == text[k]);
        unit_after_character_start(tail, k - 1);
        let inner = storage_offset(tail, k - 1);
        assert(storage_offset(text, k) + 1 - width == inner + 1);
    }
}

} // verus!
