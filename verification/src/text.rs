//! Text on the wire is UTF-8: this is where bytes become a `String`, and
//! where a line end in a text is traced back to its characters.
use vstd::prelude::*;
use vstd::utf8::{char_u32_cast, decode_utf8, encode_scalar, encode_utf8, valid_utf8};

use crate::wire::{is_line, is_line_end, is_line_end_in, is_one_line, LF};

verus! {

/// `std::string::FromUtf8Error`, which says why bytes are not UTF-8; nothing
/// here looks into it.
#[verifier::external_type_specification]
#[verifier::external_body]
pub struct ExFromUtf8Error(std::string::FromUtf8Error);

/// `String::from_utf8`: the bytes become a string when they are valid UTF-8,
/// and only then; the string holds the characters that they encode.
#[verifier::external_body]
pub(crate) fn string_from_utf8(bytes: Vec<u8>) -> (text: Result<
    String,
    std::string::FromUtf8Error,
>)
    ensures
        text is Ok <==> valid_utf8(bytes@),
        text matches Ok(string) ==> string@ == decode_utf8(bytes@),
{
    String::from_utf8(bytes)
}

/// A bit that is set stays set: no byte gets smaller by more bits.
proof fn lemma_or_at_least(low: u8, more: u8)
    by (bit_vector)
    ensures
        low | more >= low,
{
}

/// A character below 128 is one byte, the character itself; every other
/// character is bytes from 128 on.
pub proof fn lemma_encode_scalar(scalar: u32)
    ensures
        encode_scalar(scalar).len() >= 1,
        scalar < 128 ==> encode_scalar(scalar) == seq![scalar as u8],
        scalar >= 128 ==> forall|i: int|
            0 <= i < encode_scalar(scalar).len() ==> #[trigger] encode_scalar(scalar)[i] >= 128,
{
    if scalar < 128 {
        assert((scalar & 0x7F) as u8 == scalar as u8) by (bit_vector)
            requires
                scalar < 128,
        ;
    } else {
        assert forall|i: int| 0 <= i < encode_scalar(scalar).len() implies #[trigger] encode_scalar(
            scalar,
        )[i] >= 128 by {
            lemma_or_at_least(0xC0, ((scalar >> 6) & 0x1F) as u8);
            lemma_or_at_least(0xE0, ((scalar >> 12) & 0x0F) as u8);
            lemma_or_at_least(0xF0, ((scalar >> 18) & 0x7) as u8);
            lemma_or_at_least(0x80, (scalar & 0x3F) as u8);
            lemma_or_at_least(0x80, ((scalar >> 6) & 0x3F) as u8);
            lemma_or_at_least(0x80, ((scalar >> 12) & 0x3F) as u8);
        }
    }
}

/// Two characters with the same number are the same character.
proof fn lemma_char_of(one: char, other: char)
    requires
        one as u32 == other as u32,
    ensures
        one == other,
{
    char_u32_cast(one, one as u32);
    char_u32_cast(other, other as u32);
}

/// The bytes of a text start with a byte below 128 only where the text
/// starts with that character.
proof fn lemma_first_byte(text: Seq<char>, byte: u8)
    requires
        byte < 128,
        encode_utf8(text).len() > 0,
        encode_utf8(text)[0] == byte,
    ensures
        text.len() > 0,
        text[0] as u32 == byte,
{
    lemma_encode_scalar(text[0] as u32);
    let first = encode_scalar(text[0] as u32);
    assert(encode_utf8(text)[0] == first[0]);
}

/// A line end in the bytes of a text is a line end in the text.
pub proof fn lemma_line_end_in_text(text: Seq<char>, at: int)
    requires
        is_line_end(encode_utf8(text), at),
    ensures
        !is_one_line(text),
    decreases text.len(),
{
    let bytes = encode_utf8(text);
    let first = encode_scalar(text[0] as u32);
    let others = text.drop_first();
    let rest = encode_utf8(others);
    lemma_encode_scalar(text[0] as u32);
    assert(bytes =~= first + rest);
    if at + 1 < first.len() {
        assert(bytes[at] == first[at]);
        assert(false);
    } else if at + 1 == first.len() {
        assert(bytes[at] == first[at]);
        assert(bytes[at + 1] == rest[0]);
        lemma_first_byte(others, LF);
        assert(others[0] == text[1]);
        lemma_char_of(text[0], '\r');
        lemma_char_of(text[1], '\n');
        assert(is_line_end_in(text, 0));
    } else {
        let inner = at - first.len();
        assert(bytes[at] == rest[inner]);
        assert(bytes[at + 1] == rest[inner + 1]);
        lemma_line_end_in_text(others, inner);
        let i = choose|i: int| is_line_end_in(others, i);
        assert(others[i] == text[i + 1]);
        assert(others[i + 1] == text[i + 2]);
        assert(is_line_end_in(text, i + 1));
    }
}

/// A line end in a text is a line end in the bytes of the text.
pub proof fn lemma_line_end_in_bytes(text: Seq<char>, at: int)
    requires
        is_line_end_in(text, at),
    ensures
        !is_line(encode_utf8(text)),
    decreases at,
{
    let bytes = encode_utf8(text);
    let first = encode_scalar(text[0] as u32);
    let others = text.drop_first();
    let rest = encode_utf8(others);
    lemma_encode_scalar(text[0] as u32);
    assert(bytes =~= first + rest);
    if at == 0 {
        lemma_encode_scalar(others[0] as u32);
        let second = encode_scalar(others[0] as u32);
        assert(rest =~= second + encode_utf8(others.drop_first()));
        assert(others[0] == text[1]);
        assert(bytes[0] == first[0]);
        assert(bytes[1] == rest[0]);
        assert(is_line_end(bytes, 0));
    } else {
        assert(others[at - 1] == text[at]);
        assert(others[at] == text[at + 1]);
        lemma_line_end_in_bytes(others, at - 1);
        let inner = choose|i: int| is_line_end(rest, i);
        assert(bytes[first.len() + inner] == rest[inner]);
        assert(bytes[first.len() + inner + 1] == rest[inner + 1]);
        assert(is_line_end(bytes, first.len() + inner));
    }
}

/// A text can stand on one line exactly when its bytes can.
pub proof fn lemma_one_line(text: Seq<char>)
    ensures
        is_one_line(text) <==> is_line(encode_utf8(text)),
{
    if !is_line(encode_utf8(text)) {
        let at = choose|i: int| is_line_end(encode_utf8(text), i);
        lemma_line_end_in_text(text, at);
    }
    if !is_one_line(text) {
        let at = choose|i: int| is_line_end_in(text, i);
        lemma_line_end_in_bytes(text, at);
    }
}

} // verus!
