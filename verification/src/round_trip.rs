//! Decoding gives back what was encoded.
use vstd::prelude::*;
use vstd::utf8::{encode_utf8, encode_utf8_decode_utf8, encode_utf8_valid_utf8};

use crate::decimal::{decimal, is_digit, lemma_number_decimal, lemma_decimal_digits};
use crate::frame::{Error, FrameView};
use crate::two_pass::lemma_check_of_parsed;
use crate::text::lemma_one_line;
use crate::wire::{
    crlf, is_line, is_line_end, lemma_line_end, line_end, null_line, spec_check, spec_encode,
    spec_encode_items, spec_get_decimal, spec_get_line, spec_parse, spec_parse_items,
    texts_are_lines, ARRAY, BULK, ERROR, INTEGER, SIMPLE,
};

verus! {

/// The bytes of `part` stand in `data` from `pos` on.
pub open spec fn holds_at(data: Seq<u8>, pos: int, part: Seq<u8>) -> bool {
    &&& 0 <= pos
    &&& pos + part.len() <= data.len()
    &&& data.subrange(pos, pos + part.len()) == part
}

/// Where two parts stand one after the other, each stands in its place.
pub proof fn lemma_holds_at_split(data: Seq<u8>, pos: int, first: Seq<u8>, second: Seq<u8>)
    requires
        holds_at(data, pos, first + second),
    ensures
        holds_at(data, pos, first),
        holds_at(data, pos + first.len(), second),
{
    let whole = first + second;
    assert(data.subrange(pos, pos + first.len()) =~= first) by {
        assert forall|i: int| 0 <= i < first.len() implies data[pos + i] == first[i] by {
            assert(data.subrange(pos, pos + whole.len())[i] == whole[i]);
        }
    }
    assert(data.subrange(pos + first.len(), pos + first.len() + second.len()) =~= second) by {
        assert forall|i: int| 0 <= i < second.len() implies data[pos + first.len() + i]
            == second[i] by {
            assert(data.subrange(pos, pos + whole.len())[first.len() + i] == whole[first.len()
                + i]);
        }
    }
}

/// A text that can stand on one line, followed by a line end, is found as
/// that line.
pub proof fn lemma_line_found(data: Seq<u8>, pos: int, text: Seq<u8>)
    requires
        holds_at(data, pos, text + crlf()),
        is_line(text),
    ensures
        spec_get_line(data, pos) == Ok::<(Seq<u8>, nat), Error>((text, text.len() + 2)),
{
    let whole = text + crlf();
    let end = pos + text.len();
    assert forall|i: int| 0 <= i < whole.len() implies data[pos + i] == whole[i] by {
        assert(data.subrange(pos, pos + whole.len())[i] == whole[i]);
    }
    let n = text.len() as int;
    assert(is_line_end(data, end)) by {
        assert(data[pos + n] == whole[n]);
        assert(data[pos + (n + 1)] == whole[n + 1]);
    }
    assert forall|i: int| pos <= i < end implies !is_line_end(data, i) by {
        assert(data[pos + (i - pos)] == whole[i - pos]);
        assert(data[pos + (i + 1 - pos)] == whole[i + 1 - pos]);
        if i + 1 < end {
            assert(!is_line_end(text, i - pos));
        }
    }
    lemma_line_end(data, pos);
    assert(line_end(data, pos) == Some(end));
    assert(data.subrange(pos, end) =~= text);
}

/// The digits of a number stand on one line.
pub proof fn lemma_decimal_is_line(number: nat)
    ensures
        is_line(decimal(number)),
{
    lemma_decimal_digits(number);
    assert forall|i: int| !is_line_end(decimal(number), i) by {
        if 0 <= i && i + 1 < decimal(number).len() {
            assert(is_digit(decimal(number)[i]));
        }
    }
}

/// The digits of a number, followed by a line end, are read as that number.
pub proof fn lemma_decimal_found(data: Seq<u8>, pos: int, number: u64)
    requires
        holds_at(data, pos, decimal(number as nat) + crlf()),
    ensures
        spec_get_decimal(data, pos) == Ok::<(u64, nat), Error>(
            (number, decimal(number as nat).len() + 2),
        ),
{
    lemma_decimal_is_line(number as nat);
    lemma_line_found(data, pos, decimal(number as nat));
    lemma_number_decimal(number);
}

/// Every frame takes at least one byte, and so the frames of a sequence
/// take at least as many bytes as there are frames.
pub proof fn lemma_encode_len(frame: FrameView)
    ensures
        spec_encode(frame).len() >= 1,
    decreases frame,
{
}

/// The frames of a sequence take at least one byte each.
pub proof fn lemma_encode_items_len(items: Seq<FrameView>)
    ensures
        spec_encode_items(items).len() >= items.len(),
    decreases items.len(),
{
    if items.len() > 0 {
        lemma_encode_len(items[0]);
        lemma_encode_items_len(items.drop_first());
    }
}

/// Where the bytes of a frame stand in a buffer, that frame is decoded, and
/// its bytes are the ones taken.
pub proof fn lemma_parse_encoded(data: Seq<u8>, pos: int, frame: FrameView)
    requires
        holds_at(data, pos, spec_encode(frame)),
        texts_are_lines(frame),
        data.len() <= usize::MAX,
    ensures
        spec_parse(data, pos) == Ok::<(FrameView, nat), Error>((frame, spec_encode(frame).len())),
    decreases frame,
{
    let encoded = spec_encode(frame);
    assert(data[pos] == encoded[0]) by {
        lemma_encode_len(frame);
        assert(data.subrange(pos, pos + encoded.len())[0] == encoded[0]);
    }
    match frame {
        FrameView::Simple(text) => {
            let bytes = encode_utf8(text);
            lemma_one_line(text);
            assert(encoded =~= seq![SIMPLE] + (bytes + crlf()));
            lemma_holds_at_split(data, pos, seq![SIMPLE], bytes + crlf());
            lemma_line_found(data, pos + 1, bytes);
            encode_utf8_valid_utf8(text);
            encode_utf8_decode_utf8(text);
        },
        FrameView::Error(text) => {
            let bytes = encode_utf8(text);
            lemma_one_line(text);
            assert(encoded =~= seq![ERROR] + (bytes + crlf()));
            lemma_holds_at_split(data, pos, seq![ERROR], bytes + crlf());
            lemma_line_found(data, pos + 1, bytes);
            encode_utf8_valid_utf8(text);
            encode_utf8_decode_utf8(text);
        },
        FrameView::Integer(value) => {
            assert(encoded =~= seq![INTEGER] + (decimal(value as nat) + crlf()));
            lemma_holds_at_split(data, pos, seq![INTEGER], decimal(value as nat) + crlf());
            lemma_decimal_found(data, pos + 1, value);
        },
        FrameView::Bulk(payload) => {
            let digits = decimal(payload.len());
            let length = payload.len() as u64;
            assert(encoded =~= seq![BULK] + ((digits + crlf()) + (payload + crlf())));
            lemma_holds_at_split(data, pos, seq![BULK], (digits + crlf()) + (payload + crlf()));
            lemma_holds_at_split(data, pos + 1, digits + crlf(), payload + crlf());
            lemma_holds_at_split(data, pos + 1 + digits.len() + 2, payload, crlf());
            lemma_decimal_found(data, pos + 1, length);
            lemma_decimal_digits(payload.len());
            assert(data[pos + 1] == digits[0]) by {
                assert(data.subrange(pos + 1, pos + 1 + (digits + crlf()).len())[0] == (digits
                    + crlf())[0]);
            }
            assert(is_digit(digits[0]));
        },
        FrameView::Null => {
            assert(encoded =~= seq![BULK] + (null_line() + crlf()));
            lemma_holds_at_split(data, pos, seq![BULK], null_line() + crlf());
            assert(is_line(null_line()));
            lemma_line_found(data, pos + 1, null_line());
            assert(data[pos + 1] == null_line()[0]) by {
                assert(data.subrange(pos + 1, pos + 1 + (null_line() + crlf()).len())[0] == (
                null_line() + crlf())[0]);
            }
        },
        FrameView::Array(items) => {
            let digits = decimal(items.len());
            let rest = spec_encode_items(items);
            lemma_encode_items_len(items);
            let count = items.len() as u64;
            assert(encoded =~= seq![ARRAY] + ((digits + crlf()) + rest));
            lemma_holds_at_split(data, pos, seq![ARRAY], (digits + crlf()) + rest);
            lemma_holds_at_split(data, pos + 1, digits + crlf(), rest);
            lemma_decimal_found(data, pos + 1, count);
            lemma_parse_items_encoded(data, pos + 1 + digits.len() + 2, items);
        },
    }
}

/// Where the bytes of a sequence of frames stand in a buffer, those frames
/// are decoded one after the other.
pub proof fn lemma_parse_items_encoded(data: Seq<u8>, pos: int, items: Seq<FrameView>)
    requires
        holds_at(data, pos, spec_encode_items(items)),
        forall|i: int| 0 <= i < items.len() ==> texts_are_lines(#[trigger] items[i]),
        data.len() <= usize::MAX,
    ensures
        spec_parse_items(data, pos, items.len()) == Ok::<(Seq<FrameView>, nat), Error>(
            (items, spec_encode_items(items).len()),
        ),
    decreases items,
{
    if items.len() == 0 {
        assert(items =~= Seq::<FrameView>::empty());
    } else {
        let first = spec_encode(items[0]);
        let others = items.drop_first();
        lemma_holds_at_split(data, pos, first, spec_encode_items(others));
        lemma_parse_encoded(data, pos, items[0]);
        assert forall|i: int| 0 <= i < others.len() implies texts_are_lines(
            #[trigger] others[i],
        ) by {
            assert(others[i] == items[i + 1]);
        }
        lemma_parse_items_encoded(data, pos + first.len(), others);
        assert(seq![items[0]] + others =~= items);
    }
}

/// A frame whose texts can each stand on one line survives the wire:
/// decoding its bytes gives the frame back and takes every byte. The bytes
/// must fit in a buffer, whose length is a `usize`.
pub proof fn lemma_round_trip(frame: FrameView)
    requires
        texts_are_lines(frame),
        spec_encode(frame).len() <= usize::MAX,
    ensures
        spec_parse(spec_encode(frame), 0) == Ok::<(FrameView, nat), Error>(
            (frame, spec_encode(frame).len()),
        ),
        spec_check(spec_encode(frame), 0) == Ok::<nat, Error>(spec_encode(frame).len()),
{
    let encoded = spec_encode(frame);
    assert(encoded.subrange(0, encoded.len() as int) =~= encoded);
    lemma_parse_encoded(encoded, 0, frame);
    lemma_check_of_parsed(encoded, 0);
}

} // verus!
