//! The wire form of the frames, as functions on bytes: where a line ends,
//! whether a frame is complete, which frame the bytes hold, and the bytes of
//! a frame.
//!
//! | Frame   | Bytes                                       |
//! |---------|---------------------------------------------|
//! | Simple  | `+` text CR LF                              |
//! | Error   | `-` text CR LF                              |
//! | Integer | `:` digits CR LF                            |
//! | Bulk    | `$` length CR LF payload CR LF              |
//! | Null    | `$-1` CR LF                                 |
//! | Array   | `*` count CR LF, then that many frames      |
use vstd::prelude::*;
use vstd::utf8::{decode_utf8, encode_utf8, valid_utf8};

use crate::decimal::{decimal, spec_number, MINUS};
use crate::frame::{Error, FrameView};

verus! {

/// Carriage return, the first byte of a line's end.
pub const CR: u8 = 13;

/// Line feed, the second byte of a line's end.
pub const LF: u8 = 10;

/// `+`, the first byte of a simple string.
pub const SIMPLE: u8 = 43;

/// `-`, the first byte of an error.
pub const ERROR: u8 = 45;

/// `:`, the first byte of an integer.
pub const INTEGER: u8 = 58;

/// `$`, the first byte of a bulk string and of the null frame.
pub const BULK: u8 = 36;

/// `*`, the first byte of an array.
pub const ARRAY: u8 = 42;

/// The digit `1`.
pub const ONE: u8 = 49;

/// The bytes of `data` from `pos` on: how many there are.
pub open spec fn remaining(data: Seq<u8>, pos: int) -> nat {
    if pos <= data.len() {
        (data.len() - pos) as nat
    } else {
        0
    }
}

/// Whether a line ends at `i`: CR there, LF right after.
pub open spec fn is_line_end(data: Seq<u8>, i: int) -> bool {
    0 <= i && i + 1 < data.len() && data[i] == CR && data[i + 1] == LF
}

/// Where the first line end at or after `from` stands, if there is one.
pub open spec fn line_end(data: Seq<u8>, from: int) -> Option<int>
    decreases data.len() - from,
{
    if from < 0 || from + 1 >= data.len() {
        None
    } else if data[from] == CR && data[from + 1] == LF {
        Some(from)
    } else {
        line_end(data, from + 1)
    }
}

/// The byte at `pos`.
pub open spec fn spec_get_u8(data: Seq<u8>, pos: int) -> Result<u8, Error> {
    if 0 <= pos < data.len() {
        Ok(data[pos])
    } else {
        Err(Error::IncompleteError)
    }
}

/// Whether `count` bytes can be skipped at `pos`.
pub open spec fn spec_skip(data: Seq<u8>, pos: int, count: nat) -> Result<(), Error> {
    if remaining(data, pos) < count {
        Err(Error::IncompleteError)
    } else {
        Ok(())
    }
}

/// The line that starts at `pos`, without its end, and the number of bytes
/// that it takes with its end.
pub open spec fn spec_get_line(data: Seq<u8>, pos: int) -> Result<(Seq<u8>, nat), Error> {
    match line_end(data, pos) {
        Some(end) => Ok((data.subrange(pos, end), (end + 2 - pos) as nat)),
        None => Err(Error::IncompleteError),
    }
}

/// The bytes that the line at `pos` takes with its end; 0 without a line.
pub open spec fn line_length(data: Seq<u8>, pos: int) -> nat {
    match spec_get_line(data, pos) {
        Ok((_, used)) => used,
        Err(_) => 0,
    }
}

/// The number on the line that starts at `pos`, and the bytes that the line
/// takes. A line that is not one or more digits and nothing else, or that
/// spells more than a `u64` holds, is a decimal error.
pub open spec fn spec_get_decimal(data: Seq<u8>, pos: int) -> Result<(u64, nat), Error> {
    match spec_get_line(data, pos) {
        Ok((line, used)) => match spec_number(line) {
            Some(number) => Ok((number, used)),
            None => Err(Error::DecimalError),
        },
        Err(error) => Err(error),
    }
}

/// Whether a complete frame starts at `pos`, and the bytes that it takes.
///
/// Nothing is decoded: a text is not tested for UTF-8. A bulk string whose
/// length starts with `-` has to be the null frame, byte for byte.
pub open spec fn spec_check(data: Seq<u8>, pos: int) -> Result<nat, Error>
    decreases remaining(data, pos), 0nat,
{
    if !(0 <= pos < data.len()) {
        Err(Error::IncompleteError)
    } else if data[pos] == SIMPLE || data[pos] == ERROR {
        match spec_get_line(data, pos + 1) {
            Ok((_, used)) => Ok(1 + used),
            Err(error) => Err(error),
        }
    } else if data[pos] == INTEGER {
        match spec_get_decimal(data, pos + 1) {
            Ok((_, used)) => Ok(1 + used),
            Err(error) => Err(error),
        }
    } else if data[pos] == BULK {
        if pos + 1 >= data.len() {
            Err(Error::IncompleteError)
        } else if data[pos + 1] == MINUS {
            if remaining(data, pos + 1) < 4 {
                Err(Error::IncompleteError)
            } else if data[pos + 2] == ONE && data[pos + 3] == CR && data[pos + 4] == LF {
                Ok(5)
            } else {
                Err(Error::ProtocolError { b: 1 })
            }
        } else {
            match spec_get_decimal(data, pos + 1) {
                Ok((length, used)) => if remaining(data, pos + 1 + used) < length + 2 {
                    Err(Error::IncompleteError)
                } else {
                    Ok(1 + used + length as nat + 2)
                },
                Err(error) => Err(error),
            }
        }
    } else if data[pos] == ARRAY {
        match spec_get_decimal(data, pos + 1) {
            Ok((count, used)) => match spec_check_items(data, pos + 1 + used, count as nat) {
                Ok(more) => Ok(1 + used + more),
                Err(error) => Err(error),
            },
            Err(error) => Err(error),
        }
    } else {
        Err(Error::ProtocolError { b: data[pos] })
    }
}

/// Whether `count` complete frames follow one another from `pos` on, and the
/// bytes that they take together.
pub open spec fn spec_check_items(data: Seq<u8>, pos: int, count: nat) -> Result<nat, Error>
    decreases remaining(data, pos), count,
{
    if count == 0 {
        Ok(0)
    } else {
        match spec_check(data, pos) {
            Ok(used) => match spec_check_items(data, pos + used, (count - 1) as nat) {
                Ok(more) => Ok(used + more),
                Err(error) => Err(error),
            },
            Err(error) => Err(error),
        }
    }
}

/// The two bytes that a line holds in a null frame: `-1`.
pub open spec fn null_line() -> Seq<u8> {
    seq![MINUS, ONE]
}

/// The frame that starts at `pos`, and the bytes that it takes.
pub open spec fn spec_parse(data: Seq<u8>, pos: int) -> Result<(FrameView, nat), Error>
    decreases remaining(data, pos), 0nat,
{
    if !(0 <= pos < data.len()) {
        Err(Error::IncompleteError)
    } else if data[pos] == SIMPLE || data[pos] == ERROR {
        match spec_get_line(data, pos + 1) {
            Ok((line, used)) => if !valid_utf8(line) {
                Err(Error::EncodeError)
            } else if data[pos] == SIMPLE {
                Ok((FrameView::Simple(decode_utf8(line)), 1 + used))
            } else {
                Ok((FrameView::Error(decode_utf8(line)), 1 + used))
            },
            Err(error) => Err(error),
        }
    } else if data[pos] == INTEGER {
        match spec_get_decimal(data, pos + 1) {
            Ok((value, used)) => Ok((FrameView::Integer(value), 1 + used)),
            Err(error) => Err(error),
        }
    } else if data[pos] == BULK {
        if pos + 1 >= data.len() {
            Err(Error::IncompleteError)
        } else if data[pos + 1] == MINUS {
            match spec_get_line(data, pos + 1) {
                Ok((line, used)) => if line == null_line() {
                    Ok((FrameView::Null, 1 + used))
                } else {
                    Err(Error::ProtocolError { b: 1 })
                },
                Err(error) => Err(error),
            }
        } else {
            match spec_get_decimal(data, pos + 1) {
                Ok((length, used)) => if remaining(data, pos + 1 + used) < length + 2 {
                    Err(Error::IncompleteError)
                } else {
                    Ok(
                        (
                            FrameView::Bulk(
                                data.subrange(pos + 1 + used, pos + 1 + used + length),
                            ),
                            1 + used + length as nat + 2,
                        ),
                    )
                },
                Err(error) => Err(error),
            }
        }
    } else if data[pos] == ARRAY {
        match spec_get_decimal(data, pos + 1) {
            Ok((count, used)) => if count > usize::MAX {
                Err(Error::IncompleteError)
            } else {
                match spec_parse_items(data, pos + 1 + used, count as nat) {
                    Ok((items, more)) => Ok((FrameView::Array(items), 1 + used + more)),
                    Err(error) => Err(error),
                }
            },
            Err(error) => Err(error),
        }
    } else {
        Err(Error::ProtocolError { b: data[pos] })
    }
}

/// The `count` frames that follow one another from `pos` on, and the bytes
/// that they take together.
pub open spec fn spec_parse_items(data: Seq<u8>, pos: int, count: nat) -> Result<
    (Seq<FrameView>, nat),
    Error,
>
    decreases remaining(data, pos), count,
{
    if count == 0 {
        Ok((Seq::empty(), 0))
    } else {
        match spec_parse(data, pos) {
            Ok((first, used)) => match spec_parse_items(data, pos + used, (count - 1) as nat) {
                Ok((others, more)) => Ok((seq![first] + others, used + more)),
                Err(error) => Err(error),
            },
            Err(error) => Err(error),
        }
    }
}

/// The two bytes that end a line.
pub open spec fn crlf() -> Seq<u8> {
    seq![CR, LF]
}

/// The bytes of a frame on the wire.
pub open spec fn spec_encode(frame: FrameView) -> Seq<u8>
    decreases frame,
{
    match frame {
        FrameView::Simple(text) => seq![SIMPLE] + encode_utf8(text) + crlf(),
        FrameView::Error(text) => seq![ERROR] + encode_utf8(text) + crlf(),
        FrameView::Integer(value) => seq![INTEGER] + decimal(value as nat) + crlf(),
        FrameView::Bulk(data) => seq![BULK] + decimal(data.len()) + crlf() + data + crlf(),
        FrameView::Null => seq![BULK, MINUS, ONE, CR, LF],
        FrameView::Array(items) => seq![ARRAY] + decimal(items.len()) + crlf()
            + spec_encode_items(items),
    }
}

/// The bytes of the frames of `items`, one after the other.
pub open spec fn spec_encode_items(items: Seq<FrameView>) -> Seq<u8>
    decreases items,
{
    if items.len() == 0 {
        Seq::empty()
    } else {
        spec_encode(items[0]) + spec_encode_items(items.drop_first())
    }
}

/// Whether the bytes `text` can stand on one line: no CR LF occurs in them.
pub open spec fn is_line(text: Seq<u8>) -> bool {
    forall|i: int| !is_line_end(text, i)
}

/// Whether a carriage return stands at `i` in `text`, with a line feed right
/// after it.
pub open spec fn is_line_end_in(text: Seq<char>, i: int) -> bool {
    0 <= i && i + 1 < text.len() && text[i] == '\r' && text[i + 1] == '\n'
}

/// Whether `text` can stand on one line: no carriage return in it is
/// followed by a line feed.
pub open spec fn is_one_line(text: Seq<char>) -> bool {
    forall|i: int| !is_line_end_in(text, i)
}

/// Whether the texts of a frame, and of the frames in it, can each stand on
/// one line. The wire form has no way to tell a line end inside a simple
/// string or an error from the end of its line.
pub open spec fn texts_are_lines(frame: FrameView) -> bool
    decreases frame,
{
    match frame {
        FrameView::Simple(text) => is_one_line(text),
        FrameView::Error(text) => is_one_line(text),
        FrameView::Array(items) => forall|i: int|
            0 <= i < items.len() ==> texts_are_lines(#[trigger] items[i]),
        _ => true,
    }
}

/// Whether an array stands inside the array `frame`.
pub open spec fn has_nested_array(frame: FrameView) -> bool {
    frame matches FrameView::Array(items) && exists|i: int|
        0 <= i < items.len() && #[trigger] items[i] is Array
}

/// The line end that `line_end` finds is the first one from `from` on.
pub proof fn lemma_line_end(data: Seq<u8>, from: int)
    requires
        0 <= from,
    ensures
        line_end(data, from) matches Some(end) ==> from <= end && is_line_end(data, end),
        forall|i: int|
            from <= i && (line_end(data, from) matches Some(end) ==> i < end) ==> !is_line_end(
                data,
                i,
            ),
    decreases data.len() - from,
{
    if from + 1 < data.len() && !(data[from] == CR && data[from + 1] == LF) {
        lemma_line_end(data, from + 1);
    }
}

} // verus!
