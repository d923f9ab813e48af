//! The frames of the protocol: what they look like on the wire, how a buffer
//! is checked for a complete frame, and how one is decoded.
use bytes::Bytes;
use std::io::Cursor;
use vstd::prelude::*;
use vstd::slice::{slice_subrange, slice_to_vec};

use crate::buf::{bytes_contents, bytes_copy_from_slice};
use crate::cursor::{cursor_bytes, cursor_position, get_ref, position, set_position};
use crate::decimal::{parse_number, MINUS};
use crate::text::string_from_utf8;
use crate::wire::{
    has_nested_array, line_end, line_length, null_line, remaining, spec_check, spec_check_items,
    spec_get_decimal, spec_get_line, spec_get_u8, spec_parse, spec_parse_items, spec_skip, ARRAY,
    BULK, CR, ERROR, INTEGER, LF, ONE, SIMPLE,
};

verus! {

/// Why a buffer does not give a frame.
#[derive(Debug, Clone, Copy, PartialEq, Eq, Structural)]
pub enum Error {
    /// The buffer ends before the frame does: more bytes may complete it.
    IncompleteError,
    /// A simple string or an error is not valid UTF-8.
    EncodeError,
    /// No frame starts with the byte `b`, or a null frame is malformed.
    ProtocolError { b: u8 },
    /// A length or an integer is not a decimal number.
    DecimalError,
}

/// One unit of the protocol.
#[derive(Debug)]
pub enum Frame {
    /// A short text on one line.
    Simple(String),
    /// The text of an error, on one line.
    Error(String),
    /// A number.
    Integer(u64),
    /// Bytes of any value, with their count in front of them.
    Bulk(Bytes),
    /// The mark for a value that is absent; not the same as no bytes.
    Null,
    /// Frames in order: a command with its arguments.
    Array(Vec<Frame>),
}

/// The value of a frame: texts as characters, payloads as bytes.
pub enum FrameView {
    /// The characters of a simple string.
    Simple(Seq<char>),
    /// The characters of an error.
    Error(Seq<char>),
    /// The number of an integer.
    Integer(u64),
    /// The bytes of a bulk string.
    Bulk(Seq<u8>),
    /// The null frame.
    Null,
    /// The values of the frames of an array.
    Array(Seq<FrameView>),
}

impl View for Frame {
    type V = FrameView;

    open spec fn view(&self) -> FrameView
        decreases self,
    {
        match self {
            Frame::Simple(text) => FrameView::Simple(text@),
            Frame::Error(text) => FrameView::Error(text@),
            Frame::Integer(value) => FrameView::Integer(*value),
            Frame::Bulk(data) => FrameView::Bulk(bytes_contents(*data)),
            Frame::Null => FrameView::Null,
            Frame::Array(items) => FrameView::Array(
                Seq::new(
                    items.len() as nat,
                    |i: int|
                        if 0 <= i < items.len() {
                            items[i].view()
                        } else {
                            FrameView::Null
                        },
                ),
            ),
        }
    }
}

impl Clone for Frame {
    /// A deep copy: the clone has the same value.
    fn clone(&self) -> (copy: Frame)
        ensures
            copy@ == self@,
        decreases self,
    {
        match self {
            Frame::Simple(text) => Frame::Simple(text.clone()),
            Frame::Error(text) => Frame::Error(text.clone()),
            Frame::Integer(value) => Frame::Integer(*value),
            Frame::Bulk(data) => Frame::Bulk(data.clone()),
            Frame::Null => Frame::Null,
            Frame::Array(items) => {
                let mut copies: Vec<Frame> = Vec::new();
                let mut i: usize = 0;
                assert(forall|k: int|
                    0 <= k < items.len() ==> decreases_to!(*self => #[trigger] items[k]));
                while i < items.len()
                    invariant
                        forall|k: int|
                            0 <= k < items.len() ==> decreases_to!(*self => #[trigger] items[k]),
                        i <= items.len(),
                        copies.len() == i,
                        forall|k: int| 0 <= k < i ==> copies[k]@ == items[k]@,
                    decreases items.len() - i,
                {
                    copies.push(items[i].clone());
                    i += 1;
                }
                let copy = Frame::Array(copies);
                assert(copy@->Array_0 =~= self@->Array_0);
                copy
            },
        }
    }
}

/// The cursor holds the same bytes as before and stands `used` bytes further.
pub open spec fn advanced(before: Cursor<&[u8]>, after: Cursor<&[u8]>, used: nat) -> bool {
    &&& cursor_bytes(after) == cursor_bytes(before)
    &&& cursor_position(after) == cursor_position(before) + used
}

/// `spec_check` on what a cursor holds, from where it stands.
pub open spec fn check_at(src: Cursor<&[u8]>) -> Result<nat, Error> {
    spec_check(cursor_bytes(src), cursor_position(src) as int)
}

/// `spec_parse` on what a cursor holds, from where it stands.
pub open spec fn parse_at(src: Cursor<&[u8]>) -> Result<(FrameView, nat), Error> {
    spec_parse(cursor_bytes(src), cursor_position(src) as int)
}

/// The bytes that a cursor has not passed yet: how many there are.
pub fn remaining_bytes(src: &Cursor<&[u8]>) -> (count: usize)
    ensures
        count == remaining(cursor_bytes(*src), cursor_position(*src) as int),
{
    let length: usize = get_ref(src).len();
    let pos: u64 = position(src);
    if pos <= length as u64 {
        length - pos as usize
    } else {
        0
    }
}

/// Takes the byte under the cursor and moves past it.
pub fn get_u8(src: &mut Cursor<&[u8]>) -> (byte: Result<u8, Error>)
    ensures
        byte == spec_get_u8(cursor_bytes(*old(src)), cursor_position(*old(src)) as int),
        byte is Ok ==> advanced(*old(src), *final(src), 1),
        byte is Err ==> advanced(*old(src), *final(src), 0),
{
    let data: &[u8] = get_ref(src);
    let pos: u64 = position(src);
    if pos >= data.len() as u64 {
        return Err(Error::IncompleteError);
    }
    let byte: u8 = data[pos as usize];
    set_position(src, pos + 1);
    Ok(byte)
}

/// Reads the byte under the cursor and leaves the cursor where it is.
pub fn peek_u8(src: &mut Cursor<&[u8]>) -> (byte: Result<u8, Error>)
    ensures
        byte == spec_get_u8(cursor_bytes(*old(src)), cursor_position(*old(src)) as int),
        advanced(*old(src), *final(src), 0),
{
    let data: &[u8] = get_ref(src);
    let pos: u64 = position(src);
    if pos >= data.len() as u64 {
        return Err(Error::IncompleteError);
    }
    Ok(data[pos as usize])
}

/// Moves the cursor `count` bytes on, if that many are left.
pub fn skip(src: &mut Cursor<&[u8]>, count: usize) -> (done: Result<(), Error>)
    ensures
        done == spec_skip(
            cursor_bytes(*old(src)),
            cursor_position(*old(src)) as int,
            count as nat,
        ),
        done is Ok ==> advanced(*old(src), *final(src), count as nat),
        done is Err ==> advanced(*old(src), *final(src), 0),
{
    let left: usize = remaining_bytes(src);
    if left < count {
        return Err(Error::IncompleteError);
    }
    if count > 0 {
        let length: usize = get_ref(src).len();
        set_position(src, (length - left + count) as u64);
    }
    Ok(())
}

/// Takes the line under the cursor, up to the first CR LF, and moves past
/// that line end.
pub fn get_line<'a>(src: &mut Cursor<&'a [u8]>) -> (line: Result<&'a [u8], Error>)
    ensures
        spec_get_line(cursor_bytes(*old(src)), cursor_position(*old(src)) as int) matches Ok(
            (bytes, used),
        ) ==> line is Ok && line->Ok_0@ == bytes && advanced(*old(src), *final(src), used),
        spec_get_line(cursor_bytes(*old(src)), cursor_position(*old(src)) as int) is Err ==> line
            == Err::<&[u8], Error>(Error::IncompleteError) && advanced(
            *old(src),
            *final(src),
            0,
        ),
{
    let data: &'a [u8] = get_ref(src);
    let pos: u64 = position(src);
    if pos >= data.len() as u64 {
        return Err(Error::IncompleteError);
    }
    let start: usize = pos as usize;
    let end: usize = data.len() - 1;
    let mut i: usize = start;
    while i < end
        invariant
            *src == *old(src),
            data@ == cursor_bytes(*src),
            start == cursor_position(*src),
            start <= i <= end,
            end + 1 == data@.len(),
            line_end(data@, i as int) == line_end(data@, start as int),
        decreases end - i,
    {
        if data[i] == CR && data[i + 1] == LF {
            set_position(src, (i + 2) as u64);
            return Ok(slice_subrange(data, start, i));
        }
        i += 1;
    }
    Err(Error::IncompleteError)
}

/// Takes the line under the cursor and reads the decimal number on it: the
/// line has to be digits and nothing else, and the number has to fit. The
/// cursor moves past the line, whatever stands on it.
pub fn get_decimal(src: &mut Cursor<&[u8]>) -> (number: Result<u64, Error>)
    ensures
        spec_get_decimal(cursor_bytes(*old(src)), cursor_position(*old(src)) as int) matches Ok(
            (value, _),
        ) ==> number == Ok::<u64, Error>(value),
        spec_get_decimal(cursor_bytes(*old(src)), cursor_position(*old(src)) as int) matches Err(
            error,
        ) ==> number == Err::<u64, Error>(error),
        advanced(
            *old(src),
            *final(src),
            line_length(cursor_bytes(*old(src)), cursor_position(*old(src)) as int),
        ),
{
    match get_line(src) {
        Ok(line) => match parse_number(line) {
            Some(value) => Ok(value),
            None => Err(Error::DecimalError),
        },
        Err(error) => Err(error),
    }
}

/// The values of the frames of `items`, in order.
pub open spec fn frame_views(items: Seq<Frame>) -> Seq<FrameView> {
    Seq::new(items.len(), |i: int| items[i]@)
}

impl Frame {
    /// Tells whether this frame is an array in which an array stands. Such a
    /// frame can be decoded, but not written.
    pub fn has_nested_array(&self) -> (nested: bool)
        ensures
            nested == has_nested_array(self@),
    {
        proof {
            reveal_with_fuel(<Frame as View>::view, 2);
        }
        match self {
            Frame::Array(items) => {
                let ghost views = self@->Array_0;
                let mut i: usize = 0;
                while i < items.len()
                    invariant
                        i <= items.len(),
                        self@ == FrameView::Array(views),
                        views.len() == items.len(),
                        forall|k: int| 0 <= k < items.len() ==> views[k] == items[k]@,
                        forall|k: int| 0 <= k < i ==> !(#[trigger] views[k] is Array),
                    decreases items.len() - i,
                {
                    if let Frame::Array(_) = &items[i] {
                        assert(views[i as int] is Array);
                        return true;
                    }
                    i += 1;
                }
                false
            },
            _ => false,
        }
    }

    /// Tells whether a complete frame starts where the cursor stands, without
    /// decoding it, and moves the cursor past that frame.
    ///
    /// `IncompleteError` says that the buffer ends too early; every other
    /// error is final.
    pub fn check(src: &mut Cursor<&[u8]>) -> (done: Result<(), Error>)
        ensures
            cursor_bytes(*final(src)) == cursor_bytes(*old(src)),
            cursor_position(*final(src)) >= cursor_position(*old(src)),
            check_at(*old(src)) matches Ok(used) ==> done is Ok && advanced(
                *old(src),
                *final(src),
                used,
            ),
            check_at(*old(src)) matches Err(error) ==> done == Err::<(), Error>(error),
        decreases remaining(cursor_bytes(*old(src)), cursor_position(*old(src)) as int),
    {
        let ghost data = cursor_bytes(*src);
        let ghost origin = cursor_position(*src) as int;
        let kind: u8 = match get_u8(src) {
            Ok(byte) => byte,
            Err(error) => {
                return Err(error);
            },
        };
        if kind == SIMPLE || kind == ERROR {
            match get_line(src) {
                Ok(_) => Ok(()),
                Err(error) => Err(error),
            }
        } else if kind == INTEGER {
            match get_decimal(src) {
                Ok(_) => Ok(()),
                Err(error) => Err(error),
            }
        } else if kind == BULK {
            let next: u8 = match peek_u8(src) {
                Ok(byte) => byte,
                Err(error) => {
                    return Err(error);
                },
            };
            if next == MINUS {
                let left: usize = remaining_bytes(src);
                if left < 4 {
                    return Err(Error::IncompleteError);
                }
                let bytes: &[u8] = get_ref(src);
                let from: usize = bytes.len() - left;
                if bytes[from + 1] == ONE && bytes[from + 2] == CR && bytes[from + 3] == LF {
                    skip(src, 4)
                } else {
                    Err(Error::ProtocolError { b: 1 })
                }
            } else {
                let length: u64 = match get_decimal(src) {
                    Ok(number) => number,
                    Err(error) => {
                        return Err(error);
                    },
                };
                let left: usize = remaining_bytes(src);
                if left < 2 || length > (left - 2) as u64 {
                    return Err(Error::IncompleteError);
                }
                skip(src, length as usize + 2)
            }
        } else if kind == ARRAY {
            let count: u64 = match get_decimal(src) {
                Ok(number) => number,
                Err(error) => {
                    return Err(error);
                },
            };
            let ghost start = cursor_position(*src) as int;
            let ghost used: nat = 0;
            let mut i: u64 = 0;
            while i < count
                invariant
                    i <= count,
                    cursor_bytes(*src) == data,
                    cursor_position(*src) == start + used,
                    0 <= origin < start,
                    origin < data.len(),
                    origin == cursor_position(*old(src)),
                    data == cursor_bytes(*old(src)),
                    spec_check_items(data, start, count as nat) matches Ok(more) ==> spec_check(
                        data,
                        origin,
                    ) == Ok::<nat, Error>((start - origin + more) as nat),
                    spec_check_items(data, start, count as nat) matches Err(error) ==> spec_check(
                        data,
                        origin,
                    ) == Err::<nat, Error>(error),
                    spec_check_items(data, start + used, (count - i) as nat) matches Ok(more)
                        ==> spec_check_items(data, start, count as nat) == Ok::<nat, Error>(
                        used + more,
                    ),
                    spec_check_items(data, start + used, (count - i) as nat) matches Err(error)
                        ==> spec_check_items(data, start, count as nat) == Err::<nat, Error>(
                        error,
                    ),
                decreases count - i,
            {
                match Frame::check(src) {
                    Ok(()) => {},
                    Err(error) => {
                        return Err(error);
                    },
                }
                proof {
                    used = (cursor_position(*src) - start) as nat;
                }
                i += 1;
            }
            Ok(())
        } else {
            Err(Error::ProtocolError { b: kind })
        }
    }

    /// Decodes the frame that starts where the cursor stands and moves the
    /// cursor past it.
    pub fn parse(src: &mut Cursor<&[u8]>) -> (frame: Result<Frame, Error>)
        ensures
            cursor_bytes(*final(src)) == cursor_bytes(*old(src)),
            cursor_position(*final(src)) >= cursor_position(*old(src)),
            parse_at(*old(src)) matches Ok((value, used)) ==> frame is Ok && frame->Ok_0@ == value
                && advanced(*old(src), *final(src), used),
            parse_at(*old(src)) matches Err(error) ==> frame is Err && frame->Err_0 == error,
        decreases remaining(cursor_bytes(*old(src)), cursor_position(*old(src)) as int),
    {
        let ghost data = cursor_bytes(*src);
        let ghost origin = cursor_position(*src) as int;
        let kind: u8 = match get_u8(src) {
            Ok(byte) => byte,
            Err(error) => {
                return Err(error);
            },
        };
        if kind == SIMPLE || kind == ERROR {
            let line: &[u8] = match get_line(src) {
                Ok(line) => line,
                Err(error) => {
                    return Err(error);
                },
            };
            match string_from_utf8(slice_to_vec(line)) {
                Ok(text) => if kind == SIMPLE {
                    Ok(Frame::Simple(text))
                } else {
                    Ok(Frame::Error(text))
                },
                Err(_) => Err(Error::EncodeError),
            }
        } else if kind == INTEGER {
            match get_decimal(src) {
                Ok(value) => Ok(Frame::Integer(value)),
                Err(error) => Err(error),
            }
        } else if kind == BULK {
            let next: u8 = match peek_u8(src) {
                Ok(byte) => byte,
                Err(error) => {
                    return Err(error);
                },
            };
            if next == MINUS {
                let line: &[u8] = match get_line(src) {
                    Ok(line) => line,
                    Err(error) => {
                        return Err(error);
                    },
                };
                if line.len() == 2 && line[0] == MINUS && line[1] == ONE {
                    assert(line@ =~= null_line());
                    Ok(Frame::Null)
                } else {
                    Err(Error::ProtocolError { b: 1 })
                }
            } else {
                let length: u64 = match get_decimal(src) {
                    Ok(number) => number,
                    Err(error) => {
                        return Err(error);
                    },
                };
                let left: usize = remaining_bytes(src);
                if left < 2 || length > (left - 2) as u64 {
                    return Err(Error::IncompleteError);
                }
                let count: usize = length as usize;
                let bytes: &[u8] = get_ref(src);
                let from: usize = bytes.len() - left;
                let payload: Bytes = bytes_copy_from_slice(
                    slice_subrange(bytes, from, from + count),
                );
                match skip(src, count + 2) {
                    Ok(()) => Ok(Frame::Bulk(payload)),
                    Err(error) => Err(error),
                }
            }
        } else if kind == ARRAY {
            let number: u64 = match get_decimal(src) {
                Ok(number) => number,
                Err(error) => {
                    return Err(error);
                },
            };
            if number > usize::MAX as u64 {
                return Err(Error::IncompleteError);
            }
            let count: usize = number as usize;
            let ghost start = cursor_position(*src) as int;
            let ghost used: nat = 0;
            let mut items: Vec<Frame> = Vec::new();
            let mut i: usize = 0;
            assert(frame_views(items@) =~= Seq::<FrameView>::empty());
            while i < count
                invariant
                    i <= count,
                    cursor_bytes(*src) == data,
                    cursor_position(*src) == start + used,
                    0 <= origin < start,
                    origin < data.len(),
                    origin == cursor_position(*old(src)),
                    data == cursor_bytes(*old(src)),
                    spec_parse_items(data, start, count as nat) matches Ok((all, more))
                        ==> spec_parse(data, origin) == Ok::<(FrameView, nat), Error>(
                        (FrameView::Array(all), (start - origin + more) as nat),
                    ),
                    spec_parse_items(data, start, count as nat) matches Err(error) ==> spec_parse(
                        data,
                        origin,
                    ) == Err::<(FrameView, nat), Error>(error),
                    spec_parse_items(data, start + used, (count - i) as nat) matches Ok(
                        (others, more),
                    ) ==> spec_parse_items(data, start, count as nat) == Ok::<
                        (Seq<FrameView>, nat),
                        Error,
                    >((frame_views(items@) + others, used + more)),
                    spec_parse_items(data, start + used, (count - i) as nat) matches Err(error)
                        ==> spec_parse_items(data, start, count as nat) == Err::<
                        (Seq<FrameView>, nat),
                        Error,
                    >(error),
                decreases count - i,
            {
                let ghost parsed = frame_views(items@);
                let item: Frame = match Frame::parse(src) {
                    Ok(item) => item,
                    Err(error) => {
                        return Err(error);
                    },
                };
                proof {
                    used = (cursor_position(*src) - start) as nat;
                    assert forall|others: Seq<FrameView>|
                        parsed + (seq![item@] + others) == #[trigger] (parsed.push(item@)
                            + others) by {
                        assert(parsed + (seq![item@] + others) =~= parsed.push(item@) + others);
                    }
                }
                items.push(item);
                assert(frame_views(items@) =~= parsed.push(item@));
                i += 1;
            }
            let ghost views = frame_views(items@);
            let frame = Frame::Array(items);
            proof {
                reveal_with_fuel(<Frame as View>::view, 2);
                assert(frame@->Array_0 =~= views);
                assert(views + Seq::<FrameView>::empty() =~= views);
            }
            Ok(frame)
        } else {
            Err(Error::ProtocolError { b: kind })
        }
    }
}

} // verus!
