//! What a buffer says about a frame does not change when more bytes arrive,
//! unless it said that the frame is incomplete.
use vstd::prelude::*;

use crate::decimal::MINUS;
use crate::frame::{Error, FrameView};
use crate::wire::{
    lemma_line_end, line_end, remaining, spec_check, spec_check_items, spec_get_decimal,
    spec_get_line, spec_parse, spec_parse_items, ARRAY, BULK, CR, ERROR, INTEGER, LF, SIMPLE,
};

verus! {

/// A line end that a buffer holds is still the first one when bytes are
/// added behind the buffer.
pub proof fn lemma_line_end_prefix(short: Seq<u8>, long: Seq<u8>, from: int)
    requires
        short.is_prefix_of(long),
        line_end(short, from) is Some,
    ensures
        line_end(long, from) == line_end(short, from),
    decreases short.len() - from,
{
    assert(short[from] == long[from]);
    assert(short[from + 1] == long[from + 1]);
    if !(short[from] == CR && short[from + 1] == LF) {
        lemma_line_end_prefix(short, long, from + 1);
    }
}

/// A line that a buffer holds is the same line in a longer buffer.
pub proof fn lemma_get_line_prefix(short: Seq<u8>, long: Seq<u8>, pos: int)
    requires
        short.is_prefix_of(long),
        spec_get_line(short, pos) is Ok,
    ensures
        spec_get_line(long, pos) == spec_get_line(short, pos),
        0 <= pos,
        pos + spec_get_line(short, pos)->Ok_0.1 <= short.len(),
{
    lemma_line_end_prefix(short, long, pos);
    lemma_line_end(short, pos);
    let end = line_end(short, pos)->Some_0;
    assert(short.subrange(pos, end) =~= long.subrange(pos, end));
}

/// A number that a buffer holds, or fails to hold on a whole line, is the
/// same in a longer buffer.
pub proof fn lemma_get_decimal_prefix(short: Seq<u8>, long: Seq<u8>, pos: int)
    requires
        short.is_prefix_of(long),
        spec_get_decimal(short, pos) != Err::<(u64, nat), Error>(Error::IncompleteError),
    ensures
        spec_get_decimal(long, pos) == spec_get_decimal(short, pos),
        0 <= pos,
        spec_get_decimal(short, pos) matches Ok((_, used)) ==> pos + used <= short.len(),
{
    lemma_get_line_prefix(short, long, pos);
}

/// A frame that `spec_check` accepts lies within the buffer and takes at
/// least one byte.
pub proof fn lemma_check_bounds(data: Seq<u8>, pos: int)
    ensures
        spec_check(data, pos) matches Ok(used) ==> 0 <= pos && 1 <= used && pos + used
            <= data.len(),
    decreases remaining(data, pos), 0nat,
{
    if 0 <= pos < data.len() {
        if data[pos] == SIMPLE || data[pos] == ERROR {
            if spec_get_line(data, pos + 1) is Ok {
                lemma_get_line_prefix(data, data, pos + 1);
            }
        } else if data[pos] == INTEGER {
            if spec_get_decimal(data, pos + 1) is Ok {
                lemma_get_decimal_prefix(data, data, pos + 1);
            }
        } else if data[pos] == BULK {
            if pos + 1 < data.len() && data[pos + 1] != MINUS {
                if spec_get_decimal(data, pos + 1) is Ok {
                    lemma_get_decimal_prefix(data, data, pos + 1);
                }
            }
        } else if data[pos] == ARRAY {
            match spec_get_decimal(data, pos + 1) {
                Ok((count, used)) => {
                    lemma_get_decimal_prefix(data, data, pos + 1);
                    lemma_check_items_bounds(data, pos + 1 + used, count as nat);
                },
                Err(_) => {},
            }
        }
    }
}

/// Frames that `spec_check_items` accepts lie within the buffer.
pub proof fn lemma_check_items_bounds(data: Seq<u8>, pos: int, count: nat)
    requires
        0 <= pos <= data.len(),
    ensures
        spec_check_items(data, pos, count) matches Ok(used) ==> pos + used <= data.len(),
    decreases remaining(data, pos), count,
{
    if count > 0 {
        lemma_check_bounds(data, pos);
        match spec_check(data, pos) {
            Ok(used) => {
                lemma_check_items_bounds(data, pos + used, (count - 1) as nat);
            },
            Err(_) => {},
        }
    }
}

/// What `spec_check` says of a buffer, it says of every buffer that starts
/// with the same bytes, unless it says that the frame is incomplete.
pub proof fn lemma_check_prefix(short: Seq<u8>, long: Seq<u8>, pos: int)
    requires
        short.is_prefix_of(long),
        spec_check(short, pos) != Err::<nat, Error>(Error::IncompleteError),
    ensures
        spec_check(long, pos) == spec_check(short, pos),
    decreases remaining(short, pos), 0nat,
{
    assert(0 <= pos < short.len());
    assert(short[pos] == long[pos]);
    if short[pos] == SIMPLE || short[pos] == ERROR {
        lemma_get_line_prefix(short, long, pos + 1);
    } else if short[pos] == INTEGER {
        lemma_get_decimal_prefix(short, long, pos + 1);
    } else if short[pos] == BULK {
        assert(short[pos + 1] == long[pos + 1]);
        if short[pos + 1] != MINUS {
            lemma_get_decimal_prefix(short, long, pos + 1);
        } else {
            assert(short[pos + 2] == long[pos + 2]);
            assert(short[pos + 3] == long[pos + 3]);
            assert(short[pos + 4] == long[pos + 4]);
        }
    } else if short[pos] == ARRAY {
        lemma_get_decimal_prefix(short, long, pos + 1);
        match spec_get_decimal(short, pos + 1) {
            Ok((count, used)) => {
                lemma_check_items_prefix(short, long, pos + 1 + used, count as nat);
            },
            Err(_) => {},
        }
    }
}

/// The same for frames that follow one another.
pub proof fn lemma_check_items_prefix(short: Seq<u8>, long: Seq<u8>, pos: int, count: nat)
    requires
        short.is_prefix_of(long),
        spec_check_items(short, pos, count) != Err::<nat, Error>(Error::IncompleteError),
    ensures
        spec_check_items(long, pos, count) == spec_check_items(short, pos, count),
    decreases remaining(short, pos), count,
{
    if count > 0 {
        lemma_check_prefix(short, long, pos);
        match spec_check(short, pos) {
            Ok(used) => {
                lemma_check_items_prefix(short, long, pos + used, (count - 1) as nat);
            },
            Err(_) => {},
        }
    }
}

/// What `spec_parse` says of a buffer, it says of every buffer that starts
/// with the same bytes, unless it says that the frame is incomplete.
pub proof fn lemma_parse_prefix(short: Seq<u8>, long: Seq<u8>, pos: int)
    requires
        short.is_prefix_of(long),
        spec_parse(short, pos) != Err::<(FrameView, nat), Error>(Error::IncompleteError),
    ensures
        spec_parse(long, pos) == spec_parse(short, pos),
    decreases remaining(short, pos), 0nat,
{
    assert(0 <= pos < short.len());
    assert(short[pos] == long[pos]);
    if short[pos] == SIMPLE || short[pos] == ERROR {
        lemma_get_line_prefix(short, long, pos + 1);
    } else if short[pos] == INTEGER {
        lemma_get_decimal_prefix(short, long, pos + 1);
    } else if short[pos] == BULK {
        assert(short[pos + 1] == long[pos + 1]);
        if short[pos + 1] == MINUS {
            lemma_get_line_prefix(short, long, pos + 1);
        } else {
            lemma_get_decimal_prefix(short, long, pos + 1);
            match spec_get_decimal(short, pos + 1) {
                Ok((length, used)) => {
                    let from = pos + 1 + used;
                    assert(short.subrange(from, from + length) =~= long.subrange(
                        from,
                        from + length,
                    ));
                },
                Err(_) => {},
            }
        }
    } else if short[pos] == ARRAY {
        lemma_get_decimal_prefix(short, long, pos + 1);
        match spec_get_decimal(short, pos + 1) {
            Ok((count, used)) => {
                if count <= usize::MAX {
                    lemma_parse_items_prefix(short, long, pos + 1 + used, count as nat);
                }
            },
            Err(_) => {},
        }
    }
}

/// The same for frames that follow one another.
pub proof fn lemma_parse_items_prefix(short: Seq<u8>, long: Seq<u8>, pos: int, count: nat)
    requires
        short.is_prefix_of(long),
        spec_parse_items(short, pos, count) != Err::<(Seq<FrameView>, nat), Error>(
            Error::IncompleteError,
        ),
    ensures
        spec_parse_items(long, pos, count) == spec_parse_items(short, pos, count),
    decreases remaining(short, pos), count,
{
    if count > 0 {
        lemma_parse_prefix(short, long, pos);
        match spec_parse(short, pos) {
            Ok((_, used)) => {
                lemma_parse_items_prefix(short, long, pos + used, (count - 1) as nat);
            },
            Err(_) => {},
        }
    }
}

/// The start of a complete frame, cut anywhere before its end, is reported
/// as incomplete and as nothing else.
pub proof fn lemma_check_incomplete(data: Seq<u8>, cut: int)
    requires
        spec_check(data, 0) == Ok::<nat, Error>(data.len()),
        0 <= cut < data.len(),
    ensures
        spec_check(data.take(cut), 0) == Err::<nat, Error>(Error::IncompleteError),
{
    let short = data.take(cut);
    if spec_check(short, 0) != Err::<nat, Error>(Error::IncompleteError) {
        lemma_check_prefix(short, data, 0);
        lemma_check_bounds(short, 0);
    }
}

} // verus!
