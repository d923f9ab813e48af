//! A buffer is checked first and decoded after: what the two passes have to
//! say of the same bytes.
use vstd::prelude::*;

use crate::decimal::MINUS;
use crate::frame::Error;
use crate::prefix::{
    lemma_check_bounds, lemma_check_items_bounds, lemma_get_decimal_prefix,
    lemma_get_line_prefix,
};
use crate::wire::{
    lemma_line_end, line_end, null_line, remaining, spec_check, spec_check_items,
    spec_get_decimal, spec_get_line, spec_parse, spec_parse_items, ARRAY, BULK,
};

verus! {

/// A frame that can be decoded is one that `spec_check` accepts, with the
/// same bytes.
pub proof fn lemma_check_of_parsed(data: Seq<u8>, pos: int)
    requires
        spec_parse(data, pos) is Ok,
    ensures
        spec_check(data, pos) == Ok::<nat, Error>(spec_parse(data, pos)->Ok_0.1),
    decreases remaining(data, pos), 0nat,
{
    if data[pos] == BULK {
        if data[pos + 1] == MINUS {
            lemma_get_line_prefix(data, data, pos + 1);
            lemma_line_end(data, pos + 1);
            let line = spec_get_line(data, pos + 1)->Ok_0.0;
            assert(line.len() == 2);
            assert(data[pos + 2] == line[1]);
        }
    } else if data[pos] == ARRAY {
        match spec_get_decimal(data, pos + 1) {
            Ok((count, used)) => {
                lemma_check_items_of_parsed(data, pos + 1 + used, count as nat);
            },
            Err(_) => {},
        }
    }
}

/// The same for frames that follow one another.
pub proof fn lemma_check_items_of_parsed(data: Seq<u8>, pos: int, count: nat)
    requires
        spec_parse_items(data, pos, count) is Ok,
    ensures
        spec_check_items(data, pos, count) == Ok::<nat, Error>(
            spec_parse_items(data, pos, count)->Ok_0.1,
        ),
    decreases remaining(data, pos), count,
{
    if count > 0 {
        lemma_check_of_parsed(data, pos);
        match spec_parse(data, pos) {
            Ok((_, used)) => {
                lemma_check_items_of_parsed(data, pos + used, (count - 1) as nat);
            },
            Err(_) => {},
        }
    }
}

/// Frames that `spec_check_items` accepts take at least one byte each.
pub proof fn lemma_check_items_count(data: Seq<u8>, pos: int, count: nat)
    ensures
        spec_check_items(data, pos, count) matches Ok(used) ==> count <= used,
    decreases remaining(data, pos), count,
{
    if count > 0 {
        lemma_check_bounds(data, pos);
        match spec_check(data, pos) {
            Ok(used) => {
                lemma_check_items_count(data, pos + used, (count - 1) as nat);
            },
            Err(_) => {},
        }
    }
}

/// What is left to the decoder once `spec_check` has accepted a frame: the
/// frame is decoded, from the same bytes, unless a text in it is not valid
/// UTF-8. The buffer is one that a machine can hold.
pub proof fn lemma_parse_of_checked(data: Seq<u8>, pos: int)
    requires
        spec_check(data, pos) is Ok,
        data.len() <= usize::MAX,
    ensures
        spec_parse(data, pos) matches Ok((_, used)) ==> spec_check(data, pos) == Ok::<
            nat,
            Error,
        >(used),
        spec_parse(data, pos) matches Err(error) ==> error == Error::EncodeError,
    decreases remaining(data, pos), 0nat,
{
    lemma_check_bounds(data, pos);
    if data[pos] == BULK {
        if data[pos + 1] == MINUS {
            assert(line_end(data, pos + 1) == Some(pos + 3)) by {
                reveal_with_fuel(line_end, 3);
            }
            assert(data.subrange(pos + 1, pos + 3) =~= null_line());
        }
    } else if data[pos] == ARRAY {
        match spec_get_decimal(data, pos + 1) {
            Ok((count, used)) => {
                lemma_get_decimal_prefix(data, data, pos + 1);
                lemma_check_items_count(data, pos + 1 + used, count as nat);
                lemma_check_items_bounds(data, pos + 1 + used, count as nat);
                lemma_parse_items_of_checked(data, pos + 1 + used, count as nat);
            },
            Err(_) => {},
        }
    }
}

/// The same for frames that follow one another.
pub proof fn lemma_parse_items_of_checked(data: Seq<u8>, pos: int, count: nat)
    requires
        spec_check_items(data, pos, count) is Ok,
        data.len() <= usize::MAX,
    ensures
        spec_parse_items(data, pos, count) matches Ok((_, used)) ==> spec_check_items(
            data,
            pos,
            count,
        ) == Ok::<nat, Error>(used),
        spec_parse_items(data, pos, count) matches Err(error) ==> error == Error::EncodeError,
    decreases remaining(data, pos), count,
{
    if count > 0 {
        lemma_parse_of_checked(data, pos);
        match spec_check(data, pos) {
            Ok(used) => {
                lemma_parse_items_of_checked(data, pos + used, (count - 1) as nat);
            },
            Err(_) => {},
        }
    }
}

} // verus!
