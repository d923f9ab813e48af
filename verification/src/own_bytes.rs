//! A frame is decoded from its own bytes alone: not from where they stand in
//! the buffer, and not from what stands around them.
use vstd::prelude::*;

use crate::decimal::MINUS;
use crate::wire::{
    is_line_end, lemma_line_end, line_end, remaining, spec_check, spec_check_items,
    spec_get_decimal, spec_get_line, spec_parse, spec_parse_items, ARRAY, BULK, ERROR, INTEGER,
    SIMPLE,
};

verus! {

/// The `count` bytes of `first` from `here` on are the `count` bytes of
/// `second` from `there` on.
pub open spec fn same_bytes(
    first: Seq<u8>,
    here: int,
    second: Seq<u8>,
    there: int,
    count: nat,
) -> bool {
    &&& 0 <= here
    &&& 0 <= there
    &&& here + count <= first.len()
    &&& there + count <= second.len()
    &&& first.subrange(here, here + count) == second.subrange(there, there + count)
}

/// The same bytes are the same one by one.
proof fn lemma_same_byte(
    first: Seq<u8>,
    here: int,
    second: Seq<u8>,
    there: int,
    count: nat,
    i: int,
)
    requires
        same_bytes(first, here, second, there, count),
        0 <= i < count,
    ensures
        first[here + i] == second[there + i],
{
    assert(first.subrange(here, here + count)[i] == second.subrange(there, there + count)[i]);
}

/// Bytes that are the same stay the same from any place within them on.
proof fn lemma_same_bytes_from(
    first: Seq<u8>,
    here: int,
    second: Seq<u8>,
    there: int,
    count: nat,
    skip: nat,
)
    requires
        same_bytes(first, here, second, there, count),
        skip <= count,
    ensures
        same_bytes(first, here + skip, second, there + skip, (count - skip) as nat),
{
    let one = first.subrange(here + skip, here + count);
    let other = second.subrange(there + skip, there + count);
    assert forall|i: int| 0 <= i < one.len() implies one[i] == other[i] by {
        lemma_same_byte(first, here, second, there, count, skip + i);
    }
    assert(one =~= other);
}

/// A line that lies within the same bytes is the same line.
pub proof fn lemma_get_line_own_bytes(
    first: Seq<u8>,
    here: int,
    second: Seq<u8>,
    there: int,
    count: nat,
)
    requires
        same_bytes(first, here, second, there, count),
        spec_get_line(first, here) matches Ok((_, used)) && used <= count,
    ensures
        spec_get_line(second, there) == spec_get_line(first, here),
{
    let end = line_end(first, here)->Some_0;
    let length = end - here;
    lemma_line_end(first, here);
    assert(is_line_end(second, there + length)) by {
        lemma_same_byte(first, here, second, there, count, length);
        lemma_same_byte(first, here, second, there, count, length + 1);
    }
    assert forall|j: int| there <= j < there + length implies !is_line_end(second, j) by {
        let i = j - there;
        lemma_same_byte(first, here, second, there, count, i);
        lemma_same_byte(first, here, second, there, count, i + 1);
        assert(!is_line_end(first, here + i));
    }
    lemma_line_end(second, there);
    assert(line_end(second, there) == Some(there + length));
    let one = first.subrange(here, end);
    let other = second.subrange(there, there + length);
    assert forall|i: int| 0 <= i < one.len() implies one[i] == other[i] by {
        lemma_same_byte(first, here, second, there, count, i);
    }
    assert(one =~= other);
}

/// A frame that is decoded from some bytes is decoded, as the same frame,
/// wherever the same bytes stand.
pub proof fn lemma_parse_own_bytes(
    first: Seq<u8>,
    here: int,
    second: Seq<u8>,
    there: int,
    count: nat,
)
    requires
        same_bytes(first, here, second, there, count),
        spec_parse(first, here) matches Ok((_, used)) && used <= count,
    ensures
        spec_parse(second, there) == spec_parse(first, here),
    decreases remaining(first, here), 0nat,
{
    lemma_same_byte(first, here, second, there, count, 0);
    lemma_same_bytes_from(first, here, second, there, count, 1);
    let left = (count - 1) as nat;
    if first[here] == SIMPLE || first[here] == ERROR || first[here] == INTEGER {
        lemma_get_line_own_bytes(first, here + 1, second, there + 1, left);
    } else if first[here] == BULK {
        lemma_line_end(first, here + 1);
        lemma_same_byte(first, here, second, there, count, 1);
        lemma_get_line_own_bytes(first, here + 1, second, there + 1, left);
        if first[here + 1] != MINUS {
            match spec_get_decimal(first, here + 1) {
                Ok((length, used)) => {
                    let from = here + 1 + used;
                    let to = there + 1 + used;
                    let one = first.subrange(from, from + length);
                    let other = second.subrange(to, to + length);
                    assert forall|i: int| 0 <= i < one.len() implies one[i] == other[i] by {
                        lemma_same_byte(first, here, second, there, count, 1 + used + i);
                    }
                    assert(one =~= other);
                },
                Err(_) => {},
            }
        }
    } else if first[here] == ARRAY {
        lemma_get_line_own_bytes(first, here + 1, second, there + 1, left);
        match spec_get_decimal(first, here + 1) {
            Ok((number, used)) => {
                lemma_same_bytes_from(first, here, second, there, count, 1 + used);
                lemma_parse_items_own_bytes(
                    first,
                    here + 1 + used,
                    second,
                    there + 1 + used,
                    (count - 1 - used) as nat,
                    number as nat,
                );
            },
            Err(_) => {},
        }
    }
}

/// The same for frames that follow one another.
pub proof fn lemma_parse_items_own_bytes(
    first: Seq<u8>,
    here: int,
    second: Seq<u8>,
    there: int,
    count: nat,
    frames: nat,
)
    requires
        same_bytes(first, here, second, there, count),
        spec_parse_items(first, here, frames) matches Ok((_, used)) && used <= count,
    ensures
        spec_parse_items(second, there, frames) == spec_parse_items(first, here, frames),
    decreases remaining(first, here), frames,
{
    if frames > 0 {
        lemma_parse_own_bytes(first, here, second, there, count);
        match spec_parse(first, here) {
            Ok((_, used)) => {
                lemma_same_bytes_from(first, here, second, there, count, used);
                lemma_parse_items_own_bytes(
                    first,
                    here + used,
                    second,
                    there + used,
                    (count - used) as nat,
                    (frames - 1) as nat,
                );
            },
            Err(_) => {},
        }
    }
}

/// A frame that the check accepts in some bytes is accepted wherever the
/// same bytes stand.
pub proof fn lemma_check_own_bytes(
    first: Seq<u8>,
    here: int,
    second: Seq<u8>,
    there: int,
    count: nat,
)
    requires
        same_bytes(first, here, second, there, count),
        spec_check(first, here) matches Ok(used) && used <= count,
    ensures
        spec_check(second, there) == spec_check(first, here),
    decreases remaining(first, here), 0nat,
{
    lemma_same_byte(first, here, second, there, count, 0);
    lemma_same_bytes_from(first, here, second, there, count, 1);
    let left = (count - 1) as nat;
    if first[here] == SIMPLE || first[here] == ERROR || first[here] == INTEGER {
        lemma_get_line_own_bytes(first, here + 1, second, there + 1, left);
    } else if first[here] == BULK {
        lemma_line_end(first, here + 1);
        lemma_same_byte(first, here, second, there, count, 1);
        if first[here + 1] == MINUS {
            lemma_same_byte(first, here, second, there, count, 2);
            lemma_same_byte(first, here, second, there, count, 3);
            lemma_same_byte(first, here, second, there, count, 4);
        } else {
            lemma_get_line_own_bytes(first, here + 1, second, there + 1, left);
        }
    } else if first[here] == ARRAY {
        lemma_get_line_own_bytes(first, here + 1, second, there + 1, left);
        match spec_get_decimal(first, here + 1) {
            Ok((number, used)) => {
                lemma_same_bytes_from(first, here, second, there, count, 1 + used);
                lemma_check_items_own_bytes(
                    first,
                    here + 1 + used,
                    second,
                    there + 1 + used,
                    (count - 1 - used) as nat,
                    number as nat,
                );
            },
            Err(_) => {},
        }
    }
}

/// The same for frames that follow one another.
pub proof fn lemma_check_items_own_bytes(
    first: Seq<u8>,
    here: int,
    second: Seq<u8>,
    there: int,
    count: nat,
    frames: nat,
)
    requires
        same_bytes(first, here, second, there, count),
        spec_check_items(first, here, frames) matches Ok(used) && used <= count,
    ensures
        spec_check_items(second, there, frames) == spec_check_items(first, here, frames),
    decreases remaining(first, here), frames,
{
    if frames > 0 {
        lemma_check_own_bytes(first, here, second, there, count);
        match spec_check(first, here) {
            Ok(used) => {
                lemma_same_bytes_from(first, here, second, there, count, used);
                lemma_check_items_own_bytes(
                    first,
                    here + used,
                    second,
                    there + used,
                    (count - used) as nat,
                    (frames - 1) as nat,
                );
            },
            Err(_) => {},
        }
    }
}

} // verus!
