//! `std::io::Cursor` over a slice of bytes: the buffer that the codec reads
//! and the place in it where the next read starts.
//!
//! The cursor is std's own. Nothing of it is verified here: each function
//! below states what the method of the same name does, over the two things
//! that a cursor holds.
use std::io::Cursor;
use vstd::prelude::*;

verus! {

/// `std::io::Cursor`, of which nothing is known but what it reads from and
/// where it stands.
#[verifier::external_type_specification]
#[verifier::external_body]
#[verifier::reject_recursive_types(T)]
pub struct ExCursor<T>(std::io::Cursor<T>);

/// The bytes of the slice that a cursor reads from.
pub uninterp spec fn cursor_bytes(cursor: Cursor<&[u8]>) -> Seq<u8>;

/// The position of a cursor, counted in bytes from the start of its slice.
pub uninterp spec fn cursor_position(cursor: Cursor<&[u8]>) -> u64;

/// `Cursor::new`: the cursor reads from `bytes` and starts at position 0.
#[verifier::external_body]
pub(crate) fn cursor_new<'a>(bytes: &'a [u8]) -> (cursor: Cursor<&'a [u8]>)
    ensures
        cursor_bytes(cursor) == bytes@,
        cursor_position(cursor) == 0,
{
    Cursor::new(bytes)
}

/// `Cursor::position`: the current position.
#[verifier::external_body]
pub(crate) fn position(cursor: &Cursor<&[u8]>) -> (pos: u64)
    ensures
        pos == cursor_position(*cursor),
{
    cursor.position()
}

/// `Cursor::set_position`: the position becomes `pos`, the slice stays.
#[verifier::external_body]
pub(crate) fn set_position(cursor: &mut Cursor<&[u8]>, pos: u64)
    ensures
        cursor_position(*final(cursor)) == pos,
        cursor_bytes(*final(cursor)) == cursor_bytes(*old(cursor)),
{
    cursor.set_position(pos)
}

/// `Cursor::get_ref`: the slice that the cursor reads from.
#[verifier::external_body]
pub(crate) fn get_ref<'a>(cursor: &Cursor<&'a [u8]>) -> (bytes: &'a [u8])
    ensures
        bytes@ == cursor_bytes(*cursor),
{
    *cursor.get_ref()
}

} // verus!
