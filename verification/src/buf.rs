//! The byte containers of the `bytes` crate, as far as the protocol uses them.
//!
//! `Bytes` carries the payload of a bulk frame and `BytesMut` is the receive
//! buffer of a connection. Neither is verified here: each function below
//! states what the corresponding function of `bytes` does to the bytes held.
use bytes::{Buf, Bytes, BytesMut};
use vstd::prelude::*;
use vstd::utf8::encode_utf8;

verus! {

/// `bytes::Bytes`, of which nothing is known but the bytes that it holds.
#[verifier::external_type_specification]
#[verifier::external_body]
pub struct ExBytes(bytes::Bytes);

/// `bytes::BytesMut`, of which nothing is known but the bytes that it holds.
#[verifier::external_type_specification]
#[verifier::external_body]
pub struct ExBytesMut(bytes::BytesMut);

/// The bytes that a `Bytes` value holds, in order.
pub uninterp spec fn bytes_contents(bytes: Bytes) -> Seq<u8>;

/// The bytes that a `BytesMut` value holds, in order.
pub uninterp spec fn buffer_contents(buffer: BytesMut) -> Seq<u8>;

/// `Bytes::copy_from_slice`: a new value that holds a copy of `data`.
#[verifier::external_body]
pub(crate) fn bytes_copy_from_slice(data: &[u8]) -> (bytes: Bytes)
    ensures
        bytes_contents(bytes) == data@,
{
    Bytes::copy_from_slice(data)
}

/// `Clone` of `Bytes`: the clone shares the bytes of the value it was made of.
pub assume_specification[ <Bytes as Clone>::clone ](bytes: &Bytes) -> (clone: Bytes)
    ensures
        bytes_contents(clone) == bytes_contents(*bytes),
;

/// `Bytes::from(String)`: the value takes over the bytes of the string, which
/// are the UTF-8 encoding of its characters.
#[verifier::external_body]
pub(crate) fn bytes_from_string(text: String) -> (bytes: Bytes)
    ensures
        bytes_contents(bytes) == encode_utf8(text@),
{
    Bytes::from(text)
}

/// `Deref` of `Bytes`: the bytes held, as a slice.
#[verifier::external_body]
pub(crate) fn bytes_as_slice(bytes: &Bytes) -> (slice: &[u8])
    ensures
        slice@ == bytes_contents(*bytes),
{
    &bytes[..]
}

/// `BytesMut::with_capacity`: an empty buffer. The capacity is handed to a
/// `Vec`, which cannot reserve more than `isize::MAX` bytes.
#[verifier::external_body]
pub(crate) fn buffer_with_capacity(capacity: usize) -> (buffer: BytesMut)
    requires
        capacity <= isize::MAX,
    ensures
        buffer_contents(buffer) == Seq::<u8>::empty(),
{
    BytesMut::with_capacity(capacity)
}

/// `BytesMut::extend_from_slice`: `extend` is appended to the bytes held. The
/// buffer grows as a `Vec` does, so the new length has to stay within
/// `isize::MAX`; as with `Vec`, memory that cannot be had is left aside.
#[verifier::external_body]
pub(crate) fn buffer_extend_from_slice(buffer: &mut BytesMut, extend: &[u8])
    requires
        buffer_contents(*old(buffer)).len() + extend@.len() <= isize::MAX,
    ensures
        buffer_contents(*final(buffer)) == buffer_contents(*old(buffer)) + extend@,
{
    buffer.extend_from_slice(extend)
}

/// `Deref` of `BytesMut`: the bytes held, as a slice.
#[verifier::external_body]
pub(crate) fn buffer_as_slice(buffer: &BytesMut) -> (slice: &[u8])
    ensures
        slice@ == buffer_contents(*buffer),
{
    &buffer[..]
}

/// `Buf::advance` of `BytesMut`: the first `count` bytes leave the buffer. It
/// panics when fewer are held.
#[verifier::external_body]
pub(crate) fn buffer_advance(buffer: &mut BytesMut, count: usize)
    requires
        count <= buffer_contents(*old(buffer)).len(),
    ensures
        buffer_contents(*final(buffer)) == buffer_contents(*old(buffer)).skip(count as int),
{
    buffer.advance(count)
}

} // verus!
