//! One side of a connection, without its socket: the bytes received and not
//! yet decoded, and the bytes encoded and not yet sent. Whoever owns the
//! socket reads from it when `read_frame` asks for bytes and sends what
//! `take_output` hands out.
use bytes::BytesMut;
use std::io::Cursor;
use vstd::prelude::*;

use crate::buf::{
    buffer_advance, buffer_as_slice, buffer_contents, buffer_extend_from_slice,
    buffer_with_capacity, bytes_as_slice,
};
use crate::cursor::{cursor_new, set_position};
use crate::decimal::{decimal, push_decimal, MINUS};
use crate::frame;
use crate::frame::{remaining_bytes, Frame, FrameView};
use crate::wire::{
    crlf, has_nested_array, spec_check, spec_encode, spec_encode_items, spec_parse, ARRAY, BULK,
    CR, ERROR, INTEGER, LF, ONE, SIMPLE,
};
use crate::prefix::lemma_check_bounds;

verus! {

/// Why a connection has to be given up.
#[derive(Debug, Clone, Copy, PartialEq, Eq, Structural)]
pub enum Error {
    /// The peer closed the stream in the middle of a frame.
    Reset,
    /// The bytes received are not a frame.
    Frame,
}

/// What became of an attempt to read a frame.
#[derive(Debug)]
pub enum Step {
    /// A frame was decoded and has left the buffer.
    Frame(Frame),
    /// The peer closed the stream between two frames.
    Closed,
    /// The buffer holds no complete frame: read from the stream, then hand
    /// the bytes to `read_frame`.
    Read,
}

/// The value of a `Step`.
pub enum StepView {
    Frame(FrameView),
    Closed,
    Read,
}

impl View for Step {
    type V = StepView;

    open spec fn view(&self) -> StepView {
        match self {
            Step::Frame(frame) => StepView::Frame(frame@),
            Step::Closed => StepView::Closed,
            Step::Read => StepView::Read,
        }
    }
}

/// The state of a connection between two reads or writes.
#[derive(Debug)]
pub struct Connection {
    buffer: BytesMut,
    output: Vec<u8>,
}

/// The value of a `Connection`.
pub struct ConnectionView {
    /// The bytes received and not yet decoded, oldest first.
    pub buffer: Seq<u8>,
    /// The bytes encoded and not yet handed out, oldest first.
    pub output: Seq<u8>,
}

impl View for Connection {
    type V = ConnectionView;

    closed spec fn view(&self) -> ConnectionView {
        ConnectionView { buffer: buffer_contents(self.buffer), output: self.output@ }
    }
}

/// The most bytes that a buffer can hold.
pub open spec fn buffer_limit() -> int {
    isize::MAX as int
}

/// The capacity that the receive buffer starts with.
const INITIAL_CAPACITY: usize = 4096;

/// What `parse_frame` makes of a buffer: a frame, no frame yet, or an error;
/// and the bytes that stay in the buffer.
pub open spec fn spec_parse_frame(buffer: Seq<u8>) -> (Result<Option<FrameView>, Error>, Seq<u8>) {
    match spec_check(buffer, 0) {
        Ok(used) => match spec_parse(buffer, 0) {
            Ok((frame, _)) => (Ok(Some(frame)), buffer.skip(used as int)),
            Err(_) => (Err(Error::Frame), buffer),
        },
        Err(frame::Error::IncompleteError) => (Ok(None), buffer),
        Err(_) => (Err(Error::Frame), buffer),
    }
}

/// Why a buffer is no frame and will not become one, if that is so: what the
/// check finds, or what the decoder finds once the check has passed.
pub open spec fn spec_frame_error(buffer: Seq<u8>) -> Option<frame::Error> {
    match spec_check(buffer, 0) {
        Ok(_) => match spec_parse(buffer, 0) {
            Ok(_) => None,
            Err(error) => Some(error),
        },
        Err(frame::Error::IncompleteError) => None,
        Err(error) => Some(error),
    }
}

/// What `read_frame` makes of a buffer and of the bytes that a read gave,
/// and the bytes that stay in the buffer.
///
/// A read that gave no bytes means that the peer closed the stream: cleanly
/// when the buffer is empty, in the middle of a frame when it is not.
pub open spec fn spec_read_frame(buffer: Seq<u8>, received: Option<Seq<u8>>) -> (
    Result<StepView, Error>,
    Seq<u8>,
) {
    if received == Some(Seq::<u8>::empty()) {
        if buffer.len() == 0 {
            (Ok(StepView::Closed), buffer)
        } else {
            (Err(Error::Reset), buffer)
        }
    } else {
        let grown = match received {
            Some(bytes) => buffer + bytes,
            None => buffer,
        };
        match spec_parse_frame(grown) {
            (Ok(Some(frame)), rest) => (Ok(StepView::Frame(frame)), rest),
            (Ok(None), rest) => (Ok(StepView::Read), rest),
            (Err(error), rest) => (Err(error), rest),
        }
    }
}

/// The bytes that a read gave, if there was a read.
pub open spec fn bytes_read(received: Option<&[u8]>) -> Option<Seq<u8>> {
    match received {
        Some(bytes) => Some(bytes@),
        None => None,
    }
}

/// Whether a read says that the peer closed the stream: it gave no bytes.
pub open spec fn closed(received: Option<&[u8]>) -> bool {
    received matches Some(bytes) && bytes@.len() == 0
}

/// The value of what `read_frame` returns.
pub open spec fn step_view(step: Result<Step, Error>) -> Result<StepView, Error> {
    match step {
        Ok(step) => Ok(step@),
        Err(error) => Err(error),
    }
}

/// The value of what `parse_frame` returns.
pub open spec fn frame_view(frame: Result<Option<Frame>, Error>) -> Result<
    Option<FrameView>,
    Error,
> {
    match frame {
        Ok(Some(frame)) => Ok(Some(frame@)),
        Ok(None) => Ok(None),
        Err(error) => Err(error),
    }
}

/// The bytes of a sequence of frames are those of its first frames followed
/// by those of its last frame.
pub proof fn lemma_encode_items_push(items: Seq<FrameView>, last: FrameView)
    ensures
        spec_encode_items(items.push(last)) == spec_encode_items(items) + spec_encode(last),
    decreases items.len(),
{
    let all = items.push(last);
    if items.len() == 0 {
        assert(all.drop_first() =~= Seq::<FrameView>::empty());
        assert(spec_encode_items(Seq::<FrameView>::empty()) =~= Seq::<u8>::empty());
        assert(spec_encode_items(all) =~= spec_encode(last));
        assert(spec_encode_items(items) + spec_encode(last) =~= spec_encode(last));
    } else {
        assert(all.drop_first() =~= items.drop_first().push(last));
        lemma_encode_items_push(items.drop_first(), last);
        assert(spec_encode_items(all) =~= spec_encode_items(items) + spec_encode(last));
    }
}

/// Appends `bytes` to `out`.
fn push_bytes(out: &mut Vec<u8>, bytes: &[u8])
    ensures
        final(out)@ == old(out)@ + bytes@,
{
    out.extend_from_slice(bytes);
    assert(final(out)@ =~= old(out)@ + bytes@);
}

impl Connection {
    /// A connection that has received and written nothing yet.
    pub fn new() -> (connection: Connection)
        ensures
            connection@.buffer == Seq::<u8>::empty(),
            connection@.output == Seq::<u8>::empty(),
    {
        Connection { buffer: buffer_with_capacity(INITIAL_CAPACITY), output: Vec::new() }
    }

    /// Tells whether the buffer can take `count` bytes more.
    pub fn has_room(&self, count: usize) -> (room: bool)
        ensures
            room == (self@.buffer.len() + count <= buffer_limit()),
    {
        let held: usize = buffer_as_slice(&self.buffer).len();
        let limit: usize = isize::MAX as usize;
        count <= limit && held <= limit - count
    }

    /// Takes one step towards the next frame.
    ///
    /// `received` is `None` when nothing was read since the last step, and
    /// else the bytes that the read gave, none at all when the peer closed
    /// the stream. The bytes join the buffer; a frame that is decoded leaves
    /// it, and the bytes behind that frame stay for the next one.
    pub fn read_frame(&mut self, received: Option<&[u8]>) -> (step: Result<Step, Error>)
        requires
            received matches Some(bytes) ==> old(self)@.buffer.len() + bytes@.len()
                <= buffer_limit(),
        ensures
            final(self)@.output == old(self)@.output,
            final(self)@.buffer == spec_read_frame(old(self)@.buffer, bytes_read(received)).1,
            step_view(step) == spec_read_frame(old(self)@.buffer, bytes_read(received)).0,
            closed(received) && old(self)@.buffer.len() == 0 ==> step_view(step) == Ok::<
                StepView,
                Error,
            >(StepView::Closed),
            closed(received) && old(self)@.buffer.len() > 0 ==> step_view(step) == Err::<
                StepView,
                Error,
            >(Error::Reset),
    {
        match received {
            Some(bytes) => {
                if bytes.len() == 0 {
                    assert(bytes@ =~= Seq::<u8>::empty());
                    if buffer_as_slice(&self.buffer).len() == 0 {
                        return Ok(Step::Closed);
                    } else {
                        return Err(Error::Reset);
                    }
                }
                buffer_extend_from_slice(&mut self.buffer, bytes);
            },
            None => {},
        }
        match self.parse_frame() {
            Ok(Some(frame)) => Ok(Step::Frame(frame)),
            Ok(None) => Ok(Step::Read),
            Err(error) => Err(error),
        }
    }

    /// Decodes the frame at the start of the buffer, if a whole frame is
    /// there, and takes its bytes out of the buffer.
    pub fn parse_frame(&mut self) -> (frame: Result<Option<Frame>, Error>)
        ensures
            final(self)@.output == old(self)@.output,
            final(self)@.buffer == spec_parse_frame(old(self)@.buffer).1,
            frame_view(frame) == spec_parse_frame(old(self)@.buffer).0,
    {
        let ghost data = buffer_contents(self.buffer);
        let bytes: &[u8] = buffer_as_slice(&self.buffer);
        let mut src: Cursor<&[u8]> = cursor_new(bytes);
        match Frame::check(&mut src) {
            Ok(()) => {
                proof {
                    lemma_check_bounds(data, 0);
                }
                let used: usize = bytes.len() - remaining_bytes(&src);
                set_position(&mut src, 0);
                let frame: Frame = match Frame::parse(&mut src) {
                    Ok(frame) => frame,
                    Err(_) => {
                        return Err(Error::Frame);
                    },
                };
                buffer_advance(&mut self.buffer, used);
                Ok(Some(frame))
            },
            Err(frame::Error::IncompleteError) => Ok(None),
            Err(_) => Err(Error::Frame),
        }
    }

    /// Tells why the buffer is no frame, where `parse_frame` gives it up: the
    /// error of the codec that stands behind `Error::Frame`.
    pub fn frame_error(&self) -> (error: Option<frame::Error>)
        ensures
            error == spec_frame_error(self@.buffer),
            error is Some <==> spec_parse_frame(self@.buffer).0 is Err,
    {
        let mut src: Cursor<&[u8]> = cursor_new(buffer_as_slice(&self.buffer));
        match Frame::check(&mut src) {
            Ok(()) => {
                set_position(&mut src, 0);
                match Frame::parse(&mut src) {
                    Ok(_) => None,
                    Err(error) => Some(error),
                }
            },
            Err(frame::Error::IncompleteError) => None,
            Err(error) => Some(error),
        }
    }

    /// Encodes `frame` behind the bytes that wait to be sent.
    ///
    /// An array is written with the frames in it, which must not be arrays
    /// themselves.
    pub fn write_frame(&mut self, frame: &Frame)
        requires
            !has_nested_array(frame@),
        ensures
            final(self)@.buffer == old(self)@.buffer,
            final(self)@.output == old(self)@.output + spec_encode(frame@),
    {
        match frame {
            Frame::Array(items) => {
                proof {
                    reveal_with_fuel(<Frame as View>::view, 2);
                }
                let ghost views = frame@->Array_0;
                self.output.push(ARRAY);
                self.write_decimal(items.len() as u64);
                let ghost start = self@.output;
                let mut i: usize = 0;
                while i < items.len()
                    invariant
                        i <= items.len(),
                        views.len() == items.len(),
                        forall|k: int| 0 <= k < items.len() ==> views[k] == items[k]@,
                        forall|k: int| 0 <= k < items.len() ==> !(views[k] is Array),
                        self@.buffer == old(self)@.buffer,
                        self@.output == start + spec_encode_items(views.take(i as int)),
                    decreases items.len() - i,
                {
                    proof {
                        lemma_encode_items_push(views.take(i as int), views[i as int]);
                        assert(views.take(i as int).push(views[i as int]) =~= views.take(
                            i as int + 1,
                        ));
                    }
                    self.write_value(&items[i]);
                    i += 1;
                    assert(self@.output =~= start + spec_encode_items(views.take(i as int)));
                }
                proof {
                    assert(views.take(items.len() as int) =~= views);
                    assert(self@.output =~= old(self)@.output + spec_encode(frame@));
                }
            },
            _ => {
                self.write_value(frame);
            },
        }
    }

    /// Hands out the bytes that wait to be sent, oldest first, and forgets
    /// them.
    pub fn take_output(&mut self) -> (bytes: Vec<u8>)
        ensures
            bytes@ == old(self)@.output,
            final(self)@.output == Seq::<u8>::empty(),
            final(self)@.buffer == old(self)@.buffer,
    {
        let mut bytes: Vec<u8> = Vec::new();
        std::mem::swap(&mut self.output, &mut bytes);
        bytes
    }

    /// Writes `number` in decimal digits and ends the line.
    fn write_decimal(&mut self, number: u64)
        ensures
            final(self)@.buffer == old(self)@.buffer,
            final(self)@.output == old(self)@.output + decimal(number as nat) + crlf(),
    {
        push_decimal(&mut self.output, number);
        self.output.push(CR);
        self.output.push(LF);
        assert(self@.output =~= old(self)@.output + decimal(number as nat) + crlf());
    }

    /// Encodes a frame that is not an array.
    fn write_value(&mut self, frame: &Frame)
        requires
            !(frame@ is Array),
        ensures
            final(self)@.buffer == old(self)@.buffer,
            final(self)@.output == old(self)@.output + spec_encode(frame@),
    {
        match frame {
            Frame::Simple(text) => {
                self.output.push(SIMPLE);
                push_bytes(&mut self.output, text.as_str().as_bytes());
                self.output.push(CR);
                self.output.push(LF);
                assert(self@.output =~= old(self)@.output + spec_encode(frame@));
            },
            Frame::Error(text) => {
                self.output.push(ERROR);
                push_bytes(&mut self.output, text.as_str().as_bytes());
                self.output.push(CR);
                self.output.push(LF);
                assert(self@.output =~= old(self)@.output + spec_encode(frame@));
            },
            Frame::Integer(value) => {
                self.output.push(INTEGER);
                self.write_decimal(*value);
                assert(self@.output =~= old(self)@.output + spec_encode(frame@));
            },
            Frame::Null => {
                self.output.push(BULK);
                self.output.push(MINUS);
                self.output.push(ONE);
                self.output.push(CR);
                self.output.push(LF);
                assert(self@.output =~= old(self)@.output + spec_encode(frame@));
            },
            Frame::Bulk(data) => {
                let payload: &[u8] = bytes_as_slice(data);
                self.output.push(BULK);
                self.write_decimal(payload.len() as u64);
                push_bytes(&mut self.output, payload);
                self.output.push(CR);
                self.output.push(LF);
                assert(self@.output =~= old(self)@.output + spec_encode(frame@));
            },
            Frame::Array(_) => {},
        }
    }
}

} // verus!
