//! A command arrives as an array of frames; the parser hands out its
//! arguments one by one, as strings.
use vstd::prelude::*;
use vstd::slice::slice_to_vec;
use vstd::utf8::{decode_utf8, valid_utf8};

use crate::buf::bytes_as_slice;
use crate::frame::{frame_views, Frame, FrameView};
use crate::text::string_from_utf8;

verus! {

/// Why a frame is not a command, or has no next argument.
#[derive(Debug, Clone, Copy, PartialEq, Eq, Structural)]
pub enum Error {
    /// An argument is a bulk string that is not valid UTF-8.
    EncodeError,
    /// The frame is not an array, no argument is left, or the next one is
    /// neither a simple nor a bulk string.
    ParseError,
}

/// The arguments of a command that have not been taken yet.
#[derive(Debug)]
pub struct Parser {
    /// The frames of the array, in the order in which they arrived; the
    /// first one is the next to be taken.
    parts: Vec<Frame>,
}

impl View for Parser {
    type V = Seq<FrameView>;

    /// The arguments that are left, the next one first.
    closed spec fn view(&self) -> Seq<FrameView> {
        frame_views(self.parts@)
    }
}

/// What `Parser::new` makes of a frame: the frames of an array.
pub open spec fn spec_new(frame: FrameView) -> Result<Seq<FrameView>, Error> {
    match frame {
        FrameView::Array(items) => Ok(items),
        _ => Err(Error::ParseError),
    }
}

/// The string that the argument `frame` stands for.
pub open spec fn spec_string(frame: FrameView) -> Result<Seq<char>, Error> {
    match frame {
        FrameView::Simple(text) => Ok(text),
        FrameView::Bulk(data) => if valid_utf8(data) {
            Ok(decode_utf8(data))
        } else {
            Err(Error::EncodeError)
        },
        _ => Err(Error::ParseError),
    }
}

/// What `next_string` returns when `parts` are the arguments that are left.
pub open spec fn spec_next_string(parts: Seq<FrameView>) -> Result<Seq<char>, Error> {
    if parts.len() == 0 {
        Err(Error::ParseError)
    } else {
        spec_string(parts[0])
    }
}

/// The arguments that are left after one was asked for: the first one is
/// gone, whatever it was.
pub open spec fn spec_rest(parts: Seq<FrameView>) -> Seq<FrameView> {
    if parts.len() == 0 {
        parts
    } else {
        parts.drop_first()
    }
}

/// The value of a string that was asked for.
pub open spec fn string_view(text: Result<String, Error>) -> Result<Seq<char>, Error> {
    match text {
        Ok(text) => Ok(text@),
        Err(error) => Err(error),
    }
}

impl Parser {
    /// A parser that hands out the frames of the array `frame`.
    pub fn new(frame: Frame) -> (parser: Result<Parser, Error>)
        ensures
            spec_new(frame@) matches Ok(items) ==> parser is Ok && parser->Ok_0@ == items,
            spec_new(frame@) matches Err(error) ==> parser is Err && parser->Err_0 == error,
    {
        proof {
            reveal_with_fuel(<Frame as View>::view, 2);
        }
        match frame {
            Frame::Array(parts) => {
                assert(frame_views(parts@) =~= frame@->Array_0);
                Ok(Parser { parts })
            },
            _ => Err(Error::ParseError),
        }
    }

    /// Takes the next frame.
    fn next(&mut self) -> (frame: Result<Frame, Error>)
        ensures
            final(self)@ == spec_rest(old(self)@),
            old(self)@.len() > 0 ==> frame is Ok && frame->Ok_0@ == old(self)@[0],
            old(self)@.len() == 0 ==> frame is Err && frame->Err_0 == Error::ParseError,
    {
        if self.parts.len() == 0 {
            return Err(Error::ParseError);
        }
        let frame: Frame = self.parts.remove(0);
        assert(frame_views(self.parts@) =~= frame_views(old(self).parts@).drop_first());
        Ok(frame)
    }

    /// Takes the next argument as a string: the text of a simple string, or
    /// the bytes of a bulk string read as UTF-8.
    pub fn next_string(&mut self) -> (text: Result<String, Error>)
        ensures
            final(self)@ == spec_rest(old(self)@),
            string_view(text) == spec_next_string(old(self)@),
    {
        let frame: Frame = match self.next() {
            Ok(frame) => frame,
            Err(error) => {
                return Err(error);
            },
        };
        match frame {
            Frame::Simple(text) => Ok(text),
            Frame::Bulk(data) => match string_from_utf8(slice_to_vec(bytes_as_slice(&data))) {
                Ok(text) => Ok(text),
                Err(_) => Err(Error::EncodeError),
            },
            _ => Err(Error::ParseError),
        }
    }
}

} // verus!
