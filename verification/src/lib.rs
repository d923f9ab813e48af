//! A small server for a line-based protocol of frames, without its sockets:
//! the codec, the state of a connection, the commands, and the steps of the
//! loop that serves one connection.
use vstd::prelude::*;
use vstd::utf8::encode_utf8;

pub mod buf;
pub mod cmd;
pub mod connection;
pub mod cursor;
pub mod decimal;
pub mod frame;
pub mod incremental;
pub mod json;
pub mod own_bytes;
pub mod parser;
pub mod prefix;
pub mod round_trip;
pub mod server;
pub mod shutdown;
pub mod text;
pub mod two_pass;
pub mod wire;

pub use connection::Connection;
pub use frame::Frame;
pub use parser::Parser;

use cmd::{ok_frame, spec_from_frame, spec_reply, text_view, Command, CommandView, Get};
use connection::{buffer_limit, spec_read_frame, ConnectionView, Step, StepView};
use frame::FrameView;
use wire::spec_encode;

verus! {

/// Why the loop of a connection ends with an error.
#[derive(Debug, Clone, Copy, PartialEq, Eq, Structural)]
#[allow(inconsistent_fields)]
pub enum Error {
    /// The connection failed.
    ConnectError { source: connection::Error },
    /// A frame was not a command.
    CommandError { source: cmd::Error },
}

/// What happened on a connection since the loop last said what to do.
#[derive(Debug)]
pub enum Event {
    /// Nothing: the loop begins, or an answer has been sent.
    Ready,
    /// A read of the stream gave these bytes; none at all when the peer
    /// closed the stream.
    Read(Vec<u8>),
    /// The request that a `get` asked for has ended, with the origin or
    /// with the step that failed.
    Origin(Get, Result<String, cmd::Error>),
}

/// The value of an `Event`.
pub enum EventView {
    Ready,
    Read(Seq<u8>),
    Origin(Seq<char>, Result<Seq<char>, cmd::Error>),
}

impl View for Event {
    type V = EventView;

    open spec fn view(&self) -> EventView {
        match self {
            Event::Ready => EventView::Ready,
            Event::Read(bytes) => EventView::Read(bytes@),
            Event::Origin(get, origin) => EventView::Origin(get@, text_view(*origin)),
        }
    }
}

/// What the owner of the socket has to do next.
#[derive(Debug)]
pub enum Action {
    /// Read from the stream, then come back with `Event::Read`.
    Read,
    /// Request the origin for this `get`, then come back with
    /// `Event::Origin`.
    Fetch(Get),
    /// Send these bytes and flush, then come back with `Event::Ready`.
    Write(Vec<u8>),
    /// Stop: the peer has closed the stream, or the server shuts down.
    Stop,
}

/// The value of an `Action`.
pub enum ActionView {
    Read,
    Fetch(Seq<char>),
    Write(Seq<u8>),
    Stop,
}

impl View for Action {
    type V = ActionView;

    open spec fn view(&self) -> ActionView {
        match self {
            Action::Read => ActionView::Read,
            Action::Fetch(get) => ActionView::Fetch(get@),
            Action::Write(bytes) => ActionView::Write(bytes@),
            Action::Stop => ActionView::Stop,
        }
    }
}

/// The bytes that an event brings from the stream, if it brings any.
pub open spec fn bytes_of(event: EventView) -> Option<Seq<u8>> {
    match event {
        EventView::Read(bytes) => Some(bytes),
        _ => None,
    }
}

/// A connection whose bytes to send have been handed out.
pub open spec fn sent(buffer: Seq<u8>) -> ConnectionView {
    ConnectionView { buffer, output: Seq::empty() }
}

/// What the loop does for an event, and the connection afterwards.
///
/// An origin is answered to the client. Any other event is a step towards
/// the next frame: the frame is read as a command, a `get` asks for its
/// origin, and every other command is acknowledged. Whatever is written
/// leaves the connection with the action.
pub open spec fn spec_process(connection: ConnectionView, event: EventView) -> (
    Result<ActionView, Error>,
    ConnectionView,
) {
    match event {
        EventView::Origin(_, origin) => (
            Ok(
                ActionView::Write(
                    connection.output + spec_encode(
                        FrameView::Bulk(encode_utf8(spec_reply(origin))),
                    ),
                ),
            ),
            sent(connection.buffer),
        ),
        _ => {
            let (step, buffer) = spec_read_frame(connection.buffer, bytes_of(event));
            let waiting = ConnectionView { buffer, output: connection.output };
            match step {
                Err(error) => (Err(Error::ConnectError { source: error }), waiting),
                Ok(StepView::Closed) => (Ok(ActionView::Stop), waiting),
                Ok(StepView::Read) => (Ok(ActionView::Read), waiting),
                Ok(StepView::Frame(frame)) => match spec_from_frame(frame) {
                    Err(error) => (Err(Error::CommandError { source: error }), waiting),
                    Ok(CommandView::Get(key)) => (Ok(ActionView::Fetch(key)), waiting),
                    Ok(_) => (
                        Ok(ActionView::Write(connection.output + spec_encode(ok_frame()))),
                        sent(buffer),
                    ),
                },
            }
        },
    }
}

/// The value of what the loop does.
pub open spec fn action_view(action: Result<Action, Error>) -> Result<ActionView, Error> {
    match action {
        Ok(action) => Ok(action@),
        Err(error) => Err(error),
    }
}

/// Says what to do next on `connection`, now that `event` has happened.
pub fn process(connection: &mut Connection, event: Event) -> (action: Result<Action, Error>)
    requires
        event matches Event::Read(bytes) ==> old(connection)@.buffer.len() + bytes@.len()
            <= buffer_limit(),
    ensures
        action_view(action) == spec_process(old(connection)@, event@).0,
        final(connection)@ == spec_process(old(connection)@, event@).1,
{
    let step: Result<Step, connection::Error> = match event {
        Event::Origin(get, origin) => {
            get.apply(origin, connection);
            return Ok(Action::Write(connection.take_output()));
        },
        Event::Read(bytes) => connection.read_frame(Some(bytes.as_slice())),
        Event::Ready => connection.read_frame(None),
    };
    let frame: Frame = match step {
        Ok(Step::Frame(frame)) => frame,
        Ok(Step::Closed) => {
            return Ok(Action::Stop);
        },
        Ok(Step::Read) => {
            return Ok(Action::Read);
        },
        Err(error) => {
            return Err(Error::ConnectError { source: error });
        },
    };
    let command: Command = match Command::from_frame(frame) {
        Ok(command) => command,
        Err(error) => {
            return Err(Error::CommandError { source: error });
        },
    };
    match command.apply(connection) {
        Some(get) => Ok(Action::Fetch(get)),
        None => Ok(Action::Write(connection.take_output())),
    }
}

} // verus!
