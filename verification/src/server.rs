//! What the handler of one connection does when it is woken: by the
//! shutdown signal, or by what happened on its connection.
use vstd::prelude::*;

use crate::cmd;
use crate::connection;
use crate::connection::{buffer_limit, Connection, ConnectionView};
use crate::shutdown::Shutdown;
use crate::{spec_process, Action, ActionView, Event, EventView};

verus! {

/// Why a handler gives its connection up.
#[derive(Debug, Clone, Copy, PartialEq, Eq, Structural)]
#[allow(inconsistent_fields)]
pub enum Error {
    /// The connection failed.
    ConnectError { source: connection::Error },
    /// A frame was not a command.
    CommandError { source: cmd::Error },
}

/// What woke a handler.
#[derive(Debug)]
pub enum Wake {
    /// The shutdown signal came before anything happened on the connection.
    Shutdown,
    /// Something happened on the connection.
    Event(Event),
}

/// The value of a `Wake`.
pub enum WakeView {
    Shutdown,
    Event(EventView),
}

impl View for Wake {
    type V = WakeView;

    open spec fn view(&self) -> WakeView {
        match self {
            Wake::Shutdown => WakeView::Shutdown,
            Wake::Event(event) => WakeView::Event(event@),
        }
    }
}

/// The state of one connection's handler.
#[derive(Debug)]
pub struct Handler {
    shutdown: Shutdown,
    connection: Connection,
    fd: i32,
}

/// The value of a `Handler`.
pub struct HandlerView {
    /// Whether the shutdown signal has fired for this handler.
    pub shutdown: bool,
    /// The connection that the handler owns.
    pub connection: ConnectionView,
    /// The descriptor of the socket, by which the connection is named.
    pub fd: i32,
}

impl View for Handler {
    type V = HandlerView;

    closed spec fn view(&self) -> HandlerView {
        HandlerView { shutdown: self.shutdown@, connection: self.connection@, fd: self.fd }
    }
}

/// The error of a handler for an error of the loop that it runs.
pub open spec fn spec_error(error: crate::Error) -> Error {
    match error {
        crate::Error::ConnectError { source } => Error::ConnectError { source },
        crate::Error::CommandError { source } => Error::CommandError { source },
    }
}

/// What a handler does when it is woken, and the state that it is in
/// afterwards.
///
/// The shutdown signal stops the handler, without an error and whatever its
/// buffer holds. A handler for which the signal has fired begins no further
/// frame. Anything else is an event of the loop; an answer that has been
/// begun is finished.
pub open spec fn spec_handle(handler: HandlerView, wake: WakeView) -> (
    Result<ActionView, Error>,
    HandlerView,
) {
    match wake {
        WakeView::Shutdown => (
            Ok(ActionView::Stop),
            HandlerView { shutdown: true, connection: handler.connection, fd: handler.fd },
        ),
        WakeView::Event(event) => if event is Ready && handler.shutdown {
            (Ok(ActionView::Stop), handler)
        } else {
            (
                match spec_process(handler.connection, event).0 {
                    Ok(action) => Ok(action),
                    Err(error) => Err(spec_error(error)),
                },
                HandlerView {
                    shutdown: handler.shutdown,
                    connection: spec_process(handler.connection, event).1,
                    fd: handler.fd,
                },
            )
        },
    }
}

/// The value of what a handler does.
pub open spec fn handled_view(action: Result<Action, Error>) -> Result<ActionView, Error> {
    match action {
        Ok(action) => Ok(action@),
        Err(error) => Err(error),
    }
}

impl Handler {
    /// The handler of `connection`, named by the descriptor `fd`.
    pub fn new(shutdown: Shutdown, connection: Connection, fd: i32) -> (handler: Handler)
        ensures
            handler@ == (HandlerView { shutdown: shutdown@, connection: connection@, fd }),
    {
        Handler { shutdown, connection, fd }
    }

    /// The descriptor by which the connection is named.
    pub fn fd(&self) -> (fd: i32)
        ensures
            fd == self@.fd,
    {
        self.fd
    }

    /// The connection that the handler owns.
    pub fn connection(&self) -> (connection: &Connection)
        ensures
            connection@ == self@.connection,
    {
        &self.connection
    }

    /// Says what to do next, now that `wake` has happened.
    pub fn process(&mut self, wake: Wake) -> (action: Result<Action, Error>)
        requires
            wake matches Wake::Event(Event::Read(bytes)) ==> old(self)@.connection.buffer.len()
                + bytes@.len() <= buffer_limit(),
        ensures
            handled_view(action) == spec_handle(old(self)@, wake@).0,
            final(self)@ == spec_handle(old(self)@, wake@).1,
            wake is Shutdown ==> action is Ok && action->Ok_0 is Stop,
    {
        match wake {
            Wake::Shutdown => {
                self.shutdown.recv(true);
                Ok(Action::Stop)
            },
            Wake::Event(event) => {
                if let Event::Ready = event {
                    if self.shutdown.is_shutdown() {
                        return Ok(Action::Stop);
                    }
                }
                match crate::process(&mut self.connection, event) {
                    Ok(action) => Ok(action),
                    Err(crate::Error::ConnectError { source }) => Err(
                        Error::ConnectError { source },
                    ),
                    Err(crate::Error::CommandError { source }) => Err(
                        Error::CommandError { source },
                    ),
                }
            },
        }
    }
}

} // verus!
