//! The commands that a client can send, and what is answered to each.
use vstd::prelude::*;
use vstd::utf8::encode_utf8;

use crate::buf::bytes_from_string;
use crate::connection;
use crate::connection::Connection;
use crate::frame::{Frame, FrameView};
use crate::wire::spec_encode;
use crate::json::{json_string_member, lookup_view, string_member};
use crate::parser;
use crate::parser::{spec_new, spec_next_string, spec_rest, Parser};

verus! {

/// Why a command could not be read or answered.
#[derive(Debug, Clone, Copy, PartialEq, Eq, Structural)]
#[allow(inconsistent_fields)]
pub enum Error {
    /// The connection failed.
    ConnectError { source: connection::Error },
    /// The frame received is not a command.
    CommandError { source: parser::Error },
    /// The request for the origin failed.
    HttpError,
    /// The answer to the request is not a JSON document.
    JsonError,
    /// The answer to the request names no origin.
    StrJsonError,
}

/// The command `get`.
#[derive(Debug)]
pub struct Get {
    key: String,
}

impl View for Get {
    type V = Seq<char>;

    /// The key that is asked for.
    closed spec fn view(&self) -> Seq<char> {
        self.key@
    }
}

/// A command, read from a frame. Only `get` does anything; the others carry
/// a text and are acknowledged.
#[derive(Debug)]
pub enum Command {
    /// Asks for the origin.
    Get(Get),
    /// Publishes a message.
    Publish(String),
    /// Sets the value of a key.
    SetValue(String),
    /// Subscribes to a channel.
    Subscribe(String),
    /// Ends a subscription.
    Unsubscribe(String),
    /// Asks whether the server is there.
    Ping(String),
    /// A command whose name is not known; the name is kept.
    Unknown(String),
}

/// The value of a `Command`: the key of a `get`, the text of any other.
pub enum CommandView {
    /// The key of a `get`.
    Get(Seq<char>),
    /// The text of a `Publish`.
    Publish(Seq<char>),
    /// The text of a `SetValue`.
    SetValue(Seq<char>),
    /// The text of a `Subscribe`.
    Subscribe(Seq<char>),
    /// The text of an `Unsubscribe`.
    Unsubscribe(Seq<char>),
    /// The text of a `Ping`.
    Ping(Seq<char>),
    /// The name of an unknown command.
    Unknown(Seq<char>),
}

impl View for Command {
    type V = CommandView;

    open spec fn view(&self) -> CommandView {
        match self {
            Command::Get(get) => CommandView::Get(get@),
            Command::Publish(text) => CommandView::Publish(text@),
            Command::SetValue(text) => CommandView::SetValue(text@),
            Command::Subscribe(text) => CommandView::Subscribe(text@),
            Command::Unsubscribe(text) => CommandView::Unsubscribe(text@),
            Command::Ping(text) => CommandView::Ping(text@),
            Command::Unknown(text) => CommandView::Unknown(text@),
        }
    }
}

/// The member of the answer that holds the origin.
pub open spec fn origin_key() -> Seq<char> {
    "origin"@
}

/// The origin that a lookup in the answer gives.
pub open spec fn spec_origin_of(found: Option<Option<Seq<char>>>) -> Result<Seq<char>, Error> {
    match found {
        Some(Some(origin)) => Ok(origin),
        Some(None) => Err(Error::StrJsonError),
        None => Err(Error::JsonError),
    }
}

/// The value of a text that may have failed.
pub open spec fn text_view(text: Result<String, Error>) -> Result<Seq<char>, Error> {
    match text {
        Ok(text) => Ok(text@),
        Err(error) => Err(error),
    }
}

/// The origin that a lookup in the answer gave: the string that was found,
/// `StrJsonError` where the document has no such string, `JsonError` where
/// the answer is no document.
pub fn origin_of(found: Option<Option<String>>) -> (origin: Result<String, Error>)
    ensures
        text_view(origin) == spec_origin_of(lookup_view(found)),
{
    match found {
        Some(Some(origin)) => Ok(origin),
        Some(None) => Err(Error::StrJsonError),
        None => Err(Error::JsonError),
    }
}

/// The origin that the answer `body` names: the string under `origin` in
/// that JSON document.
pub fn origin(body: &str) -> (origin: Result<String, Error>)
    ensures
        text_view(origin) == spec_origin_of(json_string_member(body@, origin_key())),
{
    origin_of(string_member(body, "origin"))
}

/// The text that answers a `get`: the origin, or a fixed text that says
/// which step failed.
pub open spec fn spec_reply(origin: Result<Seq<char>, Error>) -> Seq<char> {
    match origin {
        Ok(text) => text,
        Err(Error::HttpError) => "failed on http"@,
        Err(_) => "bad json"@,
    }
}

/// The frame that acknowledges a command.
pub open spec fn ok_frame() -> FrameView {
    FrameView::Simple("OK"@)
}

/// The command that a frame holds.
///
/// The frame is an array whose first argument names the command. `get`
/// takes the key from the second argument; every other name is kept as an
/// unknown command.
pub open spec fn spec_from_frame(frame: FrameView) -> Result<CommandView, Error> {
    match spec_new(frame) {
        Ok(parts) => match spec_next_string(parts) {
            Ok(name) => if name == "get"@ {
                match spec_next_string(spec_rest(parts)) {
                    Ok(key) => Ok(CommandView::Get(key)),
                    Err(error) => Err(Error::CommandError { source: error }),
                }
            } else {
                Ok(CommandView::Unknown(name))
            },
            Err(error) => Err(Error::CommandError { source: error }),
        },
        Err(error) => Err(Error::CommandError { source: error }),
    }
}

/// The value of a command that may have failed.
pub open spec fn command_view(command: Result<Command, Error>) -> Result<CommandView, Error> {
    match command {
        Ok(command) => Ok(command@),
        Err(error) => Err(error),
    }
}

/// The value of a `get` that may have failed.
pub open spec fn get_view(get: Result<Get, Error>) -> Result<Seq<char>, Error> {
    match get {
        Ok(get) => Ok(get@),
        Err(error) => Err(error),
    }
}

/// What `Get::parse_frame` makes of the arguments that are left.
pub open spec fn spec_parse_get(parts: Seq<FrameView>) -> Result<Seq<char>, Error> {
    match spec_next_string(parts) {
        Ok(key) => Ok(key),
        Err(error) => Err(Error::CommandError { source: error }),
    }
}

impl Get {
    /// A `get` that asks for `key`.
    pub fn new(key: &str) -> (get: Get)
        ensures
            get@ == key@,
    {
        Get { key: key.to_owned() }
    }

    /// Reads the key, which is the next argument.
    pub fn parse_frame(parser: &mut Parser) -> (get: Result<Get, Error>)
        ensures
            final(parser)@ == spec_rest(old(parser)@),
            get_view(get) == spec_parse_get(old(parser)@),
    {
        match parser.next_string() {
            Ok(key) => Ok(Get { key }),
            Err(error) => Err(Error::CommandError { source: error }),
        }
    }

    /// Answers the command with a bulk string: the origin, or the fixed text
    /// for the step that failed. A failure is answered, it does not end the
    /// connection.
    pub fn apply(self, origin: Result<String, Error>, connection: &mut Connection)
        ensures
            final(connection)@.buffer == old(connection)@.buffer,
            final(connection)@.output == old(connection)@.output + spec_encode(
                FrameView::Bulk(encode_utf8(spec_reply(text_view(origin)))),
            ),
    {
        let text: String = match origin {
            Ok(text) => text,
            Err(Error::HttpError) => "failed on http".to_owned(),
            Err(_) => "bad json".to_owned(),
        };
        let response: Frame = Frame::Bulk(bytes_from_string(text));
        connection.write_frame(&response);
    }
}

impl Command {
    /// Reads a command from the frame that a client sent.
    pub fn from_frame(frame: Frame) -> (command: Result<Command, Error>)
        ensures
            command_view(command) == spec_from_frame(frame@),
    {
        let mut parser: Parser = match Parser::new(frame) {
            Ok(parser) => parser,
            Err(error) => {
                return Err(Error::CommandError { source: error });
            },
        };
        let name: String = match parser.next_string() {
            Ok(name) => name,
            Err(error) => {
                return Err(Error::CommandError { source: error });
            },
        };
        let get: String = "get".to_owned();
        if name == get {
            match Get::parse_frame(&mut parser) {
                Ok(get) => Ok(Command::Get(get)),
                Err(error) => Err(error),
            }
        } else {
            Ok(Command::Unknown(name))
        }
    }

    /// Answers the command as far as that takes no request: every command
    /// but `get` is acknowledged with `OK`. A `get` is handed back; its
    /// answer is written by `Get::apply`, once the origin is known.
    pub fn apply(self, connection: &mut Connection) -> (get: Option<Get>)
        ensures
            final(connection)@.buffer == old(connection)@.buffer,
            self matches Command::Get(asked) ==> get == Some(asked) && final(connection)@.output
                == old(connection)@.output,
            !(self is Get) ==> get is None && final(connection)@.output == old(
                connection,
            )@.output + spec_encode(ok_frame()),
    {
        match self {
            Command::Get(get) => Some(get),
            _ => {
                let response: Frame = Frame::Simple("OK".to_owned());
                connection.write_frame(&response);
                None
            },
        }
    }
}

} // verus!
