//! One client's side of a session: what was read becomes a command, and what
//! is to be written queues up as framed lines.
//!
//! A `Client` holds no transport. Whoever owns the connection hands in what a
//! read returned and writes out what `drain` gives back.

use crate::commands::{grammar_compiles, parse, Command, CommandView, Parser};
use crate::text::{decode, trim, trimmed};
use vstd::prelude::*;
use vstd::utf8::{decode_utf8, encode_utf8_decode_utf8, valid_utf8};

verus! {

/// `std::io::Error`, the error of a failed read.
#[verifier::external_type_specification]
#[verifier::external_body]
pub struct ExIoError(std::io::Error);

/// The line that greets a client.
pub const HELLO: &'static str = "Hello from redis-ish !";

/// The line that answers `QUIT`.
pub const FAREWELL: &'static str = "Bye !";

/// Why no command came out of a read.
#[derive(Debug)]
pub enum ClientError {
    /// The read returned no bytes: the peer has closed the connection.
    NoInput,
    /// No rule of the grammar matches the line; the trimmed line is kept.
    InvalidCommand(String),
    /// The read itself failed.
    ReadFailure(std::io::Error),
    /// The bytes are not valid UTF-8.
    DecodingFailed,
}

/// A client error, with the rejected line as a character sequence.
pub enum ClientErrorView {
    NoInput,
    InvalidCommand(Seq<char>),
    ReadFailure(std::io::Error),
    DecodingFailed,
}

impl View for ClientError {
    type V = ClientErrorView;

    open spec fn view(&self) -> ClientErrorView {
        match self {
            ClientError::NoInput => ClientErrorView::NoInput,
            ClientError::InvalidCommand(line) => ClientErrorView::InvalidCommand(line@),
            ClientError::ReadFailure(e) => ClientErrorView::ReadFailure(*e),
            ClientError::DecodingFailed => ClientErrorView::DecodingFailed,
        }
    }
}

/// The view of what `wait_command` returns.
pub open spec fn outcome_view(outcome: Result<Command, ClientError>) -> Result<
    CommandView,
    ClientErrorView,
> {
    match outcome {
        Ok(command) => Ok(command@),
        Err(e) => Err(e@),
    }
}

/// What the bytes of one read stand for. No bytes mean that the peer is
/// gone; bytes that are not UTF-8 cannot be read at all; any other input is
/// a command or an invalid line.
pub open spec fn received(bytes: Seq<u8>) -> Result<CommandView, ClientErrorView> {
    if bytes.len() == 0 {
        Err(ClientErrorView::NoInput)
    } else if !valid_utf8(bytes) {
        Err(ClientErrorView::DecodingFailed)
    } else {
        match parse(decode_utf8(bytes)) {
            Some(command) => Ok(command),
            None => Err(ClientErrorView::InvalidCommand(trimmed(decode_utf8(bytes)))),
        }
    }
}

/// What the result of one read stands for.
pub open spec fn awaited(read: Result<Vec<u8>, std::io::Error>) -> Result<
    CommandView,
    ClientErrorView,
> {
    match read {
        Ok(bytes) => received(bytes@),
        Err(e) => Err(ClientErrorView::ReadFailure(e)),
    }
}

/// A message as it goes over the wire: with a newline at its end.
pub open spec fn frame(message: Seq<char>) -> Seq<char> {
    message.push('\n')
}

/// Where a session stands.
#[derive(Debug, Clone, Copy, PartialEq, Eq, Structural)]
pub enum SessionState {
    /// The client has not been greeted yet.
    Greeting,
    /// The session waits for the next command.
    Listening,
    /// The session is over.
    Closed,
}

/// A session as its peer and its owner see it.
pub struct ClientView {
    /// The framed lines that wait to be written, oldest first.
    pub outbox: Seq<Seq<char>>,
    pub state: SessionState,
}

/// One client's session.
pub struct Client {
    parser: Parser,
    outbox: Vec<String>,
    state: SessionState,
}

impl View for Client {
    type V = ClientView;

    closed spec fn view(&self) -> ClientView {
        ClientView { outbox: self.outbox.deep_view(), state: self.state }
    }
}

/// The session after the greeting: a session that has not been greeted gets
/// the hello line and listens; any other session stays as it is.
pub open spec fn greeted(client: ClientView) -> ClientView {
    if client.state is Greeting {
        ClientView { outbox: client.outbox.push(frame(HELLO@)), state: SessionState::Listening }
    } else {
        client
    }
}

/// The session with one more message queued.
pub open spec fn sent(client: ClientView, message: Seq<char>) -> ClientView {
    ClientView { outbox: client.outbox.push(frame(message)), state: client.state }
}

impl Client {
    /// A session that waits to be greeted. There is one exactly when the
    /// grammar compiles.
    pub fn new() -> (r: Option<Client>)
        ensures
            r is Some <==> grammar_compiles(),
            r matches Some(client) ==> client@ == (ClientView {
                outbox: Seq::empty(),
                state: SessionState::Greeting,
            }),
    {
        match Parser::new() {
            Some(parser) => {
                let client = Client {
                    parser,
                    outbox: Vec::new(),
                    state: SessionState::Greeting,
                };
                assert(client@.outbox =~= Seq::empty());
                Some(client)
            },
            None => None,
        }
    }

    /// Where the session stands.
    pub fn state(&self) -> (state: SessionState)
        ensures
            state == self@.state,
    {
        self.state
    }

    /// Greets the client, once: the hello line is queued and the session
    /// starts to listen.
    pub fn hello(&mut self)
        ensures
            final(self)@ == greeted(old(self)@),
    {
        match self.state {
            SessionState::Greeting => {
                self.send(HELLO);
                self.state = SessionState::Listening;
            },
            _ => {},
        }
    }

    /// Says goodbye: the farewell line is queued and the session is over.
    pub fn quit(&mut self)
        ensures
            final(self)@ == (ClientView {
                outbox: old(self)@.outbox.push(frame(FAREWELL@)),
                state: SessionState::Closed,
            }),
    {
        self.send(FAREWELL);
        self.state = SessionState::Closed;
    }

    /// Ends the session without a word.
    pub fn close(&mut self)
        ensures
            final(self)@ == (ClientView {
                outbox: old(self)@.outbox,
                state: SessionState::Closed,
            }),
    {
        self.state = SessionState::Closed;
    }

    /// Queues `message` for the client, framed as one line.
    pub fn send(&mut self, message: &str)
        ensures
            final(self)@ == sent(old(self)@, message@),
    {
        let mut line = message.to_owned();
        proof {
            reveal_strlit("\n");
        }
        line.append("\n");
        assert(line@ =~= frame(message@));
        self.outbox.push(line);
        assert(self@.outbox =~= old(self)@.outbox.push(frame(message@)));
    }

    /// Hands out the queued lines, oldest first, and leaves the queue empty.
    pub fn drain(&mut self) -> (lines: Vec<String>)
        ensures
            lines.deep_view() == old(self)@.outbox,
            final(self)@ == (ClientView { outbox: Seq::empty(), state: old(self)@.state }),
    {
        let mut lines: Vec<String> = Vec::new();
        core::mem::swap(&mut self.outbox, &mut lines);
        assert(self@.outbox =~= Seq::empty());
        lines
    }

    /// Turns the result of one read into a command. A failed read, an empty
    /// read and undecodable bytes are told apart from a line that is no
    /// command. The session itself does not change.
    pub fn wait_command(&mut self, read: Result<Vec<u8>, std::io::Error>) -> (r: Result<
        Command,
        ClientError,
    >)
        ensures
            outcome_view(r) == awaited(read),
            *final(self) == *old(self),
    {
        match read {
            Ok(bytes) => {
                if bytes.len() == 0 {
                    return Err(ClientError::NoInput);
                }
                match decode(bytes.as_slice()) {
                    Some(text) => {
                        proof {
                            encode_utf8_decode_utf8(text@);
                        }
                        match self.parser.find_command(text) {
                            Some(command) => Ok(command),
                            None => Err(ClientError::InvalidCommand(trim(text).to_owned())),
                        }
                    },
                    None => Err(ClientError::DecodingFailed),
                }
            },
            Err(e) => Err(ClientError::ReadFailure(e)),
        }
    }
}

} // verus!
