//! One connection: what it waits for, and what each line that arrives on it
//! does.

use crate::handler::handle_request;
use crate::handler::reply_to;
use crate::handler::table_after;
use crate::reply::encode_error;
use crate::reply::ERROR;
use crate::request::command_of;
use crate::request::parse_command;
use crate::request::set_request_of;
use crate::request::Command;
use crate::request::CommandView;
use crate::request::ParseError;
use crate::request::Request;
use crate::request::RequestView;
use crate::request::SetHeader;
use crate::request::SetHeaderView;
use crate::store::EntryView;
use crate::store::Store;
use crate::text::is_terminated;
use crate::text::line_body;
use crate::text::line_is_terminated;
use crate::text::strip_terminator;
use vstd::prelude::*;

verus! {

/// What a connection waits for.
#[derive(Debug)]
pub enum Connection {
    /// The next line is a command line.
    AwaitingCommand,
    /// The next line holds the data of a `set` command whose command line
    /// arrived at the time `request_time`.
    AwaitingData { header: SetHeader, request_time: u64 },
    /// The connection has failed. It takes nothing more.
    Closed,
}

/// What a `Connection` holds, as a mathematical value.
pub ghost enum ConnectionView {
    AwaitingCommand,
    AwaitingData { header: SetHeaderView, request_time: u64 },
    Closed,
}

impl View for Connection {
    type V = ConnectionView;

    open spec fn view(&self) -> ConnectionView {
        match self {
            Connection::AwaitingCommand => ConnectionView::AwaitingCommand,
            Connection::AwaitingData { header, request_time } => ConnectionView::AwaitingData {
                header: header@,
                request_time: *request_time,
            },
            Connection::Closed => ConnectionView::Closed,
        }
    }
}

/// What a read on the connection gave.
#[derive(Debug)]
pub enum Event {
    /// The bytes up to and with the next line feed; fewer where the stream
    /// ended first, none where it had ended before.
    Line(Vec<u8>),
    /// The read failed.
    ReadFailed,
}

/// What an `Event` holds, as a mathematical value.
pub ghost enum EventView {
    Line(Seq<u8>),
    ReadFailed,
}

impl View for Event {
    type V = EventView;

    open spec fn view(&self) -> EventView {
        match self {
            Event::Line(line) => EventView::Line(line@),
            Event::ReadFailed => EventView::ReadFailed,
        }
    }
}

/// What to do on the connection after an event.
#[derive(Debug)]
pub struct Action {
    /// The bytes to send, in one piece.
    pub reply: Vec<u8>,
    /// Whether to close the connection once the bytes are sent.
    pub close: bool,
}

/// A connection and what an event on it gave the parser: a whole request,
/// nothing yet, or a failure.
pub ghost struct Parsed {
    pub connection: ConnectionView,
    pub result: Result<Option<RequestView>, ParseError>,
}

/// A connection, the table and what is sent, after an event.
pub ghost struct Outcome {
    pub connection: ConnectionView,
    pub table: Map<Seq<u8>, EntryView>,
    pub reply: Seq<u8>,
    pub close: bool,
}

/// What an event at the time `now` gives the parser of a connection.
///
/// A command line that is a `get` or an unknown command is a whole request.
/// That of a `set` makes the connection wait for the data; the next line,
/// without its terminator, is the data, whatever length was declared, and
/// the request carries the time at which the command line arrived. A read
/// that failed, a line that the stream ended in, and a command line that
/// cannot be parsed each close the connection, as does the end of the
/// stream. A closed connection stays closed.
pub open spec fn parsed(connection: ConnectionView, event: EventView, now: u64) -> Parsed {
    match connection {
        ConnectionView::Closed => Parsed {
            connection: ConnectionView::Closed,
            result: Err(ParseError::Closed),
        },
        ConnectionView::AwaitingCommand => match event {
            EventView::ReadFailed => Parsed {
                connection: ConnectionView::Closed,
                result: Err(ParseError::ReadFailed),
            },
            EventView::Line(line) => match command_of(line) {
                Err(e) => Parsed { connection: ConnectionView::Closed, result: Err(e) },
                Ok(CommandView::Get(key)) => Parsed {
                    connection: ConnectionView::AwaitingCommand,
                    result: Ok(Some(RequestView::Get(key))),
                },
                Ok(CommandView::Unknown) => Parsed {
                    connection: ConnectionView::AwaitingCommand,
                    result: Ok(Some(RequestView::Unknown)),
                },
                Ok(CommandView::Put(header)) => Parsed {
                    connection: ConnectionView::AwaitingData { header, request_time: now },
                    result: Ok(None),
                },
            },
        },
        ConnectionView::AwaitingData { header, request_time } => match event {
            EventView::ReadFailed => Parsed {
                connection: ConnectionView::Closed,
                result: Err(ParseError::ReadFailed),
            },
            EventView::Line(line) => if is_terminated(line) {
                Parsed {
                    connection: ConnectionView::AwaitingCommand,
                    result: Ok(
                        Some(
                            RequestView::Put(
                                set_request_of(header, line_body(line), request_time),
                            ),
                        ),
                    ),
                }
            } else {
                Parsed {
                    connection: ConnectionView::Closed,
                    result: Err(ParseError::Unterminated),
                }
            },
        },
    }
}

/// What is sent when the connection closes for `error`: nothing where the
/// client had closed the stream between two commands, and nothing on a
/// connection that was closed before; else the line `ERROR`.
pub open spec fn closing_reply(error: ParseError) -> Seq<u8> {
    match error {
        ParseError::EndOfStream => Seq::empty(),
        ParseError::Closed => Seq::empty(),
        _ => ERROR@,
    }
}

/// What an event at the time `now` does on a connection that works on the
/// table `m`.
///
/// A whole request is carried out and its reply sent. The command line of a
/// `set` changes nothing and sends nothing. A failure closes the connection,
/// leaves the table as it is and sends what `closing_reply` says.
pub open spec fn outcome(
    connection: ConnectionView,
    m: Map<Seq<u8>, EntryView>,
    event: EventView,
    now: u64,
) -> Outcome {
    let p = parsed(connection, event, now);
    match p.result {
        Ok(Some(request)) => Outcome {
            connection: p.connection,
            table: table_after(m, request, now),
            reply: reply_to(m, request, now),
            close: false,
        },
        Ok(None) => Outcome {
            connection: p.connection,
            table: m,
            reply: Seq::empty(),
            close: false,
        },
        Err(error) => Outcome {
            connection: p.connection,
            table: m,
            reply: closing_reply(error),
            close: true,
        },
    }
}

impl Connection {
    /// A connection that has just been accepted.
    pub fn new() -> (connection: Connection)
        ensures
            connection@ == ConnectionView::AwaitingCommand,
    {
        Connection::AwaitingCommand
    }

    /// Whether the connection has failed.
    pub fn is_closed(&self) -> (r: bool)
        ensures
            r == (self@ == ConnectionView::Closed),
    {
        match self {
            Connection::Closed => true,
            _ => false,
        }
    }

    /// Takes what a read at the time `now` gave, and hands back the request
    /// that is now whole, if one is.
    pub fn parse_request(&mut self, event: Event, now: u64) -> (result: Result<
        Option<Request>,
        ParseError,
    >)
        ensures
            final(self)@ == parsed(old(self)@, event@, now).connection,
            match parsed(old(self)@, event@, now).result {
                Ok(Some(request)) => result matches Ok(Some(r)) && r@ == request,
                Ok(None) => result matches Ok(None),
                Err(e) => result == Err::<Option<Request>, ParseError>(e),
            },
    {
        let mut state = Connection::Closed;
        core::mem::swap(self, &mut state);
        match state {
            Connection::Closed => Err(ParseError::Closed),
            Connection::AwaitingCommand => match event {
                Event::ReadFailed => Err(ParseError::ReadFailed),
                Event::Line(line) => match parse_command(line.as_slice()) {
                    Err(e) => Err(e),
                    Ok(Command::Get(get)) => {
                        *self = Connection::AwaitingCommand;
                        Ok(Some(Request::Get(get)))
                    },
                    Ok(Command::Unknown) => {
                        *self = Connection::AwaitingCommand;
                        Ok(Some(Request::Unknown))
                    },
                    Ok(Command::Put(header)) => {
                        *self = Connection::AwaitingData { header, request_time: now };
                        Ok(None)
                    },
                },
            },
            Connection::AwaitingData { header, request_time } => match event {
                Event::ReadFailed => Err(ParseError::ReadFailed),
                Event::Line(line) => {
                    if line_is_terminated(line.as_slice()) {
                        let data = strip_terminator(line.as_slice());
                        *self = Connection::AwaitingCommand;
                        Ok(Some(Request::Put(header.with_data(data, request_time))))
                    } else {
                        Err(ParseError::Unterminated)
                    }
                },
            },
        }
    }

    /// Takes what a read at the time `now` gave, carries out the request
    /// that is now whole, if one is, and says what to send and whether to
    /// close.
    pub fn step(&mut self, store: &mut Store, event: Event, now: u64) -> (action: Action)
        ensures
            final(self)@ == outcome(old(self)@, old(store)@, event@, now).connection,
            final(store)@ == outcome(old(self)@, old(store)@, event@, now).table,
            action.reply@ == outcome(old(self)@, old(store)@, event@, now).reply,
            action.close == outcome(old(self)@, old(store)@, event@, now).close,
    {
        match self.parse_request(event, now) {
            Ok(Some(request)) => Action { reply: handle_request(request, store, now), close: false },
            Ok(None) => Action { reply: Vec::new(), close: false },
            Err(ParseError::EndOfStream) => Action { reply: Vec::new(), close: true },
            Err(ParseError::Closed) => Action { reply: Vec::new(), close: true },
            Err(_) => Action { reply: encode_error(), close: true },
        }
    }
}

} // verus!
