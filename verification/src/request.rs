//! The commands of the protocol and the parser of a command line.

use crate::number::numeral_value;
use crate::number::parse_u32;
use crate::number::parse_u64;
use crate::store::Entry;
use crate::store::EntryView;
use crate::text::bytes_eq;
use crate::text::is_terminated;
use crate::text::line_is_terminated;
use crate::text::split_tokens;
use crate::text::tokens;
use crate::text::views;
use vstd::prelude::*;
use vstd::slice::slice_to_vec;

verus! {

/// The verb `get`.
pub const GET: [u8; 3] = [103, 101, 116];

/// The verb `set`.
pub const SET: [u8; 3] = [115, 101, 116];

/// The word `noreply`.
pub const NOREPLY: [u8; 7] = [110, 111, 114, 101, 112, 108, 121];

/// A numeric field of a `set` command.
#[derive(Debug, Clone, Copy, PartialEq, Eq, Structural)]
pub enum Field {
    Flags,
    Ttl,
    ByteLen,
}

/// Why no command could be had from a connection.
#[derive(Debug, Clone, Copy, PartialEq, Eq, Structural)]
pub enum ParseError {
    /// The read failed.
    ReadFailed,
    /// The stream had ended where a command line was to begin: the client
    /// has closed the connection.
    EndOfStream,
    /// The stream ended before the line did.
    Unterminated,
    /// The line holds no token.
    NoCommand,
    /// A `set` command ends before this field.
    MissingField(Field),
    /// This field of a `set` command is no numeral, or one too large for
    /// the field.
    InvalidNumber(Field),
    /// The connection had failed before.
    Closed,
}

/// A request for the entry under a key.
#[derive(Debug)]
pub struct GetRequest {
    pub key: Vec<u8>,
}

impl View for GetRequest {
    type V = Seq<u8>;

    /// A `get` request is its key.
    open spec fn view(&self) -> Seq<u8> {
        self.key@
    }
}

/// The command line of a `set` command: all of the command but the data.
#[derive(Debug)]
pub struct SetHeader {
    pub key: Vec<u8>,
    pub flags: u32,
    pub ttl: u64,
    pub byte_len: u32,
    pub noreply: bool,
}

/// What a `SetHeader` holds, as a mathematical value.
pub ghost struct SetHeaderView {
    pub key: Seq<u8>,
    pub flags: u32,
    pub ttl: u64,
    pub byte_len: u32,
    pub noreply: bool,
}

impl View for SetHeader {
    type V = SetHeaderView;

    open spec fn view(&self) -> SetHeaderView {
        SetHeaderView {
            key: self.key@,
            flags: self.flags,
            ttl: self.ttl,
            byte_len: self.byte_len,
            noreply: self.noreply,
        }
    }
}

/// A request to store data under a key.
#[derive(Debug)]
pub struct SetRequest {
    pub key: Vec<u8>,
    pub flags: u32,
    /// The seconds that the entry is to live; zero for an entry that never
    /// expires.
    pub ttl: u64,
    /// The length that the client declared for the data.
    pub byte_len: u32,
    /// Whether the client asked for no reply.
    pub noreply: bool,
    pub data: Vec<u8>,
    /// The Unix time, in seconds, at which the command line arrived.
    pub request_time: u64,
}

/// What a `SetRequest` holds, as a mathematical value.
pub ghost struct SetRequestView {
    pub key: Seq<u8>,
    pub flags: u32,
    pub ttl: u64,
    pub byte_len: u32,
    pub noreply: bool,
    pub data: Seq<u8>,
    pub request_time: u64,
}

impl View for SetRequest {
    type V = SetRequestView;

    open spec fn view(&self) -> SetRequestView {
        SetRequestView {
            key: self.key@,
            flags: self.flags,
            ttl: self.ttl,
            byte_len: self.byte_len,
            noreply: self.noreply,
            data: self.data@,
            request_time: self.request_time,
        }
    }
}

/// What a command line asks for.
#[derive(Debug)]
pub enum Command {
    Get(GetRequest),
    /// A `set` command, whose data follow on the next line.
    Put(SetHeader),
    Unknown,
}

/// What a `Command` holds, as a mathematical value.
pub ghost enum CommandView {
    Get(Seq<u8>),
    Put(SetHeaderView),
    Unknown,
}

impl View for Command {
    type V = CommandView;

    open spec fn view(&self) -> CommandView {
        match self {
            Command::Get(get) => CommandView::Get(get@),
            Command::Put(header) => CommandView::Put(header@),
            Command::Unknown => CommandView::Unknown,
        }
    }
}

/// A whole command, ready to be carried out.
#[derive(Debug)]
pub enum Request {
    Get(GetRequest),
    Put(SetRequest),
    Unknown,
}

/// What a `Request` holds, as a mathematical value.
pub ghost enum RequestView {
    Get(Seq<u8>),
    Put(SetRequestView),
    Unknown,
}

impl View for Request {
    type V = RequestView;

    open spec fn view(&self) -> RequestView {
        match self {
            Request::Get(get) => RequestView::Get(get@),
            Request::Put(set) => RequestView::Put(set@),
            Request::Unknown => RequestView::Unknown,
        }
    }
}

/// The `set` request that a command line makes with the data that follow
/// it, when the command line arrived at the time `request_time`.
pub open spec fn set_request_of(header: SetHeaderView, data: Seq<u8>, request_time: u64)
    -> SetRequestView {
    SetRequestView {
        key: header.key,
        flags: header.flags,
        ttl: header.ttl,
        byte_len: header.byte_len,
        noreply: header.noreply,
        data,
        request_time,
    }
}

/// The entry that a `set` request stores.
pub open spec fn entry_of(request: SetRequestView) -> EntryView {
    EntryView {
        flags: request.flags,
        ttl_seconds: request.ttl,
        byte_len: request.byte_len,
        data: request.data,
        stored_at: request.request_time,
    }
}

/// The numeric field at the index `at` of the tokens `t`, read as a numeral
/// no greater than `max`.
pub open spec fn field_of(t: Seq<Seq<u8>>, at: int, max: nat, field: Field) -> Result<
    nat,
    ParseError,
> {
    if t.len() <= at {
        Err(ParseError::MissingField(field))
    } else {
        match numeral_value(t[at], max) {
            Some(v) => Ok(v),
            None => Err(ParseError::InvalidNumber(field)),
        }
    }
}

/// The header that the tokens of a `set` command line make, or the first
/// fault among its numeric fields, taken in the order flags, lifetime,
/// length. The command asks for no reply where its sixth token is the word
/// `noreply`. Tokens after the sixth say nothing.
pub open spec fn set_header_of(t: Seq<Seq<u8>>) -> Result<SetHeaderView, ParseError>
    recommends
        t.len() >= 2,
{
    match field_of(t, 2, u32::MAX as nat, Field::Flags) {
        Err(e) => Err(e),
        Ok(flags) => match field_of(t, 3, u64::MAX as nat, Field::Ttl) {
            Err(e) => Err(e),
            Ok(ttl) => match field_of(t, 4, u32::MAX as nat, Field::ByteLen) {
                Err(e) => Err(e),
                Ok(byte_len) => Ok(
                    SetHeaderView {
                        key: t[1],
                        flags: flags as u32,
                        ttl: ttl as u64,
                        byte_len: byte_len as u32,
                        noreply: t.len() > 5 && t[5] == NOREPLY@,
                    },
                ),
            },
        },
    }
}

/// The command that the tokens of a line make. A line of one token, and a
/// line whose first token is neither verb, is an unknown command. Tokens
/// after the key of a `get` command say nothing.
pub open spec fn command_of_tokens(t: Seq<Seq<u8>>) -> Result<CommandView, ParseError> {
    if t.len() == 0 {
        Err(ParseError::NoCommand)
    } else if t.len() == 1 {
        Ok(CommandView::Unknown)
    } else if t[0] == GET@ {
        Ok(CommandView::Get(t[1]))
    } else if t[0] == SET@ {
        match set_header_of(t) {
            Ok(header) => Ok(CommandView::Put(header)),
            Err(e) => Err(e),
        }
    } else {
        Ok(CommandView::Unknown)
    }
}

/// The command that a line makes: that of its tokens, where the line was
/// read to its end. A read that gave no byte met the end of the stream.
pub open spec fn command_of(line: Seq<u8>) -> Result<CommandView, ParseError> {
    if line.len() == 0 {
        Err(ParseError::EndOfStream)
    } else if !is_terminated(line) {
        Err(ParseError::Unterminated)
    } else {
        command_of_tokens(tokens(line))
    }
}

impl SetHeader {
    /// Completes the command with its data and the time at which its
    /// command line arrived.
    pub fn with_data(self, data: Vec<u8>, request_time: u64) -> (request: SetRequest)
        ensures
            request@ == set_request_of(self@, data@, request_time),
    {
        SetRequest {
            key: self.key,
            flags: self.flags,
            ttl: self.ttl,
            byte_len: self.byte_len,
            noreply: self.noreply,
            data,
            request_time,
        }
    }
}

impl SetRequest {
    /// Splits the request into the key and the entry to store under it.
    pub fn into_entry(self) -> (stored: (Vec<u8>, Entry))
        ensures
            stored.0@ == self@.key,
            stored.1@ == entry_of(self@),
    {
        (
            self.key,
            Entry {
                flags: self.flags,
                ttl_seconds: self.ttl,
                byte_len: self.byte_len,
                data: self.data,
                stored_at: self.request_time,
            },
        )
    }
}

fn parse_set(toks: &Vec<Vec<u8>>) -> (r: Result<SetHeader, ParseError>)
    requires
        toks.len() >= 2,
    ensures
        match set_header_of(views(toks@)) {
            Ok(header) => r matches Ok(h) && h@ == header,
            Err(e) => r == Err::<SetHeader, ParseError>(e),
        },
{
    let ghost t = views(toks@);
    if toks.len() < 3 {
        return Err(ParseError::MissingField(Field::Flags));
    }
    assert(t[2] == toks[2]@);
    let flags = match parse_u32(toks[2].as_slice()) {
        Some(v) => v,
        None => {
            return Err(ParseError::InvalidNumber(Field::Flags));
        },
    };
    if toks.len() < 4 {
        return Err(ParseError::MissingField(Field::Ttl));
    }
    assert(t[3] == toks[3]@);
    let ttl = match parse_u64(toks[3].as_slice()) {
        Some(v) => v,
        None => {
            return Err(ParseError::InvalidNumber(Field::Ttl));
        },
    };
    if toks.len() < 5 {
        return Err(ParseError::MissingField(Field::ByteLen));
    }
    assert(t[4] == toks[4]@);
    let byte_len = match parse_u32(toks[4].as_slice()) {
        Some(v) => v,
        None => {
            return Err(ParseError::InvalidNumber(Field::ByteLen));
        },
    };
    assert(toks.len() > 5 ==> t[5] == toks[5]@);
    let noreply = toks.len() > 5 && bytes_eq(toks[5].as_slice(), NOREPLY.as_slice());
    assert(t[1] == toks[1]@);
    Ok(SetHeader { key: slice_to_vec(toks[1].as_slice()), flags, ttl, byte_len, noreply })
}

/// Parses a command line.
pub fn parse_command(line: &[u8]) -> (r: Result<Command, ParseError>)
    ensures
        match command_of(line@) {
            Ok(command) => r matches Ok(c) && c@ == command,
            Err(e) => r == Err::<Command, ParseError>(e),
        },
{
    if line.len() == 0 {
        return Err(ParseError::EndOfStream);
    }
    if !line_is_terminated(line) {
        return Err(ParseError::Unterminated);
    }
    let toks = split_tokens(line);
    let ghost t = views(toks@);
    if toks.len() == 0 {
        return Err(ParseError::NoCommand);
    }
    if toks.len() == 1 {
        return Ok(Command::Unknown);
    }
    assert(t[0] == toks[0]@);
    assert(t[1] == toks[1]@);
    if bytes_eq(toks[0].as_slice(), GET.as_slice()) {
        Ok(Command::Get(GetRequest { key: slice_to_vec(toks[1].as_slice()) }))
    } else if bytes_eq(toks[0].as_slice(), SET.as_slice()) {
        match parse_set(&toks) {
            Ok(header) => Ok(Command::Put(header)),
            Err(e) => Err(e),
        }
    } else {
        Ok(Command::Unknown)
    }
}

} // verus!
