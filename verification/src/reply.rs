//! The replies of the protocol, byte for byte.

use crate::number::decimal;
use crate::number::push_decimal;
use crate::store::Entry;
use crate::store::EntryView;
use crate::text::push_bytes;
use crate::text::SP;
use vstd::prelude::*;

verus! {

/// The terminator of every line of a reply: a carriage return and a line
/// feed.
pub const CRLF: [u8; 2] = [13, 10];

/// The line `END`: the reply to a miss and the last line of a hit.
pub const END: [u8; 5] = [69, 78, 68, 13, 10];

/// The line `STORED`: the reply to a `set` command.
pub const STORED: [u8; 8] = [83, 84, 79, 82, 69, 68, 13, 10];

/// The line `ERROR`: the last reply on a connection that failed.
pub const ERROR: [u8; 7] = [69, 82, 82, 79, 82, 13, 10];

/// The word `VALUE` and the space after it: how the reply to a hit begins.
pub const VALUE: [u8; 6] = [86, 65, 76, 85, 69, 32];

/// The reply to a `get` command that found `entry` under `key`: a line of
/// the word `VALUE`, the key, the flags and the declared length, then the
/// data on a line of their own, then the line `END`.
pub open spec fn value_reply(key: Seq<u8>, entry: EntryView) -> Seq<u8> {
    VALUE@ + key + seq![SP] + decimal(entry.flags as nat) + seq![SP] + decimal(
        entry.byte_len as nat,
    ) + CRLF@ + entry.data + CRLF@ + END@
}

/// The reply to a `get` command, by what the read found.
pub open spec fn get_reply(key: Seq<u8>, found: Option<EntryView>) -> Seq<u8> {
    match found {
        Some(entry) => value_reply(key, entry),
        None => END@,
    }
}

/// The reply to a `set` command: nothing where the client asked for no
/// reply, else the line `STORED`.
pub open spec fn set_reply(noreply: bool) -> Seq<u8> {
    if noreply {
        Seq::empty()
    } else {
        STORED@
    }
}

/// Writes the line `END`.
pub fn encode_end() -> (reply: Vec<u8>)
    ensures
        reply@ == END@,
{
    let mut reply: Vec<u8> = Vec::new();
    push_bytes(&mut reply, END.as_slice());
    reply
}

/// Writes the line `STORED`.
pub fn encode_stored() -> (reply: Vec<u8>)
    ensures
        reply@ == STORED@,
{
    let mut reply: Vec<u8> = Vec::new();
    push_bytes(&mut reply, STORED.as_slice());
    reply
}

/// Writes the line `ERROR`.
pub fn encode_error() -> (reply: Vec<u8>)
    ensures
        reply@ == ERROR@,
{
    let mut reply: Vec<u8> = Vec::new();
    push_bytes(&mut reply, ERROR.as_slice());
    reply
}

/// Writes the reply to a `get` command that found `entry` under `key`.
pub fn encode_value(key: &[u8], entry: &Entry) -> (reply: Vec<u8>)
    ensures
        reply@ == value_reply(key@, entry@),
{
    let mut reply: Vec<u8> = Vec::new();
    push_bytes(&mut reply, VALUE.as_slice());
    push_bytes(&mut reply, key);
    reply.push(SP);
    push_decimal(&mut reply, entry.flags as u64);
    reply.push(SP);
    push_decimal(&mut reply, entry.byte_len as u64);
    push_bytes(&mut reply, CRLF.as_slice());
    push_bytes(&mut reply, entry.data.as_slice());
    push_bytes(&mut reply, CRLF.as_slice());
    push_bytes(&mut reply, END.as_slice());
    assert(reply@ == value_reply(key@, entry@));
    reply
}

} // verus!
