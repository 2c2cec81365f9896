//! How a request is carried out: what it does to the store and what is
//! sent back.

use crate::reply::encode_end;
use crate::reply::encode_stored;
use crate::reply::encode_value;
use crate::reply::get_reply;
use crate::reply::set_reply;
use crate::reply::END;
use crate::request::entry_of;
use crate::request::GetRequest;
use crate::request::Request;
use crate::request::RequestView;
use crate::request::SetRequest;
use crate::store::after_read;
use crate::store::live_entry;
use crate::store::EntryView;
use crate::store::Store;
use vstd::prelude::*;

verus! {

/// The bytes sent back for `request`, carried out at the time `now` on the
/// table `m`.
pub open spec fn reply_to(m: Map<Seq<u8>, EntryView>, request: RequestView, now: u64) -> Seq<u8> {
    match request {
        RequestView::Get(key) => get_reply(key, live_entry(m, key, now)),
        RequestView::Put(set) => set_reply(set.noreply),
        RequestView::Unknown => END@,
    }
}

/// The table that `request`, carried out at the time `now` on the table
/// `m`, leaves behind.
pub open spec fn table_after(m: Map<Seq<u8>, EntryView>, request: RequestView, now: u64) -> Map<
    Seq<u8>,
    EntryView,
> {
    match request {
        RequestView::Get(key) => after_read(m, key, now),
        RequestView::Put(set) => m.insert(set.key, entry_of(set)),
        RequestView::Unknown => m,
    }
}

/// Stores the entry of the request under its key and acknowledges it,
/// unless the client asked for no reply.
pub fn handle_set_request(request: SetRequest, store: &mut Store) -> (reply: Vec<u8>)
    ensures
        final(store)@ == old(store)@.insert(request@.key, entry_of(request@)),
        reply@ == set_reply(request.noreply),
{
    let noreply = request.noreply;
    let (key, entry) = request.into_entry();
    store.put(key, entry);
    if noreply {
        Vec::new()
    } else {
        encode_stored()
    }
}

/// Reads the entry under the key of the request at the time `now` and
/// writes the reply: the entry where it is live, else the line `END`. An
/// entry that has expired leaves the store.
pub fn handle_get_request(request: GetRequest, store: &mut Store, now: u64) -> (reply: Vec<u8>)
    ensures
        final(store)@ == after_read(old(store)@, request@, now),
        reply@ == get_reply(request@, live_entry(old(store)@, request@, now)),
{
    match store.get_if_live(request.key.as_slice(), now) {
        Some(entry) => encode_value(request.key.as_slice(), &entry),
        None => encode_end(),
    }
}

/// Answers a command that is neither `get` nor `set`, as a miss is
/// answered.
pub fn handle_unknown_request() -> (reply: Vec<u8>)
    ensures
        reply@ == END@,
{
    encode_end()
}

/// Carries out `request` at the time `now` and hands back the bytes to
/// send.
pub fn handle_request(request: Request, store: &mut Store, now: u64) -> (reply: Vec<u8>)
    ensures
        final(store)@ == table_after(old(store)@, request@, now),
        reply@ == reply_to(old(store)@, request@, now),
{
    match request {
        Request::Get(get) => handle_get_request(get, store, now),
        Request::Put(set) => handle_set_request(set, store),
        Request::Unknown => handle_unknown_request(),
    }
}

} // verus!
