//! What holds of every run of the protocol, stated over the lines that
//! arrive on a connection and over the requests that reach the table.

use crate::connection::outcome;
use crate::connection::parsed;
use crate::connection::ConnectionView;
use crate::connection::EventView;
use crate::connection::Outcome;
use crate::handler::reply_to;
use crate::handler::table_after;
use crate::number::decimal;
use crate::number::is_digit;
use crate::number::lemma_decimal_reads_back;
use crate::reply::set_reply;
use crate::reply::value_reply;
use crate::reply::CRLF;
use crate::reply::END;
use crate::reply::ERROR;
use crate::request::command_of;
use crate::request::entry_of;
use crate::request::CommandView;
use crate::request::ParseError;
use crate::request::RequestView;
use crate::request::SetHeaderView;
use crate::request::SetRequestView;
use crate::request::GET;
use crate::request::NOREPLY;
use crate::request::SET;
use crate::store::is_live;
use crate::store::EntryView;
use crate::text::is_blank;
use crate::text::is_space;
use crate::text::is_terminated;
use crate::text::is_word;
use crate::text::joined;
use crate::text::lemma_tokens_of_joined;
use crate::text::line_body;
use crate::text::tokens;
use vstd::prelude::*;

verus! {

/// The command line of a `set` command as a client writes it: the verb, the
/// key and the three numbers in decimal, then the word `noreply` where no
/// reply is wanted, one space between each two, and the terminator.
pub open spec fn set_line(header: SetHeaderView) -> Seq<u8> {
    let fields = seq![
        SET@,
        header.key,
        decimal(header.flags as nat),
        decimal(header.ttl as nat),
        decimal(header.byte_len as nat),
    ];
    let words = if header.noreply {
        fields.push(NOREPLY@)
    } else {
        fields
    };
    joined(words) + CRLF@
}

/// The command line of a `get` command as a client writes it.
pub open spec fn get_line(key: Seq<u8>) -> Seq<u8> {
    joined(seq![GET@, key]) + CRLF@
}

/// The line on which a client sends `data`.
pub open spec fn data_line(data: Seq<u8>) -> Seq<u8> {
    data + CRLF@
}

/// The key that a request names, if it names one.
pub open spec fn key_of(request: RequestView) -> Option<Seq<u8>> {
    match request {
        RequestView::Get(key) => Some(key),
        RequestView::Put(set) => Some(set.key),
        RequestView::Unknown => None,
    }
}

/// Whether a request stores an entry under `key`.
pub open spec fn stores_under(request: RequestView, key: Seq<u8>) -> bool {
    request matches RequestView::Put(set) && set.key == key
}

/// The table after each of `requests` was carried out in turn, each at the
/// time that stands beside it.
pub open spec fn table_after_all(
    m: Map<Seq<u8>, EntryView>,
    requests: Seq<(RequestView, u64)>,
) -> Map<Seq<u8>, EntryView>
    decreases requests.len(),
{
    if requests.len() == 0 {
        m
    } else {
        table_after(
            table_after_all(m, requests.drop_last()),
            requests.last().0,
            requests.last().1,
        )
    }
}

/// What a connection that awaits a command does when a `set` command for
/// `header`, at the time `t_set`, its data, at the time `t_data`, and a
/// `get` command for the same key, at the time `t_get`, arrive on it in
/// turn.
pub open spec fn set_then_get(
    m: Map<Seq<u8>, EntryView>,
    header: SetHeaderView,
    data: Seq<u8>,
    t_set: u64,
    t_data: u64,
    t_get: u64,
) -> (Outcome, Outcome, Outcome) {
    let first = outcome(
        ConnectionView::AwaitingCommand,
        m,
        EventView::Line(set_line(header)),
        t_set,
    );
    let second = outcome(first.connection, first.table, EventView::Line(data_line(data)), t_data);
    let third = outcome(
        second.connection,
        second.table,
        EventView::Line(get_line(header.key)),
        t_get,
    );
    (first, second, third)
}

/// The entry that a `set` command for `header` with `data` stores when its
/// command line arrives at the time `t_set`.
pub open spec fn stored_entry(header: SetHeaderView, data: Seq<u8>, t_set: u64) -> EntryView {
    EntryView {
        flags: header.flags,
        ttl_seconds: header.ttl,
        byte_len: header.byte_len,
        data,
        stored_at: t_set,
    }
}

/// A decimal number can stand as a token.
pub proof fn lemma_decimal_is_word(n: nat)
    ensures
        is_word(decimal(n)),
{
    lemma_decimal_reads_back(n);
    let d = decimal(n);
    assert forall|i: int| 0 <= i < d.len() implies !is_space(#[trigger] d[i]) by {
        assert(is_digit(d[i]));
    }
}

/// A `set` command line that a client wrote for a key without separators
/// parses to the header that it was written for.
pub proof fn lemma_set_line_parses(header: SetHeaderView)
    requires
        is_word(header.key),
    ensures
        is_terminated(set_line(header)),
        command_of(set_line(header)) == Ok::<CommandView, ParseError>(
            CommandView::Put(header),
        ),
{
    let fields = seq![
        SET@,
        header.key,
        decimal(header.flags as nat),
        decimal(header.ttl as nat),
        decimal(header.byte_len as nat),
    ];
    let words = if header.noreply {
        fields.push(NOREPLY@)
    } else {
        fields
    };
    lemma_decimal_is_word(header.flags as nat);
    lemma_decimal_is_word(header.ttl as nat);
    lemma_decimal_is_word(header.byte_len as nat);
    lemma_decimal_reads_back(header.flags as nat);
    lemma_decimal_reads_back(header.ttl as nat);
    lemma_decimal_reads_back(header.byte_len as nat);
    assert(is_word(SET@));
    assert(is_word(NOREPLY@));
    assert(is_blank(CRLF@));
    assert forall|i: int| 0 <= i < words.len() implies is_word(#[trigger] words[i]) by {}
    lemma_tokens_of_joined(words, CRLF@);
    let line = set_line(header);
    assert(line.last() == CRLF@[1]);
    let t = tokens(line);
    assert(t == words);
    assert(t[0] == SET@);
    assert(SET@ != GET@) by {
        assert(SET@[0] != GET@[0]);
    }
    assert(t[2] == decimal(header.flags as nat));
    assert(t[3] == decimal(header.ttl as nat));
    assert(t[4] == decimal(header.byte_len as nat));
    assert(header.flags as nat <= u32::MAX as nat);
    assert(header.ttl as nat <= u64::MAX as nat);
    assert(header.byte_len as nat <= u32::MAX as nat);
    if header.noreply {
        assert(t[5] == NOREPLY@);
    }
}

/// A `get` command line that a client wrote for a key without separators
/// parses to a request for that key.
pub proof fn lemma_get_line_parses(key: Seq<u8>)
    requires
        is_word(key),
    ensures
        is_terminated(get_line(key)),
        command_of(get_line(key)) == Ok::<CommandView, ParseError>(
            CommandView::Get(key),
        ),
{
    let words = seq![GET@, key];
    assert(is_word(GET@));
    assert(is_blank(CRLF@));
    assert forall|i: int| 0 <= i < words.len() implies is_word(#[trigger] words[i]) by {}
    lemma_tokens_of_joined(words, CRLF@);
    let line = get_line(key);
    assert(line.last() == CRLF@[1]);
    assert(tokens(line)[0] == GET@);
}

/// The data that a client sent on a line of their own arrive as they were
/// sent, byte for byte.
pub proof fn lemma_data_line_body(data: Seq<u8>)
    ensures
        is_terminated(data_line(data)),
        line_body(data_line(data)) == data,
{
    let line = data_line(data);
    assert(line.last() == CRLF@[1]);
    assert(line[line.len() - 2] == CRLF@[0]);
    assert(line.subrange(0, line.len() - 2) == data);
}

/// Whether a `set` command for `header` with `data` and a `get` command for
/// the same key, arriving in turn on a connection that awaits a command,
/// store the entry and hand it back: the command line of the `set` is
/// answered by nothing and changes nothing; its data are answered by the
/// line `STORED`, or by nothing where no reply was asked for, and the entry
/// is stored either way; the `get` is answered by the flags, the declared
/// length and the data of the entry, and leaves the table as it is. The
/// connection stays open and awaits a command again.
pub open spec fn round_trip(
    m: Map<Seq<u8>, EntryView>,
    header: SetHeaderView,
    data: Seq<u8>,
    t_set: u64,
    t_data: u64,
    t_get: u64,
) -> bool {
    let (first, second, third) = set_then_get(m, header, data, t_set, t_data, t_get);
    let entry = stored_entry(header, data, t_set);
    &&& first.reply == Seq::<u8>::empty()
    &&& first.table == m
    &&& !first.close
    &&& second.reply == set_reply(header.noreply)
    &&& second.table == m.insert(header.key, entry)
    &&& second.connection == ConnectionView::AwaitingCommand
    &&& !second.close
    &&& third.reply == value_reply(header.key, entry)
    &&& third.table == second.table
    &&& third.connection == ConnectionView::AwaitingCommand
    &&& !third.close
}

/// What was set is what `get` returns. A `set` command followed by a `get`
/// command for the same key, read while the entry is live, hands back the
/// flags, the declared length and the data that were set, whatever the
/// table held before and whatever the data are.
pub proof fn lemma_set_then_get_returns_value(
    m: Map<Seq<u8>, EntryView>,
    header: SetHeaderView,
    data: Seq<u8>,
    t_set: u64,
    t_data: u64,
    t_get: u64,
)
    requires
        is_word(header.key),
        header.ttl == 0 || t_set + header.ttl >= t_get,
    ensures
        round_trip(m, header, data, t_set, t_data, t_get),
{
    lemma_set_line_parses(header);
    lemma_data_line_body(data);
    lemma_get_line_parses(header.key);
}

/// An entry that was set to never expire is handed back by a `get` at
/// every time.
pub proof fn lemma_unexpiring_set_is_read_at_any_time(
    m: Map<Seq<u8>, EntryView>,
    header: SetHeaderView,
    data: Seq<u8>,
    t_set: u64,
    t_data: u64,
)
    requires
        is_word(header.key),
        header.ttl == 0,
    ensures
        forall|t_get: u64| #[trigger] round_trip(m, header, data, t_set, t_data, t_get),
{
    assert forall|t_get: u64| #[trigger] round_trip(m, header, data, t_set, t_data, t_get) by {
        lemma_set_then_get_returns_value(m, header, data, t_set, t_data, t_get);
    }
}

/// A `set` command that asks for no reply is answered by no byte at all,
/// neither for its command line nor for its data, and still stores its
/// entry: a `get` that follows, on this connection or on one that was just
/// accepted, hands the entry back.
pub proof fn lemma_noreply_stores_in_silence(
    m: Map<Seq<u8>, EntryView>,
    header: SetHeaderView,
    data: Seq<u8>,
    t_set: u64,
    t_data: u64,
    t_get: u64,
)
    requires
        is_word(header.key),
        header.noreply,
        header.ttl == 0 || t_set + header.ttl >= t_get,
    ensures
        ({
            let (first, second, third) = set_then_get(m, header, data, t_set, t_data, t_get);
            let entry = stored_entry(header, data, t_set);
            let elsewhere = outcome(
                ConnectionView::AwaitingCommand,
                second.table,
                EventView::Line(get_line(header.key)),
                t_get,
            );
            &&& first.reply.len() == 0
            &&& second.reply.len() == 0
            &&& second.table.dom().contains(header.key)
            &&& second.table[header.key] == entry
            &&& third.reply == value_reply(header.key, entry)
            &&& elsewhere.reply == value_reply(header.key, entry)
        }),
{
    lemma_set_then_get_returns_value(m, header, data, t_set, t_data, t_get);
}

/// A `get` command that arrives after the life of the entry has passed is
/// answered by the line `END` and removes the entry, so that
/// every later `get` for the key, at whatever time, is answered by `END`
/// too.
pub proof fn lemma_expired_entry_is_removed(
    m: Map<Seq<u8>, EntryView>,
    header: SetHeaderView,
    data: Seq<u8>,
    t_set: u64,
    t_data: u64,
    t_get: u64,
    t_later: u64,
)
    requires
        is_word(header.key),
        header.ttl != 0,
        t_set + header.ttl < t_get,
    ensures
        ({
            let (first, second, third) = set_then_get(m, header, data, t_set, t_data, t_get);
            let fourth = outcome(
                third.connection,
                third.table,
                EventView::Line(get_line(header.key)),
                t_later,
            );
            &&& third.reply == END@
            &&& !third.close
            &&& !third.table.dom().contains(header.key)
            &&& third.table == m.remove(header.key)
            &&& fourth.reply == END@
            &&& fourth.table == third.table
        }),
{
    lemma_set_line_parses(header);
    lemma_data_line_body(data);
    lemma_get_line_parses(header.key);
    let entry = stored_entry(header, data, t_set);
    assert(m.insert(header.key, entry).remove(header.key) == m.remove(header.key));
}

/// Of two `set` requests for one key the first leaves no trace:
/// the table is as if the second alone had been carried out, and a `get`
/// for the key is answered from the second.
pub proof fn lemma_second_set_wins(
    m: Map<Seq<u8>, EntryView>,
    first: SetRequestView,
    second: SetRequestView,
    t_first: u64,
    t_second: u64,
    t_get: u64,
)
    requires
        first.key == second.key,
    ensures
        ({
            let once = table_after(m, RequestView::Put(second), t_second);
            let twice = table_after(
                table_after(m, RequestView::Put(first), t_first),
                RequestView::Put(second),
                t_second,
            );
            &&& twice == once
            &&& twice[second.key] == entry_of(second)
            &&& is_live(entry_of(second), t_get) ==> reply_to(
                twice,
                RequestView::Get(second.key),
                t_get,
            ) == value_reply(second.key, entry_of(second))
            &&& !is_live(entry_of(second), t_get) ==> reply_to(
                twice,
                RequestView::Get(second.key),
                t_get,
            ) == END@
        }),
{
    assert(m.insert(first.key, entry_of(first)).insert(second.key, entry_of(second)) == m.insert(
        second.key,
        entry_of(second),
    ));
}

/// Requests that store nothing under `key` put no entry there.
pub proof fn lemma_unset_key_stays_absent(
    m: Map<Seq<u8>, EntryView>,
    requests: Seq<(RequestView, u64)>,
    key: Seq<u8>,
)
    requires
        !m.dom().contains(key),
        forall|i: int| 0 <= i < requests.len() ==> !stores_under(#[trigger] requests[i].0, key),
    ensures
        !table_after_all(m, requests).dom().contains(key),
    decreases requests.len(),
{
    if requests.len() > 0 {
        let earlier = requests.drop_last();
        assert forall|i: int| 0 <= i < earlier.len() implies !stores_under(
            #[trigger] earlier[i].0,
            key,
        ) by {
            assert(earlier[i] == requests[i]);
        }
        lemma_unset_key_stays_absent(m, earlier, key);
        assert(!stores_under(requests[requests.len() - 1].0, key));
    }
}

/// A `get` for a key that was never set, whatever else was asked of a table
/// that began empty, is answered by exactly the line `END`, and changes
/// nothing.
pub proof fn lemma_get_of_unset_key_misses(
    requests: Seq<(RequestView, u64)>,
    key: Seq<u8>,
    now: u64,
)
    requires
        forall|i: int| 0 <= i < requests.len() ==> !stores_under(#[trigger] requests[i].0, key),
    ensures
        ({
            let m = table_after_all(Map::empty(), requests);
            &&& reply_to(m, RequestView::Get(key), now) == END@
            &&& table_after(m, RequestView::Get(key), now) == m
        }),
{
    lemma_unset_key_stays_absent(Map::empty(), requests, key);
}

/// An entry that never expires stays as it is for as long as nothing else
/// is stored under its key, whatever is read and at whatever time.
pub proof fn lemma_unexpiring_entry_stays(
    m: Map<Seq<u8>, EntryView>,
    requests: Seq<(RequestView, u64)>,
    key: Seq<u8>,
)
    requires
        m.dom().contains(key),
        m[key].ttl_seconds == 0,
        forall|i: int| 0 <= i < requests.len() ==> !stores_under(#[trigger] requests[i].0, key),
    ensures
        table_after_all(m, requests).dom().contains(key),
        table_after_all(m, requests)[key] == m[key],
    decreases requests.len(),
{
    if requests.len() > 0 {
        let earlier = requests.drop_last();
        assert forall|i: int| 0 <= i < earlier.len() implies !stores_under(
            #[trigger] earlier[i].0,
            key,
        ) by {
            assert(earlier[i] == requests[i]);
        }
        lemma_unexpiring_entry_stays(m, earlier, key);
        assert(!stores_under(requests[requests.len() - 1].0, key));
    }
}

/// An entry that never expires can be read at every time, after whatever
/// requests that store nothing else under its key.
pub proof fn lemma_unexpiring_entry_is_always_read(
    m: Map<Seq<u8>, EntryView>,
    requests: Seq<(RequestView, u64)>,
    key: Seq<u8>,
    now: u64,
)
    requires
        m.dom().contains(key),
        m[key].ttl_seconds == 0,
        forall|i: int| 0 <= i < requests.len() ==> !stores_under(#[trigger] requests[i].0, key),
    ensures
        reply_to(table_after_all(m, requests), RequestView::Get(key), now) == value_reply(
            key,
            m[key],
        ),
{
    lemma_unexpiring_entry_stays(m, requests, key);
}

/// Requests that name other keys change nothing under `key`, in whatever
/// order they reach the table.
pub proof fn lemma_other_keys_leave_entry(
    m: Map<Seq<u8>, EntryView>,
    requests: Seq<(RequestView, u64)>,
    key: Seq<u8>,
)
    requires
        forall|i: int| 0 <= i < requests.len() ==> key_of(#[trigger] requests[i].0) != Some(key),
    ensures
        table_after_all(m, requests).dom().contains(key) == m.dom().contains(key),
        m.dom().contains(key) ==> table_after_all(m, requests)[key] == m[key],
    decreases requests.len(),
{
    if requests.len() > 0 {
        let earlier = requests.drop_last();
        assert forall|i: int| 0 <= i < earlier.len() implies key_of(#[trigger] earlier[i].0)
            != Some(key) by {
            assert(earlier[i] == requests[i]);
        }
        lemma_other_keys_leave_entry(m, earlier, key);
        assert(key_of(requests[requests.len() - 1].0) != Some(key));
    }
}

/// What one connection has set under its key, it reads back while the
/// entry is live, whatever requests for other keys reached the table in
/// between, and in whatever order.
pub proof fn lemma_own_value_is_read_back(
    m: Map<Seq<u8>, EntryView>,
    set: SetRequestView,
    t_set: u64,
    requests: Seq<(RequestView, u64)>,
    t_get: u64,
)
    requires
        forall|i: int|
            0 <= i < requests.len() ==> key_of(#[trigger] requests[i].0) != Some(set.key),
        is_live(entry_of(set), t_get),
    ensures
        reply_to(
            table_after_all(table_after(m, RequestView::Put(set), t_set), requests),
            RequestView::Get(set.key),
            t_get,
        ) == value_reply(set.key, entry_of(set)),
{
    lemma_other_keys_leave_entry(table_after(m, RequestView::Put(set), t_set), requests, set.key);
}

/// A line whose first token is neither verb is answered by the line `END`;
/// the connection stays open and awaits the next command, and the table
/// stays as it is.
pub proof fn lemma_unknown_verb_is_a_miss(m: Map<Seq<u8>, EntryView>, line: Seq<u8>, now: u64)
    requires
        is_terminated(line),
        tokens(line).len() > 0,
        tokens(line)[0] != GET@,
        tokens(line)[0] != SET@,
    ensures
        outcome(ConnectionView::AwaitingCommand, m, EventView::Line(line), now) == (Outcome {
            connection: ConnectionView::AwaitingCommand,
            table: m,
            reply: END@,
            close: false,
        }),
{
}

/// A `set` command line that ends before its third number is answered by
/// the line `ERROR` and closes the connection. The table stays as it is,
/// and a connection that is accepted after it sets and gets on that table
/// as on any other.
pub proof fn lemma_short_set_closes_connection(
    m: Map<Seq<u8>, EntryView>,
    line: Seq<u8>,
    now: u64,
    header: SetHeaderView,
    data: Seq<u8>,
    t_set: u64,
    t_data: u64,
    t_get: u64,
)
    requires
        is_terminated(line),
        2 <= tokens(line).len() < 5,
        tokens(line)[0] == SET@,
        is_word(header.key),
        header.ttl == 0 || t_set + header.ttl >= t_get,
    ensures
        ({
            let failed = outcome(ConnectionView::AwaitingCommand, m, EventView::Line(line), now);
            &&& failed == (Outcome {
                connection: ConnectionView::Closed,
                table: m,
                reply: ERROR@,
                close: true,
            })
            &&& round_trip(failed.table, header, data, t_set, t_data, t_get)
        }),
{
    assert(SET@ != GET@) by {
        assert(SET@[0] != GET@[0]);
    }
    lemma_set_then_get_returns_value(m, header, data, t_set, t_data, t_get);
}

/// Every failure closes the connection and leaves the table as it is. A
/// read that failed, a line that the stream ended in and a command line
/// that cannot be parsed are answered by the line `ERROR`.
pub proof fn lemma_failure_leaves_table(
    connection: ConnectionView,
    m: Map<Seq<u8>, EntryView>,
    event: EventView,
    now: u64,
)
    requires
        parsed(connection, event, now).result is Err,
    ensures
        ({
            let failed = outcome(connection, m, event, now);
            let error = parsed(connection, event, now).result->Err_0;
            &&& failed.connection == ConnectionView::Closed
            &&& failed.table == m
            &&& failed.close
            &&& error != ParseError::EndOfStream && error != ParseError::Closed ==> failed.reply
                == ERROR@
        }),
{
}

} // verus!
