use memcachr::connection::Action;
use memcachr::connection::Connection;
use memcachr::connection::Event;
use memcachr::request::Field;
use memcachr::request::ParseError;
use memcachr::request::Request;
use memcachr::store::Store;

fn line(text: &str) -> Event {
    Event::Line(text.as_bytes().to_vec())
}

fn send(connection: &mut Connection, store: &mut Store, text: &str, now: u64) -> Action {
    connection.step(store, line(text), now)
}

fn reply(connection: &mut Connection, store: &mut Store, text: &str, now: u64) -> String {
    let action = send(connection, store, text, now);
    assert!(!action.close, "closed on {text:?}");
    String::from_utf8(action.reply).expect("text")
}

#[test]
fn set_then_get_returns_the_value() {
    let mut store = Store::new();
    let mut connection = Connection::new();
    assert_eq!(reply(&mut connection, &mut store, "set greeting 7 0 5\r\n", 100), "");
    assert_eq!(reply(&mut connection, &mut store, "hello\r\n", 100), "STORED\r\n");
    assert_eq!(reply(&mut connection, &mut store, "get greeting\r\n", 5000), "VALUE greeting 7 5\r\nhello\r\nEND\r\n");
}

#[test]
fn lines_may_end_with_a_line_feed_alone() {
    let mut store = Store::new();
    let mut connection = Connection::new();
    assert_eq!(reply(&mut connection, &mut store, "set k 1 0 2\n", 1), "");
    assert_eq!(reply(&mut connection, &mut store, "hi\n", 1), "STORED\r\n");
    assert_eq!(reply(&mut connection, &mut store, "get k\n", 1), "VALUE k 1 2\r\nhi\r\nEND\r\n");
}

#[test]
fn data_are_kept_as_they_were_sent() {
    let mut store = Store::new();
    let mut connection = Connection::new();
    reply(&mut connection, &mut store, "set k 0 0 9\r\n", 1);
    reply(&mut connection, &mut store, "  a  b\t \r\n", 1);
    assert_eq!(reply(&mut connection, &mut store, "get k\r\n", 1), "VALUE k 0 9\r\n  a  b\t \r\nEND\r\n");
}

#[test]
fn the_declared_length_is_not_held_against_the_data() {
    let mut store = Store::new();
    let mut connection = Connection::new();
    reply(&mut connection, &mut store, "set k 0 0 100\r\n", 1);
    assert_eq!(reply(&mut connection, &mut store, "abc\r\n", 1), "STORED\r\n");
    assert_eq!(reply(&mut connection, &mut store, "get k\r\n", 1), "VALUE k 0 100\r\nabc\r\nEND\r\n");
}

#[test]
fn data_that_look_like_a_command_are_data() {
    let mut store = Store::new();
    let mut connection = Connection::new();
    reply(&mut connection, &mut store, "set k 0 0 5\r\n", 1);
    assert_eq!(reply(&mut connection, &mut store, "get k\r\n", 1), "STORED\r\n");
    assert_eq!(reply(&mut connection, &mut store, "get k\r\n", 1), "VALUE k 0 5\r\nget k\r\nEND\r\n");
}

#[test]
fn empty_data_are_stored() {
    let mut store = Store::new();
    let mut connection = Connection::new();
    reply(&mut connection, &mut store, "set k 3 0 0\r\n", 1);
    assert_eq!(reply(&mut connection, &mut store, "\r\n", 1), "STORED\r\n");
    assert_eq!(reply(&mut connection, &mut store, "get k\r\n", 1), "VALUE k 3 0\r\n\r\nEND\r\n");
}

#[test]
fn the_second_set_is_what_get_sees() {
    let mut store = Store::new();
    let mut connection = Connection::new();
    reply(&mut connection, &mut store, "set k 1 0 5\r\n", 1);
    reply(&mut connection, &mut store, "first\r\n", 1);
    reply(&mut connection, &mut store, "set k 2 0 6\r\n", 2);
    reply(&mut connection, &mut store, "second\r\n", 2);
    assert_eq!(reply(&mut connection, &mut store, "get k\r\n", 3), "VALUE k 2 6\r\nsecond\r\nEND\r\n");
}

#[test]
fn get_of_a_key_that_was_never_set_is_a_miss() {
    let mut store = Store::new();
    let mut connection = Connection::new();
    assert_eq!(reply(&mut connection, &mut store, "get nothing\r\n", 1), "END\r\n");
    reply(&mut connection, &mut store, "set other 1 0 1\r\n", 1);
    reply(&mut connection, &mut store, "x\r\n", 1);
    assert_eq!(reply(&mut connection, &mut store, "get nothing\r\n", 1), "END\r\n");
}

#[test]
fn an_entry_expires_after_its_lifetime() {
    let mut store = Store::new();
    let mut connection = Connection::new();
    reply(&mut connection, &mut store, "set k 5 1 3\r\n", 1000);
    reply(&mut connection, &mut store, "abc\r\n", 1000);
    assert_eq!(reply(&mut connection, &mut store, "get k\r\n", 1001), "VALUE k 5 3\r\nabc\r\nEND\r\n");
    assert!(store.contains_key(b"k"));
    assert_eq!(reply(&mut connection, &mut store, "get k\r\n", 1002), "END\r\n");
    assert!(!store.contains_key(b"k"));
    assert_eq!(reply(&mut connection, &mut store, "get k\r\n", 1002), "END\r\n");
    assert_eq!(reply(&mut connection, &mut store, "get k\r\n", 1000), "END\r\n");
}

#[test]
fn the_lifetime_counts_from_the_command_line() {
    let mut store = Store::new();
    let mut connection = Connection::new();
    reply(&mut connection, &mut store, "set k 0 10 1\r\n", 100);
    reply(&mut connection, &mut store, "x\r\n", 500);
    assert_eq!(reply(&mut connection, &mut store, "get k\r\n", 110), "VALUE k 0 1\r\nx\r\nEND\r\n");
    assert_eq!(reply(&mut connection, &mut store, "get k\r\n", 111), "END\r\n");
}

#[test]
fn an_entry_without_a_lifetime_is_always_there() {
    let mut store = Store::new();
    let mut connection = Connection::new();
    reply(&mut connection, &mut store, "set k 0 0 1\r\n", 1000);
    reply(&mut connection, &mut store, "x\r\n", 1000);
    for now in [0, 1000, 1001, 1 << 40, u64::MAX] {
        assert_eq!(reply(&mut connection, &mut store, "get k\r\n", now), "VALUE k 0 1\r\nx\r\nEND\r\n");
    }
}

#[test]
fn noreply_sends_nothing_and_stores() {
    let mut store = Store::new();
    let mut connection = Connection::new();
    assert_eq!(reply(&mut connection, &mut store, "set k 9 0 4 noreply\r\n", 1), "");
    assert_eq!(reply(&mut connection, &mut store, "data\r\n", 1), "");
    assert_eq!(reply(&mut connection, &mut store, "get k\r\n", 1), "VALUE k 9 4\r\ndata\r\nEND\r\n");
    let mut another = Connection::new();
    assert_eq!(reply(&mut another, &mut store, "get k\r\n", 1), "VALUE k 9 4\r\ndata\r\nEND\r\n");
}

#[test]
fn connections_see_their_own_values_in_any_order() {
    let mut store = Store::new();
    let count = 8;
    let mut connections: Vec<Connection> = (0..count).map(|_| Connection::new()).collect();
    for i in 0..count {
        assert_eq!(reply(&mut connections[i], &mut store, &format!("set key{i} {i} 0 6\r\n"), 1), "");
    }
    for i in (0..count).rev() {
        assert_eq!(reply(&mut connections[i], &mut store, &format!("value{i}\r\n"), 1), "STORED\r\n");
    }
    for round in 0..3 {
        for i in 0..count {
            let j = (i * 3 + round) % count;
            assert_eq!(
                reply(&mut connections[j], &mut store, &format!("get key{j}\r\n"), 2),
                format!("VALUE key{j} {j} 6\r\nvalue{j}\r\nEND\r\n")
            );
        }
    }
}

#[test]
fn an_unknown_command_is_a_miss_and_the_connection_goes_on() {
    let mut store = Store::new();
    let mut connection = Connection::new();
    assert_eq!(reply(&mut connection, &mut store, "delete k\r\n", 1), "END\r\n");
    assert_eq!(reply(&mut connection, &mut store, "flush_all\r\n", 1), "END\r\n");
    assert_eq!(reply(&mut connection, &mut store, "get\r\n", 1), "END\r\n");
    assert!(!connection.is_closed());
    reply(&mut connection, &mut store, "set k 0 0 1\r\n", 1);
    reply(&mut connection, &mut store, "x\r\n", 1);
    assert_eq!(reply(&mut connection, &mut store, "get k\r\n", 1), "VALUE k 0 1\r\nx\r\nEND\r\n");
}

#[test]
fn a_malformed_set_closes_its_connection_only() {
    let mut store = Store::new();
    let mut good = Connection::new();
    reply(&mut good, &mut store, "set kept 1 0 4\r\n", 1);
    reply(&mut good, &mut store, "data\r\n", 1);

    let mut bad = Connection::new();
    let action = send(&mut bad, &mut store, "set k 1 0\r\n", 1);
    assert_eq!(action.reply, b"ERROR\r\n".to_vec());
    assert!(action.close);
    assert!(bad.is_closed());
    assert!(!store.contains_key(b"k"));

    let mut fresh = Connection::new();
    assert_eq!(reply(&mut fresh, &mut store, "get kept\r\n", 1), "VALUE kept 1 4\r\ndata\r\nEND\r\n");
    assert_eq!(reply(&mut fresh, &mut store, "set k 2 0 3\r\n", 1), "");
    assert_eq!(reply(&mut fresh, &mut store, "new\r\n", 1), "STORED\r\n");
    assert_eq!(reply(&mut fresh, &mut store, "get k\r\n", 1), "VALUE k 2 3\r\nnew\r\nEND\r\n");
    assert_eq!(reply(&mut good, &mut store, "get k\r\n", 1), "VALUE k 2 3\r\nnew\r\nEND\r\n");
}

#[test]
fn a_set_with_a_field_that_is_no_number_closes_the_connection() {
    let mut store = Store::new();
    let mut connection = Connection::new();
    let action = send(&mut connection, &mut store, "set k one 0 3\r\n", 1);
    assert_eq!(action.reply, b"ERROR\r\n".to_vec());
    assert!(action.close);
    assert!(connection.is_closed());
}

#[test]
fn a_failed_read_closes_the_connection() {
    let mut store = Store::new();
    let mut connection = Connection::new();
    let action = connection.step(&mut store, Event::ReadFailed, 1);
    assert_eq!(action.reply, b"ERROR\r\n".to_vec());
    assert!(action.close);
    assert!(connection.is_closed());
}

#[test]
fn the_end_of_the_stream_closes_the_connection() {
    let mut store = Store::new();
    let mut connection = Connection::new();
    let action = send(&mut connection, &mut store, "", 1);
    assert_eq!(action.reply, Vec::<u8>::new());
    assert!(action.close);
    assert!(connection.is_closed());
}

#[test]
fn a_stream_that_ends_in_a_command_line_fails() {
    let mut store = Store::new();
    let mut connection = Connection::new();
    let action = send(&mut connection, &mut store, "get k", 1);
    assert_eq!(action.reply, b"ERROR\r\n".to_vec());
    assert!(action.close);
    assert!(connection.is_closed());
}

#[test]
fn a_stream_that_ends_in_the_data_stores_nothing() {
    let mut store = Store::new();
    let mut connection = Connection::new();
    reply(&mut connection, &mut store, "set k 0 0 5\r\n", 1);
    let action = send(&mut connection, &mut store, "hel", 1);
    assert_eq!(action.reply, b"ERROR\r\n".to_vec());
    assert!(action.close);
    assert!(!store.contains_key(b"k"));

    let mut ended = Connection::new();
    reply(&mut ended, &mut store, "set k 0 0 5\r\n", 1);
    let cut = send(&mut ended, &mut store, "", 1);
    assert_eq!(cut.reply, b"ERROR\r\n".to_vec());
    assert!(cut.close);
    assert!(!store.contains_key(b"k"));

    let mut other = Connection::new();
    reply(&mut other, &mut store, "set k 0 0 5\r\n", 1);
    let failed = other.step(&mut store, Event::ReadFailed, 1);
    assert_eq!(failed.reply, b"ERROR\r\n".to_vec());
    assert!(failed.close);
    assert!(!store.contains_key(b"k"));
}

#[test]
fn a_closed_connection_takes_nothing_more() {
    let mut store = Store::new();
    let mut connection = Connection::new();
    send(&mut connection, &mut store, "\r\n", 1);
    assert!(connection.is_closed());
    let action = send(&mut connection, &mut store, "set k 0 0 1\r\n", 1);
    assert_eq!(action.reply, Vec::<u8>::new());
    assert!(action.close);
    let again = send(&mut connection, &mut store, "x\r\n", 1);
    assert_eq!(again.reply, Vec::<u8>::new());
    assert!(again.close);
    assert!(!store.contains_key(b"k"));
    assert!(connection.is_closed());
}

#[test]
fn parse_request_hands_out_whole_requests() {
    let mut connection = Connection::new();
    match connection.parse_request(line("get k\r\n"), 5) {
        Ok(Some(Request::Get(get))) => assert_eq!(get.key, b"k".to_vec()),
        other => panic!("{other:?}"),
    }
    assert!(matches!(connection.parse_request(line("set k 1 2 3\r\n"), 6), Ok(None)));
    assert!(matches!(connection, Connection::AwaitingData { request_time: 6, .. }));
    match connection.parse_request(line("payload\r\n"), 9) {
        Ok(Some(Request::Put(set))) => {
            assert_eq!(set.key, b"k".to_vec());
            assert_eq!(set.flags, 1);
            assert_eq!(set.ttl, 2);
            assert_eq!(set.byte_len, 3);
            assert!(!set.noreply);
            assert_eq!(set.data, b"payload".to_vec());
            assert_eq!(set.request_time, 6);
        }
        other => panic!("{other:?}"),
    }
    assert!(matches!(connection, Connection::AwaitingCommand));
    assert!(matches!(connection.parse_request(line("noop\r\n"), 9), Ok(Some(Request::Unknown))));
}

#[test]
fn parse_request_names_each_failure() {
    let failures = [
        (line(""), ParseError::EndOfStream),
        (line("get k"), ParseError::Unterminated),
        (line(" \r\n"), ParseError::NoCommand),
        (line("set k\r\n"), ParseError::MissingField(Field::Flags)),
        (line("set k 1 2 z\r\n"), ParseError::InvalidNumber(Field::ByteLen)),
        (Event::ReadFailed, ParseError::ReadFailed),
    ];
    for (event, expected) in failures {
        let mut connection = Connection::new();
        assert_eq!(connection.parse_request(event, 1).err(), Some(expected));
        assert!(connection.is_closed());
        assert_eq!(connection.parse_request(line("get k\r\n"), 1).err(), Some(ParseError::Closed));
    }
}
