use memcachr::text::byte_is_space;
use memcachr::text::bytes_eq;
use memcachr::text::line_is_terminated;
use memcachr::text::push_bytes;
use memcachr::text::split_tokens;
use memcachr::text::strip_terminator;

fn words(list: &[&str]) -> Vec<Vec<u8>> {
    list.iter().map(|w| w.as_bytes().to_vec()).collect()
}

#[test]
fn separators_are_the_six_ascii_blanks() {
    for b in 0u8..=255 {
        let expected = b == b' ' || b == b'\t' || b == b'\n' || b == 0x0b || b == 0x0c || b == b'\r';
        assert_eq!(byte_is_space(b), expected, "byte {b}");
    }
}

#[test]
fn bytes_eq_compares_contents() {
    assert!(bytes_eq(b"", b""));
    assert!(bytes_eq(b"abc", b"abc"));
    assert!(!bytes_eq(b"abc", b"abd"));
    assert!(!bytes_eq(b"abc", b"ab"));
    assert!(!bytes_eq(b"", b"a"));
}

#[test]
fn split_tokens_of_a_command_line() {
    assert_eq!(split_tokens(b"set k 1 2 3 noreply\r\n"), words(&["set", "k", "1", "2", "3", "noreply"]));
}

#[test]
fn split_tokens_of_nothing_is_empty() {
    assert_eq!(split_tokens(b""), words(&[]));
    assert_eq!(split_tokens(b" \t\r\n"), words(&[]));
}

#[test]
fn split_tokens_skips_runs_of_separators() {
    assert_eq!(split_tokens(b"  get\t\tkey \x0b\x0c x"), words(&["get", "key", "x"]));
}

#[test]
fn split_tokens_keeps_a_token_that_ends_the_line() {
    assert_eq!(split_tokens(b"get key"), words(&["get", "key"]));
    assert_eq!(split_tokens(b"a"), words(&["a"]));
}

#[test]
fn split_tokens_keeps_bytes_that_are_no_text() {
    assert_eq!(split_tokens(&[0xff, 0x00, b' ', 0xc2, 0xa0]), vec![vec![0xff, 0x00], vec![0xc2, 0xa0]]);
}

#[test]
fn a_line_is_terminated_by_a_line_feed() {
    assert!(line_is_terminated(b"\n"));
    assert!(line_is_terminated(b"get k\r\n"));
    assert!(line_is_terminated(b"get k\n"));
    assert!(!line_is_terminated(b""));
    assert!(!line_is_terminated(b"get k"));
    assert!(!line_is_terminated(b"get k\r"));
}

#[test]
fn strip_terminator_removes_one_terminator() {
    assert_eq!(strip_terminator(b"hello\r\n"), b"hello".to_vec());
    assert_eq!(strip_terminator(b"hello\n"), b"hello".to_vec());
    assert_eq!(strip_terminator(b"hello"), b"hello".to_vec());
    assert_eq!(strip_terminator(b"hello\r"), b"hello\r".to_vec());
    assert_eq!(strip_terminator(b"\r\n"), b"".to_vec());
    assert_eq!(strip_terminator(b"\n"), b"".to_vec());
    assert_eq!(strip_terminator(b""), b"".to_vec());
}

#[test]
fn strip_terminator_keeps_every_other_byte() {
    assert_eq!(strip_terminator(b"  a b \r\r\n"), b"  a b \r".to_vec());
    assert_eq!(strip_terminator(b"a\nb\n\n"), b"a\nb\n".to_vec());
}

#[test]
fn push_bytes_appends() {
    let mut out = b"ab".to_vec();
    push_bytes(&mut out, b"cd");
    push_bytes(&mut out, b"");
    assert_eq!(out, b"abcd".to_vec());
}
