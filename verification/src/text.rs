//! Bytes of the wire protocol: separators, tokens and line terminators.

use vstd::prelude::*;
use vstd::slice::slice_subrange;
use vstd::slice::slice_to_vec;

verus! {

/// The space that separates the fields of a line.
pub const SP: u8 = 32;

/// Carriage return, the first byte of the terminator that replies end with.
pub const CR: u8 = 13;

/// Line feed, the byte that ends every line.
pub const LF: u8 = 10;

/// A byte that separates tokens: space, tab, line feed, vertical tab, form
/// feed or carriage return.
pub open spec fn is_space(b: u8) -> bool {
    b == 32 || (9 <= b && b <= 13)
}

/// The first index at or after `i` that holds no separator, or the length
/// of `s` where only separators follow.
pub open spec fn skip_spaces(s: Seq<u8>, i: int) -> int
    decreases s.len() - i,
{
    if 0 <= i < s.len() && is_space(s[i]) {
        skip_spaces(s, i + 1)
    } else {
        i
    }
}

/// The first index at or after `i` that holds a separator, or the length of
/// `s` where none follows.
pub open spec fn skip_word(s: Seq<u8>, i: int) -> int
    decreases s.len() - i,
{
    if 0 <= i < s.len() && !is_space(s[i]) {
        skip_word(s, i + 1)
    } else {
        i
    }
}

/// The tokens of `s` that begin at or after index `i`, in order.
pub open spec fn tokens_from(s: Seq<u8>, i: int) -> Seq<Seq<u8>>
    decreases s.len() - i,
{
    let start = skip_spaces(s, i);
    let end = skip_word(s, start);
    if i <= start && start < end && end <= s.len() {
        seq![s.subrange(start, end)] + tokens_from(s, end)
    } else {
        Seq::empty()
    }
}

/// The maximal runs of bytes of `s` that hold no separator, in order.
pub open spec fn tokens(s: Seq<u8>) -> Seq<Seq<u8>> {
    tokens_from(s, 0)
}

/// The contents of a list of byte vectors.
pub open spec fn views(v: Seq<Vec<u8>>) -> Seq<Seq<u8>> {
    Seq::new(v.len(), |i: int| v[i]@)
}

/// Whether `s` ends with a line feed: a line that was read to its end.
pub open spec fn is_terminated(s: Seq<u8>) -> bool {
    s.len() > 0 && s.last() == LF
}

/// The number of bytes that the terminator at the end of `s` takes: two for
/// a carriage return and a line feed, one for a line feed alone, none where
/// `s` is not terminated.
pub open spec fn terminator_len(s: Seq<u8>) -> int {
    if !is_terminated(s) {
        0
    } else if s.len() >= 2 && s[s.len() - 2] == CR {
        2
    } else {
        1
    }
}

/// The line `s` without its terminator, every other byte kept as it is.
pub open spec fn line_body(s: Seq<u8>) -> Seq<u8> {
    s.subrange(0, s.len() - terminator_len(s))
}

/// Whether `b` separates tokens.
pub fn byte_is_space(b: u8) -> (r: bool)
    ensures
        r == is_space(b),
{
    b == SP || (9 <= b && b <= 13)
}

/// Whether two byte strings hold the same bytes.
pub fn bytes_eq(a: &[u8], b: &[u8]) -> (r: bool)
    ensures
        r == (a@ == b@),
{
    if a.len() != b.len() {
        return false;
    }
    let mut i: usize = 0;
    while i < a.len()
        invariant
            a.len() == b.len(),
            i <= a.len(),
            a@.subrange(0, i as int) == b@.subrange(0, i as int),
        decreases a.len() - i,
    {
        if a[i] != b[i] {
            return false;
        }
        assert(a@.subrange(0, i + 1) == a@.subrange(0, i as int).push(a@[i as int]));
        assert(b@.subrange(0, i + 1) == b@.subrange(0, i as int).push(b@[i as int]));
        i += 1;
    }
    assert(a@ == a@.subrange(0, i as int));
    assert(b@ == b@.subrange(0, i as int));
    true
}

/// Appends `bytes` to `out`.
pub fn push_bytes(out: &mut Vec<u8>, bytes: &[u8])
    ensures
        final(out)@ == old(out)@ + bytes@,
{
    let mut i: usize = 0;
    assert(bytes@.subrange(0, 0) == Seq::<u8>::empty());
    while i < bytes.len()
        invariant
            i <= bytes.len(),
            out@ == old(out)@ + bytes@.subrange(0, i as int),
        decreases bytes.len() - i,
    {
        assert(bytes@.subrange(0, i + 1) == bytes@.subrange(0, i as int).push(bytes@[i as int]));
        out.push(bytes[i]);
        i += 1;
    }
    assert(bytes@.subrange(0, i as int) == bytes@);
}

/// Whether the line was read to its end.
pub fn line_is_terminated(line: &[u8]) -> (r: bool)
    ensures
        r == is_terminated(line@),
{
    line.len() > 0 && line[line.len() - 1] == LF
}

/// Copies the line without its terminator.
pub fn strip_terminator(line: &[u8]) -> (body: Vec<u8>)
    ensures
        body@ == line_body(line@),
{
    let n = line.len();
    let cut: usize = if !line_is_terminated(line) {
        0
    } else if n >= 2 && line[n - 2] == CR {
        2
    } else {
        1
    };
    slice_to_vec(slice_subrange(line, 0, n - cut))
}

/// Where a run of separators that begins at `i` ends.
pub proof fn lemma_skip_spaces(s: Seq<u8>, i: int)
    requires
        0 <= i <= s.len(),
    ensures
        i <= skip_spaces(s, i) <= s.len(),
        forall|j: int| i <= j < skip_spaces(s, i) ==> is_space(#[trigger] s[j]),
        skip_spaces(s, i) < s.len() ==> !is_space(s[skip_spaces(s, i)]),
    decreases s.len() - i,
{
    if i < s.len() && is_space(s[i]) {
        lemma_skip_spaces(s, i + 1);
    }
}

/// Where a run of bytes other than separators that begins at `i` ends.
pub proof fn lemma_skip_word(s: Seq<u8>, i: int)
    requires
        0 <= i <= s.len(),
    ensures
        i <= skip_word(s, i) <= s.len(),
        forall|j: int| i <= j < skip_word(s, i) ==> !is_space(#[trigger] s[j]),
        skip_word(s, i) < s.len() ==> is_space(s[skip_word(s, i)]),
    decreases s.len() - i,
{
    if i < s.len() && !is_space(s[i]) {
        lemma_skip_word(s, i + 1);
    }
}

/// Splits a line into its tokens.
pub fn split_tokens(line: &[u8]) -> (out: Vec<Vec<u8>>)
    ensures
        views(out@) == tokens(line@),
{
    let n = line.len();
    let mut out: Vec<Vec<u8>> = Vec::new();
    let mut i: usize = 0;
    assert(views(out@) + tokens_from(line@, 0) == tokens(line@));
    loop
        invariant_except_break
            i <= n,
            views(out@) + tokens_from(line@, i as int) == tokens(line@),
        invariant
            n == line@.len(),
        ensures
            views(out@) == tokens(line@),
        decreases n - i,
    {
        let mut start: usize = i;
        while start < n && byte_is_space(line[start])
            invariant
                n == line@.len(),
                i <= start <= n,
                skip_spaces(line@, i as int) == skip_spaces(line@, start as int),
            decreases n - start,
        {
            start += 1;
        }
        let mut end: usize = start;
        while end < n && !byte_is_space(line[end])
            invariant
                n == line@.len(),
                start <= end <= n,
                skip_word(line@, start as int) == skip_word(line@, end as int),
            decreases n - end,
        {
            end += 1;
        }
        if start == end {
            assert(views(out@) + Seq::<Seq<u8>>::empty() == views(out@));
            break;
        }
        let token = slice_to_vec(slice_subrange(line, start, end));
        proof {
            let before = views(out@);
            let after = views(out@.push(token));
            assert(after == before + seq![line@.subrange(start as int, end as int)]);
            assert(before + (seq![line@.subrange(start as int, end as int)] + tokens_from(
                line@,
                end as int,
            )) == after + tokens_from(line@, end as int));
        }
        out.push(token);
        i = end;
    }
    out
}

/// Whether `w` can stand as one token: it holds a byte, and no separator.
pub open spec fn is_word(w: Seq<u8>) -> bool {
    w.len() > 0 && forall|i: int| 0 <= i < w.len() ==> !is_space(#[trigger] w[i])
}

/// Whether `s` holds separators only.
pub open spec fn is_blank(s: Seq<u8>) -> bool {
    forall|i: int| 0 <= i < s.len() ==> is_space(#[trigger] s[i])
}

/// The words with one space between each two of them.
pub open spec fn joined(words: Seq<Seq<u8>>) -> Seq<u8>
    decreases words.len(),
{
    if words.len() == 0 {
        Seq::empty()
    } else if words.len() == 1 {
        words[0]
    } else {
        words[0] + seq![SP] + joined(words.skip(1))
    }
}

/// A run of separators ends where the first byte that is none stands.
pub proof fn lemma_skip_spaces_to(s: Seq<u8>, i: int, end: int)
    requires
        0 <= i <= end <= s.len(),
        forall|j: int| i <= j < end ==> is_space(#[trigger] s[j]),
        end < s.len() ==> !is_space(s[end]),
    ensures
        skip_spaces(s, i) == end,
    decreases end - i,
{
    if i < end {
        lemma_skip_spaces_to(s, i + 1, end);
    }
}

/// A run of bytes other than separators ends where the first separator
/// stands.
pub proof fn lemma_skip_word_to(s: Seq<u8>, i: int, end: int)
    requires
        0 <= i <= end <= s.len(),
        forall|j: int| i <= j < end ==> !is_space(#[trigger] s[j]),
        end < s.len() ==> is_space(s[end]),
    ensures
        skip_word(s, i) == end,
    decreases end - i,
{
    if i < end {
        lemma_skip_word_to(s, i + 1, end);
    }
}

/// The tokens of a string do not depend on what stands before the place
/// where their search begins.
pub proof fn lemma_tokens_after_prefix(a: Seq<u8>, b: Seq<u8>, i: int)
    requires
        0 <= i <= b.len(),
    ensures
        tokens_from(a + b, a.len() + i) == tokens_from(b, i),
    decreases b.len() - i,
{
    let s = a + b;
    let n = a.len() as int;
    lemma_skip_spaces(b, i);
    let start = skip_spaces(b, i);
    assert forall|j: int| n + i <= j < n + start implies is_space(#[trigger] s[j]) by {
        assert(s[j] == b[j - n]);
    }
    if start < b.len() {
        assert(s[n + start] == b[start]);
    }
    lemma_skip_spaces_to(s, n + i, n + start);
    lemma_skip_word(b, start);
    let end = skip_word(b, start);
    assert forall|j: int| n + start <= j < n + end implies !is_space(#[trigger] s[j]) by {
        assert(s[j] == b[j - n]);
    }
    if end < b.len() {
        assert(s[n + end] == b[end]);
    }
    lemma_skip_word_to(s, n + start, n + end);
    if start < end {
        lemma_tokens_after_prefix(a, b, end);
        assert(s.subrange(n + start, n + end) == b.subrange(start, end));
    }
}

/// A word at the head of a string is its first token, where the word ends
/// the string or a separator follows it.
pub proof fn lemma_tokens_word_first(word: Seq<u8>, rest: Seq<u8>)
    requires
        is_word(word),
        rest.len() > 0 ==> is_space(rest[0]),
    ensures
        tokens(word + rest) == seq![word] + tokens(rest),
{
    let s = word + rest;
    let n = word.len() as int;
    assert(s[0] == word[0]);
    assert(skip_spaces(s, 0) == 0);
    assert forall|j: int| 0 <= j < n implies !is_space(#[trigger] s[j]) by {
        assert(s[j] == word[j]);
    }
    if n < s.len() {
        assert(s[n] == rest[0]);
    }
    lemma_skip_word_to(s, 0, n);
    assert(s.subrange(0, n) == word);
    lemma_tokens_after_prefix(word, rest, 0);
}

/// Separators at the head of a string add no token.
pub proof fn lemma_tokens_blank_first(blank: Seq<u8>, rest: Seq<u8>)
    requires
        is_blank(blank),
    ensures
        tokens(blank + rest) == tokens(rest),
{
    let s = blank + rest;
    let n = blank.len() as int;
    lemma_skip_spaces(rest, 0);
    let start = skip_spaces(rest, 0);
    assert forall|j: int| 0 <= j < n + start implies is_space(#[trigger] s[j]) by {
        if j < n {
            assert(s[j] == blank[j]);
        } else {
            assert(s[j] == rest[j - n]);
        }
    }
    if start < rest.len() {
        assert(s[n + start] == rest[start]);
    }
    lemma_skip_spaces_to(s, 0, n + start);
    lemma_skip_spaces_to(s, n, n + start);
    assert(tokens_from(s, 0) == tokens_from(s, n));
    lemma_tokens_after_prefix(blank, rest, 0);
}

/// The tokens of words that were joined by spaces are the words, whatever
/// separators follow the last of them.
pub proof fn lemma_tokens_of_joined(words: Seq<Seq<u8>>, tail: Seq<u8>)
    requires
        forall|i: int| 0 <= i < words.len() ==> is_word(#[trigger] words[i]),
        is_blank(tail),
    ensures
        tokens(joined(words) + tail) == words,
    decreases words.len(),
{
    if words.len() == 0 {
        lemma_tokens_blank_first(tail, Seq::empty());
        assert(tail + Seq::<u8>::empty() == tail);
        assert(joined(words) + tail == tail);
        assert(tokens(Seq::<u8>::empty()) == Seq::<Seq<u8>>::empty());
    } else if words.len() == 1 {
        lemma_tokens_word_first(words[0], tail);
        lemma_tokens_blank_first(tail, Seq::empty());
        assert(tail + Seq::<u8>::empty() == tail);
        assert(tokens(Seq::<u8>::empty()) == Seq::<Seq<u8>>::empty());
        assert(seq![words[0]] + Seq::<Seq<u8>>::empty() == words);
    } else {
        let others = words.skip(1);
        let after = joined(others) + tail;
        assert forall|i: int| 0 <= i < others.len() implies is_word(#[trigger] others[i]) by {
            assert(others[i] == words[i + 1]);
        }
        lemma_tokens_of_joined(others, tail);
        lemma_tokens_blank_first(seq![SP], after);
        assert(joined(words) + tail == words[0] + (seq![SP] + after));
        lemma_tokens_word_first(words[0], seq![SP] + after);
        assert(seq![words[0]] + others == words);
    }
}

} // verus!
