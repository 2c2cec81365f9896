//! Decimal numerals: how the numeric fields of a command are read and how
//! the numbers of a reply are written.

use vstd::prelude::*;

verus! {

/// The byte `0`; the ten digits follow it in order.
pub const ZERO: u8 = 48;

/// The plus sign that may stand before the digits of a numeral.
pub const PLUS: u8 = 43;

/// Whether `b` is one of the ten decimal digits.
pub open spec fn is_digit(b: u8) -> bool {
    48 <= b && b <= 57
}

/// Whether every byte of `s` is a decimal digit.
pub open spec fn all_digits(s: Seq<u8>) -> bool {
    forall|i: int| 0 <= i < s.len() ==> is_digit(#[trigger] s[i])
}

/// The number that the digits `s` write in base ten; zero for no digits.
pub open spec fn digits_value(s: Seq<u8>) -> nat
    decreases s.len(),
{
    if s.len() == 0 {
        0
    } else {
        digits_value(s.drop_last()) * 10 + (s.last() - 48) as nat
    }
}

/// The digits of the numeral `t`: `t` without the plus sign that may lead it.
pub open spec fn numeral_digits(t: Seq<u8>) -> Seq<u8> {
    if t.len() > 0 && t[0] == PLUS {
        t.skip(1)
    } else {
        t
    }
}

/// The number that the token `t` writes, where it is a numeral no greater
/// than `max`: an optional plus sign, then one or more decimal digits.
/// Leading zeros are allowed. Any other token writes no number.
pub open spec fn numeral_value(t: Seq<u8>, max: nat) -> Option<nat> {
    let d = numeral_digits(t);
    if d.len() > 0 && all_digits(d) && digits_value(d) <= max {
        Some(digits_value(d))
    } else {
        None
    }
}

/// The decimal digits of `n`, without leading zeros.
pub open spec fn decimal(n: nat) -> Seq<u8>
    decreases n,
{
    if n < 10 {
        seq![(48 + n) as u8]
    } else {
        decimal(n / 10).push((48 + n % 10) as u8)
    }
}

/// A number is no smaller than the number that a prefix of its digits
/// writes.
pub proof fn lemma_prefix_value(s: Seq<u8>, k: int)
    requires
        0 <= k <= s.len(),
        all_digits(s),
    ensures
        digits_value(s.subrange(0, k)) <= digits_value(s),
    decreases s.len() - k,
{
    if k == s.len() {
        assert(s.subrange(0, k) == s);
    } else {
        lemma_prefix_value(s, k + 1);
        let longer = s.subrange(0, k + 1);
        assert(longer.drop_last() == s.subrange(0, k));
        assert(is_digit(s[k]));
        assert(longer.last() == s[k]);
    }
}

/// What `decimal` writes is a numeral that reads back as the same number.
pub proof fn lemma_decimal_reads_back(n: nat)
    ensures
        decimal(n).len() > 0,
        all_digits(decimal(n)),
        digits_value(decimal(n)) == n,
        numeral_digits(decimal(n)) == decimal(n),
        forall|max: nat| n <= max ==> #[trigger] numeral_value(decimal(n), max) == Some(n),
    decreases n,
{
    if n < 10 {
        let s = decimal(n);
        assert(s.drop_last().len() == 0);
        assert(digits_value(s.drop_last()) == 0);
        assert(s.last() == (48 + n) as u8);
    } else {
        lemma_decimal_reads_back(n / 10);
        let head = decimal(n / 10);
        let s = decimal(n);
        assert(s == head.push((48 + n % 10) as u8));
        assert(s.drop_last() == head);
        assert(s[0] == head[0]);
    }
}

/// Reads a numeral no greater than `max`.
pub fn parse_number(token: &[u8], max: u64) -> (r: Option<u64>)
    ensures
        match numeral_value(token@, max as nat) {
            Some(v) => r == Some(v as u64),
            None => r is None,
        },
{
    let n = token.len();
    let first: usize = if n > 0 && token[0] == PLUS {
        1
    } else {
        0
    };
    let ghost d = numeral_digits(token@);
    assert(d == token@.subrange(first as int, n as int));
    if first == n {
        return None;
    }
    let mut acc: u64 = 0;
    let mut i: usize = first;
    assert(d.subrange(0, 0).len() == 0);
    while i < n
        invariant
            n == token@.len(),
            first <= i <= n,
            first < n,
            d == numeral_digits(token@),
            d == token@.subrange(first as int, n as int),
            all_digits(d.subrange(0, i - first)),
            acc == digits_value(d.subrange(0, i - first)),
            acc <= max,
        decreases n - i,
    {
        let b = token[i];
        let ghost shorter = d.subrange(0, i - first);
        let ghost longer = d.subrange(0, i - first + 1);
        proof {
            assert(longer.drop_last() == shorter);
            assert(longer.last() == b);
        }
        if b < ZERO || b > 57 {
            assert(d[i - first] == b);
            assert(!all_digits(d));
            return None;
        }
        let digit: u64 = (b - ZERO) as u64;
        if acc > max / 10 || (acc == max / 10 && digit > max % 10) {
            proof {
                assert(digits_value(longer) == acc * 10 + digit);
                assert(digits_value(longer) > max);
                if all_digits(d) {
                    lemma_prefix_value(d, i - first + 1);
                }
            }
            return None;
        }
        acc = acc * 10 + digit;
        proof {
            assert forall|j: int| 0 <= j < longer.len() implies is_digit(#[trigger] longer[j]) by {
                if j < shorter.len() {
                    assert(longer[j] == shorter[j]);
                }
            }
        }
        i += 1;
    }
    assert(d.subrange(0, i - first) == d);
    Some(acc)
}

/// Reads a numeral that fits in 32 bits.
pub fn parse_u32(token: &[u8]) -> (r: Option<u32>)
    ensures
        match numeral_value(token@, u32::MAX as nat) {
            Some(v) => r == Some(v as u32),
            None => r is None,
        },
{
    match parse_number(token, 0xffff_ffff) {
        Some(v) => Some(v as u32),
        None => None,
    }
}

/// Reads a numeral that fits in 64 bits.
pub fn parse_u64(token: &[u8]) -> (r: Option<u64>)
    ensures
        match numeral_value(token@, u64::MAX as nat) {
            Some(v) => r == Some(v as u64),
            None => r is None,
        },
{
    parse_number(token, 0xffff_ffff_ffff_ffff)
}

/// Appends the decimal digits of `n` to `out`.
pub fn push_decimal(out: &mut Vec<u8>, n: u64)
    ensures
        final(out)@ == old(out)@ + decimal(n as nat),
{
    let mut low: Vec<u8> = Vec::new();
    let mut rest: u64 = n;
    while rest >= 10
        invariant
            decimal(n as nat) == decimal(rest as nat) + low@.reverse(),
        decreases rest,
    {
        let digit: u8 = ZERO + (rest % 10) as u8;
        proof {
            let next = low@.push(digit);
            assert(next.reverse() == seq![digit] + low@.reverse());
            assert(decimal(rest as nat) == decimal((rest / 10) as nat).push(digit));
            assert(decimal((rest / 10) as nat).push(digit) + low@.reverse() == decimal(
                (rest / 10) as nat,
            ) + next.reverse());
        }
        low.push(digit);
        rest = rest / 10;
    }
    out.push(ZERO + rest as u8);
    let mut k: usize = low.len();
    assert(low@.reverse().subrange(0, 0) == Seq::<u8>::empty());
    while k > 0
        invariant
            k <= low.len(),
            rest < 10,
            decimal(n as nat) == decimal(rest as nat) + low@.reverse(),
            out@ == old(out)@ + decimal(rest as nat) + low@.reverse().subrange(
                0,
                low.len() - k,
            ),
        decreases k,
    {
        k -= 1;
        let ghost done = low@.reverse().subrange(0, low.len() - k - 1);
        assert(low@.reverse().subrange(0, low.len() - k) == done.push(low@[k as int]));
        out.push(low[k]);
    }
    assert(low@.reverse().subrange(0, low.len() as int) == low@.reverse());
}

} // verus!
