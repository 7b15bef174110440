//! Unsigned numbers written in digits, in a radix from 2 to 36.

use crate::text::string_of;
use vstd::prelude::*;

verus! {

/// The value of `c` as a digit: `0`-`9`, then `a`-`z` or `A`-`Z` for ten and
/// up. A character that is no digit counts as 36, which no radix reaches.
pub open spec fn digit(c: char) -> int {
    let n = c as u32 as int;
    if 48 <= n <= 57 {
        n - 48
    } else if 97 <= n <= 122 {
        n - 87
    } else if 65 <= n <= 90 {
        n - 55
    } else {
        36
    }
}

/// Every character of `s` is a digit of the radix.
pub open spec fn all_digits(s: Seq<char>, radix: int) -> bool {
    forall|i: int| 0 <= i < s.len() ==> digit(#[trigger] s[i]) < radix
}

/// The number that the digits `s` denote, most significant digit first.
pub open spec fn value(s: Seq<char>, radix: int) -> int
    decreases s.len(),
{
    if s.len() == 0 {
        0
    } else {
        value(s.drop_last(), radix) * radix + digit(s.last())
    }
}

/// What `s` denotes as a number up to `limit`: `s` has at least one character,
/// holds digits only, and its value does not exceed the limit.
pub open spec fn parsed(s: Seq<char>, radix: int, limit: int) -> Option<int> {
    if s.len() > 0 && all_digits(s, radix) && value(s, radix) <= limit {
        Some(value(s, radix))
    } else {
        None
    }
}

/// The character for the digit `d`, in lower case.
pub open spec fn digit_char(d: int) -> char {
    if d < 10 {
        (48 + d) as u8 as char
    } else {
        (87 + d) as u8 as char
    }
}

/// The digits of `n`, most significant first, without leading zeros.
pub open spec fn digits(n: int, radix: int) -> Seq<char>
    decreases n,
    via digits_decreases
{
    if 2 <= radix && radix <= n {
        digits(n / radix, radix).push(digit_char(n % radix))
    } else {
        seq![digit_char(n)]
    }
}

#[via_fn]
proof fn digits_decreases(n: int, radix: int) {
    if 2 <= radix && radix <= n {
        assert(0 <= n / radix < n) by (nonlinear_arith)
            requires
                2 <= radix <= n,
        ;
    }
}

/// A longer run of digits denotes no smaller a number.
pub proof fn lemma_value_prefix(s: Seq<char>, radix: int, k: int)
    requires
        1 <= radix,
        0 <= k <= s.len(),
    ensures
        0 <= value(s.take(k), radix) <= value(s, radix),
    decreases s.len(),
{
    if k == s.len() {
        assert(s.take(k) =~= s);
        if s.len() > 0 {
            lemma_value_prefix(s.drop_last(), radix, k - 1);
            assert(s.drop_last().take(k - 1) =~= s.drop_last());
            assert(value(s.drop_last(), radix) * radix >= 0) by (nonlinear_arith)
                requires
                    value(s.drop_last(), radix) >= 0,
                    radix >= 1,
            ;
        }
    } else {
        lemma_value_prefix(s.drop_last(), radix, k);
        assert(s.drop_last().take(k) =~= s.take(k));
        assert(value(s.drop_last(), radix) * radix >= value(s.drop_last(), radix))
            by (nonlinear_arith)
            requires
                value(s.drop_last(), radix) >= 0,
                radix >= 1,
        ;
    }
}

/// A number that is written and read again is the same number: its digits
/// are digits of the radix, and they denote it.
pub proof fn lemma_written_number_reads_back(n: int, radix: int, limit: int)
    requires
        0 <= n <= limit,
        2 <= radix <= 36,
    ensures
        all_digits(digits(n, radix), radix),
        parsed(digits(n, radix), radix, limit) == Some(n),
    decreases n,
{
    let s = digits(n, radix);
    if radix <= n {
        let q = n / radix;
        let r = n % radix;
        assert(0 <= q < n && 0 <= r < radix && q * radix + r == n) by (nonlinear_arith)
            requires
                q == n / radix,
                r == n % radix,
                2 <= radix <= n,
        ;
        lemma_written_number_reads_back(q, radix, limit);
        lemma_digit_char(r);
        assert(s.drop_last() =~= digits(q, radix));
        assert(s.last() == digit_char(r));
        assert forall|i: int| 0 <= i < s.len() implies digit(#[trigger] s[i]) < radix by {
            if i < s.len() - 1 {
                assert(s[i] == digits(q, radix)[i]);
            }
        }
    } else {
        lemma_digit_char(n);
        assert(s.drop_last() =~= Seq::<char>::empty());
        assert(value(s.drop_last(), radix) == 0);
        assert(value(s, radix) == 0 * radix + digit(s.last()));
    }
}

/// The character of a digit has that digit's value.
pub proof fn lemma_digit_char(d: int)
    requires
        0 <= d < 36,
    ensures
        digit(digit_char(d)) == d,
{
}

/// The value of `c` as a digit, 36 when it is none.
pub fn digit_of(c: char) -> (d: u64)
    ensures
        d == digit(c),
        d <= 36,
{
    let n: u32 = c as u32;
    if 48 <= n && n <= 57 {
        (n - 48) as u64
    } else if 97 <= n && n <= 122 {
        (n - 87) as u64
    } else if 65 <= n && n <= 90 {
        (n - 55) as u64
    } else {
        36
    }
}

/// Reads `s` as a number in the given radix; `None` when `s` is empty, holds a
/// character that is no digit of the radix, or denotes more than `limit`.
pub fn parse_number(s: &[char], radix: u64, limit: u64) -> (r: Option<u64>)
    requires
        2 <= radix <= 36,
    ensures
        match r {
            Some(n) => parsed(s@, radix as int, limit as int) == Some(n as int),
            None => parsed(s@, radix as int, limit as int) is None,
        },
{
    if s.len() == 0 {
        return None;
    }
    let mut acc: u64 = 0;
    let mut i: usize = 0;
    assert(s@.take(0) =~= Seq::<char>::empty());
    while i < s.len()
        invariant
            2 <= radix <= 36,
            i <= s.len(),
            acc == value(s@.take(i as int), radix as int),
            acc <= limit,
            all_digits(s@.take(i as int), radix as int),
        decreases s.len() - i,
    {
        let d = digit_of(s[i]);
        if d >= radix {
            return None;
        }
        proof {
            assert(s@.take(i + 1).drop_last() =~= s@.take(i as int));
            assert(s@.take(i + 1).last() == s@[i as int]);
            lemma_value_prefix(s@, radix as int, i + 1);
        }
        if d > limit || acc > (limit - d) / radix {
            assert(acc * radix + d > limit) by (nonlinear_arith)
                requires
                    d > limit || acc > (limit - d) / (radix as int),
                    radix >= 2,
                    acc >= 0,
                    d >= 0,
            ;
            return None;
        }
        assert(acc * radix + d <= limit) by (nonlinear_arith)
            requires
                d <= limit,
                acc <= (limit - d) / (radix as int),
                radix >= 2,
        ;
        acc = acc * radix + d;
        i += 1;
        assert forall|j: int| 0 <= j < i implies digit(#[trigger] s@.take(i as int)[j])
            < radix by {
            if j < i - 1 {
                assert(s@.take(i as int)[j] == s@.take(i - 1)[j]);
            }
        }
    }
    assert(s@.take(i as int) =~= s@);
    Some(acc)
}

/// The character for a digit below 36.
pub fn char_of_digit(d: u64) -> (c: char)
    requires
        d < 36,
    ensures
        c == digit_char(d as int),
{
    if d < 10 {
        (48 + d) as u8 as char
    } else {
        (87 + d) as u8 as char
    }
}

/// Appends the digits of `n` to `out`.
pub fn push_digits(n: u64, radix: u64, out: &mut Vec<char>)
    requires
        2 <= radix <= 36,
    ensures
        final(out)@ == old(out)@ + digits(n as int, radix as int),
    decreases n,
{
    if radix <= n {
        assert(n / radix < n) by (nonlinear_arith)
            requires
                2 <= radix <= n,
        ;
        push_digits(n / radix, radix, out);
        out.push(char_of_digit(n % radix));
    } else {
        out.push(char_of_digit(n));
    }
    assert(out@ =~= old(out)@ + digits(n as int, radix as int));
}

/// Writes `n` in decimal digits.
pub fn decimal(n: u64) -> (s: String)
    ensures
        s@ == digits(n as int, 10),
{
    let mut out: Vec<char> = Vec::new();
    push_digits(n, 10, &mut out);
    string_of(out.as_slice())
}

} // verus!
