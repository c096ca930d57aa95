//! Decimal numbers as text.

use crate::text::to_chars;
use vstd::prelude::*;
use vstd::string::*;

verus! {

/// The digit that stands for `d`.
pub open spec fn digit_char(d: nat) -> char {
    (('0' as u32) + d) as char
}

/// `c` is one of `0` to `9`.
pub open spec fn is_digit(c: char) -> bool {
    '0' <= c && c <= '9'
}

/// What the digit `c` stands for.
pub open spec fn digit_value(c: char) -> nat {
    (c as u32 - '0' as u32) as nat
}

/// `n` written in decimal, without leading zeros.
pub open spec fn decimal(n: nat) -> Seq<char>
    decreases n,
{
    if n < 10 {
        seq![digit_char(n)]
    } else {
        decimal(n / 10).push(digit_char(n % 10))
    }
}

/// What a sequence of digits stands for.
pub open spec fn digits_value(s: Seq<char>) -> nat
    decreases s.len(),
{
    if s.len() == 0 {
        0
    } else {
        digits_value(s.drop_last()) * 10 + digit_value(s.last())
    }
}

/// Every character of `s` is a digit.
pub open spec fn all_digits(s: Seq<char>) -> bool {
    forall|i: int| 0 <= i < s.len() ==> is_digit(#[trigger] s[i])
}

/// `s` without one leading `+`.
pub open spec fn unsigned_part(s: Seq<char>) -> Seq<char> {
    if s.len() > 0 && s[0] == '+' {
        s.skip(1)
    } else {
        s
    }
}

/// The number that `s` writes: digits, at least one, after an optional `+`, and a value that
/// fits in 32 bits.
pub open spec fn parsed_u32(s: Seq<char>) -> Option<u32> {
    let d = unsigned_part(s);
    if d.len() > 0 && all_digits(d) && digits_value(d) <= u32::MAX {
        Some(digits_value(d) as u32)
    } else {
        None
    }
}

/// Reading more digits never makes the number smaller.
proof fn lemma_digits_value_grows(s: Seq<char>, i: int)
    requires
        0 <= i <= s.len(),
    ensures
        digits_value(s.take(i)) <= digits_value(s),
    decreases s.len() - i,
{
    if i == s.len() {
        assert(s.take(i) =~= s);
    } else {
        lemma_digits_value_grows(s, i + 1);
        assert(s.take(i + 1).drop_last() =~= s.take(i));
    }
}

/// A decimal numeral is made of digits, has at least one, and stands for the number it writes.
pub proof fn lemma_decimal(n: nat)
    ensures
        decimal(n).len() > 0,
        all_digits(decimal(n)),
        digits_value(decimal(n)) == n,
    decreases n,
{
    if n < 10 {
        assert(decimal(n).drop_last() =~= Seq::<char>::empty());
        assert(digits_value(decimal(n).drop_last()) == 0);
    } else {
        lemma_decimal(n / 10);
        assert(decimal(n).drop_last() =~= decimal(n / 10));
    }
}

/// Reading back a decimal numeral gives the number it was written from.
pub proof fn lemma_decimal_parses(n: u32)
    ensures
        parsed_u32(decimal(n as nat)) == Some(n),
{
    lemma_decimal(n as nat);
    assert(is_digit(decimal(n as nat)[0]));
}

/// Reads a number of 32 bits.
pub fn parse_u32(s: &str) -> (res: Option<u32>)
    ensures
        res == parsed_u32(s@),
{
    let x = to_chars(s);
    let start: usize = if x.len() > 0 && x[0] == '+' {
        1
    } else {
        0
    };
    let ghost d = unsigned_part(s@);
    assert(d =~= s@.skip(start as int));
    if start == x.len() {
        return None;
    }
    let mut value: u64 = 0;
    let mut i: usize = start;
    assert(d.take(0) =~= Seq::<char>::empty());
    while i < x.len()
        invariant
            x@ == s@,
            start <= i <= x@.len(),
            start < x@.len(),
            d == unsigned_part(s@),
            d == s@.skip(start as int),
            all_digits(d.take(i - start)),
            value == digits_value(d.take(i - start)),
            value <= u32::MAX,
        decreases x.len() - i,
    {
        let c = x[i];
        assert(d[i - start] == c);
        if !('0' <= c && c <= '9') {
            return None;
        }
        value = value * 10 + ((c as u32) - ('0' as u32)) as u64;
        assert(d.take(i + 1 - start).drop_last() =~= d.take(i - start));
        assert(d.take(i + 1 - start) =~= d.take(i - start).push(c));
        if value > u32::MAX as u64 {
            proof {
                lemma_digits_value_grows(d, i + 1 - start);
            }
            return None;
        }
        i = i + 1;
    }
    assert(d.take(i - start) =~= d);
    Some(value as u32)
}

/// Writes a number in decimal.
pub fn format_number(n: u64) -> (res: String)
    ensures
        res@ == decimal(n as nat),
    decreases n,
{
    let digit = (48 + (n % 10) as u8) as char;
    if n < 10 {
        let mut out = String::new();
        out.push(digit);
        assert(out@ =~= decimal(n as nat));
        out
    } else {
        let mut out = format_number(n / 10);
        out.push(digit);
        out
    }
}

/// A decimal numeral is the shortest: it begins with `0` only if it is `0`.
pub proof fn law_no_leading_zero(n: nat)
    ensures
        decimal(n)[0] == '0' <==> n == 0,
        decimal(n).len() > 1 ==> n >= 10,
        n < 10 ==> decimal(n).len() == 1,
    decreases n,
{
    if n >= 10 {
        law_no_leading_zero(n / 10);
        lemma_decimal(n / 10);
        assert(decimal(n)[0] == decimal(n / 10)[0]);
    }
}

/// What is read: digits give the number they stand for, with any number of zeros before them and
/// with or without a `+`; anything else, and what does not fit, gives nothing.
pub proof fn law_reading_numbers(s: Seq<char>)
    ensures
        s.len() > 0 && all_digits(s) ==> parsed_u32(s) == if digits_value(s) <= u32::MAX {
            Some(digits_value(s) as u32)
        } else {
            None
        },
        s.len() > 0 && all_digits(s) ==> parsed_u32(seq!['+'] + s) == parsed_u32(s),
        s.len() > 0 && all_digits(s) ==> parsed_u32(seq!['0'] + s) == parsed_u32(s),
        s.len() == 0 ==> parsed_u32(s) is None,
        parsed_u32(s) is Some && s[0] != '+' ==> all_digits(s),
        parsed_u32(s) is Some && s[0] == '+' ==> s.len() > 1 && all_digits(s.skip(1)),
{
    if s.len() > 0 && all_digits(s) {
        assert(is_digit(s[0]));
        assert((seq!['+'] + s).skip(1) =~= s);
        let z = seq!['0'] + s;
        assert forall|i: int| 0 <= i < z.len() implies is_digit(#[trigger] z[i]) by {
            if i > 0 {
                assert(z[i] == s[i - 1]);
            }
        }
        lemma_leading_zero(s);
    }
}

proof fn lemma_leading_zero(s: Seq<char>)
    ensures
        digits_value(seq!['0'] + s) == digits_value(s),
    decreases s.len(),
{
    let z = seq!['0'] + s;
    if s.len() == 0 {
        assert(z.drop_last() =~= Seq::<char>::empty());
        assert(digits_value(z.drop_last()) == 0);
    } else {
        assert(z.drop_last() =~= seq!['0'] + s.drop_last());
        lemma_leading_zero(s.drop_last());
    }
}

/// Digits count by their place: one more digit makes ten times the number and the digit.
pub proof fn law_digits_count_by_place(s: Seq<char>, d: nat)
    requires
        d < 10,
    ensures
        digits_value(s.push(digit_char(d))) == 10 * digits_value(s) + d,
        digit_char(d) as u32 == 0x30 + d,
{
    assert(s.push(digit_char(d)).drop_last() =~= s);
}

} // verus!
