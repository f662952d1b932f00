//! Numbers written in digits: reading them back and writing them out.

use vstd::prelude::*;

use crate::text::chars_of;

verus! {

/// Whether a character is one of `0` to `9`.
pub open spec fn is_digit(c: char) -> bool {
    '0' <= c <= '9'
}

/// The number that a row of decimal digits stands for.
pub open spec fn value_of(digits: Seq<char>) -> nat
    decreases digits.len(),
{
    if digits.len() == 0 {
        0
    } else {
        value_of(digits.drop_last()) * 10 + (digits.last() as nat - '0' as nat) as nat
    }
}

/// What a row of digits reads as: nothing where it is empty, holds anything else, or stands for
/// more than `max`.
pub open spec fn digits_read(digits: Seq<char>, max: nat) -> Option<nat> {
    if digits.len() > 0 && (forall|i: int| 0 <= i < digits.len() ==> is_digit(#[trigger] digits[i]))
        && value_of(digits) <= max {
        Some(value_of(digits))
    } else {
        None
    }
}

/// What a text reads as, as a number from 0 to `max`: one `+` may stand before the digits.
pub open spec fn unsigned_read(s: Seq<char>, max: nat) -> Option<nat> {
    if s.len() > 0 && s[0] == '+' {
        digits_read(s.drop_first(), max)
    } else {
        digits_read(s, max)
    }
}

/// What a text reads as, as a 32-bit signed number: one `+` or `-` may stand before the digits.
pub open spec fn signed_read(s: Seq<char>) -> Option<int> {
    if s.len() > 0 && s[0] == '-' {
        match digits_read(s.drop_first(), 0x8000_0000) {
            Some(n) => Some(-(n as int)),
            None => None,
        }
    } else {
        match unsigned_read(s, 0x7fff_ffff) {
            Some(n) => Some(n as int),
            None => None,
        }
    }
}

proof fn lemma_value_grows(digits: Seq<char>, k: int)
    requires
        0 <= k <= digits.len(),
        forall|i: int| 0 <= i < digits.len() ==> is_digit(#[trigger] digits[i]),
    ensures
        value_of(digits.take(k)) <= value_of(digits),
    decreases digits.len(),
{
    if k == digits.len() {
        assert(digits.take(k) == digits);
    } else {
        lemma_value_grows(digits.drop_last(), k);
        assert(digits.drop_last().take(k) == digits.take(k));
    }
}

fn read_digits(chars: &Vec<char>, from: usize, max: u64) -> (out: Option<u64>)
    requires
        from <= chars@.len(),
    ensures
        out is Some == digits_read(chars@.skip(from as int), max as nat) is Some,
        out matches Some(n) ==> Some(n as nat) == digits_read(chars@.skip(from as int), max as nat),
{
    let ghost digits = chars@.skip(from as int);
    if from == chars.len() {
        return None;
    }
    let mut sum: u64 = 0;
    let mut i: usize = from;
    while i < chars.len()
        invariant
            from <= i <= chars@.len(),
            digits == chars@.skip(from as int),
            forall|k: int| 0 <= k < i - from ==> is_digit(#[trigger] digits[k]),
            sum == value_of(digits.take(i - from)),
            sum <= max,
        decreases chars@.len() - i,
    {
        let c = chars[i];
        let ghost k = i - from;
        assert(digits[k] == c);
        if c < '0' || c > '9' {
            return None;
        }
        let d: u64 = c as u64 - '0' as u64;
        assert(digits.take(k + 1).drop_last() == digits.take(k));
        assert(value_of(digits.take(k + 1)) == sum * 10 + d);
        if d > max || sum > (max - d) / 10 {
            proof {
                if forall|j: int| 0 <= j < digits.len() ==> is_digit(#[trigger] digits[j]) {
                    lemma_value_grows(digits, k + 1);
                }
            }
            return None;
        }
        sum = sum * 10 + d;
        i += 1;
    }
    assert(digits.take(digits.len() as int) == digits);
    Some(sum)
}

/// Reads a number from 0 to `max`.
pub fn parse_unsigned(s: &str, max: u64) -> (out: Option<u64>)
    ensures
        out is Some == unsigned_read(s@, max as nat) is Some,
        out matches Some(n) ==> Some(n as nat) == unsigned_read(s@, max as nat),
{
    let chars = chars_of(s);
    assert(chars@.skip(0) == chars@);
    assert(chars@.len() > 0 ==> chars@.skip(1) == chars@.drop_first());
    if chars.len() > 0 && chars[0] == '+' {
        read_digits(&chars, 1, max)
    } else {
        read_digits(&chars, 0, max)
    }
}

/// Reads a 32-bit signed number.
pub fn parse_signed(s: &str) -> (out: Option<i32>)
    ensures
        out is Some == signed_read(s@) is Some,
        out matches Some(n) ==> Some(n as int) == signed_read(s@),
{
    let chars = chars_of(s);
    if chars.len() > 0 && chars[0] == '-' {
        assert(chars@.skip(1) == chars@.drop_first());
        match read_digits(&chars, 1, 0x8000_0000) {
            Some(n) => Some((0 - n as i64) as i32),
            None => None,
        }
    } else {
        match parse_unsigned(s, 0x7fff_ffff) {
            Some(n) => Some(n as i32),
            None => None,
        }
    }
}

/// The character that a digit is written as.
pub open spec fn digit_char(d: nat) -> char {
    ('0' as nat + d) as char
}

/// The digits that a number is written with, in the given base, without leading zeros.
pub open spec fn written(n: nat, base: nat) -> Seq<char>
    decreases n,
{
    if base < 2 || n < base {
        seq![digit_char(n)]
    } else {
        proof {
            assert(n / base < n) by (nonlinear_arith)
                requires
                    2 <= base <= n,
            ;
        }
        written(n / base, base).push(digit_char(n % base))
    }
}

/// The digits that a number is written with in base ten.
pub open spec fn decimal(n: nat) -> Seq<char> {
    written(n, 10)
}

fn digit(d: u64) -> (c: char)
    requires
        d < 10,
    ensures
        c == digit_char(d as nat),
{
    match d {
        0 => '0',
        1 => '1',
        2 => '2',
        3 => '3',
        4 => '4',
        5 => '5',
        6 => '6',
        7 => '7',
        8 => '8',
        _ => '9',
    }
}

/// Writes a number in a base from two to ten.
pub fn write_number(n: u64, base: u64) -> (out: String)
    requires
        2 <= base <= 10,
    ensures
        out@ == written(n as nat, base as nat),
    decreases n,
{
    if n < base {
        let mut out = String::new();
        out.push(digit(n));
        assert(out@ == seq![digit_char(n as nat)]);
        out
    } else {
        assert(n / base < n) by (nonlinear_arith)
            requires
                2 <= base <= n,
        ;
        let mut out = write_number(n / base, base);
        out.push(digit(n % base));
        out
    }
}

/// Writes a number in base ten.
pub fn write_decimal(n: u64) -> (out: String)
    ensures
        out@ == decimal(n as nat),
{
    write_number(n, 10)
}

/// A number written in base ten reads back as itself.
pub proof fn a_written_number_reads_back(n: nat, max: nat)
    requires
        n <= max,
    ensures
        unsigned_read(decimal(n), max) == Some(n),
{
    lemma_decimal_is_digits(n);
    lemma_decimal_value(n);
    assert(is_digit(decimal(n)[0]));
}

proof fn lemma_decimal_is_digits(n: nat)
    ensures
        decimal(n).len() > 0,
        forall|i: int| 0 <= i < decimal(n).len() ==> is_digit(#[trigger] decimal(n)[i]),
    decreases n,
{
    if n >= 10 {
        lemma_decimal_is_digits(n / 10);
    }
}

proof fn lemma_decimal_value(n: nat)
    ensures
        value_of(decimal(n)) == n,
    decreases n,
{
    if n < 10 {
        assert(decimal(n).drop_last() == Seq::<char>::empty());
        assert(value_of(Seq::<char>::empty()) == 0);
        assert(decimal(n).last() as nat == '0' as nat + n);
    } else {
        lemma_decimal_value(n / 10);
        assert(decimal(n).drop_last() == decimal(n / 10));
        assert(decimal(n).last() as nat == '0' as nat + n % 10);
    }
}

// ---------------------------------------------------------------------------------------------
// What reading and writing a number keep to
// ---------------------------------------------------------------------------------------------

/// A number is read by the place of its digits: each further digit counts once, and what stands
/// before it ten times.
pub proof fn a_digit_counts_by_its_place(digits: Seq<char>, c: char, max: nat)
    requires
        '0' <= c <= '9',
        digits.len() == 0 || digits_read(digits, max) is Some,
    ensures
        digits_read(digits.push(c), max) == {
            let before: nat = if digits.len() == 0 {
                0
            } else {
                digits_read(digits, max)->0
            };
            let n = (10 * before + (c as nat - '0' as nat)) as nat;
            if n <= max {
                Some(n)
            } else {
                None
            }
        },
{
    let more = digits.push(c);
    assert(more.drop_last() == digits);
    assert forall|i: int| 0 <= i < more.len() implies is_digit(#[trigger] more[i]) by {
        if i < digits.len() {
            assert(more[i] == digits[i]);
        }
    }
    assert(more.last() == c);
    assert(value_of(more) == value_of(digits) * 10 + (c as nat - '0' as nat));
    assert(digits.len() == 0 ==> value_of(digits) == 0);
    assert(digits.len() > 0 ==> digits_read(digits, max)->0 == value_of(digits));
}

/// Only digits are read as a number, with one sign before them at most: a minus where the number
/// may be negative, or a plus. Nothing is read out of an empty text, or out of a lone sign.
pub proof fn only_digits_are_a_number(s: Seq<char>, max: nat)
    ensures
        unsigned_read(s, max) matches Some(n) ==> n <= max && s.len() > 0 && forall|i: int|
            0 <= i < s.len() ==> '0' <= #[trigger] s[i] <= '9' || (i == 0 && s[i] == '+' && s.len()
                > 1),
        signed_read(s) matches Some(n) ==> -0x8000_0000 <= n <= 0x7fff_ffff && s.len() > 0
            && forall|i: int|
            0 <= i < s.len() ==> '0' <= #[trigger] s[i] <= '9' || (i == 0 && (s[i] == '+' || s[i]
                == '-') && s.len() > 1),
        s.len() > 0 && s[0] == '-' ==> unsigned_read(s, max) is None,
{
    let rest = s.drop_first();
    if s.len() > 0 && (s[0] == '+' || s[0] == '-') {
        assert forall|i: int|
            0 <= i < s.len() && (unsigned_read(s, max) is Some || signed_read(s)
                is Some) implies '0' <= #[trigger] s[i] <= '9' || (i == 0 && (s[i] == '+' || s[i]
            == '-') && s.len() > 1) by {
            if i > 0 {
                assert(rest[i - 1] == s[i]);
                assert(is_digit(rest[i - 1]));
            }
        }
        if s[0] == '-' {
            assert(!is_digit(s[0]));
        }
    } else {
        assert forall|i: int|
            0 <= i < s.len() && (unsigned_read(s, max) is Some || signed_read(s)
                is Some) implies '0' <= #[trigger] s[i] <= '9' by {
            assert(is_digit(s[i]));
        }
    }
}

/// A sign says which way a number counts: a minus turns it round, a plus changes nothing.
pub proof fn a_sign_says_which_way_a_number_counts(n: nat, max: nat)
    ensures
        n <= max ==> unsigned_read(seq!['+'] + decimal(n), max) == Some(n),
        n > max ==> unsigned_read(decimal(n), max) is None,
        n <= 0x7fff_ffff ==> signed_read(decimal(n)) == Some(n as int),
        n <= 0x8000_0000 ==> signed_read(seq!['-'] + decimal(n)) == Some(-(n as int)),
{
    lemma_decimal_is_digits(n);
    lemma_decimal_value(n);
    assert((seq!['+'] + decimal(n)).drop_first() == decimal(n));
    assert((seq!['-'] + decimal(n)).drop_first() == decimal(n));
    assert(is_digit(decimal(n)[0]));
}

/// A number is written digit by digit, the last one last, and none in front that says nothing.
pub proof fn a_number_is_written_digit_by_digit(n: nat, d: nat, base: nat)
    requires
        2 <= base <= 10,
        d < base,
    ensures
        written(d, base) == seq![('0' as nat + d) as char],
        n > 0 ==> written(n * base + d, base) == written(n, base).push(('0' as nat + d) as char),
{
    if n > 0 {
        assert(n * base + d >= base) by (nonlinear_arith)
            requires
                n > 0,
                base >= 2,
        ;
        assert((n * base + d) / base == n && (n * base + d) % base == d) by {
            vstd::arithmetic::div_mod::lemma_fundamental_div_mod_converse(
                (n * base + d) as int,
                base as int,
                n as int,
                d as int,
            );
        }
    }
}

} // verus!
