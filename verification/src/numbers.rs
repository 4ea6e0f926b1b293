//! Decimal numbers as text.

use vstd::prelude::*;

verus! {

/// The character of a decimal digit.
pub open spec fn digit_char(d: nat) -> char {
    if d == 0 {
        '0'
    } else if d == 1 {
        '1'
    } else if d == 2 {
        '2'
    } else if d == 3 {
        '3'
    } else if d == 4 {
        '4'
    } else if d == 5 {
        '5'
    } else if d == 6 {
        '6'
    } else if d == 7 {
        '7'
    } else if d == 8 {
        '8'
    } else {
        '9'
    }
}

/// `n` in decimal notation, without leading zeros.
pub open spec fn decimal_of(n: nat) -> Seq<char>
    decreases n,
{
    if n < 10 {
        seq![digit_char(n)]
    } else {
        decimal_of(n / 10).push(digit_char(n % 10))
    }
}

/// An integer in decimal notation.
pub open spec fn signed_decimal_of(n: int) -> Seq<char> {
    if n < 0 {
        seq!['-'] + decimal_of((-n) as nat)
    } else {
        decimal_of(n as nat)
    }
}

/// The character of a decimal digit.
pub(crate) fn digit(d: u64) -> (c: char)
    requires
        d < 10,
    ensures
        c == digit_char(d as nat),
{
    match d {
        0 => '0',
        1 => '1',
        2 => '2',
        3 => '3',
        4 => '4',
        5 => '5',
        6 => '6',
        7 => '7',
        8 => '8',
        _ => '9',
    }
}

/// `n` in decimal notation.
pub fn decimal_wide(n: u128) -> (out: String)
    ensures
        out@ == decimal_of(n as nat),
    decreases n,
{
    if n < 10 {
        let mut out = String::new();
        out.push(digit(n as u64));
        proof {
            assert(out@ =~= seq![digit_char(n as nat)]);
        }
        out
    } else {
        let mut out = decimal_wide(n / 10);
        out.push(digit((n % 10) as u64));
        out
    }
}

/// `n` in decimal notation.
pub fn decimal(n: u64) -> (out: String)
    ensures
        out@ == decimal_of(n as nat),
{
    decimal_wide(n as u128)
}

/// `n` in decimal notation.
pub fn signed_decimal(n: i64) -> (out: String)
    ensures
        out@ == signed_decimal_of(n as int),
{
    if n < 0 {
        let magnitude: u64 = if n == i64::MIN {
            9223372036854775808u64
        } else {
            (-n) as u64
        };
        let mut out = String::new();
        out.push('-');
        out.append(decimal(magnitude).as_str());
        proof {
            assert(out@ =~= seq!['-'] + decimal_of((-n) as nat));
        }
        out
    } else {
        decimal(n as u64)
    }
}

// ---------------------------------------------------------------------------
// Parsing
// ---------------------------------------------------------------------------

/// Whether `c` is a decimal digit.
pub open spec fn is_digit(c: char) -> bool {
    '0' <= c <= '9'
}

/// The value of a decimal digit.
pub open spec fn digit_value(c: char) -> nat {
    (c as u32 - '0' as u32) as nat
}

/// Whether every character of `s` is a decimal digit.
pub open spec fn all_digits(s: Seq<char>) -> bool {
    forall|i: int| 0 <= i < s.len() ==> is_digit(#[trigger] s[i])
}

/// The number that the digits `s` denote.
pub open spec fn digits_value(s: Seq<char>) -> nat
    decreases s.len(),
{
    if s.len() == 0 {
        0
    } else {
        10 * digits_value(s.drop_last()) + digit_value(s.last())
    }
}

/// `s` without one plus sign at its start.
pub open spec fn without_plus(s: Seq<char>) -> Seq<char> {
    if s.len() > 0 && s[0] == '+' {
        s.skip(1)
    } else {
        s
    }
}

/// The unsigned number that `s` denotes: an optional plus sign and at least one
/// digit, with a value of at most `max`.
pub open spec fn parsed_number(s: Seq<char>, max: nat) -> Option<nat> {
    let digits = without_plus(s);
    if digits.len() > 0 && all_digits(digits) && digits_value(digits) <= max {
        Some(digits_value(digits))
    } else {
        None
    }
}

/// A longer run of digits denotes no smaller number.
pub proof fn lemma_digits_value_grows(s: Seq<char>, k: int)
    requires
        0 <= k <= s.len(),
    ensures
        digits_value(s.take(k)) <= digits_value(s),
    decreases s.len() - k,
{
    if k < s.len() {
        lemma_digits_value_grows(s, k + 1);
        assert(s.take(k + 1).drop_last() =~= s.take(k));
    } else {
        assert(s.take(k) =~= s);
    }
}

/// The number of at most `max` that `s` denotes.
pub fn parse_number(s: &Vec<char>, max: u64) -> (out: Option<u64>)
    ensures
        match out {
            Some(n) => parsed_number(s@, max as nat) == Some(n as nat),
            None => parsed_number(s@, max as nat) is None,
        },
{
    let from: usize = if s.len() > 0 && s[0] == '+' {
        1
    } else {
        0
    };
    let ghost digits = without_plus(s@);
    proof {
        assert(s@.skip(0) =~= s@);
        assert(digits =~= s@.skip(from as int));
    }
    if from == s.len() {
        return None;
    }
    let mut value: u64 = 0;
    let mut i: usize = from;
    while i < s.len()
        invariant
            from <= i <= s.len(),
            digits == s@.skip(from as int),
            digits == without_plus(s@),
            value == digits_value(digits.take(i - from)),
            value <= max,
            forall|j: int| 0 <= j < i - from ==> is_digit(#[trigger] digits[j]),
        decreases s.len() - i,
    {
        let c = s[i];
        proof {
            assert(digits[i - from] == c);
            assert(digits.take(i - from + 1).drop_last() =~= digits.take(i - from));
            assert(digits.take(i - from + 1).last() == c);
            if all_digits(digits) {
                lemma_digits_value_grows(digits, i - from + 1);
            }
        }
        if !(c >= '0' && c <= '9') {
            proof {
                assert(!is_digit(digits[i - from]));
            }
            return None;
        }
        let d: u64 = (c as u32 - '0' as u32) as u64;
        if value > max / 10 {
            proof {
                assert(10 * value > max) by (nonlinear_arith)
                    requires
                        value > max / 10,
                ;
            }
            return None;
        }
        proof {
            assert(10 * value <= max) by (nonlinear_arith)
                requires
                    value <= max / 10,
            ;
        }
        if d > max - 10 * value {
            return None;
        }
        value = 10 * value + d;
        i += 1;
    }
    proof {
        assert(digits.take(s@.len() - from) =~= digits);
    }
    Some(value)
}

/// The text of a number denotes that number.
pub proof fn lemma_decimal_parses(n: nat)
    ensures
        decimal_of(n).len() > 0,
        all_digits(decimal_of(n)),
        digits_value(decimal_of(n)) == n,
    decreases n,
{
    if n < 10 {
        let s = decimal_of(n);
        assert(s.drop_last() =~= seq![]);
        assert(digits_value(s.drop_last()) == 0);
        lemma_digit(n);
    } else {
        lemma_decimal_parses(n / 10);
        lemma_digit(n % 10);
        let s = decimal_of(n);
        assert(s.drop_last() =~= decimal_of(n / 10));
        assert forall|i: int| 0 <= i < s.len() implies is_digit(#[trigger] s[i]) by {
            if i < s.len() - 1 {
                assert(s[i] == decimal_of(n / 10)[i]);
            }
        }
    }
}

proof fn lemma_digit(d: nat)
    requires
        d < 10,
    ensures
        is_digit(digit_char(d)),
        digit_value(digit_char(d)) == d,
{
}

/// Parsing undoes `decimal_of` for every number in range.
pub proof fn lemma_parse_decimal(n: nat, max: nat)
    requires
        n <= max,
    ensures
        parsed_number(decimal_of(n), max) == Some(n),
{
    lemma_decimal_parses(n);
    assert(is_digit(decimal_of(n)[0]));
}

/// A number is written with the digits of its tenth and its last digit, and one that is
/// less than nothing with a sign.
pub proof fn numbers_are_written_in_tens(n: nat, d: nat)
    requires
        d < 10,
        n > 0,
    ensures
        decimal_of(10 * n + d) == decimal_of(n) + seq![digit_char(d)],
        decimal_of(d) == seq![digit_char(d)],
        digit_value(digit_char(d)) == d,
        signed_decimal_of(n as int) == decimal_of(n),
        signed_decimal_of(-(n as int)) == seq!['-'] + decimal_of(n),
{
    assert((10 * n + d) / 10 == n);
    assert((10 * n + d) % 10 == d);
    assert(decimal_of(10 * n + d) =~= decimal_of(n) + seq![digit_char(d)]);
}

/// A text is a number exactly where it is some digits, behind a plus or not, that are
/// not too much.
pub proof fn digits_are_read_as_numbers(s: Seq<char>, d: char, max: nat)
    ensures
        is_digit(d) && all_digits(s) && s.len() > 0 ==> digits_value(s.push(d)) == 10 * digits_value(
            s,
        ) + (d as int - '0' as int),
        all_digits(s) && s.len() > 0 && digits_value(s) <= max ==> parsed_number(s, max) == Some(
            digits_value(s),
        ),
        all_digits(s) && s.len() > 0 && digits_value(s) <= max ==> parsed_number(
            seq!['+'] + s,
            max,
        ) == Some(digits_value(s)),
        all_digits(s) && digits_value(s) > max ==> parsed_number(s, max) is None,
        s.len() == 0 ==> parsed_number(s, max) is None,
        (exists|i: int| 0 < i < s.len() && !is_digit(#[trigger] s[i])) ==> parsed_number(s, max)
            is None,
{
    assert(s.push(d).drop_last() =~= s);
    assert((seq!['+'] + s).skip(1) =~= s);
    if s.len() > 0 && all_digits(s) {
        assert(is_digit(s[0]));
    }
    if exists|i: int| 0 < i < s.len() && !is_digit(#[trigger] s[i]) {
        let i = choose|i: int| 0 < i < s.len() && !is_digit(#[trigger] s[i]);
        if s[0] == '+' {
            assert(s.skip(1)[i - 1] == s[i]);
        }
    }
}

} // verus!
