//! Numbers and columns of human-readable reports.

use vstd::prelude::*;

use crate::doubles::percent_of;
use crate::doubles::Double;
use crate::numbers::decimal;
use crate::numbers::decimal_wide;
use crate::text::chars_of;
use crate::text::concat2;
use crate::text::concat3;
use crate::text::string_of;
use crate::text::sub_chars;

verus! {

// ---------------------------------------------------------------------------
// Columns
// ---------------------------------------------------------------------------

/// `n` times the character `c`.
pub open spec fn run_of(c: char, n: nat) -> Seq<char> {
    Seq::new(n, |i: int| c)
}

/// `n` times the character `c`.
pub fn repeat(c: char, n: usize) -> (out: String)
    ensures
        out@ == run_of(c, n as nat),
{
    let mut out = String::new();
    let mut i: usize = 0;
    while i < n
        invariant
            i <= n,
            out@ == run_of(c, i as nat),
        decreases n - i,
    {
        out.push(c);
        i += 1;
        proof {
            assert(out@ =~= run_of(c, i as nat));
        }
    }
    proof {
        assert(out@ =~= run_of(c, n as nat));
    }
    out
}

/// The number of spaces that bring text of length `len` to `width`.
pub open spec fn gap(len: nat, width: nat) -> nat {
    if len < width {
        (width - len) as nat
    } else {
        0
    }
}

/// `text` at the left of a column of `width`.
pub open spec fn left_aligned(text: Seq<char>, width: nat) -> Seq<char> {
    text + run_of(' ', gap(text.len(), width))
}

/// `text` at the right of a column of `width`.
pub open spec fn right_aligned(text: Seq<char>, width: nat) -> Seq<char> {
    run_of(' ', gap(text.len(), width)) + text
}

fn spaces_for(text: &str, width: usize) -> (out: String)
    ensures
        out@ == run_of(' ', gap(text@.len(), width as nat)),
{
    let n = text.unicode_len();
    if n < width {
        repeat(' ', width - n)
    } else {
        repeat(' ', 0)
    }
}

/// `text` at the left of a column of `width`.
pub fn pad_right(text: &str, width: usize) -> (out: String)
    ensures
        out@ == left_aligned(text@, width as nat),
{
    concat2(text, spaces_for(text, width).as_str())
}

/// `text` at the right of a column of `width`.
pub fn pad_left(text: &str, width: usize) -> (out: String)
    ensures
        out@ == right_aligned(text@, width as nat),
{
    concat2(spaces_for(text, width).as_str(), text)
}

/// `n` with zeros before it up to two digits.
pub open spec fn two_digits_of(n: nat) -> Seq<char> {
    if n < 10 {
        "0"@ + crate::numbers::decimal_of(n)
    } else {
        crate::numbers::decimal_of(n)
    }
}

/// `n` with zeros before it up to two digits.
pub fn two_digits(n: u64) -> (out: String)
    ensures
        out@ == two_digits_of(n as nat),
{
    if n < 10 {
        concat2("0", decimal(n).as_str())
    } else {
        decimal(n)
    }
}

/// `text`, shortened to `max` characters with an ellipsis as the last one.
pub open spec fn shortened(text: Seq<char>, max: nat) -> Seq<char> {
    if text.len() <= max {
        text
    } else if max == 0 {
        "…"@
    } else {
        text.take(max - 1) + "…"@
    }
}

/// `text`, shortened to `max` characters.
pub fn truncate(text: &str, max: usize) -> (out: String)
    ensures
        out@ == shortened(text@, max as nat),
{
    let chars = chars_of(text);
    if chars.len() <= max {
        return String::from_str(text);
    }
    if max == 0 {
        return String::from_str("…");
    }
    let head = sub_chars(&chars, 0, max - 1);
    proof {
        assert(head@ =~= text@.take(max - 1));
    }
    concat2(string_of(&head).as_str(), "…")
}

/// Shortened text is no longer than asked, unless nothing was asked for.
pub proof fn shortened_text_fits(text: Seq<char>, max: nat)
    requires
        max > 0,
    ensures
        shortened(text, max).len() <= max,
{
    reveal_strlit("…");
}

// ---------------------------------------------------------------------------
// Rounded numbers
// ---------------------------------------------------------------------------

/// `n / d`, rounded to the nearest whole number, halves to the even one.
pub open spec fn rounded(n: nat, d: nat) -> nat
    recommends
        d > 0,
{
    let q = n / d;
    let r = n % d;
    if 2 * r > d || (2 * r == d && q % 2 == 1) {
        q + 1
    } else {
        q
    }
}

/// `n / d`, rounded to the nearest whole number, halves to the even one.
pub fn round_div(n: u128, d: u64) -> (out: u128)
    requires
        d > 0,
    ensures
        out == rounded(n as nat, d as nat),
{
    let q: u128 = n / d as u128;
    let r: u128 = n % d as u128;
    proof {
        assert(q <= n) by (nonlinear_arith)
            requires
                q == n / d as u128,
                d > 0,
        ;
        assert(r < d) by (nonlinear_arith)
            requires
                r == n % d as u128,
                d > 0,
        ;
        if q == u128::MAX {
            assert(r == 0) by (nonlinear_arith)
                requires
                    q == n / d as u128,
                    r == n % d as u128,
                    q == u128::MAX,
                    d > 0,
                    n <= u128::MAX,
            ;
        }
    }
    if 2 * r > d as u128 || (2 * r == d as u128 && q % 2 == 1) {
        q + 1
    } else {
        q
    }
}

/// `tenths` as a number with one decimal.
pub open spec fn tenths_of(tenths: nat) -> Seq<char> {
    crate::numbers::decimal_of(tenths / 10) + "."@ + crate::numbers::decimal_of(tenths % 10)
}

/// `tenths` as a number with one decimal.
pub fn tenths_text(tenths: u128) -> (out: String)
    ensures
        out@ == tenths_of(tenths as nat),
{
    concat3(decimal_wide(tenths / 10).as_str(), ".", decimal_wide(tenths % 10).as_str())
}

/// `hundredths` as a number with two decimals.
pub open spec fn hundredths_of(hundredths: nat) -> Seq<char> {
    crate::numbers::decimal_of(hundredths / 100) + "."@ + two_digits_of(hundredths % 100)
}

/// `hundredths` as a number with two decimals.
pub fn hundredths_text(hundredths: u128) -> (out: String)
    ensures
        out@ == hundredths_of(hundredths as nat),
{
    concat3(
        decimal_wide(hundredths / 100).as_str(),
        ".",
        two_digits((hundredths % 100) as u64).as_str(),
    )
}

// ---------------------------------------------------------------------------
// Token counts, costs and shares
// ---------------------------------------------------------------------------

/// A number of tokens: whole up to a thousand, then in thousands, millions or
/// billions with one decimal.
pub open spec fn tokens_text(tokens: nat) -> Seq<char> {
    if tokens < 1000 {
        crate::numbers::decimal_of(tokens)
    } else if tokens < 1000000 {
        tenths_of(rounded(tokens, 100)) + "K"@
    } else if tokens < 1000000000 {
        tenths_of(rounded(tokens, 100000)) + "M"@
    } else {
        tenths_of(rounded(tokens, 100000000)) + "B"@
    }
}

/// A number of tokens.
pub fn human_tokens(tokens: u64) -> (out: String)
    ensures
        out@ == tokens_text(tokens as nat),
{
    if tokens < 1000 {
        return decimal(tokens);
    }
    if tokens < 1000000 {
        let tenths: u128 = round_div(tokens as u128, 100);
        concat2(tenths_text(tenths).as_str(), "K")
    } else if tokens < 1000000000 {
        let tenths: u128 = round_div(tokens as u128, 100000);
        concat2(tenths_text(tenths).as_str(), "M")
    } else {
        let tenths: u128 = round_div(tokens as u128, 100000000);
        concat2(tenths_text(tenths).as_str(), "B")
    }
}

/// The bits of the number nearest to half a cent.
pub const HALF_A_CENT: u64 = 0x3f74_7ae1_47ae_147b;

/// An amount of money. A star says that not everything could be priced.
pub open spec fn cost_text(cost: Option<Double>, unpriced_tokens: u64) -> Seq<char> {
    match cost {
        None => "-"@,
        Some(amount) => {
            let mark = if unpriced_tokens > 0 {
                "*"@
            } else {
                ""@
            };
            if (Double { bits: 0 }).is_less(amount) && amount.is_less(
                (Double { bits: HALF_A_CENT }),
            ) {
                "<$0.01"@ + mark
            } else {
                "$"@ + amount.form(2) + mark
            }
        },
    }
}

/// An amount of money.
pub fn format_cost(cost: Option<Double>, unpriced_tokens: u64) -> (out: String)
    ensures
        out@ == cost_text(cost, unpriced_tokens),
{
    match cost {
        None => String::from_str("-"),
        Some(amount) => {
            let mark = if unpriced_tokens > 0 {
                "*"
            } else {
                ""
            };
            let nothing = Double { bits: 0 };
            let half_a_cent = Double { bits: HALF_A_CENT };
            if nothing.less(amount) && amount.less(half_a_cent) {
                concat2("<$0.01", mark)
            } else {
                concat3("$", amount.text(2).as_str(), mark)
            }
        },
    }
}

/// The share of `tokens` in `total`, in percent with one decimal.
pub open spec fn share_text(tokens: nat, total: nat) -> Seq<char> {
    if total == 0 {
        "0.0%"@
    } else {
        crate::doubles::magnitude_text(crate::doubles::percentage(tokens, total), 1) + "%"@
    }
}

/// The share of `tokens` in `total`.
pub fn format_ratio(tokens: u64, total: u64) -> (out: String)
    ensures
        out@ == share_text(tokens as nat, total as nat),
{
    if total == 0 {
        return String::from_str("0.0%");
    }
    concat2(percent_of(tokens, total).text(1).as_str(), "%")
}

/// A number is rounded to the nearest, and between two to the even one.
pub proof fn numbers_are_rounded_to_the_nearest(n: nat, d: nat)
    requires
        d > 0,
    ensures
        2 * (d * rounded(n, d)) <= 2 * n + d,
        2 * n <= 2 * (d * rounded(n, d)) + d,
        2 * (d * rounded(n, d)) == 2 * n + d ==> rounded(n, d) % 2 == 0,
        2 * n == 2 * (d * rounded(n, d)) + d ==> rounded(n, d) % 2 == 0,
{
    let q = n / d;
    let r = n % d;
    assert(n == d * q + r && r < d) by (nonlinear_arith)
        requires
            d > 0,
            q == n / d,
            r == n % d,
    ;
    assert(d * (q + 1) == d * q + d) by (nonlinear_arith);
}

/// Tokens below a thousand are written out; more are written in thousands, millions or
/// billions, with one digit behind the point.
pub proof fn tokens_are_written_short(tokens: nat)
    ensures
        tokens < 1000 ==> tokens_text(tokens) == crate::numbers::decimal_of(tokens),
        1000 <= tokens < 1000000 ==> tokens_text(tokens).last() == 'K',
        1000000 <= tokens < 1000000000 ==> tokens_text(tokens).last() == 'M',
        1000000000 <= tokens ==> tokens_text(tokens).last() == 'B',
        1000 <= tokens < 1000000 && tokens % 100 == 0 ==> tokens_text(tokens)
            == crate::numbers::decimal_of(tokens / 1000) + "."@ + crate::numbers::decimal_of(
            tokens / 100 % 10,
        ) + "K"@,
        1000000 <= tokens < 1000000000 && tokens % 100000 == 0 ==> tokens_text(tokens)
            == crate::numbers::decimal_of(tokens / 1000000) + "."@ + crate::numbers::decimal_of(
            tokens / 100000 % 10,
        ) + "M"@,
        1000000000 <= tokens && tokens % 100000000 == 0 ==> tokens_text(tokens)
            == crate::numbers::decimal_of(tokens / 1000000000) + "."@ + crate::numbers::decimal_of(
            tokens / 100000000 % 10,
        ) + "B"@,
{
    reveal_strlit("K");
    reveal_strlit("M");
    reveal_strlit("B");
}

/// Padding adds spaces behind or in front until the text is wide enough, and leaves a
/// text that is as it is.
pub proof fn padding_fills_the_width(text: Seq<char>, width: nat, i: int)
    ensures
        left_aligned(text, width).len() == right_aligned(text, width).len(),
        text.len() <= width ==> left_aligned(text, width).len() == width,
        text.len() >= width ==> left_aligned(text, width) == text && right_aligned(text, width)
            == text,
        left_aligned(text, width).take(text.len() as int) == text,
        right_aligned(text, width).skip(right_aligned(text, width).len() - text.len()) == text,
        text.len() <= i < left_aligned(text, width).len() ==> left_aligned(text, width)[i] == ' ',
        0 <= i < right_aligned(text, width).len() - text.len() ==> right_aligned(text, width)[i]
            == ' ',
{
    let left = left_aligned(text, width);
    let right = right_aligned(text, width);
    assert(left.take(text.len() as int) =~= text);
    assert(right.skip(right.len() - text.len()) =~= text);
    if text.len() >= width {
        assert(left =~= text);
        assert(right =~= text);
    }
}

/// A text that is cut keeps its beginning and ends with a mark, and one that fits stays.
pub proof fn cut_texts_keep_their_beginning(text: Seq<char>, max: nat)
    ensures
        text.len() <= max ==> shortened(text, max) == text,
        text.len() > max && max > 0 ==> shortened(text, max).len() == max && shortened(
            text,
            max,
        ).take(max - 1) == text.take(max - 1) && shortened(text, max).last() == '…',
{
    reveal_strlit("…");
    if text.len() > max && max > 0 {
        assert(shortened(text, max).take(max - 1) =~= text.take(max - 1));
    }
}

/// Two digits are written of a number below a hundred, with a zero where it has one.
pub proof fn small_numbers_have_two_digits(n: nat)
    ensures
        n < 10 ==> two_digits_of(n) == seq!['0', crate::numbers::digit_char(n)],
        10 <= n < 100 ==> two_digits_of(n) == seq![
            crate::numbers::digit_char(n / 10),
            crate::numbers::digit_char(n % 10),
        ],
{
    reveal_strlit("0");
    reveal_with_fuel(crate::numbers::decimal_of, 2);
    if n < 10 {
        assert(two_digits_of(n) =~= seq!['0', crate::numbers::digit_char(n)]);
    } else if n < 100 {
        assert(two_digits_of(n) =~= seq![
            crate::numbers::digit_char(n / 10),
            crate::numbers::digit_char(n % 10),
        ]);
    }
}

/// A cost is a dash where none is known, and is marked where it leaves tokens out.
pub proof fn costs_are_marked_where_tokens_are_left_out(cost: Double, unpriced_tokens: u64)
    requires
        unpriced_tokens > 0,
    ensures
        cost_text(None, unpriced_tokens) == "-"@,
        cost_text(Some(cost), unpriced_tokens) == cost_text(Some(cost), 0) + "*"@,
        (Double { bits: 0 }).is_less(cost) && cost.is_less((Double { bits: HALF_A_CENT }))
            ==> cost_text(Some(cost), 0) == "<$0.01"@,
        !((Double { bits: 0 }).is_less(cost) && cost.is_less((Double { bits: HALF_A_CENT })))
            ==> cost_text(Some(cost), 0) == "$"@ + cost.form(2),
{
    reveal_strlit("");
    assert(""@ =~= seq![]);
    assert("<$0.01"@ + ""@ =~= "<$0.01"@);
    assert("$"@ + cost.form(2) + ""@ =~= "$"@ + cost.form(2));
}

} // verus!
