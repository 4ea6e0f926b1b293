//! The range of days that statistics cover.

use vstd::prelude::*;

use crate::dates::day_text;
use crate::dates::parse_day;
use crate::lines::trim;
use crate::numbers::decimal;
use crate::numbers::parse_number;
use crate::text::chars_of;
use crate::text::concat2;
use crate::text::concat3;
use crate::text::same;
use crate::text::split_once_text;
use crate::text::string_of;
use crate::text::strip_prefix;
use crate::text::strip_suffix;
use crate::text::sub_chars;
use crate::text::to_lower;

verus! {

/// The most days that are shown at once.
pub const MAX_SELECTED_DAYS: u32 = 3660;

/// The days that statistics cover, as Julian day numbers.
#[derive(Clone, Copy, Debug, PartialEq, Eq, Structural)]
pub enum StatsRangeKind {
    All,
    LastDays(u32),
    Since(i32),
    Between { start: i32, end: i32 },
}

/// A range of days, and the text that stands for it.
#[derive(Debug)]
pub struct StatsRange {
    pub raw: String,
    pub kind: StatsRangeKind,
}

impl StatsRangeKind {
    /// Whether every date of the range can be named.
    pub open spec fn is_valid(self) -> bool {
        match self {
            StatsRangeKind::All => true,
            StatsRangeKind::LastDays(_) => true,
            StatsRangeKind::Since(day) => crate::dates::is_day(day as int),
            StatsRangeKind::Between { start, end } => crate::dates::is_day(start as int)
                && crate::dates::is_day(end as int),
        }
    }

    /// The range in words.
    pub open spec fn words(self) -> Seq<char> {
        match self {
            StatsRangeKind::All => "All time"@,
            StatsRangeKind::LastDays(days) => "Last "@ + crate::numbers::decimal_of(days as nat)
                + " days"@,
            StatsRangeKind::Since(day) => "Since "@ + crate::dates::date_text(day as int),
            StatsRangeKind::Between { start, end } => crate::dates::date_text(start as int)
                + " to "@ + crate::dates::date_text(end as int),
        }
    }
}

/// A range of days over mathematical values.
pub struct RangeModel {
    pub raw: Seq<char>,
    pub kind: StatsRangeKind,
}

impl View for StatsRange {
    type V = RangeModel;

    open spec fn view(&self) -> RangeModel {
        RangeModel { raw: self.raw@, kind: self.kind }
    }
}

// ---------------------------------------------------------------------------
// Relative ranges
// ---------------------------------------------------------------------------

/// `a` if it is something, else `b`.
pub open spec fn first_of(a: Option<Seq<char>>, b: Option<Seq<char>>) -> Option<Seq<char>> {
    match a {
        Some(_) => a,
        None => b,
    }
}

/// The count and unit of a relative range, without the words `last` and `days`.
pub open spec fn bare_count(value: Seq<char>) -> Seq<char> {
    let head = match first_of(
        crate::text::stripped_prefix(value, "last-"@),
        crate::text::stripped_prefix(value, "last"@),
    ) {
        Some(rest) => rest,
        None => value,
    };
    match first_of(
        first_of(
            crate::text::stripped_suffix(head, "-days"@),
            crate::text::stripped_suffix(value, "days"@),
        ),
        first_of(
            crate::text::stripped_suffix(value, "-day"@),
            crate::text::stripped_suffix(value, "day"@),
        ),
    ) {
        Some(rest) => rest,
        None => value,
    }
}

/// The number of digits that `s` starts with.
pub open spec fn leading_digits(s: Seq<char>) -> nat
    decreases s.len(),
{
    if s.len() > 0 && crate::numbers::is_digit(s[0]) {
        1 + leading_digits(s.skip(1))
    } else {
        0
    }
}

/// The number of days in a unit of time.
pub open spec fn unit_days(unit: Seq<char>) -> Option<nat> {
    if unit == "d"@ {
        Some(1)
    } else if unit == "w"@ {
        Some(7)
    } else if unit == "m"@ {
        Some(30)
    } else if unit == "y"@ {
        Some(365)
    } else {
        None
    }
}

/// The number of days that a relative range covers: a positive number, alone or
/// of days, weeks, months or years.
pub open spec fn relative_days(value: Seq<char>) -> Option<nat> {
    let bare = bare_count(value);
    let n = leading_digits(bare) as int;
    match crate::numbers::parsed_number(bare.take(n), u32::MAX as nat) {
        Some(count) if count > 0 => if n == bare.len() {
            Some(count)
        } else {
            match unit_days(bare.skip(n)) {
                Some(days) if count * days <= u32::MAX => Some(count * days),
                _ => None,
            }
        },
        _ => None,
    }
}

proof fn lemma_leading_digits(s: Seq<char>)
    ensures
        leading_digits(s) <= s.len(),
        forall|j: int| 0 <= j < leading_digits(s) ==> crate::numbers::is_digit(#[trigger] s[j]),
        leading_digits(s) < s.len() ==> !crate::numbers::is_digit(s[leading_digits(s) as int]),
    decreases s.len(),
{
    if s.len() > 0 && crate::numbers::is_digit(s[0]) {
        let t = s.skip(1);
        lemma_leading_digits(t);
        assert forall|j: int| 0 <= j < leading_digits(s) implies crate::numbers::is_digit(
            #[trigger] s[j],
        ) by {
            if j > 0 {
                assert(t[j - 1] == s[j]);
            }
        }
    }
}

fn count_digits(s: &Vec<char>) -> (out: usize)
    ensures
        out == leading_digits(s@),
        out <= s@.len(),
{
    let mut n: usize = 0;
    proof {
        assert(s@.skip(0) =~= s@);
    }
    while n < s.len() && s[n] >= '0' && s[n] <= '9'
        invariant
            n <= s.len(),
            leading_digits(s@) == n + leading_digits(s@.skip(n as int)),
        decreases s.len() - n,
    {
        proof {
            assert(s@.skip(n as int)[0] == s@[n as int]);
            assert(s@.skip(n as int).skip(1) =~= s@.skip(n + 1));
        }
        n += 1;
    }
    proof {
        if n < s@.len() {
            assert(s@.skip(n as int)[0] == s@[n as int]);
        }
    }
    n
}

fn strip_words(value: &Vec<char>) -> (out: Vec<char>)
    ensures
        out@ == bare_count(value@),
{
    let whole = sub_chars(value, 0, value.len());
    proof {
        assert(whole@ =~= value@);
    }
    let head = match strip_prefix(value, "last-") {
        Some(rest) => rest,
        None => match strip_prefix(value, "last") {
            Some(rest) => rest,
            None => sub_chars(value, 0, value.len()),
        },
    };
    proof {
        assert(value@.subrange(0, value@.len() as int) =~= value@);
    }
    if let Some(rest) = strip_suffix(&head, "-days") {
        return rest;
    }
    if let Some(rest) = strip_suffix(value, "days") {
        return rest;
    }
    if let Some(rest) = strip_suffix(value, "-day") {
        return rest;
    }
    if let Some(rest) = strip_suffix(value, "day") {
        return rest;
    }
    whole
}

/// The number of days that a relative range covers.
pub fn parse_relative_days(value: &Vec<char>) -> (out: Option<u32>)
    ensures
        match out {
            Some(days) => relative_days(value@) == Some(days as nat),
            None => relative_days(value@) is None,
        },
        out matches Some(days) ==> days > 0,
{
    let bare = strip_words(value);
    let n = count_digits(&bare);
    let number = sub_chars(&bare, 0, n);
    let unit = string_of(&sub_chars(&bare, n, bare.len()));
    proof {
        assert(number@ =~= bare@.take(n as int));
        assert(unit@ =~= bare@.skip(n as int));
    }
    match parse_number(&number, u32::MAX as u64) {
        None => None,
        Some(count) => {
            if count == 0 {
                return None;
            }
            if n == bare.len() {
                return Some(count as u32);
            }
            let factor: u32 = if same(unit.as_str(), "d") {
                1
            } else if same(unit.as_str(), "w") {
                7
            } else if same(unit.as_str(), "m") {
                30
            } else if same(unit.as_str(), "y") {
                365
            } else {
                return None;
            };
            proof {
                assert(count as nat * factor as nat > 0) by (nonlinear_arith)
                    requires
                        count > 0,
                        factor > 0,
                ;
            }
            (count as u32).checked_mul(factor)
        },
    }
}

// ---------------------------------------------------------------------------
// Ranges
// ---------------------------------------------------------------------------

/// The date that `text` names, or why it names none.
pub open spec fn date_or_reason(text: Seq<char>) -> Result<int, Seq<char>> {
    match crate::dates::date_parsed(text) {
        Some(day) => Ok(day),
        None => Err("invalid date `"@ + text + "`; expected YYYY-MM-DD"@),
    }
}

/// The date that `text` names, or why it names none.
pub fn parse_stats_date(text: &str) -> (out: Result<i32, String>)
    ensures
        match out {
            Ok(day) => date_or_reason(text@) == Ok::<int, Seq<char>>(day as int)
                && crate::dates::is_day(day as int),
            Err(message) => date_or_reason(text@) == Err::<int, Seq<char>>(message@),
        },
{
    match parse_day(text) {
        Some(day) => Ok(day),
        None => Err(concat3("invalid date `", text, "`; expected YYYY-MM-DD")),
    }
}

/// What a text names that is no range at all.
pub open spec fn range_help() -> Seq<char> {
    "range must be all, Nd/Nw/Nm/Ny, YYYY-MM-DD, or YYYY-MM-DD..YYYY-MM-DD"@
}

/// The range that `value` names, or why it names none.
pub open spec fn range_or_reason(value: Seq<char>) -> Result<RangeModel, Seq<char>> {
    let raw = crate::lines::trimmed(value);
    let low = crate::text::lowered(raw);
    if raw.len() == 0 {
        Err("range cannot be empty"@)
    } else if low == "all"@ {
        Ok(RangeModel { raw: "all"@, kind: StatsRangeKind::All })
    } else if relative_days(low) is Some {
        Ok(RangeModel { raw: low, kind: StatsRangeKind::LastDays(relative_days(low)->0 as u32) })
    } else {
        match crate::text::split_at_text(raw, ".."@) {
            Some((first, second)) => match date_or_reason(crate::lines::trimmed(first)) {
                Err(message) => Err(message),
                Ok(start) => match date_or_reason(crate::lines::trimmed(second)) {
                    Err(message) => Err(message),
                    Ok(end) => Ok(
                        RangeModel {
                            raw: crate::dates::date_text(start) + ".."@ + crate::dates::date_text(
                                end,
                            ),
                            kind: StatsRangeKind::Between { start: start as i32, end: end as i32 },
                        },
                    ),
                },
            },
            None => match date_or_reason(raw) {
                Ok(day) => Ok(
                    RangeModel {
                        raw: crate::dates::date_text(day),
                        kind: StatsRangeKind::Since(day as i32),
                    },
                ),
                Err(_) => Err(range_help()),
            },
        }
    }
}

/// The outcome of reading a range, over mathematical values.
pub open spec fn range_result(out: Result<StatsRange, String>) -> Result<RangeModel, Seq<char>> {
    match out {
        Ok(range) => Ok(range@),
        Err(message) => Err(message@),
    }
}

impl StatsRange {
    /// The text that stands for the range.
    pub fn key(&self) -> (out: &String)
        ensures
            out@ == self@.raw,
    {
        &self.raw
    }

    /// The days of the range.
    pub fn kind(&self) -> (out: StatsRangeKind)
        ensures
            out == self@.kind,
    {
        self.kind
    }

    /// The range in words.
    pub fn label(&self) -> (out: String)
        requires
            self.kind.is_valid(),
        ensures
            out@ == self@.kind.words(),
    {
        match self.kind {
            StatsRangeKind::All => String::from_str("All time"),
            StatsRangeKind::LastDays(days) => concat3(
                "Last ",
                decimal(days as u64).as_str(),
                " days",
            ),
            StatsRangeKind::Since(day) => concat2("Since ", day_text(day).as_str()),
            StatsRangeKind::Between { start, end } => concat3(
                day_text(start).as_str(),
                " to ",
                day_text(end).as_str(),
            ),
        }
    }

    /// Reads a range.
    pub fn parse(value: &str) -> (out: Result<StatsRange, String>)
        ensures
            range_result(out) == range_or_reason(value@),
            out matches Ok(range) ==> range.kind.is_valid(),
    {
        let raw = trim(&chars_of(value));
        if raw.len() == 0 {
            return Err(String::from_str("range cannot be empty"));
        }
        let low = to_lower(&raw);
        let low_text = string_of(&low);
        if same(low_text.as_str(), "all") {
            return Ok(StatsRange { raw: String::from_str("all"), kind: StatsRangeKind::All });
        }
        if let Some(days) = parse_relative_days(&low) {
            return Ok(StatsRange { raw: low_text, kind: StatsRangeKind::LastDays(days) });
        }
        match split_once_text(&raw, "..") {
            Some(pair) => {
                let first = string_of(&trim(&pair.0));
                let second = string_of(&trim(&pair.1));
                match parse_stats_date(first.as_str()) {
                    Err(message) => Err(message),
                    Ok(start) => match parse_stats_date(second.as_str()) {
                        Err(message) => Err(message),
                        Ok(end) => Ok(
                            StatsRange {
                                raw: concat3(
                                    day_text(start).as_str(),
                                    "..",
                                    day_text(end).as_str(),
                                ),
                                kind: StatsRangeKind::Between { start, end },
                            },
                        ),
                    },
                }
            },
            None => {
                let text = string_of(&raw);
                match parse_stats_date(text.as_str()) {
                    Ok(day) => Ok(
                        StatsRange {
                            raw: day_text(day),
                            kind: StatsRangeKind::Since(day),
                        },
                    ),
                    Err(_) => Err(
                        String::from_str(
                            "range must be all, Nd/Nw/Nm/Ny, YYYY-MM-DD, or YYYY-MM-DD..YYYY-MM-DD",
                        ),
                    ),
                }
            },
        }
    }

    /// The range of the last `days` days.
    pub fn last_days(days: u32) -> (out: StatsRange)
        ensures
            out@ == last_days_range(days),
    {
        StatsRange {
            raw: concat2(decimal(days as u64).as_str(), "d"),
            kind: StatsRangeKind::LastDays(days),
        }
    }

    /// The range of all days.
    pub fn all() -> (out: StatsRange)
        ensures
            out@ == (RangeModel { raw: "all"@, kind: StatsRangeKind::All }),
    {
        StatsRange { raw: String::from_str("all"), kind: StatsRangeKind::All }
    }

    /// A copy of the range.
    pub fn copy(&self) -> (out: StatsRange)
        ensures
            out@ == self@,
    {
        StatsRange { raw: self.raw.clone(), kind: self.kind }
    }
}

/// The range of the last `days` days.
pub open spec fn last_days_range(days: u32) -> RangeModel {
    RangeModel {
        raw: crate::numbers::decimal_of(days as nat) + "d"@,
        kind: StatsRangeKind::LastDays(days),
    }
}

// ---------------------------------------------------------------------------
// Zooming
// ---------------------------------------------------------------------------

/// Whether fewer or more days are asked for.
#[derive(Clone, Copy, Debug, PartialEq, Eq, Structural)]
pub enum ZoomDirection {
    In,
    Out,
}

/// The number of days after zooming from `days`.
pub open spec fn zoomed_days(days: int, direction: ZoomDirection) -> int {
    let next = match direction {
        ZoomDirection::In => if days == u32::MAX {
            days / 2
        } else {
            (days + 1) / 2
        },
        ZoomDirection::Out => 2 * days,
    };
    if next < 1 {
        1
    } else if next > MAX_SELECTED_DAYS {
        MAX_SELECTED_DAYS as int
    } else {
        next
    }
}

/// The number of days that zooming starts from.
pub open spec fn zoom_base(kind: StatsRangeKind) -> int {
    match kind {
        StatsRangeKind::LastDays(days) => days as int,
        _ => 30,
    }
}

/// The range after zooming: half or twice as many days.
pub fn zoom_stats_range(range: &StatsRange, direction: ZoomDirection) -> (out: StatsRange)
    ensures
        out@ == last_days_range(zoomed_days(zoom_base(range@.kind), direction) as u32),
{
    let days: u32 = match range.kind {
        StatsRangeKind::LastDays(days) => days,
        _ => 30,
    };
    let next: u32 = match direction {
        ZoomDirection::In => days.saturating_add(1) / 2,
        ZoomDirection::Out => if days > MAX_SELECTED_DAYS {
            MAX_SELECTED_DAYS
        } else {
            days * 2
        },
    };
    let clamped: u32 = if next < 1 {
        1
    } else if next > MAX_SELECTED_DAYS {
        MAX_SELECTED_DAYS
    } else {
        next
    };
    StatsRange::last_days(clamped)
}

// ---------------------------------------------------------------------------
// Laws
// ---------------------------------------------------------------------------

/// The text that stands for a number of days is read as that number of days.
pub proof fn day_counts_read_back(days: u32)
    requires
        days > 0,
    ensures
        range_or_reason(last_days_range(days).raw) == Ok::<RangeModel, Seq<char>>(
            last_days_range(days),
        ),
{
    reveal_strlit("d");
    reveal_strlit("all");
    reveal_strlit("last-");
    reveal_strlit("last");
    reveal_strlit("-days");
    reveal_strlit("days");
    reveal_strlit("-day");
    reveal_strlit("day");
    let digits = crate::numbers::decimal_of(days as nat);
    let text = digits + "d"@;
    crate::numbers::lemma_decimal_parses(days as nat);
    assert(crate::numbers::is_digit(digits[0]));
    assert(text[0] == digits[0]);
    assert(text.last() == 'd');
    crate::lines::lemma_trimmed_fixed(text);
    assert forall|i: int| 0 <= i < text.len() implies #[trigger] crate::text::lowered(text)[i]
        == text[i] by {
        if i < digits.len() {
            assert(crate::numbers::is_digit(digits[i]));
        }
    }
    assert(crate::text::lowered(text) =~= text);
    assert(text.last() == 'd' && "all"@.last() == 'l');
    assert("last"@[0] == 'l' && "last-"@[0] == 'l');
    assert(!crate::text::has_prefix(text, "last"@)) by {
        if crate::text::has_prefix(text, "last"@) {
            assert(text.take(4)[0] == text[0]);
        }
    }
    assert(!crate::text::has_prefix(text, "last-"@)) by {
        if crate::text::has_prefix(text, "last-"@) {
            assert(text.take(5)[0] == text[0]);
        }
    }
    assert(!crate::text::has_suffix(text, "days"@)) by {
        if crate::text::has_suffix(text, "days"@) {
            assert(text.skip(text.len() - 4)[3] == text.last());
        }
    }
    assert(!crate::text::has_suffix(text, "-days"@)) by {
        if crate::text::has_suffix(text, "-days"@) {
            assert(text.skip(text.len() - 5)[4] == text.last());
        }
    }
    assert(!crate::text::has_suffix(text, "day"@)) by {
        if crate::text::has_suffix(text, "day"@) {
            assert(text.skip(text.len() - 3)[2] == text.last());
        }
    }
    assert(!crate::text::has_suffix(text, "-day"@)) by {
        if crate::text::has_suffix(text, "-day"@) {
            assert(text.skip(text.len() - 4)[3] == text.last());
        }
    }
    assert(bare_count(text) == text);
    lemma_leading_digits(text);
    let n = leading_digits(text) as int;
    if n < digits.len() {
        assert(crate::numbers::is_digit(digits[n]));
        assert(text[n] == digits[n]);
    }
    if n > digits.len() {
        assert(crate::numbers::is_digit(text[digits.len() as int]));
    }
    assert(text.take(n) =~= digits);
    assert(text.skip(n) =~= "d"@);
    crate::numbers::lemma_parse_decimal(days as nat, u32::MAX as nat);
    assert(unit_days("d"@) == Some(1nat));
    assert((days as nat) * 1nat == days as nat) by (nonlinear_arith);
    assert(relative_days(text) == Some(days as nat));
}

/// Zooming stays between one day and the most days that are shown.
pub proof fn zooming_is_bounded(days: int, direction: ZoomDirection)
    ensures
        1 <= zoomed_days(days, direction) <= MAX_SELECTED_DAYS,
{
}

/// Zooming out undoes zooming in for an even number of days in range.
pub proof fn zooming_out_undoes_zooming_in(days: int)
    requires
        1 <= days <= MAX_SELECTED_DAYS,
        days % 2 == 0,
    ensures
        zoomed_days(zoomed_days(days, ZoomDirection::In), ZoomDirection::Out) == days,
{
}

proof fn lemma_bare_count(count: nat, unit: char)
    requires
        unit == 'd' || unit == 'w' || unit == 'm' || unit == 'y',
    ensures
        bare_count(crate::numbers::decimal_of(count) + seq![unit]) == crate::numbers::decimal_of(
            count,
        ) + seq![unit],
        leading_digits(crate::numbers::decimal_of(count) + seq![unit]) == crate::numbers::decimal_of(
            count,
        ).len(),
{
    reveal_strlit("last-");
    reveal_strlit("last");
    reveal_strlit("-days");
    reveal_strlit("days");
    reveal_strlit("-day");
    reveal_strlit("day");
    let digits = crate::numbers::decimal_of(count);
    let text = digits + seq![unit];
    crate::numbers::lemma_decimal_parses(count);
    assert(crate::numbers::is_digit(digits[0]));
    assert(crate::numbers::is_digit(digits[digits.len() - 1]));
    assert(text[0] == digits[0]);
    assert(text.last() == unit);
    assert(text[text.len() - 2] == digits[digits.len() - 1]);
    assert(!crate::text::has_prefix(text, "last"@)) by {
        if crate::text::has_prefix(text, "last"@) {
            assert(text.take(4)[0] == text[0]);
        }
    }
    assert(!crate::text::has_prefix(text, "last-"@)) by {
        if crate::text::has_prefix(text, "last-"@) {
            assert(text.take(5)[0] == text[0]);
        }
    }
    assert(!crate::text::has_suffix(text, "days"@)) by {
        if crate::text::has_suffix(text, "days"@) {
            assert(text.skip(text.len() - 4)[3] == text.last());
        }
    }
    assert(!crate::text::has_suffix(text, "-days"@)) by {
        if crate::text::has_suffix(text, "-days"@) {
            assert(text.skip(text.len() - 5)[4] == text.last());
        }
    }
    assert(!crate::text::has_suffix(text, "day"@)) by {
        if crate::text::has_suffix(text, "day"@) {
            assert(text.skip(text.len() - 3)[1] == text[text.len() - 2]);
        }
    }
    assert(!crate::text::has_suffix(text, "-day"@)) by {
        if crate::text::has_suffix(text, "-day"@) {
            assert(text.skip(text.len() - 4)[2] == text[text.len() - 2]);
        }
    }
    lemma_leading_digits(text);
    let n = leading_digits(text) as int;
    if n < digits.len() {
        assert(crate::numbers::is_digit(digits[n]));
        assert(text[n] == digits[n]);
    }
    if n > digits.len() {
        assert(crate::numbers::is_digit(text[digits.len() as int]));
    }
}

/// A number of days, weeks, months or years stands for one, seven, thirty or three
/// hundred and sixty-five days each.
pub proof fn counts_have_units(count: nat, unit: char)
    requires
        0 < count <= u32::MAX,
        unit == 'd' || unit == 'w' || unit == 'm' || unit == 'y',
    ensures
        ({
            let days: nat = if unit == 'd' {
                1
            } else if unit == 'w' {
                7
            } else if unit == 'm' {
                30
            } else {
                365
            };
            let read = relative_days(crate::numbers::decimal_of(count) + seq![unit]);
            &&& count * days <= u32::MAX ==> read == Some(count * days)
            &&& count * days > u32::MAX ==> read is None
        }),
{
    reveal_strlit("d");
    reveal_strlit("w");
    reveal_strlit("m");
    reveal_strlit("y");
    assert("d"@ =~= seq!['d']);
    assert("w"@ =~= seq!['w']);
    assert("m"@ =~= seq!['m']);
    assert("y"@ =~= seq!['y']);
    assert(seq![unit][0] == unit);
    assert(seq!['d'][0] == 'd' && seq!['w'][0] == 'w' && seq!['m'][0] == 'm');
    lemma_bare_count(count, unit);
    let digits = crate::numbers::decimal_of(count);
    let text = digits + seq![unit];
    assert(text.take(digits.len() as int) =~= digits);
    assert(text.skip(digits.len() as int) =~= seq![unit]);
    crate::numbers::lemma_parse_decimal(count, u32::MAX as nat);
}

/// A count may stand behind `last` and before `days`.
pub proof fn counts_may_have_words(value: Seq<char>, count: Seq<char>)
    ensures
        value == count + "days"@ && !crate::text::has_suffix(
            match first_of(
                crate::text::stripped_prefix(value, "last-"@),
                crate::text::stripped_prefix(value, "last"@),
            ) {
                Some(rest) => rest,
                None => value,
            },
            "-days"@,
        ) ==> bare_count(value) == count,
        value == "last-"@ + count + "-days"@ ==> bare_count(value) == count,
        value == "last"@ + count + "-days"@ && !crate::text::has_prefix(value, "last-"@)
            ==> bare_count(value) == count,
{
    if value == count + "days"@ {
        assert(value.skip(value.len() - "days"@.len()) =~= "days"@);
        assert(value.take(value.len() - "days"@.len()) =~= count);
    }
    if value == "last-"@ + count + "-days"@ {
        let head = count + "-days"@;
        assert(value.take("last-"@.len() as int) =~= "last-"@);
        assert(value.skip("last-"@.len() as int) =~= head);
        assert(head.skip(head.len() - "-days"@.len()) =~= "-days"@);
        assert(head.take(head.len() - "-days"@.len()) =~= count);
    }
    if value == "last"@ + count + "-days"@ && !crate::text::has_prefix(value, "last-"@) {
        let head = count + "-days"@;
        assert(value.take("last"@.len() as int) =~= "last"@);
        assert(value.skip("last"@.len() as int) =~= head);
        assert(head.skip(head.len() - "-days"@.len()) =~= "-days"@);
        assert(head.take(head.len() - "-days"@.len()) =~= count);
    }
}

/// A range is everything, a number of days, what is since a date, or what is between
/// two dates, in the order in which they stand. Nothing is refused as empty and what is
/// none of these is refused too.
pub proof fn ranges_are_told_apart(value: Seq<char>, first: Seq<char>, second: Seq<char>)
    ensures
        ({
            let raw = crate::lines::trimmed(value);
            let low = crate::text::lowered(raw);
            let relative = relative_days(low);
            let out = range_or_reason(value);
            let parts = crate::text::split_at_text(raw, ".."@);
            let named = raw.len() > 0 && low != "all"@ && relative is None;
            let a = crate::dates::date_parsed(crate::lines::trimmed(first));
            let b = crate::dates::date_parsed(crate::lines::trimmed(second));
            &&& raw.len() == 0 ==> out is Err
            &&& raw.len() > 0 && low == "all"@ ==> out is Ok && out->Ok_0.kind == StatsRangeKind::All
            &&& raw.len() > 0 && low != "all"@ && relative is Some ==> out is Ok && out->Ok_0.kind
                == StatsRangeKind::LastDays(relative->0 as u32)
            &&& named && parts is None && crate::dates::date_parsed(raw) is Some ==> out is Ok
                && out->Ok_0.kind == StatsRangeKind::Since(
                crate::dates::date_parsed(raw)->0 as i32,
            )
            &&& named && parts is None && crate::dates::date_parsed(raw) is None ==> out is Err
            &&& named && parts == Some((first, second)) && a is Some && b is Some ==> out is Ok
                && out->Ok_0.kind == (StatsRangeKind::Between {
                start: a->0 as i32,
                end: b->0 as i32,
            })
            &&& named && parts == Some((first, second)) && (a is None || b is None) ==> out is Err
        }),
{
}

/// A range is called by what it holds.
pub proof fn ranges_are_called_by_what_they_hold(days: u32, start: i32, end: i32)
    ensures
        StatsRangeKind::All.words() == "All time"@,
        StatsRangeKind::LastDays(days).words() == "Last "@ + crate::numbers::decimal_of(days as nat)
            + " days"@,
        StatsRangeKind::Since(start).words() == "Since "@ + crate::dates::date_text(start as int),
        (StatsRangeKind::Between { start, end }).words() == crate::dates::date_text(start as int)
            + " to "@ + crate::dates::date_text(end as int),
{
}

/// Zooming in halves the days, rounded up, and zooming out doubles them. What is no
/// number of days is zoomed as thirty.
pub proof fn zooming_halves_and_doubles(days: int, day: i32)
    requires
        1 <= days <= MAX_SELECTED_DAYS,
    ensures
        2 * zoomed_days(days, ZoomDirection::In) == days || 2 * zoomed_days(days, ZoomDirection::In)
            == days + 1,
        2 * days <= 3660 ==> zoomed_days(days, ZoomDirection::Out) == 2 * days,
        2 * days > 3660 ==> zoomed_days(days, ZoomDirection::Out) == 3660,
        zoom_base(StatsRangeKind::LastDays(days as u32)) == days,
        zoom_base(StatsRangeKind::All) == 30,
        zoom_base(StatsRangeKind::Since(day)) == 30,
{
}

} // verus!
