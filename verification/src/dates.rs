//! Calendar days, counted as Julian day numbers, with the `time` crate as the
//! reader and writer of dates.

use vstd::prelude::*;

verus! {

/// The Julian day number of the first date that can be named.
pub const FIRST_DAY: i32 = -1930999;

/// The Julian day number of the last date that can be named.
pub const LAST_DAY: i32 = 5373484;

/// Whether `day` is the number of a date that can be named.
pub open spec fn is_day(day: int) -> bool {
    FIRST_DAY <= day <= LAST_DAY
}

/// The Julian day number of the date that `time::Date::parse` reads from a text
/// of the form `[year]-[month]-[day]`, if it reads one.
pub uninterp spec fn date_parsed(text: Seq<char>) -> Option<int>;

/// A date of the Gregorian calendar, which is carried back to before it was in use.
pub struct DateModel {
    pub year: int,
    /// Counted from 1.
    pub month: int,
    /// The day of the month, counted from 1.
    pub day: int,
}

/// Whether a year has a leap day.
pub open spec fn is_leap_year(year: int) -> bool {
    year % 4 == 0 && (year % 100 != 0 || year % 400 == 0)
}

/// The number of days of a year.
pub open spec fn year_length(year: int) -> int {
    if is_leap_year(year) {
        366
    } else {
        365
    }
}

/// The number of days of a month.
pub open spec fn month_length(year: int, month: int) -> int {
    if month == 2 {
        year_length(year) - 337
    } else if month == 4 || month == 6 || month == 9 || month == 11 {
        30
    } else {
        31
    }
}

/// The number of days of a year before a month.
pub open spec fn days_before_month(year: int, month: int) -> int
    decreases month,
{
    if month <= 1 {
        0
    } else {
        days_before_month(year, month - 1) + month_length(year, month - 1)
    }
}

/// The number of days from the first of the year 1 to the first of a year.
pub open spec fn days_before_year(year: int) -> int {
    365 * (year - 1) + (year - 1) / 4 - (year - 1) / 100 + (year - 1) / 400
}

impl DateModel {
    /// Whether the calendar has the date.
    pub open spec fn is_date(self) -> bool {
        1 <= self.month <= 12 && 1 <= self.day <= month_length(self.year, self.month)
    }

    /// The Julian day number of the date.
    pub open spec fn number(self) -> int {
        1721425 + days_before_year(self.year) + days_before_month(self.year, self.month) + self.day
    }

    /// The text of the date: four digits for the year, after a minus if it is negative,
    /// and two each for the month and the day.
    pub open spec fn text(self) -> Seq<char> {
        let year = if self.year < 0 {
            "-"@ + crate::resume::year_of((-self.year) as nat)
        } else {
            crate::resume::year_of(self.year as nat)
        };
        year + "-"@ + crate::format::two_digits_of(self.month as nat) + "-"@
            + crate::format::two_digits_of(self.day as nat)
    }
}

/// Whether the calendar has a date and its Julian day number is `day`.
pub open spec fn is_date_of(date: DateModel, day: int) -> bool {
    date.is_date() && date.number() == day
}

/// The date with the Julian day number `day`.
pub open spec fn date_of(day: int) -> DateModel {
    choose|date: DateModel| is_date_of(date, day)
}

/// Whether `text` is that of a date with the Julian day number `day`.
pub open spec fn is_text_of(text: Seq<char>, day: int) -> bool {
    exists|date: DateModel| #[trigger] is_date_of(date, day) && text == date.text()
}

/// The text of the date with the Julian day number `day`.
pub open spec fn date_text(day: int) -> Seq<char> {
    date_of(day).text()
}

/// `time::Date::parse` with the description `[year]-[month]-[day]`: whether it
/// succeeds and which date it then yields is given by `date_parsed`. The Julian
/// day number of a date lies between those of `Date::MIN` and `Date::MAX`.
#[verifier::external_body]
pub(crate) fn parse_day(text: &str) -> (out: Option<i32>)
    ensures
        match out {
            Some(day) => date_parsed(text@) == Some(day as int) && is_day(day as int),
            None => date_parsed(text@) is None,
        },
{
    let form = time::format_description::parse("[year]-[month]-[day]").ok()?;
    let date = time::Date::parse(text, &form).ok()?;
    Some(date.to_julian_day())
}

/// `time::Date::to_string` of the date with a given Julian day number, which
/// `time::Date::from_julian_day` finds: the text of that date of the calendar.
#[verifier::external_body]
fn written_date(day: i32) -> (out: String)
    requires
        is_day(day as int),
    ensures
        is_text_of(out@, day as int),
{
    time::Date::from_julian_day(day).expect("day in range").to_string()
}

/// `time::Date::to_calendar_date` of the date with a given Julian day number, which
/// `time::Date::from_julian_day` finds: its year, its month and the day of its month.
#[verifier::external_body]
fn calendar_date(day: i32) -> (out: (i32, u8, u8))
    requires
        is_day(day as int),
    ensures
        is_date_of(
            (DateModel { year: out.0 as int, month: out.1 as int, day: out.2 as int }),
            day as int,
        ),
{
    let date = time::Date::from_julian_day(day).expect("day in range");
    let (year, month, number) = date.to_calendar_date();
    (year, u8::from(month), number)
}

proof fn lemma_years_follow(first: int, second: int)
    requires
        first < second,
    ensures
        days_before_year(first) + year_length(first) <= days_before_year(second),
    decreases second - first,
{
    assert(days_before_year(second - 1) + year_length(second - 1) == days_before_year(second));
    if first < second - 1 {
        lemma_years_follow(first, second - 1);
    }
}

proof fn lemma_months_follow(year: int, first: int, second: int)
    requires
        1 <= first < second,
    ensures
        days_before_month(year, first) + month_length(year, first) <= days_before_month(
            year,
            second,
        ),
    decreases second - first,
{
    if first < second - 1 {
        lemma_months_follow(year, first, second - 1);
    }
}

proof fn lemma_date_in_year(date: DateModel)
    requires
        date.is_date(),
    ensures
        1 <= days_before_month(date.year, date.month) + date.day <= year_length(date.year),
{
    reveal_with_fuel(days_before_month, 13);
    lemma_months_follow(date.year, date.month, 13);
    if date.month > 1 {
        lemma_months_follow(date.year, 1, date.month);
    }
}

/// No two dates have the same Julian day number.
pub proof fn dates_are_told_apart_by_number(a: DateModel, b: DateModel)
    requires
        a.is_date(),
        b.is_date(),
        a.number() == b.number(),
    ensures
        a == b,
{
    lemma_date_in_year(a);
    lemma_date_in_year(b);
    if a.year < b.year {
        lemma_years_follow(a.year, b.year);
    } else if b.year < a.year {
        lemma_years_follow(b.year, a.year);
    } else if a.month < b.month {
        lemma_months_follow(a.year, a.month, b.month);
    } else if b.month < a.month {
        lemma_months_follow(a.year, b.month, a.month);
    }
}

proof fn lemma_date_of(date: DateModel)
    requires
        date.is_date(),
    ensures
        date_of(date.number()) == date,
{
    let found = date_of(date.number());
    assert(is_date_of(date, date.number()));
    assert(is_date_of(found, date.number()));
    dates_are_told_apart_by_number(found, date);
}

/// The text of the date with the Julian day number `day`.
pub(crate) fn day_text(day: i32) -> (out: String)
    requires
        is_day(day as int),
    ensures
        out@ == date_text(day as int),
{
    let out = written_date(day);
    proof {
        let date = choose|date: DateModel| #[trigger]
            is_date_of(date, day as int) && out@ == date.text();
        lemma_date_of(date);
    }
    out
}

/// The month and the day of the month of the date with the Julian day number `day`.
pub(crate) fn calendar_day(day: i32) -> (out: (u8, u8))
    requires
        is_day(day as int),
    ensures
        out.0 == date_of(day as int).month,
        out.1 == date_of(day as int).day,
        1 <= out.0 <= 12,
        1 <= out.1 <= 31,
{
    let (year, month, number) = calendar_date(day);
    proof {
        lemma_date_of(DateModel { year: year as int, month: month as int, day: number as int });
    }
    (month, number)
}

/// The time that `time::OffsetDateTime::parse` reads from a text in the form of
/// RFC 3339, in nanoseconds since 1970, if it reads one.
pub uninterp spec fn rfc3339_parsed(text: Seq<char>) -> Option<int>;

/// `time::OffsetDateTime::parse` with the form `Rfc3339`, then
/// `unix_timestamp_nanos`.
#[verifier::external_body]
pub(crate) fn parse_rfc3339(text: &str) -> (out: Option<i128>)
    ensures
        match out {
            Some(nanos) => rfc3339_parsed(text@) == Some(nanos as int),
            None => rfc3339_parsed(text@) is None,
        },
{
    let form = time::format_description::well_known::Rfc3339;
    let moment = time::OffsetDateTime::parse(text, &form).ok()?;
    Some(moment.unix_timestamp_nanos())
}

/// Days are numbered one after the other, through the months and the years.
pub proof fn days_are_numbered_in_order(date: DateModel)
    requires
        date.is_date(),
    ensures
        date.day < month_length(date.year, date.month) ==> (DateModel {
            day: date.day + 1,
            ..date
        }).number() == date.number() + 1,
        date.day == month_length(date.year, date.month) && date.month < 12 ==> (DateModel {
            month: date.month + 1,
            day: 1,
            ..date
        }).number() == date.number() + 1,
        date.day == 31 && date.month == 12 ==> (DateModel {
            year: date.year + 1,
            month: 1,
            day: 1,
        }).number() == date.number() + 1,
{
    reveal_with_fuel(days_before_month, 13);
}

/// A year has a day more every four years, but not every hundred, and yet every four
/// hundred.
pub proof fn leap_years_come_every_four(year: int)
    ensures
        year % 400 == 0 ==> year_length(year) == 366,
        year % 100 == 0 && year % 400 != 0 ==> year_length(year) == 365,
        year % 4 == 0 && year % 100 != 0 ==> year_length(year) == 366,
        year % 4 != 0 ==> year_length(year) == 365,
        month_length(year, 2) == year_length(year) - 337,
        days_before_year(year + 1) == days_before_year(year) + year_length(year),
{
}

} // verus!
