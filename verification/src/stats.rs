//! Token usage, by day, model and slot, and the days that a report covers.
//!
//! Sums of counts stop at the largest number that a count can hold.

use vstd::prelude::*;

use crate::dates::day_text;
use crate::dates::parse_day;
use crate::dates::FIRST_DAY;
use crate::doubles::Double;
use crate::ranges::StatsRange;
use crate::ranges::StatsRangeKind;
use crate::ranges::MAX_SELECTED_DAYS;

verus! {

// ---------------------------------------------------------------------------
// Counts
// ---------------------------------------------------------------------------

/// `n`, or the largest count if `n` is larger.
pub open spec fn capped(n: int) -> u64 {
    if n > u64::MAX {
        u64::MAX
    } else {
        n as u64
    }
}

/// What was used, by kind of token.
#[derive(Clone, Copy, Debug)]
pub struct TokenUsage {
    pub tokens: u64,
    pub input_tokens: u64,
    pub cached_input_tokens: u64,
    pub output_tokens: u64,
    pub reasoning_output_tokens: u64,
    pub uncategorized_tokens: u64,
    pub estimated_cost: Option<Double>,
    pub priced_tokens: u64,
    pub unpriced_tokens: u64,
}

/// Nothing used.
pub open spec fn no_usage() -> TokenUsage {
    TokenUsage {
        tokens: 0,
        input_tokens: 0,
        cached_input_tokens: 0,
        output_tokens: 0,
        reasoning_output_tokens: 0,
        uncategorized_tokens: 0,
        estimated_cost: None,
        priced_tokens: 0,
        unpriced_tokens: 0,
    }
}

/// A cost with one more, either of which may be unknown.
pub open spec fn cost_sum(a: Option<Double>, b: Option<Double>) -> Option<Double> {
    match (a, b) {
        (Some(x), Some(y)) => Some(x.sum(y)),
        (None, Some(y)) => Some((Double { bits: 0 }).sum(y)),
        (_, None) => a,
    }
}

/// The sum of two usages.
pub open spec fn usage_sum(a: TokenUsage, b: TokenUsage) -> TokenUsage {
    TokenUsage {
        tokens: capped(a.tokens + b.tokens),
        input_tokens: capped(a.input_tokens + b.input_tokens),
        cached_input_tokens: capped(a.cached_input_tokens + b.cached_input_tokens),
        output_tokens: capped(a.output_tokens + b.output_tokens),
        reasoning_output_tokens: capped(a.reasoning_output_tokens + b.reasoning_output_tokens),
        uncategorized_tokens: capped(a.uncategorized_tokens + b.uncategorized_tokens),
        estimated_cost: cost_sum(a.estimated_cost, b.estimated_cost),
        priced_tokens: capped(a.priced_tokens + b.priced_tokens),
        unpriced_tokens: capped(a.unpriced_tokens + b.unpriced_tokens),
    }
}

impl TokenUsage {
    /// Nothing used.
    pub fn none() -> (out: TokenUsage)
        ensures
            out == no_usage(),
    {
        TokenUsage {
            tokens: 0,
            input_tokens: 0,
            cached_input_tokens: 0,
            output_tokens: 0,
            reasoning_output_tokens: 0,
            uncategorized_tokens: 0,
            estimated_cost: None,
            priced_tokens: 0,
            unpriced_tokens: 0,
        }
    }

    /// The sum of this usage and `other`.
    pub fn add_usage(&self, other: &TokenUsage) -> (out: TokenUsage)
        ensures
            out == usage_sum(*self, *other),
    {
        let nothing = Double { bits: 0 };
        let cost: Option<Double> = match (self.estimated_cost, other.estimated_cost) {
            (Some(x), Some(y)) => Some(x.plus(y)),
            (None, Some(y)) => Some(nothing.plus(y)),
            (_, None) => self.estimated_cost,
        };
        TokenUsage {
            tokens: self.tokens.saturating_add(other.tokens),
            input_tokens: self.input_tokens.saturating_add(other.input_tokens),
            cached_input_tokens: self.cached_input_tokens.saturating_add(
                other.cached_input_tokens,
            ),
            output_tokens: self.output_tokens.saturating_add(other.output_tokens),
            reasoning_output_tokens: self.reasoning_output_tokens.saturating_add(
                other.reasoning_output_tokens,
            ),
            uncategorized_tokens: self.uncategorized_tokens.saturating_add(
                other.uncategorized_tokens,
            ),
            estimated_cost: cost,
            priced_tokens: self.priced_tokens.saturating_add(other.priced_tokens),
            unpriced_tokens: self.unpriced_tokens.saturating_add(other.unpriced_tokens),
        }
    }
}

// ---------------------------------------------------------------------------
// Reports
// ---------------------------------------------------------------------------

/// What one model used on one day.
#[derive(Debug)]
pub struct DailyModelUsage {
    pub provider: String,
    pub model: String,
    pub threads: u64,
    pub usage: TokenUsage,
}

/// What was used on one day.
#[derive(Debug)]
pub struct DailyUsage {
    pub date: String,
    pub threads: u64,
    pub usage: TokenUsage,
    pub models: Vec<DailyModelUsage>,
}

/// What one slot used in a period.
#[derive(Debug)]
pub struct NamedUsage {
    pub name: String,
    pub threads: u64,
    pub tokens: u64,
    pub estimated_cost: Option<Double>,
    pub priced_tokens: u64,
    pub unpriced_tokens: u64,
}

/// What one model used in a period.
#[derive(Debug)]
pub struct ModelUsage {
    pub provider: String,
    pub model: String,
    pub threads: u64,
    pub tokens: u64,
    pub estimated_cost: Option<Double>,
    pub priced_tokens: u64,
    pub unpriced_tokens: u64,
}

/// What was used in a period.
#[derive(Debug)]
pub struct PeriodUsage {
    pub period: String,
    pub since_unix: i64,
    pub threads: u64,
    pub tokens: u64,
    pub estimated_cost: Option<Double>,
    pub priced_tokens: u64,
    pub unpriced_tokens: u64,
    pub slots: Vec<NamedUsage>,
    pub models: Vec<ModelUsage>,
}

/// The shares of three kinds of token.
#[derive(Clone, Copy, Debug)]
pub struct TokenMix {
    pub uncached_input_share: Double,
    pub cached_input_share: Double,
    pub output_share: Double,
}

/// All that is known about usage.
#[derive(Debug)]
pub struct StatsReport {
    pub json: bool,
    pub by_slot: bool,
    pub range: StatsRange,
    pub source_databases: Vec<String>,
    pub period_basis: String,
    pub price_source: Option<String>,
    pub price_note: Option<String>,
    pub token_mix: Option<TokenMix>,
    pub token_mix_source: Option<String>,
    pub periods: Vec<PeriodUsage>,
    pub daily: Vec<DailyUsage>,
}

/// What one model used on one day, over mathematical values.
pub struct DailyModelModel {
    pub provider: Seq<char>,
    pub model: Seq<char>,
    pub threads: u64,
    pub usage: TokenUsage,
}

/// What was used on one day, over mathematical values.
#[verifier::ext_equal]
pub struct DayModel {
    pub date: Seq<char>,
    pub threads: u64,
    pub usage: TokenUsage,
    pub models: Seq<DailyModelModel>,
}

impl View for DailyModelUsage {
    type V = DailyModelModel;

    open spec fn view(&self) -> DailyModelModel {
        DailyModelModel {
            provider: self.provider@,
            model: self.model@,
            threads: self.threads,
            usage: self.usage,
        }
    }
}

/// The views of what models used.
pub open spec fn daily_models(items: Seq<DailyModelUsage>) -> Seq<DailyModelModel> {
    items.map_values(|m: DailyModelUsage| m@)
}

impl View for DailyUsage {
    type V = DayModel;

    open spec fn view(&self) -> DayModel {
        DayModel {
            date: self.date@,
            threads: self.threads,
            usage: self.usage,
            models: daily_models(self.models@),
        }
    }
}

/// The views of days.
pub open spec fn day_models(days: Seq<DailyUsage>) -> Seq<DayModel> {
    days.map_values(|d: DailyUsage| d@)
}

impl DailyModelUsage {
    /// A copy.
    pub fn copy(&self) -> (out: DailyModelUsage)
        ensures
            out@ == self@,
    {
        DailyModelUsage {
            provider: self.provider.clone(),
            model: self.model.clone(),
            threads: self.threads,
            usage: self.usage,
        }
    }
}

impl DailyUsage {
    /// A copy.
    pub fn copy(&self) -> (out: DailyUsage)
        ensures
            out@ == self@,
    {
        let mut models: Vec<DailyModelUsage> = Vec::new();
        let mut i: usize = 0;
        while i < self.models.len()
            invariant
                i <= self.models.len(),
                daily_models(models@) == daily_models(self.models@).take(i as int),
            decreases self.models.len() - i,
        {
            let ghost before = models@;
            models.push(self.models[i].copy());
            proof {
                assert(daily_models(models@) =~= daily_models(before).push(
                    daily_models(self.models@)[i as int],
                ));
                assert(daily_models(self.models@).take(i + 1) =~= daily_models(self.models@).take(
                    i as int,
                ).push(daily_models(self.models@)[i as int]));
            }
            i += 1;
        }
        proof {
            assert(daily_models(self.models@).take(self.models@.len() as int) =~= daily_models(
                self.models@,
            ));
        }
        DailyUsage { date: self.date.clone(), threads: self.threads, usage: self.usage, models }
    }
}

impl StatsReport {
    /// Whether the report holds estimates of cost.
    pub open spec fn is_priced(&self) -> bool {
        self.price_source is Some
    }

    /// Whether the report holds estimates of cost.
    pub fn includes_price_estimates(&self) -> (out: bool)
        ensures
            out == self.is_priced(),
    {
        self.price_source.is_some()
    }
}

// ---------------------------------------------------------------------------
// The days that a range covers
// ---------------------------------------------------------------------------

/// The earliest date among `days`; entries without a readable date do not count.
pub open spec fn earliest(days: Seq<DayModel>) -> Option<int>
    decreases days.len(),
{
    if days.len() == 0 {
        None
    } else {
        match (earliest(days.drop_last()), crate::dates::date_parsed(days.last().date)) {
            (Some(a), Some(b)) => Some(
                if b < a {
                    b
                } else {
                    a
                },
            ),
            (Some(a), None) => Some(a),
            (None, last) => last,
        }
    }
}

/// The latest date among `days`; entries without a readable date do not count.
pub open spec fn latest(days: Seq<DayModel>) -> Option<int>
    decreases days.len(),
{
    if days.len() == 0 {
        None
    } else {
        match (latest(days.drop_last()), crate::dates::date_parsed(days.last().date)) {
            (Some(a), Some(b)) => Some(
                if b > a {
                    b
                } else {
                    a
                },
            ),
            (Some(a), None) => Some(a),
            (None, last) => last,
        }
    }
}

/// `start` and `end`, with `start` moved so that no more days lie between them
/// than are shown at once.
pub open spec fn clamped_range(start: int, end: int) -> (int, int) {
    if end - start + 1 <= MAX_SELECTED_DAYS {
        (start, end)
    } else {
        (end - (MAX_SELECTED_DAYS - 1), end)
    }
}

/// The first and last day of a range, for usage on `days` as of `today`.
pub open spec fn bounds_of(kind: StatsRangeKind, days: Seq<DayModel>, today: int) -> Option<
    (int, int),
> {
    match (earliest(days), latest(days)) {
        (Some(first), Some(last)) => Some(
            match kind {
                StatsRangeKind::All => clamped_range(first, last),
                StatsRangeKind::LastDays(count) => {
                    let end = if today > last {
                        today
                    } else {
                        last
                    };
                    let span = if count == 0 {
                        0
                    } else {
                        count - 1
                    };
                    let start = if end - span < FIRST_DAY {
                        FIRST_DAY as int
                    } else {
                        end - span
                    };
                    clamped_range(start, end)
                },
                StatsRangeKind::Since(start) => clamped_range(
                    start as int,
                    if last > start {
                        last
                    } else {
                        start as int
                    },
                ),
                StatsRangeKind::Between { start, end } => if start <= end {
                    clamped_range(start as int, end as int)
                } else {
                    clamped_range(end as int, start as int)
                },
            },
        ),
        _ => None,
    }
}

/// A day without usage.
pub open spec fn empty_day(date: Seq<char>) -> DayModel {
    DayModel { date, threads: 0, usage: no_usage(), models: seq![] }
}

/// The usage on the date `day`: that of the last entry with this date.
pub open spec fn usage_on(days: Seq<DayModel>, day: int) -> DayModel
    decreases days.len(),
{
    if days.len() == 0 {
        empty_day(crate::dates::date_text(day))
    } else if crate::dates::date_parsed(days.last().date) == Some(day) {
        days.last()
    } else {
        usage_on(days.drop_last(), day)
    }
}

/// The usage on each day of a range, without a gap.
pub open spec fn selected_days(kind: StatsRangeKind, days: Seq<DayModel>, today: int) -> Seq<
    DayModel,
> {
    match bounds_of(kind, days, today) {
        None => seq![],
        Some((start, end)) => Seq::new(
            if start <= end {
                (end - start + 1) as nat
            } else {
                0
            },
            |i: int| usage_on(days, start + i),
        ),
    }
}

/// The dates of days, over mathematical values.
pub open spec fn opt_days(dates: Seq<Option<i32>>) -> Seq<Option<int>> {
    dates.map_values(
        |d: Option<i32>|
            match d {
                Some(day) => Some(day as int),
                None => None,
            },
    )
}

/// The date of each of `days`.
pub open spec fn dates_of(days: Seq<DayModel>) -> Seq<Option<int>> {
    days.map_values(|d: DayModel| crate::dates::date_parsed(d.date))
}

fn read_dates(days: &Vec<DailyUsage>) -> (out: Vec<Option<i32>>)
    ensures
        opt_days(out@) == dates_of(day_models(days@)),
        out@.len() == days@.len(),
        forall|i: int|
            0 <= i < out@.len() ==> (#[trigger] out@[i] matches Some(d) ==> crate::dates::is_day(
                d as int,
            )),
{
    let mut out: Vec<Option<i32>> = Vec::new();
    let mut i: usize = 0;
    while i < days.len()
        invariant
            i <= days.len(),
            out@.len() == i,
            opt_days(out@) == dates_of(day_models(days@)).take(i as int),
            forall|j: int|
                0 <= j < out@.len() ==> (#[trigger] out@[j] matches Some(d)
                    ==> crate::dates::is_day(d as int)),
        decreases days.len() - i,
    {
        let ghost before = out@;
        let date = parse_day(days[i].date.as_str());
        out.push(date);
        proof {
            let all = dates_of(day_models(days@));
            assert(opt_days(out@) =~= opt_days(before).push(all[i as int]));
            assert(all.take(i + 1) =~= all.take(i as int).push(all[i as int]));
        }
        i += 1;
    }
    proof {
        let all = dates_of(day_models(days@));
        assert(all.take(days@.len() as int) =~= all);
    }
    out
}

/// The outcome of looking for bounds, over mathematical values.
pub open spec fn opt_bounds(out: Option<(i32, i32)>) -> Option<(int, int)> {
    match out {
        Some((start, end)) => Some((start as int, end as int)),
        None => None,
    }
}

/// `start` and `end`, with `start` moved so that no more days lie between them
/// than are shown at once.
pub fn clamp_selected_range(start: i32, end: i32) -> (out: (i32, i32))
    requires
        crate::dates::is_day(start as int),
        crate::dates::is_day(end as int),
    ensures
        (out.0 as int, out.1 as int) == clamped_range(start as int, end as int),
        start <= end ==> crate::dates::is_day(out.0 as int) && out.0 <= out.1,
{
    let span: i32 = end - start;
    if span + 1 <= MAX_SELECTED_DAYS as i32 {
        (start, end)
    } else {
        (end - (MAX_SELECTED_DAYS as i32 - 1), end)
    }
}

fn extremes(dates: &Vec<Option<i32>>, Ghost(days): Ghost<Seq<DayModel>>) -> (out: Option<(i32, i32)>)
    requires
        opt_days(dates@) == dates_of(days),
        dates@.len() == days.len(),
        forall|i: int|
            0 <= i < dates@.len() ==> (#[trigger] dates@[i] matches Some(d)
                ==> crate::dates::is_day(d as int)),
    ensures
        match out {
            Some((first, last)) => earliest(days) == Some(first as int) && latest(days) == Some(
                last as int,
            ) && crate::dates::is_day(first as int) && crate::dates::is_day(last as int)
                && first <= last,
            None => earliest(days) is None && latest(days) is None,
        },
{
    let mut out: Option<(i32, i32)> = None;
    let mut i: usize = 0;
    while i < dates.len()
        invariant
            i <= dates.len(),
            opt_days(dates@) == dates_of(days),
            dates@.len() == days.len(),
            forall|i: int|
                0 <= i < dates@.len() ==> (#[trigger] dates@[i] matches Some(d)
                    ==> crate::dates::is_day(d as int)),
            match out {
                Some((first, last)) => earliest(days.take(i as int)) == Some(first as int)
                    && latest(days.take(i as int)) == Some(last as int) && crate::dates::is_day(
                    first as int,
                ) && crate::dates::is_day(last as int) && first <= last,
                None => earliest(days.take(i as int)) is None && latest(
                    days.take(i as int),
                ) is None,
            },
        decreases dates.len() - i,
    {
        proof {
            assert(days.take(i + 1).drop_last() =~= days.take(i as int));
            assert(days.take(i + 1).last() == days[i as int]);
            assert(opt_days(dates@)[i as int] == dates_of(days)[i as int]);
        }
        if let Some(day) = dates[i] {
            out = match out {
                None => Some((day, day)),
                Some((first, last)) => Some(
                    (
                        if day < first {
                            day
                        } else {
                            first
                        },
                        if day > last {
                            day
                        } else {
                            last
                        },
                    ),
                ),
            };
        }
        i += 1;
    }
    proof {
        assert(days.take(days.len() as int) =~= days);
    }
    out
}

/// The first and last day of a range, for usage on `days` as of `today`.
pub fn range_bounds(range: &StatsRange, days: &Vec<DailyUsage>, today: i32) -> (out: Option<
    (i32, i32),
>)
    requires
        crate::dates::is_day(today as int),
        range.kind.is_valid(),
    ensures
        opt_bounds(out) == bounds_of(range.kind, day_models(days@), today as int),
        out matches Some((start, end)) ==> crate::dates::is_day(start as int)
            && crate::dates::is_day(end as int) && start <= end && end - start
            < MAX_SELECTED_DAYS,
{
    let dates = read_dates(days);
    match extremes(&dates, Ghost(day_models(days@))) {
        None => None,
        Some((first, last)) => Some(
            match range.kind {
                StatsRangeKind::All => clamp_selected_range(first, last),
                StatsRangeKind::LastDays(count) => {
                    let end: i32 = if today > last {
                        today
                    } else {
                        last
                    };
                    let span: i64 = if count == 0 {
                        0
                    } else {
                        count as i64 - 1
                    };
                    let wanted: i64 = end as i64 - span;
                    let start: i32 = if wanted < FIRST_DAY as i64 {
                        FIRST_DAY
                    } else {
                        wanted as i32
                    };
                    clamp_selected_range(start, end)
                },
                StatsRangeKind::Since(start) => clamp_selected_range(
                    start,
                    if last > start {
                        last
                    } else {
                        start
                    },
                ),
                StatsRangeKind::Between { start, end } => if start <= end {
                    clamp_selected_range(start, end)
                } else {
                    clamp_selected_range(end, start)
                },
            },
        ),
    }
}

/// A day without usage.
pub fn empty_daily_usage(date: String) -> (out: DailyUsage)
    ensures
        out@ == empty_day(date@),
{
    let out = DailyUsage { date, threads: 0, usage: TokenUsage::none(), models: Vec::new() };
    proof {
        assert(out@ =~= empty_day(date@));
    }
    out
}

fn find_usage(days: &Vec<DailyUsage>, dates: &Vec<Option<i32>>, day: i32) -> (out: DailyUsage)
    requires
        opt_days(dates@) == dates_of(day_models(days@)),
        dates@.len() == days@.len(),
        crate::dates::is_day(day as int),
    ensures
        out@ == usage_on(day_models(days@), day as int),
{
    let ghost all = day_models(days@);
    let mut n: usize = days.len();
    proof {
        assert(all.take(all.len() as int) =~= all);
    }
    while n > 0
        invariant
            n <= days.len(),
            all == day_models(days@),
            opt_days(dates@) == dates_of(all),
            dates@.len() == days@.len(),
            usage_on(all, day as int) == usage_on(all.take(n as int), day as int),
        decreases n,
    {
        proof {
            assert(all.take(n as int).drop_last() =~= all.take(n - 1));
            assert(all.take(n as int).last() == all[n - 1]);
            assert(opt_days(dates@)[n - 1] == dates_of(all)[n - 1]);
        }
        n -= 1;
        if let Some(date) = dates[n] {
            if date == day {
                return days[n].copy();
            }
        }
    }
    empty_daily_usage(day_text(day))
}

/// The usage on each day of the report's range as of `today`, without a gap.
pub fn selected_daily_days(report: &StatsReport, today: i32) -> (out: Vec<DailyUsage>)
    requires
        crate::dates::is_day(today as int),
        report.range.kind.is_valid(),
    ensures
        day_models(out@) == selected_days(report.range.kind, day_models(report.daily@), today as int),
{
    let mut out: Vec<DailyUsage> = Vec::new();
    let ghost all = day_models(report.daily@);
    let ghost wanted = selected_days(report.range.kind, all, today as int);
    match range_bounds(&report.range, &report.daily, today) {
        None => {
            proof {
                assert(day_models(out@) =~= wanted);
            }
            out
        },
        Some((start, end)) => {
            let dates = read_dates(&report.daily);
            let count: i32 = end - start + 1;
            let mut i: i32 = 0;
            while i < count
                invariant
                    0 <= i <= count,
                    count == end - start + 1,
                    crate::dates::is_day(start as int),
                    crate::dates::is_day(end as int),
                    all == day_models(report.daily@),
                    opt_days(dates@) == dates_of(all),
                    dates@.len() == report.daily@.len(),
                    wanted.len() == count,
                    wanted == Seq::new(count as nat, |i: int| usage_on(all, start + i)),
                    day_models(out@) == wanted.take(i as int),
                decreases count - i,
            {
                let ghost before = out@;
                out.push(find_usage(&report.daily, &dates, start + i));
                proof {
                    assert(day_models(out@) =~= day_models(before).push(wanted[i as int]));
                    assert(wanted.take(i + 1) =~= wanted.take(i as int).push(wanted[i as int]));
                }
                i += 1;
            }
            proof {
                assert(wanted.take(count as int) =~= wanted);
            }
            out
        },
    }
}

// ---------------------------------------------------------------------------
// Laws
// ---------------------------------------------------------------------------

/// A report covers no more days than are shown at once.
pub proof fn selections_are_bounded(kind: StatsRangeKind, days: Seq<DayModel>, today: int)
    ensures
        selected_days(kind, days, today).len() <= MAX_SELECTED_DAYS,
{
    lemma_extremes(days);
}

proof fn lemma_extremes(days: Seq<DayModel>)
    ensures
        earliest(days) is Some == latest(days) is Some,
        earliest(days) is Some ==> earliest(days)->0 <= latest(days)->0,
    decreases days.len(),
{
    if days.len() > 0 {
        lemma_extremes(days.drop_last());
    }
}

/// A selection has no gaps: each day of the range stands at its place, and a day
/// without an entry is an empty one.
pub proof fn selections_have_no_gaps(kind: StatsRangeKind, days: Seq<DayModel>, today: int, day: int)
    requires
        bounds_of(kind, days, today) matches Some((start, end)) && start <= day <= end,
    ensures
        ({
            let bounds = bounds_of(kind, days, today)->0;
            let start = bounds.0;
            let chosen = selected_days(kind, days, today)[day - start];
            chosen == usage_on(days, day) && ((forall|i: int|
                0 <= i < days.len() ==> crate::dates::date_parsed((#[trigger] days[i]).date) != Some(
                    day,
                )) ==> chosen == empty_day(crate::dates::date_text(day)))
        }),
{
    lemma_usage_on(days, day);
}

proof fn lemma_usage_on(days: Seq<DayModel>, day: int)
    ensures
        (forall|i: int|
            0 <= i < days.len() ==> crate::dates::date_parsed((#[trigger] days[i]).date) != Some(
                day,
            )) ==> usage_on(days, day) == empty_day(crate::dates::date_text(day)),
    decreases days.len(),
{
    if days.len() > 0 {
        lemma_usage_on(days.drop_last(), day);
        if forall|i: int|
            0 <= i < days.len() ==> crate::dates::date_parsed((#[trigger] days[i]).date) != Some(
                day,
            ) {
            assert(days.last() == days[days.len() - 1]);
            assert forall|i: int| 0 <= i < days.drop_last().len() implies crate::dates::date_parsed(
                (#[trigger] days.drop_last()[i]).date,
            ) != Some(day) by {
                assert(days.drop_last()[i] == days[i]);
            }
        }
    }
}

/// Whether `day` is the date of an entry, and none has a later one.
pub open spec fn is_last_date(days: Seq<DayModel>, day: int) -> bool {
    &&& exists|i: int|
        0 <= i < days.len() && crate::dates::date_parsed((#[trigger] days[i]).date) == Some(day)
    &&& forall|i: int|
        0 <= i < days.len() ==> (crate::dates::date_parsed((#[trigger] days[i]).date) matches Some(
            other,
        ) ==> other <= day)
}

/// Whether `day` is the date of an entry, and none has an earlier one.
pub open spec fn is_first_date(days: Seq<DayModel>, day: int) -> bool {
    &&& exists|i: int|
        0 <= i < days.len() && crate::dates::date_parsed((#[trigger] days[i]).date) == Some(day)
    &&& forall|i: int|
        0 <= i < days.len() ==> (crate::dates::date_parsed((#[trigger] days[i]).date) matches Some(
            other,
        ) ==> other >= day)
}

/// Whether `day` is the date of no entry.
pub open spec fn has_no_entry(days: Seq<DayModel>, day: int) -> bool {
    forall|i: int|
        0 <= i < days.len() ==> crate::dates::date_parsed((#[trigger] days[i]).date) != Some(day)
}

/// Whether the entry `k` is for `day`, and no later one is.
pub open spec fn is_entry_for(days: Seq<DayModel>, k: int, day: int) -> bool {
    &&& 0 <= k < days.len()
    &&& crate::dates::date_parsed(days[k].date) == Some(day)
    &&& forall|i: int|
        k < i < days.len() ==> crate::dates::date_parsed((#[trigger] days[i]).date) != Some(day)
}

/// Whether `chosen` shows each day from `start` to `end`, once and in order: with its
/// entry, or without any usage where it has none.
pub open spec fn shows_days(chosen: Seq<DayModel>, days: Seq<DayModel>, start: int, end: int) -> bool {
    &&& chosen.len() == end - start + 1
    &&& forall|k: int, day: int|
        #![trigger is_entry_for(days, k, day)]
        start <= day <= end && is_entry_for(days, k, day) ==> chosen[day - start] == days[k]
    &&& forall|day: int|
        #![trigger has_no_entry(days, day)]
        start <= day <= end && has_no_entry(days, day) ==> {
            let shown = chosen[day - start];
            &&& shown.date == crate::dates::date_text(day)
            &&& shown.threads == 0
            &&& shown.usage.tokens == 0
            &&& shown.usage.estimated_cost is None
            &&& shown.models.len() == 0
        }
}

proof fn lemma_entry(days: Seq<DayModel>, k: int, day: int)
    requires
        is_entry_for(days, k, day),
    ensures
        usage_on(days, day) == days[k],
    decreases days.len(),
{
    if k < days.len() - 1 {
        assert(days.last() == days[days.len() - 1]);
        let rest = days.drop_last();
        assert forall|i: int| k < i < rest.len() implies crate::dates::date_parsed(
            (#[trigger] rest[i]).date,
        ) != Some(day) by {
            assert(rest[i] == days[i]);
        }
        lemma_entry(rest, k, day);
    }
}

proof fn lemma_shows_days(kind: StatsRangeKind, days: Seq<DayModel>, today: int)
    requires
        bounds_of(kind, days, today) matches Some((start, end)) && start <= end,
    ensures
        ({
            let bounds = bounds_of(kind, days, today)->0;
            shows_days(selected_days(kind, days, today), days, bounds.0, bounds.1)
        }),
{
    let (start, end) = bounds_of(kind, days, today)->0;
    let chosen = selected_days(kind, days, today);
    assert forall|k: int, day: int|
        #![trigger is_entry_for(days, k, day)]
        start <= day <= end && is_entry_for(days, k, day) implies chosen[day - start] == days[k] by {
        lemma_entry(days, k, day);
    }
    assert forall|day: int|
        #![trigger has_no_entry(days, day)]
        start <= day <= end && has_no_entry(days, day) implies {
        let shown = chosen[day - start];
        &&& shown.date == crate::dates::date_text(day)
        &&& shown.threads == 0
        &&& shown.usage.tokens == 0
        &&& shown.usage.estimated_cost is None
        &&& shown.models.len() == 0
    } by {
        lemma_usage_on(days, day);
    }
}

proof fn lemma_found_extremes(days: Seq<DayModel>)
    ensures
        match earliest(days) {
            Some(day) => is_first_date(days, day),
            None => forall|i: int|
                0 <= i < days.len() ==> crate::dates::date_parsed((#[trigger] days[i]).date)
                    is None,
        },
        match latest(days) {
            Some(day) => is_last_date(days, day),
            None => forall|i: int|
                0 <= i < days.len() ==> crate::dates::date_parsed((#[trigger] days[i]).date)
                    is None,
        },
    decreases days.len(),
{
    if days.len() > 0 {
        let rest = days.drop_last();
        lemma_found_extremes(rest);
        assert(days[days.len() - 1] == days.last());
        assert forall|i: int| 0 <= i < rest.len() implies days[i] == #[trigger] rest[i] by {}
        match earliest(rest) {
            Some(day) => {
                let i = choose|i: int|
                    0 <= i < rest.len() && crate::dates::date_parsed((#[trigger] rest[i]).date)
                        == Some(day);
                assert(crate::dates::date_parsed(days[i].date) == Some(day));
            },
            None => {},
        }
        match latest(rest) {
            Some(day) => {
                let i = choose|i: int|
                    0 <= i < rest.len() && crate::dates::date_parsed((#[trigger] rest[i]).date)
                        == Some(day);
                assert(crate::dates::date_parsed(days[i].date) == Some(day));
            },
            None => {},
        }
        assert forall|i: int| 0 <= i < days.len() implies (crate::dates::date_parsed(
            (#[trigger] days[i]).date,
        ) matches Some(other) ==> earliest(days) is Some && other >= earliest(days)->0 && latest(
            days,
        ) is Some && other <= latest(days)->0) by {
            if i < rest.len() {
                assert(rest[i] == days[i]);
            }
        }
    }
}

proof fn lemma_extremes_are(days: Seq<DayModel>, first: int, last: int)
    requires
        is_first_date(days, first),
        is_last_date(days, last),
    ensures
        earliest(days) == Some(first),
        latest(days) == Some(last),
        first <= last,
{
    lemma_found_extremes(days);
    lemma_extremes(days);
    let i = choose|i: int|
        0 <= i < days.len() && crate::dates::date_parsed((#[trigger] days[i]).date) == Some(first);
    let j = choose|j: int|
        0 <= j < days.len() && crate::dates::date_parsed((#[trigger] days[j]).date) == Some(last);
    assert(crate::dates::date_parsed(days[i].date) == Some(first));
    assert(crate::dates::date_parsed(days[j].date) == Some(last));
    match earliest(days) {
        Some(day) => {
            let k = choose|k: int|
                0 <= k < days.len() && crate::dates::date_parsed((#[trigger] days[k]).date) == Some(
                    day,
                );
            assert(crate::dates::date_parsed(days[k].date) == Some(day));
        },
        None => {},
    }
    match latest(days) {
        Some(day) => {
            let k = choose|k: int|
                0 <= k < days.len() && crate::dates::date_parsed((#[trigger] days[k]).date) == Some(
                    day,
                );
            assert(crate::dates::date_parsed(days[k].date) == Some(day));
        },
        None => {},
    }
}

/// A range of the last days shows as many days as it asks for, as far back as days go and
/// as many as are shown at once. The last of them is the later one of today and the last
/// day with usage.
pub proof fn last_days_end_today(count: u32, days: Seq<DayModel>, today: int, first: int, last: int)
    requires
        count >= 1,
        is_first_date(days, first),
        is_last_date(days, last),
        today >= FIRST_DAY,
    ensures
        ({
            let end = if today > last {
                today
            } else {
                last
            };
            let asked = if count < MAX_SELECTED_DAYS {
                count as int
            } else {
                MAX_SELECTED_DAYS as int
            };
            let start = if end - (asked - 1) < FIRST_DAY {
                FIRST_DAY as int
            } else {
                end - (asked - 1)
            };
            shows_days(selected_days(StatsRangeKind::LastDays(count), days, today), days, start, end)
        }),
{
    lemma_extremes_are(days, first, last);
    lemma_shows_days(StatsRangeKind::LastDays(count), days, today);
}

/// A range of all days shows those from the first to the last with usage, the last ones
/// where they are too many.
pub proof fn all_days_are_shown(days: Seq<DayModel>, today: int, first: int, last: int)
    requires
        is_first_date(days, first),
        is_last_date(days, last),
    ensures
        shows_days(
            selected_days(StatsRangeKind::All, days, today),
            days,
            if last - first < MAX_SELECTED_DAYS {
                first
            } else {
                last - MAX_SELECTED_DAYS + 1
            },
            last,
        ),
{
    lemma_extremes_are(days, first, last);
    lemma_shows_days(StatsRangeKind::All, days, today);
}

/// A range since a day begins with it and ends with the last day with usage, or is that
/// one day where there is no later usage.
pub proof fn ranges_since_a_day_begin_there(
    since: i32,
    days: Seq<DayModel>,
    today: int,
    first: int,
    last: int,
)
    requires
        is_first_date(days, first),
        is_last_date(days, last),
    ensures
        ({
            let end = if last > since {
                last
            } else {
                since as int
            };
            let start = if end - since < MAX_SELECTED_DAYS {
                since as int
            } else {
                end - MAX_SELECTED_DAYS + 1
            };
            shows_days(selected_days(StatsRangeKind::Since(since), days, today), days, start, end)
        }),
{
    lemma_extremes_are(days, first, last);
    lemma_shows_days(StatsRangeKind::Since(since), days, today);
}

/// A range between two days shows both and all days between them, whichever of them is
/// named first, and the last ones where they are too many.
pub proof fn ranges_between_days_hold_both(
    a: i32,
    b: i32,
    days: Seq<DayModel>,
    today: int,
    first: int,
    last: int,
)
    requires
        a <= b,
        is_first_date(days, first),
        is_last_date(days, last),
    ensures
        ({
            let start = if b - a < MAX_SELECTED_DAYS {
                a as int
            } else {
                b - MAX_SELECTED_DAYS + 1
            };
            let forward = StatsRangeKind::Between { start: a, end: b };
            let back = StatsRangeKind::Between { start: b, end: a };
            &&& shows_days(selected_days(forward, days, today), days, start, b as int)
            &&& selected_days(back, days, today) == selected_days(forward, days, today)
        }),
{
    lemma_extremes_are(days, first, last);
    lemma_shows_days(StatsRangeKind::Between { start: a, end: b }, days, today);
}

/// Without usage there are no days to show.
pub proof fn without_usage_nothing_is_shown(kind: StatsRangeKind, days: Seq<DayModel>, today: int)
    requires
        forall|i: int|
            0 <= i < days.len() ==> crate::dates::date_parsed((#[trigger] days[i]).date) is None,
    ensures
        selected_days(kind, days, today).len() == 0,
{
    lemma_found_extremes(days);
}

/// Usages add up, kind by kind, as far as they can be counted; whichever comes first, and
/// nothing adds nothing.
pub proof fn usages_add_up(a: TokenUsage, b: TokenUsage)
    ensures
        usage_sum(a, no_usage()) == a,
        usage_sum(a, b).tokens == usage_sum(b, a).tokens,
        usage_sum(a, b).tokens >= a.tokens,
        a.tokens + b.tokens <= u64::MAX ==> usage_sum(a, b).tokens == a.tokens + b.tokens,
        a.tokens + b.tokens > u64::MAX ==> usage_sum(a, b).tokens == u64::MAX,
        a.input_tokens + b.input_tokens <= u64::MAX ==> usage_sum(a, b).input_tokens
            == a.input_tokens + b.input_tokens,
        a.cached_input_tokens + b.cached_input_tokens <= u64::MAX ==> usage_sum(
            a,
            b,
        ).cached_input_tokens == a.cached_input_tokens + b.cached_input_tokens,
        a.output_tokens + b.output_tokens <= u64::MAX ==> usage_sum(a, b).output_tokens
            == a.output_tokens + b.output_tokens,
        a.reasoning_output_tokens + b.reasoning_output_tokens <= u64::MAX ==> usage_sum(
            a,
            b,
        ).reasoning_output_tokens == a.reasoning_output_tokens + b.reasoning_output_tokens,
        a.uncategorized_tokens + b.uncategorized_tokens <= u64::MAX ==> usage_sum(
            a,
            b,
        ).uncategorized_tokens == a.uncategorized_tokens + b.uncategorized_tokens,
        a.priced_tokens + b.priced_tokens <= u64::MAX ==> usage_sum(a, b).priced_tokens
            == a.priced_tokens + b.priced_tokens,
        a.unpriced_tokens + b.unpriced_tokens <= u64::MAX ==> usage_sum(a, b).unpriced_tokens
            == a.unpriced_tokens + b.unpriced_tokens,
        b.estimated_cost is None ==> usage_sum(a, b).estimated_cost == a.estimated_cost,
        usage_sum(a, b).estimated_cost is Some == (a.estimated_cost is Some
            || b.estimated_cost is Some),
        a.estimated_cost is Some && b.estimated_cost is Some ==> usage_sum(a, b).estimated_cost
            == Some(a.estimated_cost->0.sum(b.estimated_cost->0)),
{
}

} // verus!
