//! The chart of tokens per day: points, stacked bars and axes.

use vstd::prelude::*;

use crate::dates::calendar_day;
use crate::dates::parse_day;
use crate::format::human_tokens;
use crate::format::pad_left;
use crate::format::repeat;
use crate::models::add_amount;
use crate::models::find_amount;
use crate::models::model_marker_for_key;
use crate::models::other_model_key;
use crate::models::rank;
use crate::models::DisplayModelKey;
use crate::models::KeyModel;
use crate::models::ModelVisuals;
use crate::models::Tally;
use crate::numbers::decimal;
use crate::stats::DailyUsage;
use crate::stats::DayModel;
use crate::text::chars_of;
use crate::text::concat3;
use crate::text::same;
use crate::text::string_of;

verus! {

/// The width of what stands left of the chart.
pub const CHART_PREFIX_WIDTH: usize = 9;

/// The number of rows of the chart.
pub const DAILY_BAR_CHART_HEIGHT: usize = 8;

/// The largest width of the chart.
pub const MAX_DAILY_CHART_WIDTH: usize = 60;

// ---------------------------------------------------------------------------
// Points
// ---------------------------------------------------------------------------

/// A point of the chart: what was used in some days.
#[derive(Debug)]
pub struct ChartPoint {
    pub date: String,
    pub tokens: u64,
    pub models: Vec<Tally<u64>>,
}

/// A point of the chart, over mathematical values.
#[verifier::ext_equal]
pub struct PointModel {
    pub date: Seq<char>,
    pub tokens: u64,
    pub models: Seq<(KeyModel, u64)>,
}

impl View for ChartPoint {
    type V = PointModel;

    open spec fn view(&self) -> PointModel {
        PointModel {
            date: self.date@,
            tokens: self.tokens,
            models: crate::models::tallies(self.models@),
        }
    }
}

/// The views of points.
pub open spec fn point_models(points: Seq<ChartPoint>) -> Seq<PointModel> {
    points.map_values(|p: ChartPoint| p@)
}

/// The tokens of each model on a day.
pub open spec fn day_entries(day: DayModel) -> Seq<(KeyModel, u64)> {
    day.models.map_values(
        |m: crate::stats::DailyModelModel| (crate::models::key_of(m), m.usage.tokens),
    )
}

/// The tokens of each model on each of `days`.
pub open spec fn all_entries(days: Seq<DayModel>) -> Seq<(KeyModel, u64)>
    decreases days.len(),
{
    if days.len() == 0 {
        seq![]
    } else {
        all_entries(days.drop_last()) + day_entries(days.last())
    }
}

/// The tokens of all of `days`.
pub open spec fn token_sum(days: Seq<DayModel>) -> nat
    decreases days.len(),
{
    if days.len() == 0 {
        0
    } else {
        token_sum(days.drop_last()) + days.last().usage.tokens as nat
    }
}

/// The point for `days`, dated by the first of them.
pub open spec fn combined_days(days: Seq<DayModel>) -> PointModel {
    PointModel {
        date: if days.len() > 0 {
            days[0].date
        } else {
            "0000-00-00"@
        },
        tokens: crate::stats::capped(token_sum(days) as int),
        models: crate::models::tallied(all_entries(days)),
    }
}

fn tally_day(models: &mut Vec<Tally<u64>>, day: &DailyUsage, Ghost(entries): Ghost<Seq<(KeyModel, u64)>>)
    requires
        crate::models::tallies(old(models)@) == crate::models::tallied(entries),
    ensures
        crate::models::tallies(final(models)@) == crate::models::tallied(
            entries + day_entries(day@),
        ),
{
    let ghost added = day_entries(day@);
    let mut j: usize = 0;
    proof {
        assert(entries + added.take(0) =~= entries);
    }
    while j < day.models.len()
        invariant
            j <= day.models.len(),
            added == day_entries(day@),
            crate::models::tallies(models@) == crate::models::tallied(
                entries + added.take(j as int),
            ),
        decreases day.models.len() - j,
    {
        proof {
            let whole = entries + added.take(j + 1);
            assert(whole.drop_last() =~= entries + added.take(j as int));
            assert(whole.last() == added[j as int]);
        }
        let key = DisplayModelKey::from_daily_model(&day.models[j]);
        add_amount(models, key, day.models[j].usage.tokens);
        j += 1;
    }
    proof {
        assert(added.take(day.models@.len() as int) =~= added);
    }
}

/// The point for the days from `from` up to `to`.
pub fn combine_days(days: &Vec<DailyUsage>, from: usize, to: usize) -> (out: ChartPoint)
    requires
        from <= to <= days@.len(),
    ensures
        out@ == combined_days(crate::stats::day_models(days@).subrange(from as int, to as int)),
{
    let ghost chosen = crate::stats::day_models(days@).subrange(from as int, to as int);
    let date = if from < to {
        days[from].date.clone()
    } else {
        String::from_str("0000-00-00")
    };
    let mut tokens: u64 = 0;
    let mut models: Vec<Tally<u64>> = Vec::new();
    let mut i: usize = from;
    proof {
        assert(crate::models::tallies(models@) =~= seq![]);
    }
    while i < to
        invariant
            from <= i <= to <= days@.len(),
            chosen == crate::stats::day_models(days@).subrange(from as int, to as int),
            tokens == crate::stats::capped(token_sum(chosen.take(i - from)) as int),
            crate::models::tallies(models@) == crate::models::tallied(
                all_entries(chosen.take(i - from)),
            ),
        decreases to - i,
    {
        proof {
            let whole = chosen.take(i - from + 1);
            assert(whole.drop_last() =~= chosen.take(i - from));
            assert(whole.last() == days@[i as int]@);
        }
        tokens = tokens.saturating_add(days[i].usage.tokens);
        tally_day(&mut models, &days[i], Ghost(all_entries(chosen.take(i - from))));
        i += 1;
    }
    proof {
        assert(chosen.take(to - from) =~= chosen);
    }
    ChartPoint { date, tokens, models }
}

/// The first day of a bucket, where `days` days are spread over `width` buckets.
pub open spec fn bucket_start(index: int, days: int, width: int) -> int {
    index * days / width
}

/// The point of a bucket. The last one has the last date.
pub open spec fn bucket(days: Seq<DayModel>, width: int, index: int) -> PointModel {
    let point = combined_days(
        days.subrange(
            bucket_start(index, days.len() as int, width),
            bucket_start(index + 1, days.len() as int, width),
        ),
    );
    if index + 1 == width {
        PointModel { date: days.last().date, ..point }
    } else {
        point
    }
}

/// The points of a chart of at most `width` points.
pub open spec fn points_of(days: Seq<DayModel>, width: int) -> Seq<PointModel> {
    if days.len() == 0 || width <= 0 {
        seq![]
    } else if days.len() <= width {
        Seq::new(days.len(), |i: int| combined_days(days.subrange(i, i + 1)))
    } else {
        Seq::new(width as nat, |i: int| bucket(days, width, i))
    }
}

/// Buckets follow each other without a gap, and none is empty.
pub proof fn buckets_are_contiguous(index: int, days: int, width: int)
    requires
        0 <= index < width,
        width <= days,
    ensures
        0 <= bucket_start(index, days, width) < bucket_start(index + 1, days, width) <= days,
        bucket_start(0, days, width) == 0,
        bucket_start(width, days, width) == days,
{
    let a = index * days;
    let b = (index + 1) * days;
    assert(0 <= a && a + days == b && b <= width * days) by (nonlinear_arith)
        requires
            a == index * days,
            b == (index + 1) * days,
            0 <= index < width,
            days >= 0,
    ;
    vstd::arithmetic::div_mod::lemma_div_is_ordered(0, a, width);
    vstd::arithmetic::div_mod::lemma_div_is_ordered(a + width, b, width);
    vstd::arithmetic::div_mod::lemma_div_is_ordered(b, width * days, width);
    assert((a + width) / width == a / width + 1) by {
        vstd::arithmetic::div_mod::lemma_div_plus_one(a, width);
    }
    assert((width * days) / width == days) by {
        vstd::arithmetic::div_mod::lemma_div_multiples_vanish(days, width);
    }
    assert(0int / width == 0) by {
        vstd::arithmetic::div_mod::lemma_div_basics(width);
    }
    assert(0 * days == 0);
}

fn start_of_bucket(index: usize, days: usize, width: usize) -> (out: usize)
    requires
        index <= width <= days,
        width > 0,
    ensures
        out == bucket_start(index as int, days as int, width as int),
        out <= days,
{
    proof {
        if index < width {
            buckets_are_contiguous(index as int, days as int, width as int);
        } else {
            buckets_are_contiguous(0, days as int, width as int);
        }
        assert(index * days <= u128::MAX) by (nonlinear_arith)
            requires
                0 <= index <= u64::MAX,
                0 <= days <= u64::MAX,
        ;
    }
    (index as u128 * days as u128 / width as u128) as usize
}

/// The points of a chart of at most `width` points.
pub fn chart_points(days: &Vec<DailyUsage>, width: usize) -> (out: Vec<ChartPoint>)
    ensures
        point_models(out@) == points_of(crate::stats::day_models(days@), width as int),
{
    let ghost all = crate::stats::day_models(days@);
    let ghost wanted = points_of(all, width as int);
    let mut out: Vec<ChartPoint> = Vec::new();
    if days.len() == 0 || width == 0 {
        proof {
            assert(point_models(out@) =~= wanted);
        }
        return out;
    }
    let sparse = days.len() <= width;
    let count: usize = if sparse {
        days.len()
    } else {
        width
    };
    let mut i: usize = 0;
    while i < count
        invariant
            i <= count,
            0 < count <= days.len(),
            sparse == (days@.len() <= width),
            count == (if sparse {
                days@.len() as int
            } else {
                width as int
            }),
            all == crate::stats::day_models(days@),
            wanted == points_of(all, width as int),
            wanted.len() == count,
            point_models(out@) == wanted.take(i as int),
        decreases count - i,
    {
        let ghost before = out@;
        if sparse {
            out.push(combine_days(days, i, i + 1));
        } else {
            proof {
                buckets_are_contiguous(i as int, days@.len() as int, width as int);
            }
            let from = start_of_bucket(i, days.len(), width);
            let to = start_of_bucket(i + 1, days.len(), width);
            let mut point = combine_days(days, from, to);
            if i + 1 == width {
                point.date = days[days.len() - 1].date.clone();
            }
            out.push(point);
        }
        proof {
            assert(out@.last()@ =~= wanted[i as int]);
            assert(point_models(out@) =~= point_models(before).push(wanted[i as int]));
            assert(wanted.take(i + 1) =~= wanted.take(i as int).push(wanted[i as int]));
        }
        i += 1;
    }
    proof {
        assert(wanted.take(count as int) =~= wanted);
    }
    out
}

/// A chart has no more points than asked for.
pub proof fn charts_fit(days: Seq<DayModel>, width: int)
    requires
        width >= 0,
    ensures
        points_of(days, width).len() <= width,
        points_of(days, width).len() <= days.len(),
{
}

// ---------------------------------------------------------------------------
// The models that are shown
// ---------------------------------------------------------------------------

/// The entries of all points.
pub open spec fn point_entries(points: Seq<PointModel>) -> Seq<(KeyModel, u64)>
    decreases points.len(),
{
    if points.len() == 0 {
        seq![]
    } else {
        point_entries(points.drop_last()) + points.last().models
    }
}

/// The models of tallies.
pub open spec fn names_of<A>(items: Seq<(KeyModel, A)>) -> Seq<KeyModel> {
    items.map_values(|item: (KeyModel, A)| item.0)
}

/// The models with the most tokens, at most `limit`: where there are more, the
/// last one stands for all the others.
pub open spec fn top_models(points: Seq<PointModel>, limit: int) -> Seq<KeyModel> {
    let names = names_of(crate::models::ranked(crate::models::tallied(point_entries(points))));
    if limit <= 0 {
        seq![]
    } else if names.len() <= limit {
        names
    } else if limit == 1 {
        names.take(1).push(crate::models::other_key())
    } else {
        names.take(limit - 1).push(crate::models::other_key())
    }
}

/// The models with the most tokens.
pub fn top_models_for_stacked_chart(points: &Vec<ChartPoint>, limit: usize) -> (out: Vec<
    DisplayModelKey,
>)
    ensures
        crate::models::key_models(out@) == top_models(point_models(points@), limit as int),
{
    let mut out: Vec<DisplayModelKey> = Vec::new();
    let ghost wanted = top_models(point_models(points@), limit as int);
    if limit == 0 {
        proof {
            assert(crate::models::key_models(out@) =~= wanted);
        }
        return out;
    }
    let ghost all = point_models(points@);
    let mut sums: Vec<Tally<u64>> = Vec::new();
    let mut i: usize = 0;
    proof {
        assert(crate::models::tallies(sums@) =~= seq![]);
    }
    while i < points.len()
        invariant
            i <= points.len(),
            all == point_models(points@),
            crate::models::tallies(sums@) == crate::models::tallied(
                point_entries(all.take(i as int)),
            ),
        decreases points.len() - i,
    {
        let ghost head = point_entries(all.take(i as int));
        let ghost added = all[i as int].models;
        proof {
            assert(all.take(i + 1).drop_last() =~= all.take(i as int));
            assert(all.take(i + 1).last() == all[i as int]);
            assert(head + added.take(0) =~= head);
        }
        let mut j: usize = 0;
        while j < points[i].models.len()
            invariant
                i < points.len(),
                j <= points@[i as int].models@.len(),
                added == crate::models::tallies(points@[i as int].models@),
                crate::models::tallies(sums@) == crate::models::tallied(
                    head + added.take(j as int),
                ),
            decreases points@[i as int].models@.len() - j,
        {
            proof {
                let whole = head + added.take(j + 1);
                assert(whole.drop_last() =~= head + added.take(j as int));
                assert(whole.last() == added[j as int]);
            }
            let key = points[i].models[j].key.copy();
            add_amount(&mut sums, key, points[i].models[j].amount);
            j += 1;
        }
        proof {
            assert(added.take(added.len() as int) =~= added);
        }
        i += 1;
    }
    proof {
        assert(all.take(all.len() as int) =~= all);
    }
    let ordered = rank(sums);
    let ghost names = names_of(crate::models::tallies(ordered@));
    let all_shown = ordered.len() <= limit;
    let count: usize = if all_shown {
        ordered.len()
    } else if limit == 1 {
        1
    } else {
        limit - 1
    };
    let mut k: usize = 0;
    while k < count
        invariant
            k <= count <= ordered.len(),
            names == names_of(crate::models::tallies(ordered@)),
            crate::models::key_models(out@) == names.take(k as int),
        decreases count - k,
    {
        let ghost before = out@;
        out.push(ordered[k].key.copy());
        proof {
            assert(crate::models::key_models(out@) =~= crate::models::key_models(before).push(
                names[k as int],
            ));
            assert(names.take(k + 1) =~= names.take(k as int).push(names[k as int]));
        }
        k += 1;
    }
    if all_shown {
        proof {
            assert(names.take(names.len() as int) =~= names);
        }
        return out;
    }
    let ghost before = out@;
    out.push(other_model_key());
    proof {
        assert(crate::models::key_models(out@) =~= crate::models::key_models(before).push(
            crate::models::other_key(),
        ));
    }
    out
}

// ---------------------------------------------------------------------------
// The heights of bars
// ---------------------------------------------------------------------------

/// `n`, or the largest size if `n` is larger.
pub open spec fn size_capped(n: int) -> int {
    if n > usize::MAX {
        usize::MAX as int
    } else {
        n
    }
}

/// The height of a bar: in proportion to the highest one, rounded up, and at
/// least one row where there are any tokens.
pub open spec fn bar_height(tokens: int, max_tokens: int) -> int {
    if tokens == 0 || max_tokens == 0 {
        0
    } else {
        let height = (tokens * 8 + (max_tokens - 1)) / max_tokens;
        if height < 1 {
            1
        } else if height > 8 {
            8
        } else {
            height
        }
    }
}

/// The height of a bar.
pub fn scaled_bar_height(tokens: u64, max_tokens: u64) -> (out: usize)
    ensures
        out == bar_height(tokens as int, max_tokens as int),
        out <= DAILY_BAR_CHART_HEIGHT,
{
    if tokens == 0 || max_tokens == 0 {
        return 0;
    }
    let height: u128 = (tokens as u128 * 8 + (max_tokens as u128 - 1)) / max_tokens as u128;
    if height < 1 {
        1
    } else if height > 8 {
        8
    } else {
        height as usize
    }
}

/// The rows that a part of a bar fills completely.
pub open spec fn whole_rows(value: int, total: int, height: int) -> int {
    size_capped(value * height / total)
}

/// What a part of a bar lacks to a row, the larger the less.
pub open spec fn row_rest(value: int, total: int, height: int) -> int {
    value * height % total
}

/// Whether part `i` gets a row before part `j`.
pub open spec fn goes_first(values: Seq<u64>, total: int, height: int, i: int, j: int) -> bool {
    let a = row_rest(values[i] as int, total, height);
    let b = row_rest(values[j] as int, total, height);
    a > b || (a == b && values[i] > values[j])
}

/// The part, among the first `n` that did not get a row yet, that gets the next one.
pub open spec fn next_part(
    values: Seq<u64>,
    total: int,
    height: int,
    done: Seq<bool>,
    n: nat,
) -> Option<int>
    decreases n,
{
    if n == 0 {
        None
    } else {
        let i = n - 1;
        match next_part(values, total, height, done, (n - 1) as nat) {
            None => if done[i] {
                None
            } else {
                Some(i)
            },
            Some(best) => if !done[i] && goes_first(values, total, height, i, best) {
                Some(i)
            } else {
                Some(best)
            },
        }
    }
}

/// `heights` after `rows` rows were given out, one to a part.
pub open spec fn with_rows(
    values: Seq<u64>,
    total: int,
    height: int,
    done: Seq<bool>,
    heights: Seq<int>,
    rows: nat,
) -> Seq<int>
    decreases rows,
{
    if rows == 0 {
        heights
    } else {
        match next_part(values, total, height, done, values.len()) {
            None => heights,
            Some(i) => with_rows(
                values,
                total,
                height,
                done.update(i, true),
                heights.update(i, heights[i] + 1),
                (rows - 1) as nat,
            ),
        }
    }
}

/// The sum of some numbers.
pub open spec fn int_sum(s: Seq<int>) -> int
    decreases s.len(),
{
    if s.len() == 0 {
        0
    } else {
        int_sum(s.drop_last()) + s.last()
    }
}

/// The rows that each part fills completely.
pub open spec fn base_heights(values: Seq<u64>, total: int, height: int) -> Seq<int> {
    values.map_values(|v: u64| whole_rows(v as int, total, height))
}

/// The parts that get no further row: those without any tokens.
pub open spec fn empty_parts(values: Seq<u64>) -> Seq<bool> {
    values.map_values(|v: u64| v == 0)
}

/// The heights of the parts of a bar: the rows that each part fills completely,
/// and one more for those that come closest to a further one, as long as rows of
/// the bar are left.
pub open spec fn segment_heights(values: Seq<u64>, total: int, max_tokens: int) -> Seq<int> {
    let height = bar_height(total, max_tokens);
    if total == 0 || max_tokens == 0 {
        values.map_values(|v: u64| 0int)
    } else {
        let base = base_heights(values, total, height);
        let left = height - int_sum(base);
        with_rows(
            values,
            total,
            height,
            empty_parts(values),
            base,
            if left > 0 {
                left as nat
            } else {
                0
            },
        )
    }
}

/// The views of heights.
pub open spec fn sizes(items: Seq<usize>) -> Seq<int> {
    items.map_values(|n: usize| n as int)
}

/// The sum of numbers that are not negative is at least each of them.
pub proof fn lemma_int_sum_bounds(s: Seq<int>)
    requires
        forall|i: int| 0 <= i < s.len() ==> 0 <= #[trigger] s[i],
    ensures
        int_sum(s) >= 0,
        forall|i: int| 0 <= i < s.len() ==> #[trigger] s[i] <= int_sum(s),
    decreases s.len(),
{
    if s.len() > 0 {
        let rest = s.drop_last();
        assert forall|i: int| 0 <= i < rest.len() implies 0 <= #[trigger] rest[i] by {
            assert(rest[i] == s[i]);
        }
        lemma_int_sum_bounds(rest);
        assert forall|i: int| 0 <= i < s.len() implies #[trigger] s[i] <= int_sum(s) by {
            if i < rest.len() {
                assert(rest[i] == s[i]);
            }
        }
    }
}

proof fn lemma_next_part(values: Seq<u64>, total: int, height: int, done: Seq<bool>, n: nat)
    requires
        n <= values.len(),
        done.len() == values.len(),
    ensures
        match next_part(values, total, height, done, n) {
            Some(i) => 0 <= i < n && !done[i],
            None => forall|i: int| 0 <= i < n ==> #[trigger] done[i],
        },
    decreases n,
{
    if n > 0 {
        lemma_next_part(values, total, height, done, (n - 1) as nat);
    }
}

fn row_parts(value: u64, total: u64, height: usize) -> (out: (usize, u64))
    requires
        total > 0,
        height <= DAILY_BAR_CHART_HEIGHT,
    ensures
        out.0 == whole_rows(value as int, total as int, height as int),
        out.1 == row_rest(value as int, total as int, height as int),
{
    proof {
        assert(value * height <= u64::MAX * 8) by (nonlinear_arith)
            requires
                0 <= value <= u64::MAX,
                0 <= height <= 8,
        ;
        assert(value * height >= 0) by (nonlinear_arith)
            requires
                0 <= value,
                0 <= height,
        ;
    }
    let scaled: u128 = value as u128 * height as u128;
    let rows: u128 = scaled / total as u128;
    let rest: u128 = scaled % total as u128;
    let capped: usize = if rows > usize::MAX as u128 {
        usize::MAX
    } else {
        rows as usize
    };
    (capped, rest as u64)
}

fn find_next_part(values: &Vec<u64>, total: u64, height: usize, done: &Vec<bool>) -> (out: Option<
    usize,
>)
    requires
        total > 0,
        height <= DAILY_BAR_CHART_HEIGHT,
        done@.len() == values@.len(),
    ensures
        match out {
            Some(i) => next_part(values@, total as int, height as int, done@, values@.len())
                == Some(i as int) && i < values@.len() && !done@[i as int],
            None => next_part(
                values@,
                total as int,
                height as int,
                done@,
                values@.len(),
            ) is None,
        },
{
    let mut best: Option<usize> = None;
    let mut n: usize = 0;
    while n < values.len()
        invariant
            n <= values.len(),
            total > 0,
            height <= DAILY_BAR_CHART_HEIGHT,
            done@.len() == values@.len(),
            match best {
                Some(i) => next_part(values@, total as int, height as int, done@, n as nat) == Some(
                    i as int,
                ) && i < n,
                None => next_part(
                    values@,
                    total as int,
                    height as int,
                    done@,
                    n as nat,
                ) is None,
            },
        decreases values.len() - n,
    {
        if !done[n] {
            match best {
                None => {
                    best = Some(n);
                },
                Some(i) => {
                    let a: u64 = row_parts(values[n], total, height).1;
                    let b: u64 = row_parts(values[i], total, height).1;
                    if a > b || (a == b && values[n] > values[i]) {
                        best = Some(n);
                    }
                },
            }
        }
        n += 1;
    }
    proof {
        lemma_next_part(values@, total as int, height as int, done@, values@.len());
    }
    best
}

/// The heights of the parts of a bar.
pub fn stacked_bar_segment_heights(values: &Vec<u64>, total_tokens: u64, max_tokens: u64) -> (out:
    Vec<usize>)
    ensures
        sizes(out@) == segment_heights(values@, total_tokens as int, max_tokens as int),
{
    let height = scaled_bar_height(total_tokens, max_tokens);
    let known = total_tokens > 0 && max_tokens > 0;
    let ghost total = total_tokens as int;
    let ghost base = base_heights(values@, total, height as int);
    let mut heights: Vec<usize> = Vec::new();
    let mut done: Vec<bool> = Vec::new();
    let mut assigned: usize = 0;
    let mut i: usize = 0;
    while i < values.len()
        invariant
            i <= values.len(),
            known == (total_tokens > 0 && max_tokens > 0),
            total == total_tokens,
            height <= DAILY_BAR_CHART_HEIGHT,
            base == base_heights(values@, total, height as int),
            heights@.len() == i,
            done@.len() == i,
            forall|j: int|
                0 <= j < i ==> #[trigger] heights@[j] == (if known {
                    base[j]
                } else {
                    0
                }),
            forall|j: int| 0 <= j < i ==> #[trigger] done@[j] == (values@[j] == 0),
            known ==> assigned == size_capped(int_sum(base.take(i as int))),
            known ==> int_sum(base.take(i as int)) >= 0,
            known ==> forall|j: int| 0 <= j < base.len() ==> 0 <= #[trigger] base[j],
        decreases values.len() - i,
    {
        proof {
            assert(base.take(i + 1).drop_last() =~= base.take(i as int));
            assert(base.take(i + 1).last() == base[i as int]);
        }
        let rows: usize = if known {
            row_parts(values[i], total_tokens, height).0
        } else {
            0
        };
        heights.push(rows);
        done.push(values[i] == 0);
        assigned = assigned.saturating_add(rows);
        i += 1;
    }
    proof {
        assert(base.take(base.len() as int) =~= base);
        assert(done@ =~= empty_parts(values@));
    }
    if !known {
        proof {
            assert(sizes(heights@) =~= values@.map_values(|v: u64| 0int));
        }
        return heights;
    }
    proof {
        assert(sizes(heights@) =~= base);
        lemma_int_sum_bounds(base);
    }
    let mut left: usize = if assigned < height {
        height - assigned
    } else {
        0
    };
    let ghost wanted = segment_heights(values@, total, max_tokens as int);
    proof {
        if left > 0 {
            assert forall|j: int| 0 <= j < heights@.len() implies #[trigger] heights@[j] <= 8 by {
                assert(heights@[j] == base[j]);
                assert(base[j] <= int_sum(base));
            }
        }
    }
    while left > 0
        invariant
            total == total_tokens,
            total_tokens > 0,
            height <= DAILY_BAR_CHART_HEIGHT,
            done@.len() == values@.len(),
            heights@.len() == values@.len(),
            left > 0 ==> forall|j: int|
                0 <= j < heights@.len() ==> (#[trigger] heights@[j] <= 8 || done@[j]),
            wanted == segment_heights(values@, total, max_tokens as int),
            wanted == with_rows(
                values@,
                total,
                height as int,
                done@,
                sizes(heights@),
                left as nat,
            ),
        decreases left,
    {
        match find_next_part(values, total_tokens, height, &done) {
            None => {
                return heights;
            },
            Some(k) => {
                let ghost before = heights@;
                let taller: usize = heights[k] + 1;
                heights.set(k, taller);
                done.set(k, true);
                proof {
                    assert(sizes(heights@) =~= sizes(before).update(
                        k as int,
                        sizes(before)[k as int] + 1,
                    ));
                }
            },
        }
        left -= 1;
    }
    heights
}

/// The number of parts that may get a further row.
pub open spec fn open_parts(done: Seq<bool>) -> nat
    decreases done.len(),
{
    if done.len() == 0 {
        0
    } else {
        open_parts(done.drop_last()) + (if done.last() {
            0nat
        } else {
            1
        })
    }
}

proof fn lemma_open_update(done: Seq<bool>, i: int)
    requires
        0 <= i < done.len(),
        !done[i],
    ensures
        open_parts(done.update(i, true)) + 1 == open_parts(done),
    decreases done.len(),
{
    let next = done.update(i, true);
    if i == done.len() - 1 {
        assert(next.drop_last() =~= done.drop_last());
    } else {
        lemma_open_update(done.drop_last(), i);
        assert(next.drop_last() =~= done.drop_last().update(i, true));
    }
}

proof fn lemma_no_open(done: Seq<bool>)
    requires
        forall|i: int| 0 <= i < done.len() ==> #[trigger] done[i],
    ensures
        open_parts(done) == 0,
    decreases done.len(),
{
    if done.len() > 0 {
        assert(done.last() == done[done.len() - 1]);
        assert forall|i: int| 0 <= i < done.drop_last().len() implies #[trigger] done.drop_last()[i] by {
            assert(done.drop_last()[i] == done[i]);
        }
        lemma_no_open(done.drop_last());
    }
}

proof fn lemma_sum_update(s: Seq<int>, i: int, v: int)
    requires
        0 <= i < s.len(),
    ensures
        int_sum(s.update(i, v)) == int_sum(s) - s[i] + v,
    decreases s.len(),
{
    let next = s.update(i, v);
    if i == s.len() - 1 {
        assert(next.drop_last() =~= s.drop_last());
    } else {
        lemma_sum_update(s.drop_last(), i, v);
        assert(next.drop_last() =~= s.drop_last().update(i, v));
    }
}

proof fn lemma_rows_add_up(
    values: Seq<u64>,
    total: int,
    height: int,
    done: Seq<bool>,
    heights: Seq<int>,
    rows: nat,
)
    requires
        done.len() == values.len(),
        heights.len() == values.len(),
        rows <= open_parts(done),
    ensures
        int_sum(with_rows(values, total, height, done, heights, rows)) == int_sum(heights) + rows,
    decreases rows,
{
    if rows > 0 {
        lemma_next_part(values, total, height, done, values.len());
        match next_part(values, total, height, done, values.len()) {
            None => {
                lemma_no_open(done);
            },
            Some(i) => {
                lemma_open_update(done, i);
                lemma_sum_update(heights, i, heights[i] + 1);
                lemma_rows_add_up(
                    values,
                    total,
                    height,
                    done.update(i, true),
                    heights.update(i, heights[i] + 1),
                    (rows - 1) as nat,
                );
            },
        }
    }
}

/// The sum of the tokens of some parts.
pub open spec fn part_sum(values: Seq<u64>) -> int
    decreases values.len(),
{
    if values.len() == 0 {
        0
    } else {
        part_sum(values.drop_last()) + values.last()
    }
}

proof fn lemma_rests_add_up(values: Seq<u64>, total: int, height: int)
    requires
        total > 0,
        0 <= height <= 8,
        part_sum(values) <= total,
    ensures
        part_sum(values) * height <= int_sum(base_heights(values, total, height)) * total
            + open_parts(empty_parts(values)) * (total - 1),
        int_sum(base_heights(values, total, height)) * total <= part_sum(values) * height,
        int_sum(base_heights(values, total, height)) >= 0,
        part_sum(values) >= 0,
    decreases values.len(),
{
    let base = base_heights(values, total, height);
    let empty = empty_parts(values);
    if values.len() == 0 {
        assert(base.len() == 0 && empty.len() == 0);
        assert(int_sum(base) == 0 && open_parts(empty) == 0);
        assert(0 * height == 0 && 0 * total == 0 && 0 * (total - 1) == 0);
    } else {
        let rest = values.drop_last();
        let v = values.last() as int;
        lemma_parts_positive(rest);
        lemma_rests_add_up(rest, total, height);
        assert(base.drop_last() =~= base_heights(rest, total, height));
        assert(empty.drop_last() =~= empty_parts(rest));
        let b = base.last();
        let scaled = v * height;
        assert(scaled >= 0 && scaled <= total * 8) by (nonlinear_arith)
            requires
                scaled == v * height,
                0 <= v <= total,
                0 <= height <= 8,
        ;
        let q = scaled / total;
        let r = scaled % total;
        assert(scaled == q * total + r && 0 <= r < total) by (nonlinear_arith)
            requires
                q == scaled / total,
                r == scaled % total,
                total > 0,
        ;
        assert(0 <= q <= 8) by (nonlinear_arith)
            requires
                scaled == q * total + r,
                0 <= r < total,
                0 <= scaled <= total * 8,
        ;
        assert(b == q);
        let s0 = part_sum(rest);
        let b0 = int_sum(base_heights(rest, total, height));
        let n0 = open_parts(empty_parts(rest));
        let n1: int = if v == 0 {
            0
        } else {
            1
        };
        assert(open_parts(empty) == n0 + n1);
        if v == 0 {
            assert(scaled == 0) by (nonlinear_arith)
                requires
                    scaled == v * height,
                    v == 0,
            ;
            assert(q == 0 && r == 0) by (nonlinear_arith)
                requires
                    0 == q * total + r,
                    0 <= r < total,
                    0 <= q,
            ;
        }
        assert(r <= n1 * (total - 1)) by (nonlinear_arith)
            requires
                0 <= r < total,
                n1 == 1 || (n1 == 0 && r == 0),
        ;
        assert((s0 + v) * height == s0 * height + scaled) by (nonlinear_arith)
            requires
                scaled == v * height,
        ;
        assert((b0 + q) * total == b0 * total + q * total) by (nonlinear_arith);
        assert((n0 + n1) * (total - 1) == n0 * (total - 1) + n1 * (total - 1))
            by (nonlinear_arith);
    }
}

proof fn lemma_parts_positive(values: Seq<u64>)
    ensures
        part_sum(values) >= 0,
    decreases values.len(),
{
    if values.len() > 0 {
        lemma_parts_positive(values.drop_last());
    }
}

/// The parts of a bar whose tokens add up to those of the bar are together as
/// high as the bar.
pub proof fn segments_fill_the_bar(values: Seq<u64>, max_tokens: int)
    requires
        max_tokens > 0,
    ensures
        int_sum(segment_heights(values, part_sum(values), max_tokens)) == bar_height(
            part_sum(values),
            max_tokens,
        ),
{
    let total = part_sum(values);
    lemma_parts_positive(values);
    let height = bar_height(total, max_tokens);
    if total == 0 {
        lemma_zero_sum(values);
    } else {
        lemma_rests_add_up(values, total, height);
        let b = int_sum(base_heights(values, total, height));
        let n = open_parts(empty_parts(values)) as int;
        assert(b <= height) by (nonlinear_arith)
            requires
                b * total <= total * height,
                total > 0,
        ;
        assert(height - b <= n) by (nonlinear_arith)
            requires
                total * height <= b * total + n * (total - 1),
                total > 0,
                n >= 0,
        ;
        lemma_rows_add_up(
            values,
            total,
            height,
            empty_parts(values),
            base_heights(values, total, height),
            (height - b) as nat,
        );
    }
}

proof fn lemma_zero_sum(values: Seq<u64>)
    ensures
        int_sum(values.map_values(|v: u64| 0int)) == 0,
    decreases values.len(),
{
    let zeros = values.map_values(|v: u64| 0int);
    if values.len() > 0 {
        lemma_zero_sum(values.drop_last());
        assert(zeros.drop_last() =~= values.drop_last().map_values(|v: u64| 0int));
    }
}

// ---------------------------------------------------------------------------
// Drawing
// ---------------------------------------------------------------------------

/// The column of a point.
pub open spec fn point_x(index: int, count: int, width: int) -> int {
    if width <= 1 || count <= 1 {
        width / 2
    } else {
        size_capped(index * (width - 1)) / (count - 1)
    }
}

/// The column of a point.
pub fn chart_point_x(index: usize, point_count: usize, width: usize) -> (out: usize)
    ensures
        out == point_x(index as int, point_count as int, width as int),
        index < point_count ==> out <= width,
        index < point_count && width > 0 ==> out < width,
{
    if width <= 1 || point_count <= 1 {
        return width / 2;
    }
    proof {
        assert(0 <= index * (width - 1) <= u128::MAX) by (nonlinear_arith)
            requires
                0 <= index <= u64::MAX,
                1 < width <= u64::MAX,
        ;
    }
    let product: u128 = index as u128 * (width - 1) as u128;
    let bounded: usize = if product > usize::MAX as u128 {
        usize::MAX
    } else {
        product as usize
    };
    let out: usize = bounded / (point_count - 1);
    proof {
        if index < point_count {
            let p = index * (width - 1);
            assert(out < width) by (nonlinear_arith)
                requires
                    out == bounded / ((point_count - 1) as usize),
                    bounded <= index * (width - 1),
                    index <= point_count - 1,
                    width > 1,
                    point_count > 1,
            ;
        }
    }
    out
}

/// The tokens of a point that belong to a model that is shown.
pub open spec fn tokens_of(point: PointModel, key: KeyModel) -> int {
    match crate::models::amount_of(point.models, key) {
        Some(tokens) => tokens as int,
        None => 0,
    }
}

/// The tokens of a point that belong to the models in `top`.
pub open spec fn shown_tokens(point: PointModel, top: Seq<KeyModel>) -> int
    decreases top.len(),
{
    if top.len() == 0 {
        0
    } else {
        shown_tokens(point, top.drop_last()) + (if top.last() == crate::models::other_key() {
            0
        } else {
            tokens_of(point, top.last())
        })
    }
}

/// The tokens of a point for a model in `top`; what stands for all others has the
/// tokens that no model has.
pub open spec fn part_tokens(point: PointModel, key: KeyModel, top: Seq<KeyModel>) -> u64 {
    if key != crate::models::other_key() {
        tokens_of(point, key) as u64
    } else if shown_tokens(point, top) >= point.tokens {
        0
    } else {
        (point.tokens - shown_tokens(point, top)) as u64
    }
}

/// The tokens of a point for each model in `top`.
pub open spec fn parts_of(point: PointModel, top: Seq<KeyModel>) -> Seq<u64> {
    top.map_values(|key: KeyModel| part_tokens(point, key, top))
}

fn tokens_for(point: &ChartPoint, key: &DisplayModelKey) -> (out: u64)
    ensures
        out == tokens_of(point@, key@),
{
    match find_amount(&point.models, key) {
        Some(tokens) => tokens,
        None => 0,
    }
}

fn count_shown(point: &ChartPoint, top: &Vec<DisplayModelKey>) -> (out: u64)
    ensures
        out == crate::stats::capped(
            shown_tokens(point@, crate::models::key_models(top@)),
        ),
        shown_tokens(point@, crate::models::key_models(top@)) >= 0,
{
    let ghost all = crate::models::key_models(top@);
    let mut sum: u64 = 0;
    let mut i: usize = 0;
    while i < top.len()
        invariant
            i <= top.len(),
            all == crate::models::key_models(top@),
            shown_tokens(point@, all.take(i as int)) >= 0,
            sum == crate::stats::capped(shown_tokens(point@, all.take(i as int))),
        decreases top.len() - i,
    {
        proof {
            assert(all.take(i + 1).drop_last() =~= all.take(i as int));
            assert(all.take(i + 1).last() == top@[i as int]@);
        }
        if !top[i].is_other() {
            sum = sum.saturating_add(tokens_for(point, &top[i]));
        }
        i += 1;
    }
    proof {
        assert(all.take(all.len() as int) =~= all);
    }
    sum
}

/// The tokens of a point for a model in `top`.
pub fn chart_model_tokens(
    point: &ChartPoint,
    key: &DisplayModelKey,
    top: &Vec<DisplayModelKey>,
) -> (out: u64)
    ensures
        out == part_tokens(point@, key@, crate::models::key_models(top@)),
{
    if !key.is_other() {
        return tokens_for(point, key);
    }
    let shown = count_shown(point, top);
    if shown >= point.tokens {
        0
    } else {
        point.tokens - shown
    }
}

/// The bar of a point: its column and the heights of its parts.
#[derive(Debug)]
pub struct Bar {
    pub x: usize,
    pub heights: Vec<usize>,
}

/// The bar of a point, over mathematical values.
#[verifier::ext_equal]
pub struct BarModel {
    pub x: int,
    pub heights: Seq<int>,
}

impl View for Bar {
    type V = BarModel;

    open spec fn view(&self) -> BarModel {
        BarModel { x: self.x as int, heights: sizes(self.heights@) }
    }
}

/// The views of bars.
pub open spec fn bar_models(bars: Seq<Bar>) -> Seq<BarModel> {
    bars.map_values(|b: Bar| b@)
}

/// The bars of the points.
pub open spec fn bars_of(
    points: Seq<PointModel>,
    top: Seq<KeyModel>,
    max_tokens: int,
    width: int,
) -> Seq<BarModel> {
    Seq::new(
        points.len(),
        |i: int|
            BarModel {
                x: point_x(i, points.len() as int, width),
                heights: segment_heights(
                    parts_of(points[i], top),
                    points[i].tokens as int,
                    max_tokens,
                ),
            },
    )
}

fn lay_out_bars(
    points: &Vec<ChartPoint>,
    top: &Vec<DisplayModelKey>,
    max_tokens: u64,
    width: usize,
) -> (out: Vec<Bar>)
    ensures
        bar_models(out@) == bars_of(
            point_models(points@),
            crate::models::key_models(top@),
            max_tokens as int,
            width as int,
        ),
        forall|i: int|
            0 <= i < out@.len() ==> (#[trigger] out@[i]).heights@.len() == top@.len(),
{
    let ghost all = point_models(points@);
    let ghost keys = crate::models::key_models(top@);
    let ghost wanted = bars_of(all, keys, max_tokens as int, width as int);
    let mut out: Vec<Bar> = Vec::new();
    let mut i: usize = 0;
    while i < points.len()
        invariant
            i <= points.len(),
            all == point_models(points@),
            keys == crate::models::key_models(top@),
            wanted == bars_of(all, keys, max_tokens as int, width as int),
            bar_models(out@) == wanted.take(i as int),
            forall|j: int|
                0 <= j < out@.len() ==> (#[trigger] out@[j]).heights@.len() == top@.len(),
        decreases points.len() - i,
    {
        let mut values: Vec<u64> = Vec::new();
        let ghost parts = parts_of(all[i as int], keys);
        let mut k: usize = 0;
        while k < top.len()
            invariant
                i < points.len(),
                k <= top.len(),
                all == point_models(points@),
                keys == crate::models::key_models(top@),
                parts == parts_of(all[i as int], keys),
                values@ == parts.take(k as int),
            decreases top.len() - k,
        {
            let part = chart_model_tokens(&points[i], &top[k], top);
            values.push(part);
            proof {
                assert(parts.take(k + 1) =~= parts.take(k as int).push(parts[k as int]));
            }
            k += 1;
        }
        proof {
            assert(parts.take(parts.len() as int) =~= parts);
        }
        let heights = stacked_bar_segment_heights(&values, points[i].tokens, max_tokens);
        let x = chart_point_x(i, points.len(), width);
        let ghost before = out@;
        proof {
            lemma_heights_len(values@, points@[i as int].tokens as int, max_tokens as int);
            assert(sizes(heights@).len() == heights@.len());
        }
        out.push(Bar { x, heights });
        proof {
            assert(out@.last()@ =~= wanted[i as int]);
            assert(bar_models(out@) =~= bar_models(before).push(wanted[i as int]));
            assert(wanted.take(i + 1) =~= wanted.take(i as int).push(wanted[i as int]));
        }
        i += 1;
    }
    proof {
        assert(wanted.take(wanted.len() as int) =~= wanted);
    }
    out
}

proof fn lemma_heights_len(values: Seq<u64>, total: int, max_tokens: int)
    ensures
        segment_heights(values, total, max_tokens).len() == values.len(),
{
    let height = bar_height(total, max_tokens);
    let base = base_heights(values, total, height);
    let left = height - int_sum(base);
    if left > 0 {
        lemma_with_rows_len(values, total, height, empty_parts(values), base, left as nat);
    }
}

proof fn lemma_with_rows_len(
    values: Seq<u64>,
    total: int,
    height: int,
    done: Seq<bool>,
    heights: Seq<int>,
    rows: nat,
)
    requires
        done.len() == values.len(),
        heights.len() == values.len(),
    ensures
        with_rows(values, total, height, done, heights, rows).len() == heights.len(),
    decreases rows,
{
    if rows > 0 {
        lemma_next_part(values, total, height, done, values.len());
        if let Some(i) = next_part(values, total, height, done, values.len()) {
            lemma_with_rows_len(
                values,
                total,
                height,
                done.update(i, true),
                heights.update(i, heights[i] + 1),
                (rows - 1) as nat,
            );
        }
    }
}

/// The part of a bar at a level, counted from the bottom.
pub open spec fn part_at(heights: Seq<int>, level: int) -> Option<int>
    decreases heights.len(),
{
    if heights.len() == 0 {
        None
    } else if level < heights[0] {
        Some(0)
    } else {
        match part_at(heights.skip(1), level - heights[0]) {
            Some(i) => Some(i + 1),
            None => None,
        }
    }
}

/// The part that is seen at a column and a level: later bars stand before
/// earlier ones.
pub open spec fn cell_at(bars: Seq<BarModel>, x: int, level: int) -> Option<int>
    decreases bars.len(),
{
    if bars.len() == 0 {
        None
    } else if bars.last().x == x && part_at(bars.last().heights, level) is Some {
        part_at(bars.last().heights, level)
    } else {
        cell_at(bars.drop_last(), x, level)
    }
}

fn find_part(heights: &Vec<usize>, level: usize) -> (out: Option<usize>)
    ensures
        match out {
            Some(k) => part_at(sizes(heights@), level as int) == Some(k as int)
                && k < heights@.len(),
            None => part_at(sizes(heights@), level as int) is None,
        },
{
    let ghost all = sizes(heights@);
    let mut left: usize = level;
    let mut i: usize = 0;
    proof {
        assert(all.skip(0) =~= all);
    }
    while i < heights.len()
        invariant
            i <= heights.len(),
            all == sizes(heights@),
            match part_at(all.skip(i as int), left as int) {
                Some(k) => part_at(all, level as int) == Some(k + i),
                None => part_at(all, level as int) is None,
            },
        decreases heights.len() - i,
    {
        proof {
            assert(all.skip(i as int)[0] == all[i as int]);
            assert(all.skip(i as int).skip(1) =~= all.skip(i + 1));
        }
        if left < heights[i] {
            return Some(i);
        }
        left -= heights[i];
        i += 1;
    }
    None
}

fn find_cell(bars: &Vec<Bar>, x: usize, level: usize) -> (out: Option<usize>)
    ensures
        match out {
            Some(k) => cell_at(bar_models(bars@), x as int, level as int) == Some(k as int)
                && exists|i: int|
                0 <= i < bars@.len() && k < (#[trigger] bars@[i]).heights@.len(),
            None => cell_at(bar_models(bars@), x as int, level as int) is None,
        },
{
    let ghost all = bar_models(bars@);
    let mut n: usize = bars.len();
    proof {
        assert(all.take(all.len() as int) =~= all);
    }
    while n > 0
        invariant
            n <= bars.len(),
            all == bar_models(bars@),
            cell_at(all, x as int, level as int) == cell_at(
                all.take(n as int),
                x as int,
                level as int,
            ),
        decreases n,
    {
        proof {
            assert(all.take(n as int).drop_last() =~= all.take(n - 1));
            assert(all.take(n as int).last() == bars@[n - 1]@);
        }
        n -= 1;
        if bars[n].x == x {
            let part = find_part(&bars[n].heights, level);
            if let Some(k) = part {
                proof {
                    assert(k < bars@[n as int].heights@.len());
                }
                return Some(k);
            }
        }
    }
    None
}

/// A cell of the chart.
pub open spec fn cell_text(
    bars: Seq<BarModel>,
    top: Seq<KeyModel>,
    colors: Seq<(KeyModel, int)>,
    use_color: bool,
    x: int,
    level: int,
) -> Seq<char> {
    match cell_at(bars, x, level) {
        None => seq![' '],
        Some(k) => crate::models::marker_of(colors, top[k], use_color),
    }
}

/// The first `width` cells of a row.
pub open spec fn row_text(
    bars: Seq<BarModel>,
    top: Seq<KeyModel>,
    colors: Seq<(KeyModel, int)>,
    use_color: bool,
    width: nat,
    level: int,
) -> Seq<char>
    decreases width,
{
    if width == 0 {
        seq![]
    } else {
        row_text(bars, top, colors, use_color, (width - 1) as nat, level) + cell_text(
            bars,
            top,
            colors,
            use_color,
            width - 1,
            level,
        )
    }
}

fn render_row(
    bars: &Vec<Bar>,
    top: &Vec<DisplayModelKey>,
    visuals: &ModelVisuals,
    use_color: bool,
    width: usize,
    level: usize,
) -> (out: String)
    requires
        forall|i: int|
            0 <= i < bars@.len() ==> (#[trigger] bars@[i]).heights@.len() == top@.len(),
    ensures
        out@ == row_text(
            bar_models(bars@),
            crate::models::key_models(top@),
            visuals@,
            use_color,
            width as nat,
            level as int,
        ),
{
    let mut out = String::new();
    let mut x: usize = 0;
    while x < width
        invariant
            x <= width,
            forall|i: int|
                0 <= i < bars@.len() ==> (#[trigger] bars@[i]).heights@.len() == top@.len(),
            out@ == row_text(
                bar_models(bars@),
                crate::models::key_models(top@),
                visuals@,
                use_color,
                x as nat,
                level as int,
            ),
        decreases width - x,
    {
        match find_cell(bars, x, level) {
            None => {
                let blank = repeat(' ', 1);
                proof {
                    assert(blank@ =~= seq![' ']);
                }
                out.append(blank.as_str());
            },
            Some(k) => {
                out.append(model_marker_for_key(&top[k], visuals, use_color).as_str());
            },
        }
        x += 1;
    }
    out
}

// ---------------------------------------------------------------------------
// Axes
// ---------------------------------------------------------------------------

/// The label of a row: the number of tokens that reach up to it.
pub open spec fn row_label(row: int, max_tokens: int) -> Seq<char> {
    if row == 7 {
        "0"@
    } else if max_tokens == 0 {
        ""@
    } else {
        crate::format::tokens_text((crate::stats::capped(max_tokens * (7 - row)) / 7) as nat)
    }
}

/// The label of a row.
pub fn y_axis_label(row_index: usize, max_tokens: u64) -> (out: String)
    requires
        row_index < DAILY_BAR_CHART_HEIGHT,
    ensures
        out@ == row_label(row_index as int, max_tokens as int),
{
    if row_index == 7 {
        return String::from_str("0");
    }
    if max_tokens == 0 {
        return String::from_str("");
    }
    let factor: u128 = 7 - row_index as u128;
    proof {
        assert(max_tokens * (7 - row_index) <= u64::MAX * 7) by (nonlinear_arith)
            requires
                0 <= max_tokens <= u64::MAX,
                0 <= row_index < 7,
        ;
        assert(max_tokens * (7 - row_index) >= 0) by (nonlinear_arith)
            requires
                0 <= max_tokens,
                0 <= row_index < 7,
        ;
    }
    let product: u128 = max_tokens as u128 * factor;
    let bounded: u64 = if product > u64::MAX as u128 {
        u64::MAX
    } else {
        product as u64
    };
    human_tokens(bounded / 7)
}

/// The short name of a month.
pub open spec fn month_name(month: int) -> Seq<char> {
    if month == 1 {
        "Jan"@
    } else if month == 2 {
        "Feb"@
    } else if month == 3 {
        "Mar"@
    } else if month == 4 {
        "Apr"@
    } else if month == 5 {
        "May"@
    } else if month == 6 {
        "Jun"@
    } else if month == 7 {
        "Jul"@
    } else if month == 8 {
        "Aug"@
    } else if month == 9 {
        "Sep"@
    } else if month == 10 {
        "Oct"@
    } else if month == 11 {
        "Nov"@
    } else if month == 12 {
        "Dec"@
    } else {
        "???"@
    }
}

/// The label of a day of a month.
pub fn month_label(month: u8, day: u8) -> (out: String)
    ensures
        out@ == month_name(month as int) + " "@ + crate::numbers::decimal_of(day as nat),
{
    let name = match month {
        1 => "Jan",
        2 => "Feb",
        3 => "Mar",
        4 => "Apr",
        5 => "May",
        6 => "Jun",
        7 => "Jul",
        8 => "Aug",
        9 => "Sep",
        10 => "Oct",
        11 => "Nov",
        12 => "Dec",
        _ => "???",
    };
    concat3(name, " ", decimal(day as u64).as_str())
}

/// The label of a date.
pub open spec fn date_label(date: Seq<char>) -> Seq<char> {
    match crate::dates::date_parsed(date) {
        None => date,
        Some(day) => month_name(crate::dates::date_of(day).month) + " "@
            + crate::numbers::decimal_of(crate::dates::date_of(day).day as nat),
    }
}

/// The label of a date.
pub fn short_date_label(date: &str) -> (out: String)
    ensures
        out@ == date_label(date@),
{
    match parse_day(date) {
        None => String::from_str(date),
        Some(day) => {
            let parts = calendar_day(day);
            month_label(parts.0, parts.1)
        },
    }
}

/// `a - b`, or zero if `b` is larger.
pub open spec fn less(a: int, b: int) -> int {
    if b < a {
        a - b
    } else {
        0
    }
}

/// The labels of the first, the middle and the last point, with their columns.
pub open spec fn axis_labels(points: Seq<PointModel>, width: int) -> Seq<(int, Seq<char>)> {
    let n = points.len() as int;
    let first = date_label(points[0].date);
    if n == 0 {
        seq![]
    } else if n == 1 {
        seq![(less(point_x(0, 1, width), (first.len() / 2) as int), first)]
    } else {
        let mid = n / 2;
        let middle = date_label(points[mid].date);
        let last = date_label(points.last().date);
        let ends = (less(width, last.len() as int), last);
        if mid + 1 < n {
            seq![
                (0int, first),
                (less(point_x(mid, n, width), (middle.len() / 2) as int), middle),
                ends,
            ]
        } else {
            seq![(0int, first), ends]
        }
    }
}

/// `line` with `label` from `at` on, up to the first place that is taken.
pub open spec fn with_label(line: Seq<char>, at: int, label: Seq<char>) -> Seq<char>
    decreases label.len(),
{
    if label.len() == 0 || at < 0 || at >= line.len() || line[at] != ' ' {
        line
    } else {
        with_label(line.update(at, label[0]), at + 1, label.skip(1))
    }
}

/// `line` with all of `labels`, without a label that is the same as the one before.
pub open spec fn with_labels(
    line: Seq<char>,
    labels: Seq<(int, Seq<char>)>,
    previous: Seq<char>,
) -> Seq<char>
    decreases labels.len(),
{
    if labels.len() == 0 {
        line
    } else {
        let label = labels[0].1;
        if label == previous {
            with_labels(line, labels.skip(1), previous)
        } else {
            with_labels(
                with_label(line, CHART_PREFIX_WIDTH + labels[0].0, label),
                labels.skip(1),
                label,
            )
        }
    }
}

/// The line below the chart.
pub open spec fn axis_line(points: Seq<PointModel>, width: int) -> Seq<char> {
    with_labels(
        crate::format::run_of(' ', (width + CHART_PREFIX_WIDTH) as nat),
        axis_labels(points, width),
        ""@,
    )
}

fn place_label(line: &mut Vec<char>, start: usize, label: &str)
    ensures
        final(line)@ == with_label(old(line)@, start as int, label@),
{
    let chars = chars_of(label);
    let ghost first = line@;
    let mut i: usize = 0;
    let mut at: usize = start;
    proof {
        assert(chars@.skip(0) =~= chars@);
    }
    while i < chars.len() && at < line.len() && line[at] == ' '
        invariant
            i <= chars.len(),
            chars@ == label@,
            with_label(first, start as int, label@) == with_label(
                line@,
                at as int,
                chars@.skip(i as int),
            ),
        decreases chars.len() - i,
    {
        proof {
            assert(chars@.skip(i as int)[0] == chars@[i as int]);
            assert(chars@.skip(i as int).skip(1) =~= chars@.skip(i + 1));
        }
        let c = chars[i];
        line.set(at, c);
        at += 1;
        i += 1;
    }
    proof {
        assert(with_label(line@, at as int, chars@.skip(i as int)) == line@);
    }
}

/// The views of labels.
pub open spec fn label_models(labels: Seq<(usize, String)>) -> Seq<(int, Seq<char>)> {
    labels.map_values(|l: (usize, String)| (l.0 as int, l.1@))
}

fn choose_labels(points: &Vec<ChartPoint>, width: usize) -> (out: Vec<(usize, String)>)
    requires
        points@.len() > 0,
    ensures
        label_models(out@) == axis_labels(point_models(points@), width as int),
        forall|i: int| 0 <= i < out@.len() ==> (#[trigger] out@[i]).0 <= width,
{
    let ghost all = point_models(points@);
    let n: usize = points.len();
    let mut out: Vec<(usize, String)> = Vec::new();
    let first = short_date_label(points[0].date.as_str());
    if n == 1 {
        let x = chart_point_x(0, 1, width);
        let half: usize = first.as_str().unicode_len() / 2;
        out.push((x.saturating_sub(half), first));
        proof {
            assert(label_models(out@) =~= axis_labels(all, width as int));
        }
        return out;
    }
    let middle: usize = n / 2;
    let last = short_date_label(points[n - 1].date.as_str());
    out.push((0, first));
    if middle + 1 < n {
        let label = short_date_label(points[middle].date.as_str());
        let x = chart_point_x(middle, n, width);
        let half: usize = label.as_str().unicode_len() / 2;
        out.push((x.saturating_sub(half), label));
    }
    let room: usize = width.saturating_sub(last.as_str().unicode_len());
    out.push((room, last));
    proof {
        assert(label_models(out@) =~= axis_labels(all, width as int));
    }
    out
}

/// The line below the chart.
pub fn x_axis_labels(points: &Vec<ChartPoint>, width: usize) -> (out: String)
    requires
        width + CHART_PREFIX_WIDTH <= usize::MAX,
    ensures
        out@ == axis_line(point_models(points@), width as int),
{
    let ghost all = point_models(points@);
    let blank = repeat(' ', width + CHART_PREFIX_WIDTH);
    if points.len() == 0 {
        proof {
            assert(axis_labels(all, width as int) =~= seq![]);
        }
        return blank;
    }
    let mut line = chars_of(blank.as_str());
    let labels = choose_labels(points, width);
    let ghost wanted = label_models(labels@);
    let mut previous = String::from_str("");
    let mut i: usize = 0;
    proof {
        assert(wanted.skip(0) =~= wanted);
    }
    while i < labels.len()
        invariant
            i <= labels.len(),
            width + CHART_PREFIX_WIDTH <= usize::MAX,
            wanted == label_models(labels@),
            forall|j: int| 0 <= j < labels@.len() ==> (#[trigger] labels@[j]).0 <= width,
            with_labels(line@, wanted.skip(i as int), previous@) == axis_line(all, width as int),
        decreases labels.len() - i,
    {
        proof {
            assert(wanted.skip(i as int)[0] == wanted[i as int]);
            assert(wanted.skip(i as int).skip(1) =~= wanted.skip(i + 1));
        }
        let label = &labels[i];
        if !same(label.1.as_str(), previous.as_str()) {
            place_label(&mut line, CHART_PREFIX_WIDTH + label.0, label.1.as_str());
            previous = label.1.clone();
        }
        i += 1;
    }
    string_of(&line)
}

/// A line of the chart: its rows, the axis and the labels below it.
pub open spec fn chart_line(
    points: Seq<PointModel>,
    top: Seq<KeyModel>,
    colors: Seq<(KeyModel, int)>,
    max_tokens: int,
    width: int,
    use_color: bool,
    line: int,
) -> Seq<char> {
    if line < 8 {
        crate::format::right_aligned(row_label(line, max_tokens), 7) + " │"@ + row_text(
            bars_of(points, top, max_tokens, width),
            top,
            colors,
            use_color,
            width as nat,
            7 - line,
        )
    } else if line == 8 {
        crate::format::right_aligned(""@, 7) + " └"@ + crate::format::run_of('─', width as nat)
    } else {
        axis_line(points, width)
    }
}

/// The lines of the chart.
pub open spec fn chart_block(
    points: Seq<PointModel>,
    top: Seq<KeyModel>,
    colors: Seq<(KeyModel, int)>,
    max_tokens: int,
    width: int,
    use_color: bool,
) -> Seq<Seq<char>> {
    if points.len() == 0 {
        seq![]
    } else {
        Seq::new(
            10,
            |line: int| chart_line(points, top, colors, max_tokens, width, use_color, line),
        )
    }
}

/// The lines of the chart.
pub fn stacked_bar_chart_lines(
    points: &Vec<ChartPoint>,
    top: &Vec<DisplayModelKey>,
    visuals: &ModelVisuals,
    max_tokens: u64,
    width: usize,
    use_color: bool,
) -> (out: Vec<String>)
    requires
        width + CHART_PREFIX_WIDTH <= usize::MAX,
    ensures
        crate::text::texts(out@) == chart_block(
            point_models(points@),
            crate::models::key_models(top@),
            visuals@,
            max_tokens as int,
            width as int,
            use_color,
        ),
{
    let mut out: Vec<String> = Vec::new();
    let ghost wanted = chart_block(
        point_models(points@),
        crate::models::key_models(top@),
        visuals@,
        max_tokens as int,
        width as int,
        use_color,
    );
    if points.len() == 0 {
        proof {
            assert(crate::text::texts(out@) =~= wanted);
        }
        return out;
    }
    let bars = lay_out_bars(points, top, max_tokens, width);
    let mut row: usize = 0;
    while row < 8
        invariant
            row <= 8,
            points@.len() > 0,
            wanted == chart_block(
                point_models(points@),
                crate::models::key_models(top@),
                visuals@,
                max_tokens as int,
                width as int,
                use_color,
            ),
            bar_models(bars@) == bars_of(
                point_models(points@),
                crate::models::key_models(top@),
                max_tokens as int,
                width as int,
            ),
            forall|i: int|
                0 <= i < bars@.len() ==> (#[trigger] bars@[i]).heights@.len() == top@.len(),
            crate::text::texts(out@) == wanted.take(row as int),
        decreases 8 - row,
    {
        let ghost before = out@;
        let label = pad_left(y_axis_label(row, max_tokens).as_str(), 7);
        let cells = render_row(&bars, top, visuals, use_color, width, 7 - row);
        out.push(concat3(label.as_str(), " │", cells.as_str()));
        proof {
            assert(crate::text::texts(out@) =~= crate::text::texts(before).push(
                wanted[row as int],
            ));
            assert(wanted.take(row + 1) =~= wanted.take(row as int).push(wanted[row as int]));
        }
        row += 1;
    }
    let axis = concat3(pad_left("", 7).as_str(), " └", repeat('─', width).as_str());
    let ghost rows = out@;
    out.push(axis);
    out.push(x_axis_labels(points, width));
    proof {
        assert(crate::text::texts(out@) =~= crate::text::texts(rows).push(wanted[8]).push(
            wanted[9],
        ));
        assert(wanted =~= wanted.take(8).push(wanted[8]).push(wanted[9]));
    }
    out
}

// ---------------------------------------------------------------------------
// Widths
// ---------------------------------------------------------------------------

/// The width of the chart in a terminal.
pub open spec fn chart_width(columns: int) -> int {
    let room = columns - CHART_PREFIX_WIDTH;
    if room < 1 {
        1
    } else if room > MAX_DAILY_CHART_WIDTH {
        MAX_DAILY_CHART_WIDTH as int
    } else {
        room
    }
}

/// The width of the chart in a terminal.
pub fn daily_chart_render_width_for_terminal(columns: usize) -> (out: usize)
    ensures
        out == chart_width(columns as int),
{
    if columns < CHART_PREFIX_WIDTH + 1 {
        1
    } else if columns - CHART_PREFIX_WIDTH > MAX_DAILY_CHART_WIDTH {
        MAX_DAILY_CHART_WIDTH
    } else {
        columns - CHART_PREFIX_WIDTH
    }
}

/// The number of points of the chart in a terminal.
pub open spec fn point_limit(columns: int) -> int {
    (chart_width(columns) + 1) / 2
}

/// The number of points of the chart in a terminal.
pub fn daily_chart_bucket_count_for_terminal(columns: usize) -> (out: usize)
    ensures
        out == point_limit(columns as int),
{
    (daily_chart_render_width_for_terminal(columns) + 1) / 2
}

// ---------------------------------------------------------------------------
// Laws
// ---------------------------------------------------------------------------

/// A bar is as high as its share of eight rows, rounded up: it is empty without
/// tokens, full for the most tokens, and never shows less than there is.
pub proof fn bars_show_their_share(tokens: int, max_tokens: int)
    requires
        0 <= tokens <= max_tokens,
        max_tokens > 0,
    ensures
        0 <= bar_height(tokens, max_tokens) <= 8,
        tokens * 8 <= bar_height(tokens, max_tokens) * max_tokens,
        tokens > 0 ==> (bar_height(tokens, max_tokens) - 1) * max_tokens < tokens * 8,
        tokens == 0 ==> bar_height(tokens, max_tokens) == 0,
        tokens == max_tokens ==> bar_height(tokens, max_tokens) == 8,
{
    if tokens > 0 {
        let m = max_tokens;
        let n = tokens * 8 + (m - 1);
        let q = n / m;
        assert(q * m <= n < (q + 1) * m) by (nonlinear_arith)
            requires
                m > 0,
                q == n / m,
        ;
        assert((q + 1) * m == q * m + m) by (nonlinear_arith);
        assert((q - 1) * m == q * m - m) by (nonlinear_arith);
        assert(q >= 1) by (nonlinear_arith)
            requires
                n < (q + 1) * m,
                n >= m,
                m > 0,
        ;
        assert(q <= 8) by (nonlinear_arith)
            requires
                q * m <= n,
                n < 9 * m,
                m > 0,
        ;
        if tokens == m {
            assert(q == 8) by (nonlinear_arith)
                requires
                    n == 8 * m + m - 1,
                    n < (q + 1) * m,
                    q <= 8,
                    m > 0,
            ;
        }
    }
}

/// More tokens never make a lower bar.
pub proof fn bars_grow_with_tokens(a: int, b: int, max_tokens: int)
    requires
        0 <= a <= b <= max_tokens,
        max_tokens > 0,
    ensures
        bar_height(a, max_tokens) <= bar_height(b, max_tokens),
{
    bars_show_their_share(a, max_tokens);
    bars_show_their_share(b, max_tokens);
    let x = bar_height(a, max_tokens);
    let y = bar_height(b, max_tokens);
    if a > 0 && x > y {
        assert((x - 1) * max_tokens >= y * max_tokens) by (nonlinear_arith)
            requires
                x - 1 >= y,
                max_tokens > 0,
        ;
    }
}

proof fn lemma_best_part(values: Seq<u64>, total: int, height: int, done: Seq<bool>, n: nat, k: int)
    requires
        n <= values.len(),
        done.len() == values.len(),
        0 <= k < n,
        !done[k],
    ensures
        next_part(values, total, height, done, n) is Some,
        !goes_first(
            values,
            total,
            height,
            k,
            next_part(values, total, height, done, n)->0,
        ),
    decreases n,
{
    let m = (n - 1) as nat;
    lemma_next_part(values, total, height, done, m);
    if k < m {
        lemma_best_part(values, total, height, done, m, k);
    }
}

proof fn lemma_rows_by_rest(
    values: Seq<u64>,
    total: int,
    height: int,
    done: Seq<bool>,
    heights: Seq<int>,
    rows: nat,
    i: int,
    j: int,
)
    requires
        done.len() == values.len(),
        heights.len() == values.len(),
        0 <= i < values.len(),
        0 <= j < values.len(),
    ensures
        ({
            let out = with_rows(values, total, height, done, heights, rows);
            &&& out.len() == values.len()
            &&& out[i] == heights[i] || out[i] == heights[i] + 1
            &&& done[i] ==> out[i] == heights[i]
            &&& !done[i] && !done[j] && out[i] == heights[i] && out[j] == heights[j] + 1
                ==> !goes_first(values, total, height, i, j)
        }),
    decreases rows,
{
    if rows > 0 {
        lemma_next_part(values, total, height, done, values.len());
        match next_part(values, total, height, done, values.len()) {
            None => {},
            Some(p) => {
                let next = heights.update(p, heights[p] + 1);
                let marks = done.update(p, true);
                lemma_rows_by_rest(
                    values,
                    total,
                    height,
                    marks,
                    next,
                    (rows - 1) as nat,
                    i,
                    j,
                );
                if p != i {
                    lemma_rows_by_rest(
                        values,
                        total,
                        height,
                        marks,
                        next,
                        (rows - 1) as nat,
                        j,
                        i,
                    );
                    if !done[i] {
                        lemma_best_part(values, total, height, done, values.len(), i);
                    }
                }
            },
        }
    }
}

/// Each part of a bar gets the rows of its share, rounded down, and at most one more.
/// A part without tokens gets none more, and of two parts the one that lost more by the
/// rounding gets its row first, then the larger one.
pub proof fn larger_rests_get_rows_first(
    values: Seq<u64>,
    total: int,
    max_tokens: int,
    i: int,
    j: int,
)
    requires
        0 < total <= max_tokens,
        0 <= i < values.len(),
        0 <= j < values.len(),
        values[i] <= total,
        values[j] <= total,
    ensures
        ({
            let height = bar_height(total, max_tokens);
            let heights = segment_heights(values, total, max_tokens);
            let a = values[i] * height;
            let b = values[j] * height;
            &&& heights.len() == values.len()
            &&& heights[i] == a / total || heights[i] == a / total + 1
            &&& values[i] == 0 ==> heights[i] == 0
            &&& values[i] > 0 && values[j] > 0 && heights[i] == a / total && heights[j] == b / total
                + 1 ==> a % total <= b % total
            &&& values[i] > 0 && values[j] > 0 && heights[i] == a / total && heights[j] == b / total
                + 1 && a % total == b % total ==> values[i] <= values[j]
        }),
{
    let height = bar_height(total, max_tokens);
    bars_show_their_share(total, max_tokens);
    let base = base_heights(values, total, height);
    let left = height - int_sum(base);
    let rows = if left > 0 {
        left as nat
    } else {
        0
    };
    lemma_rows_by_rest(values, total, height, empty_parts(values), base, rows, i, j);
    lemma_rows_by_rest(values, total, height, empty_parts(values), base, rows, j, i);
    let a = values[i] * height;
    let b = values[j] * height;
    assert(0 <= a / total <= 8) by (nonlinear_arith)
        requires
            0 <= values[i] <= total,
            0 <= height <= 8,
            a == values[i] * height,
            total > 0,
    ;
    assert(0 <= b / total <= 8) by (nonlinear_arith)
        requires
            0 <= values[j] <= total,
            0 <= height <= 8,
            b == values[j] * height,
            total > 0,
    ;
    assert(base[i] == a / total);
    assert(base[j] == b / total);
    if values[i] == 0 {
        assert(a == 0) by (nonlinear_arith)
            requires
                a == values[i] * height,
                values[i] == 0,
        ;
    }
}

/// The number of tokens in all points.
pub open spec fn tokens_of_points(points: Seq<PointModel>) -> nat
    decreases points.len(),
{
    if points.len() == 0 {
        0
    } else {
        tokens_of_points(points.drop_last()) + points.last().tokens as nat
    }
}

proof fn lemma_token_sum_splits(a: Seq<DayModel>, b: Seq<DayModel>)
    ensures
        token_sum(a + b) == token_sum(a) + token_sum(b),
    decreases b.len(),
{
    if b.len() == 0 {
        assert(a + b =~= a);
    } else {
        assert((a + b).drop_last() =~= a + b.drop_last());
        lemma_token_sum_splits(a, b.drop_last());
    }
}

proof fn lemma_points_hold(days: Seq<DayModel>, width: int, k: int)
    requires
        width > 0,
        days.len() > 0,
        token_sum(days) <= u64::MAX,
        0 <= k <= points_of(days, width).len(),
    ensures
        ({
            let end = if days.len() <= width {
                k
            } else {
                bucket_start(k, days.len() as int, width)
            };
            &&& 0 <= end <= days.len()
            &&& tokens_of_points(points_of(days, width).take(k)) == token_sum(days.take(end))
        }),
    decreases k,
{
    let n = days.len() as int;
    let points = points_of(days, width);
    let short = n <= width;
    if k == 0 {
        if !short {
            buckets_are_contiguous(0, n, width);
        }
        assert(days.take(0) =~= seq![]);
        assert(points.take(0) =~= seq![]);
    } else {
        lemma_points_hold(days, width, k - 1);
        let from = if short {
            k - 1
        } else {
            bucket_start(k - 1, n, width)
        };
        let to = if short {
            k
        } else {
            bucket_start(k, n, width)
        };
        if !short {
            buckets_are_contiguous(k - 1, n, width);
        }
        let part = days.subrange(from, to);
        assert(points[k - 1].tokens == crate::stats::capped(token_sum(part) as int));
        assert(days.take(to) =~= days.take(from) + part);
        lemma_token_sum_splits(days.take(from), part);
        assert(days =~= days.take(to) + days.skip(to));
        lemma_token_sum_splits(days.take(to), days.skip(to));
        assert(points.take(k).drop_last() =~= points.take(k - 1));
        assert(points.take(k).last() == points[k - 1]);
    }
}

/// However many days a point stands for, a chart holds all tokens.
pub proof fn charts_hold_all_tokens(days: Seq<DayModel>, width: int)
    requires
        width > 0,
        token_sum(days) <= u64::MAX,
    ensures
        tokens_of_points(points_of(days, width)) == token_sum(days),
{
    if days.len() > 0 {
        let points = points_of(days, width);
        lemma_points_hold(days, width, points.len() as int);
        if days.len() > width {
            buckets_are_contiguous(0, days.len() as int, width);
        }
        assert(points.take(points.len() as int) =~= points);
        assert(days.take(days.len() as int) =~= days);
    }
}

/// Where there is room for every day, each is a point of its own, in order.
pub proof fn days_are_points_where_there_is_room(days: Seq<DayModel>, width: int, i: int)
    requires
        0 <= i < days.len() <= width,
    ensures
        points_of(days, width).len() == days.len(),
        points_of(days, width)[i].date == days[i].date,
        points_of(days, width)[i].tokens == days[i].usage.tokens,
{
    let one = days.subrange(i, i + 1);
    assert(one.drop_last() =~= seq![]);
    assert(one.last() == days[i]);
    assert(token_sum(one.drop_last()) == 0);
    assert(token_sum(one) == days[i].usage.tokens);
}

/// A chart without room for every day is as wide as the room. It begins with the first
/// day and ends with the last.
pub proof fn long_charts_fill_the_room(days: Seq<DayModel>, width: int)
    requires
        1 < width < days.len(),
    ensures
        points_of(days, width).len() == width,
        points_of(days, width)[0].date == days[0].date,
        points_of(days, width).last().date == days.last().date,
{
    buckets_are_contiguous(0, days.len() as int, width);
}

/// One more day adds its tokens to a point, which keeps the date of its first day.
pub proof fn points_add_their_days(days: Seq<DayModel>, day: DayModel)
    requires
        days.len() > 0,
        token_sum(days) + day.usage.tokens <= u64::MAX,
    ensures
        combined_days(days.push(day)).tokens == combined_days(days).tokens + day.usage.tokens,
        combined_days(days.push(day)).date == days[0].date,
{
    assert(days.push(day).drop_last() =~= days);
}

/// Points are laid out from the left end to the right end, in order and inside.
pub proof fn points_span_the_width(i: int, j: int, count: int, width: int)
    requires
        0 <= i <= j < count,
        1 < count,
        1 < width,
        count * width <= usize::MAX,
    ensures
        point_x(0, count, width) == 0,
        point_x(count - 1, count, width) == width - 1,
        0 <= point_x(i, count, width) <= point_x(j, count, width) < width,
{
    let w = width - 1;
    let c = count - 1;
    assert(0 <= i * w <= j * w <= c * w <= count * width) by (nonlinear_arith)
        requires
            0 <= i <= j <= c,
            w > 0,
            w == width - 1,
            c == count - 1,
    ;
    assert(0 * w == 0);
    assert(0int / c == 0) by (nonlinear_arith)
        requires
            c > 0,
    ;
    assert((c * w) / c == w) by (nonlinear_arith)
        requires
            c > 0,
    ;
    assert(0 <= (i * w) / c <= (j * w) / c <= (c * w) / c) by (nonlinear_arith)
        requires
            0 <= i * w <= j * w <= c * w,
            c > 0,
    ;
}

/// What is not shown of a point under a name of its own is shown as the rest, so that
/// the parts of a point make up the whole.
pub proof fn the_rest_makes_up_the_whole(point: PointModel, key: KeyModel, top: Seq<KeyModel>)
    ensures
        shown_tokens(point, top) <= point.tokens ==> part_tokens(
            point,
            crate::models::other_key(),
            top,
        ) + shown_tokens(point, top) == point.tokens,
        shown_tokens(point, top) > point.tokens ==> part_tokens(
            point,
            crate::models::other_key(),
            top,
        ) == 0,
        key != crate::models::other_key() ==> (crate::models::amount_of(point.models, key) matches Some(
            tokens,
        ) ==> part_tokens(point, key, top) == tokens),
        key != crate::models::other_key() && crate::models::amount_of(point.models, key) is None
            ==> part_tokens(point, key, top) == 0,
    decreases top.len(),
{
    lemma_shown_tokens(point, top);
}

proof fn lemma_shown_tokens(point: PointModel, top: Seq<KeyModel>)
    ensures
        shown_tokens(point, top) >= 0,
    decreases top.len(),
{
    if top.len() > 0 {
        lemma_shown_tokens(point, top.drop_last());
    }
}

/// Where all models fit, all are named. Where they do not, the ones with the most
/// tokens are, and the last place is for the rest.
pub proof fn the_largest_models_are_named(points: Seq<PointModel>, limit: int, i: int)
    requires
        limit >= 2,
    ensures
        ({
            let all = crate::models::ranked(crate::models::tallied(point_entries(points)));
            let top = top_models(points, limit);
            &&& all.len() <= limit ==> top.len() == all.len()
            &&& all.len() > limit ==> top.len() == limit && top.last() == crate::models::other_key()
            &&& 0 <= i < top.len() && (all.len() <= limit || i < limit - 1) ==> top[i] == all[i].0
        }),
{
}

/// The part at a level is the one whose rows reach above it while those below do not.
pub proof fn parts_are_stacked(heights: Seq<int>, level: int)
    requires
        level >= 0,
        forall|i: int| 0 <= i < heights.len() ==> 0 <= #[trigger] heights[i],
    ensures
        part_at(heights, level) matches Some(k) ==> 0 <= k < heights.len() && int_sum(
            heights.take(k),
        ) <= level < int_sum(heights.take(k + 1)),
        part_at(heights, level) is None ==> int_sum(heights) <= level,
    decreases heights.len(),
{
    if heights.len() > 0 {
        let rest = heights.skip(1);
        if level < heights[0] {
            assert(heights.take(0) =~= seq![]);
            assert(heights.take(1).drop_last() =~= seq![]);
            assert(heights.take(1).last() == heights[0]);
            assert(int_sum(heights.take(1).drop_last()) == 0);
        } else {
            parts_are_stacked(rest, level - heights[0]);
            assert(heights.take(heights.len() as int) =~= heights);
            assert(rest.take(rest.len() as int) =~= rest);
            lemma_first_apart(heights, heights.len() as int);
            match part_at(rest, level - heights[0]) {
                Some(k) => {
                    lemma_first_apart(heights, k + 1);
                    lemma_first_apart(heights, k + 2);
                },
                None => {},
            }
        }
    }
}

proof fn lemma_first_apart(heights: Seq<int>, k: int)
    requires
        0 < k <= heights.len(),
    ensures
        int_sum(heights.take(k)) == heights[0] + int_sum(heights.skip(1).take(k - 1)),
    decreases k,
{
    let all = heights.take(k);
    let rest = heights.skip(1).take(k - 1);
    if k == 1 {
        assert(all.drop_last() =~= seq![]);
        assert(int_sum(all.drop_last()) == 0);
        assert(rest =~= seq![]);
    } else {
        assert(all.drop_last() =~= heights.take(k - 1));
        assert(rest.drop_last() =~= heights.skip(1).take(k - 2));
        assert(all.last() == rest.last());
        lemma_first_apart(heights, k - 1);
    }
}

/// A cell shows the part of a bar that stands there and reaches it; a cell that no bar
/// reaches is blank.
pub proof fn cells_show_the_bar_there(
    bars: Seq<BarModel>,
    top: Seq<KeyModel>,
    colors: Seq<(KeyModel, int)>,
    use_color: bool,
    x: int,
    level: int,
)
    ensures
        (forall|i: int| 0 <= i < bars.len() ==> (#[trigger] bars[i]).x != x) ==> cell_text(
            bars,
            top,
            colors,
            use_color,
            x,
            level,
        ) == seq![' '],
        cell_at(bars, x, level) matches Some(k) ==> (exists|i: int|
            0 <= i < bars.len() && (#[trigger] bars[i]).x == x && part_at(bars[i].heights, level)
                == Some(k)) && cell_text(bars, top, colors, use_color, x, level)
            == crate::models::marker_of(colors, top[k], use_color),
        cell_at(bars, x, level) is None ==> (forall|i: int|
            0 <= i < bars.len() && (#[trigger] bars[i]).x == x ==> part_at(bars[i].heights, level)
                is None),
    decreases bars.len(),
{
    if bars.len() > 0 {
        let rest = bars.drop_last();
        cells_show_the_bar_there(rest, top, colors, use_color, x, level);
        assert(bars.last() == bars[bars.len() - 1]);
        assert forall|i: int| 0 <= i < rest.len() implies rest[i] == bars[i] by {
        }
        if cell_at(bars, x, level) is None {
            assert forall|i: int| 0 <= i < bars.len() && (#[trigger] bars[i]).x == x implies part_at(
                bars[i].heights,
                level,
            ) is None by {
                if i < rest.len() {
                    assert(rest[i].x == x);
                }
            }
        } else if !(bars.last().x == x && part_at(bars.last().heights, level) is Some) {
            let k = cell_at(bars, x, level)->0;
            let i = choose|i: int|
                0 <= i < rest.len() && (#[trigger] rest[i]).x == x && part_at(
                    rest[i].heights,
                    level,
                ) == Some(k);
            assert(bars[i].x == x);
        }
        if forall|i: int| 0 <= i < bars.len() ==> (#[trigger] bars[i]).x != x {
            assert forall|i: int| 0 <= i < rest.len() implies (#[trigger] rest[i]).x != x by {
                assert(bars[i].x != x);
            }
        }
    }
}

/// The top row is labelled with the most tokens and the bottom row with nothing, and
/// a higher row never has a smaller number.
pub proof fn rows_are_labelled_from_the_top(max_tokens: int)
    requires
        0 < max_tokens,
        7 * max_tokens <= u64::MAX,
    ensures
        row_label(0, max_tokens) == crate::format::tokens_text(max_tokens as nat),
        row_label(7, max_tokens) == "0"@,
        forall|row: int|
            0 <= row < 7 ==> #[trigger] row_label(row, max_tokens) == crate::format::tokens_text(
                ((max_tokens * (7 - row)) / 7) as nat,
            ),
{
    assert((max_tokens * 7) / 7 == max_tokens);
    assert forall|row: int| 0 <= row < 7 implies #[trigger] row_label(row, max_tokens)
        == crate::format::tokens_text(((max_tokens * (7 - row)) / 7) as nat) by {
        assert(max_tokens * (7 - row) <= 7 * max_tokens) by (nonlinear_arith)
            requires
                max_tokens > 0,
                0 <= row < 7,
        ;
    }
}

/// The twelve months have their names, and a date is shown by its month and day.
pub proof fn months_have_their_names(date: Seq<char>)
    ensures
        seq![1int, 2, 3, 4, 5, 6, 7, 8, 9, 10, 11, 12].map_values(|m: int| month_name(m)) == seq![
            "Jan"@,
            "Feb"@,
            "Mar"@,
            "Apr"@,
            "May"@,
            "Jun"@,
            "Jul"@,
            "Aug"@,
            "Sep"@,
            "Oct"@,
            "Nov"@,
            "Dec"@,
        ],
        crate::dates::date_parsed(date) is None ==> date_label(date) == date,
        crate::dates::date_parsed(date) matches Some(day) ==> crate::text::has_prefix(
            date_label(date),
            month_name(crate::dates::date_of(day).month),
        ) && crate::text::has_suffix(
            date_label(date),
            crate::numbers::decimal_of(crate::dates::date_of(day).day as nat),
        ),
{
    assert(seq![1int, 2, 3, 4, 5, 6, 7, 8, 9, 10, 11, 12].map_values(|m: int| month_name(m))
        =~= seq![
        "Jan"@,
        "Feb"@,
        "Mar"@,
        "Apr"@,
        "May"@,
        "Jun"@,
        "Jul"@,
        "Aug"@,
        "Sep"@,
        "Oct"@,
        "Nov"@,
        "Dec"@,
    ]);
    if let Some(day) = crate::dates::date_parsed(date) {
        let month = month_name(crate::dates::date_of(day).month);
        let number = crate::numbers::decimal_of(crate::dates::date_of(day).day as nat);
        let label = date_label(date);
        assert(label.take(month.len() as int) =~= month);
        assert(label.skip(label.len() - number.len()) =~= number);
    }
}

/// A label goes to its place and leaves the rest of the line as it was. It fits where
/// the line is blank.
pub proof fn labels_go_to_their_place(line: Seq<char>, at: int, label: Seq<char>, i: int)
    requires
        0 <= at,
        0 <= i < line.len(),
    ensures
        with_label(line, at, label).len() == line.len(),
        i < at || i >= at + label.len() ==> with_label(line, at, label)[i] == line[i],
        line[i] != ' ' ==> with_label(line, at, label)[i] == line[i],
        (forall|j: int| at <= j < at + label.len() && j < line.len() ==> #[trigger] line[j] == ' ')
            && at <= i < at + label.len() ==> with_label(line, at, label)[i] == label[i - at],
    decreases label.len(),
{
    if !(label.len() == 0 || at >= line.len() || line[at] != ' ') {
        let next = line.update(at, label[0]);
        labels_go_to_their_place(next, at + 1, label.skip(1), i);
        if i == at {
            assert(with_label(next, at + 1, label.skip(1))[i] == next[i]);
        }
    }
}

/// The first day is labelled at the left end and the last at the right end. A day in
/// the middle is labelled too where there are three or more.
pub proof fn ends_are_labelled(points: Seq<PointModel>, width: int)
    requires
        points.len() >= 2,
        date_label(points.last().date).len() <= width,
    ensures
        ({
            let labels = axis_labels(points, width);
            let last = date_label(points.last().date);
            &&& labels[0] == (0int, date_label(points[0].date))
            &&& labels.last() == (width - last.len(), last)
            &&& labels.len() == (if points.len() >= 3 {
                3int
            } else {
                2int
            })
            &&& points.len() >= 3 ==> labels[1].1 == date_label(points[points.len() as int / 2].date)
        }),
{
}

/// A chart has eight rows, a line below them and the dates. Each row shows the cells of
/// its own level, the highest first.
pub proof fn charts_are_drawn_from_the_top(
    points: Seq<PointModel>,
    top: Seq<KeyModel>,
    colors: Seq<(KeyModel, int)>,
    max_tokens: int,
    width: int,
    use_color: bool,
    row: int,
)
    requires
        points.len() > 0,
        width >= 0,
        0 <= row < 8,
    ensures
        ({
            let lines = chart_block(points, top, colors, max_tokens, width, use_color);
            let cells = row_text(
                bars_of(points, top, max_tokens, width),
                top,
                colors,
                use_color,
                width as nat,
                7 - row,
            );
            &&& lines.len() == 10
            &&& crate::text::has_suffix(lines[row], cells)
            &&& crate::text::has_suffix(
                lines[8],
                crate::format::run_of('─', width as nat),
            )
            &&& lines[9] == axis_line(points, width)
        }),
        chart_block(seq![], top, colors, max_tokens, width, use_color).len() == 0,
{
    let lines = chart_block(points, top, colors, max_tokens, width, use_color);
    let cells = row_text(
        bars_of(points, top, max_tokens, width),
        top,
        colors,
        use_color,
        width as nat,
        7 - row,
    );
    assert(lines[row].skip(lines[row].len() - cells.len()) =~= cells);
    let rule = crate::format::run_of('─', width as nat);
    assert(lines[8].skip(lines[8].len() - rule.len()) =~= rule);
}

/// A bar stands at the place of its point and is as high as its tokens.
pub proof fn bars_stand_for_their_points(
    points: Seq<PointModel>,
    top: Seq<KeyModel>,
    max_tokens: int,
    width: int,
    i: int,
    k: int,
)
    requires
        0 <= i < points.len(),
        0 <= k < top.len(),
    ensures
        bars_of(points, top, max_tokens, width).len() == points.len(),
        bars_of(points, top, max_tokens, width)[i].x == point_x(i, points.len() as int, width),
        bars_of(points, top, max_tokens, width)[i].heights == segment_heights(
            parts_of(points[i], top),
            points[i].tokens as int,
            max_tokens,
        ),
        parts_of(points[i], top)[k] == part_tokens(points[i], top[k], top),
        parts_of(points[i], top).len() == top.len(),
{
}

/// A chart takes the room behind its labels, sixty cells at most, and has a point for
/// every second of them.
pub proof fn charts_take_the_room(columns: int)
    ensures
        10 <= columns <= 69 ==> chart_width(columns) == columns - 9,
        columns > 69 ==> chart_width(columns) == 60,
        columns < 10 ==> chart_width(columns) == 1,
        chart_width(columns) <= 2 * point_limit(columns) <= chart_width(columns) + 1,
{
}

} // verus!
