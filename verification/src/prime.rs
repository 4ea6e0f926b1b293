//! Priming: short requests that start the windows of slots before the hours in which
//! they are needed.

use vstd::prelude::*;

use crate::cli::PrimeInstallArgs;
use crate::cli::PrimeRunArgs;
use crate::cli::PrimeScheduleArgs;
use crate::doubles::weighted_count;
use crate::doubles::Double;
use crate::format::two_digits;
use crate::frames::lossy_text;
use crate::lines::join;
use crate::lines::split_lines;
use crate::lines::trim;
use crate::lines::trim_text;
use crate::numbers::decimal;
use crate::numbers::decimal_wide;
use crate::paths::join_path;
use crate::paths::ManagerPaths;
use crate::service::xml_escape;
use crate::sorting::sort_items;
use crate::target::slots_or_rotation;
use crate::target::TargetSpec;
use crate::text::chars_of;
use crate::text::concat2;
use crate::text::concat3;
use crate::text::concat4;
use crate::text::copy_all;
use crate::text::copy_of;
use crate::text::extend;
use crate::text::opt_copy;
use crate::text::push_text;
use crate::text::same;
use crate::text::string_of;
use crate::text::sub_chars;
use crate::textmap::TextMap;
use crate::usage::SlotResult;
use crate::usage::SlotStatus;

verus! {

pub const DEFAULT_PRIME_PROMPT: &'static str = "Reply exactly: hi";

pub const PRIME_SCHEMA_VERSION: u64 = 2;

pub const STATE_DB: &'static str = "state_5.sqlite";

pub const LAUNCHD_LABEL: &'static str = "dev.xiaotian.cx.prime";

pub const MAX_PROMPT_BYTES: usize = 2000;

pub const PRIME_TIMEOUT_SECONDS: u64 = 90;

/// The bits of a tenth as a number of single precision holds it.
pub const TENTH_OF_A_SECOND: u64 = 0x3fb9_9999_a000_0000;

/// The bits of two.
pub const TWO_SECONDS: u64 = 0x4000_0000_0000_0000;

pub const FIVE_HOUR_WINDOW_SECONDS: i64 = 18000;

pub const ACTIVE_REFRESH_GRACE_SECONDS: i64 = 300;

/// The bits of one percent.
pub const MAX_IDLE_FIVE_HOUR_USED: u64 = 0x3ff0_0000_0000_0000;

/// The bits of five percent.
pub const MIN_WEEKLY_REMAINING: u64 = 0x4014_0000_0000_0000;

// ---------------------------------------------------------------------------
// Hours
// ---------------------------------------------------------------------------

/// How heavy an hour of the day is. In the score a token of a thread that started in
/// the hour counts as one, and one that was used in it as 0.35.
#[derive(Clone, Copy, Debug, PartialEq, Eq, Structural)]
pub struct PrimeHourScore {
    pub hour: u8,
    pub score: Double,
    pub start_tokens: u64,
    pub rollout_tokens: u64,
    pub threads: u64,
    pub rollout_samples: u64,
}

impl Default for PrimeHourScore {
    fn default() -> (out: PrimeHourScore)
        ensures
            out == empty_hour(0),
    {
        PrimeHourScore {
            hour: 0,
            score: Double { bits: 0 },
            start_tokens: 0,
            rollout_tokens: 0,
            threads: 0,
            rollout_samples: 0,
        }
    }
}

/// A thread: its name, the hour in which it started, and the tokens that it used.
#[derive(Debug)]
pub struct ThreadRow {
    pub id: String,
    pub hour: i64,
    pub tokens: i64,
}

/// What was used in an hour.
#[derive(Clone, Copy, Debug)]
pub struct RolloutRow {
    pub hour: i64,
    pub tokens: i64,
    pub samples: i64,
}

/// A sum, as far as it can be counted.
pub open spec fn sum64(a: u64, b: nat) -> u64 {
    if a + b > u64::MAX {
        u64::MAX
    } else {
        (a + b) as u64
    }
}

fn add64(a: u64, b: u64) -> (out: u64)
    ensures
        out == sum64(a, b as nat),
{
    if b > u64::MAX - a {
        u64::MAX
    } else {
        a + b
    }
}

/// A count that is not negative.
pub open spec fn at_least_zero(n: i64) -> nat {
    if n < 0 {
        0
    } else {
        n as nat
    }
}

fn not_negative(n: i64) -> (out: u64)
    ensures
        out == at_least_zero(n),
{
    if n < 0 {
        0
    } else {
        n as u64
    }
}

/// An hour of which nothing is known.
pub open spec fn empty_hour(hour: u8) -> PrimeHourScore {
    PrimeHourScore {
        hour,
        score: Double { bits: 0 },
        start_tokens: 0,
        rollout_tokens: 0,
        threads: 0,
        rollout_samples: 0,
    }
}

/// Whether a number is an hour of the day.
pub open spec fn is_hour(hour: i64) -> bool {
    0 <= hour <= 23
}

/// The hour of the day that a number is.
pub fn normalize_hour(hour: i64) -> (out: Option<u8>)
    ensures
        match out {
            Some(h) => is_hour(hour) && h == hour,
            None => !is_hour(hour),
        },
{
    if hour >= 0 && hour <= 23 {
        Some(hour as u8)
    } else {
        None
    }
}

/// What is known of the hours of a day; nothing of those that are `None`.
pub open spec fn no_hours() -> Seq<Option<PrimeHourScore>> {
    Seq::new(24, |i: int| None)
}

/// What is known of an hour.
pub open spec fn known(hours: Seq<Option<PrimeHourScore>>, hour: int) -> PrimeHourScore {
    match hours[hour] {
        Some(found) => found,
        None => empty_hour(hour as u8),
    }
}

/// An hour with one more thread.
pub open spec fn with_thread(score: PrimeHourScore, tokens: nat) -> PrimeHourScore {
    PrimeHourScore {
        threads: sum64(score.threads, 1),
        start_tokens: sum64(score.start_tokens, tokens),
        score: score.score.sum(
            Double { bits: crate::doubles::nearest(tokens * crate::doubles::one(), 1) as u64 },
        ),
        ..score
    }
}

/// An hour with what was used in it.
pub open spec fn with_rollout(score: PrimeHourScore, tokens: nat, samples: nat) -> PrimeHourScore {
    PrimeHourScore {
        rollout_tokens: sum64(score.rollout_tokens, tokens),
        rollout_samples: sum64(score.rollout_samples, samples),
        score: score.score.sum(Double { bits: crate::doubles::weighted(tokens) as u64 }),
        ..score
    }
}

/// Whether a thread is among rows.
pub open spec fn has_thread(rows: Seq<ThreadRow>, id: Seq<char>) -> bool {
    exists|i: int| 0 <= i < rows.len() && (#[trigger] rows[i]).id@ == id
}

/// The hours with threads, each of which counts once, where it came first.
pub open spec fn with_threads(rows: Seq<ThreadRow>) -> Seq<Option<PrimeHourScore>>
    decreases rows.len(),
{
    if rows.len() == 0 {
        no_hours()
    } else {
        let before = with_threads(rows.drop_last());
        let row = rows.last();
        if has_thread(rows.drop_last(), row.id@) || !is_hour(row.hour) {
            before
        } else {
            before.update(
                row.hour as int,
                Some(with_thread(known(before, row.hour as int), at_least_zero(row.tokens))),
            )
        }
    }
}

/// Hours with what was used in them.
pub open spec fn with_rollouts(hours: Seq<Option<PrimeHourScore>>, rows: Seq<RolloutRow>) -> Seq<
    Option<PrimeHourScore>,
>
    decreases rows.len(),
{
    if rows.len() == 0 {
        hours
    } else {
        let before = with_rollouts(hours, rows.drop_last());
        let row = rows.last();
        if !is_hour(row.hour) {
            before
        } else {
            before.update(
                row.hour as int,
                Some(
                    with_rollout(
                        known(before, row.hour as int),
                        at_least_zero(row.tokens),
                        at_least_zero(row.samples),
                    ),
                ),
            )
        }
    }
}

fn known_hour(hours: &Vec<Option<PrimeHourScore>>, hour: u8) -> (out: PrimeHourScore)
    requires
        hours.len() == 24,
        hour < 24,
    ensures
        out == known(hours@, hour as int),
{
    match hours[hour as usize] {
        Some(found) => found,
        None => PrimeHourScore {
            hour,
            score: Double { bits: 0 },
            start_tokens: 0,
            rollout_tokens: 0,
            threads: 0,
            rollout_samples: 0,
        },
    }
}

fn is_repeated(rows: &Vec<ThreadRow>, at: usize) -> (out: bool)
    requires
        at < rows.len(),
    ensures
        out == has_thread(rows@.take(at as int), rows@[at as int].id@),
{
    let ghost earlier = rows@.take(at as int);
    let mut i: usize = 0;
    while i < at
        invariant
            i <= at < rows.len(),
            earlier == rows@.take(at as int),
            forall|j: int| 0 <= j < i ==> (#[trigger] earlier[j]).id@ != rows@[at as int].id@,
        decreases at - i,
    {
        if same(rows[i].id.as_str(), rows[at].id.as_str()) {
            proof {
                assert(earlier[i as int].id@ == rows@[at as int].id@);
            }
            return true;
        }
        i += 1;
    }
    false
}

/// The hours with threads.
pub fn add_state_db_hour_scores(rows: &Vec<ThreadRow>) -> (out: Vec<Option<PrimeHourScore>>)
    ensures
        out@ == with_threads(rows@),
        out@.len() == 24,
{
    let mut hours: Vec<Option<PrimeHourScore>> = Vec::new();
    let mut h: usize = 0;
    while h < 24
        invariant
            h <= 24,
            hours@ == no_hours().take(h as int),
        decreases 24 - h,
    {
        hours.push(None);
        proof {
            assert(no_hours().take(h + 1) =~= no_hours().take(h as int).push(None));
        }
        h += 1;
    }
    let mut i: usize = 0;
    proof {
        assert(no_hours().take(24) =~= no_hours());
        assert(rows@.take(0) =~= seq![]);
    }
    while i < rows.len()
        invariant
            i <= rows.len(),
            hours@ == with_threads(rows@.take(i as int)),
            hours@.len() == 24,
        decreases rows.len() - i,
    {
        proof {
            assert(rows@.take(i + 1).drop_last() =~= rows@.take(i as int));
            assert(rows@.take(i + 1).last() == rows@[i as int]);
        }
        if !is_repeated(rows, i) {
            match normalize_hour(rows[i].hour) {
                Some(hour) => {
                    let tokens = not_negative(rows[i].tokens);
                    let before = known_hour(&hours, hour);
                    let after = PrimeHourScore {
                        hour: before.hour,
                        score: before.score.plus(Double::of_count(tokens)),
                        start_tokens: add64(before.start_tokens, tokens),
                        rollout_tokens: before.rollout_tokens,
                        threads: add64(before.threads, 1),
                        rollout_samples: before.rollout_samples,
                    };
                    hours.set(hour as usize, Some(after));
                },
                None => {},
            }
        }
        i += 1;
    }
    proof {
        assert(rows@.take(rows@.len() as int) =~= rows@);
    }
    hours
}

/// Adds what was used in hours.
pub fn add_rollout_hour_scores(hours: &mut Vec<Option<PrimeHourScore>>, rows: &Vec<RolloutRow>)
    requires
        old(hours)@.len() == 24,
    ensures
        final(hours)@ == with_rollouts(old(hours)@, rows@),
        final(hours)@.len() == 24,
{
    let ghost base = hours@;
    let mut i: usize = 0;
    proof {
        assert(rows@.take(0) =~= seq![]);
    }
    while i < rows.len()
        invariant
            i <= rows.len(),
            base == old(hours)@,
            hours@ == with_rollouts(base, rows@.take(i as int)),
            hours@.len() == 24,
        decreases rows.len() - i,
    {
        proof {
            assert(rows@.take(i + 1).drop_last() =~= rows@.take(i as int));
            assert(rows@.take(i + 1).last() == rows@[i as int]);
        }
        match normalize_hour(rows[i].hour) {
            Some(hour) => {
                let tokens = not_negative(rows[i].tokens);
                let samples = not_negative(rows[i].samples);
                let before = known_hour(hours, hour);
                let after = PrimeHourScore {
                    hour: before.hour,
                    score: before.score.plus(weighted_count(tokens)),
                    start_tokens: before.start_tokens,
                    rollout_tokens: add64(before.rollout_tokens, tokens),
                    threads: before.threads,
                    rollout_samples: add64(before.rollout_samples, samples),
                };
                hours.set(hour as usize, Some(after));
            },
            None => {},
        }
        i += 1;
    }
    proof {
        assert(rows@.take(rows@.len() as int) =~= rows@);
    }
}

/// The hours of which something is known.
pub open spec fn known_hours(hours: Seq<Option<PrimeHourScore>>) -> Seq<PrimeHourScore>
    decreases hours.len(),
{
    if hours.len() == 0 {
        seq![]
    } else {
        match hours.last() {
            Some(found) => known_hours(hours.drop_last()).push(found),
            None => known_hours(hours.drop_last()),
        }
    }
}

/// Whether an hour is listed before another: the heavier one first, then the one with
/// more tokens of its own threads, then the earlier one.
pub open spec fn is_heavier(a: PrimeHourScore, b: PrimeHourScore) -> bool {
    a.score.rank() > b.score.rank() || (a.score.rank() == b.score.rank() && (a.start_tokens > b.start_tokens || (a.start_tokens
        == b.start_tokens && a.hour < b.hour)))
}

fn heavier(a: &PrimeHourScore, b: &PrimeHourScore) -> (out: bool)
    ensures
        out == is_heavier(*a, *b),
{
    a.score.order() > b.score.order() || (a.score.order() == b.score.order() && (a.start_tokens > b.start_tokens || (a.start_tokens
        == b.start_tokens && a.hour < b.hour)))
}

/// The order of hours.
pub open spec fn hour_order() -> spec_fn(PrimeHourScore, PrimeHourScore) -> bool {
    |a: PrimeHourScore, b: PrimeHourScore| is_heavier(a, b)
}

/// The hours of which something is known, the heaviest first.
pub fn ranked_hours(hours: &Vec<Option<PrimeHourScore>>) -> (out: Vec<PrimeHourScore>)
    ensures
        out@ == crate::sorting::sorted(known_hours(hours@), hour_order()),
{
    let mut all: Vec<PrimeHourScore> = Vec::new();
    let mut i: usize = 0;
    proof {
        assert(hours@.take(0) =~= seq![]);
    }
    while i < hours.len()
        invariant
            i <= hours.len(),
            all@ == known_hours(hours@.take(i as int)),
        decreases hours.len() - i,
    {
        proof {
            assert(hours@.take(i + 1).drop_last() =~= hours@.take(i as int));
            assert(hours@.take(i + 1).last() == hours@[i as int]);
        }
        match hours[i] {
            Some(found) => {
                all.push(found);
            },
            None => {},
        }
        i += 1;
    }
    proof {
        assert(hours@.take(hours@.len() as int) =~= hours@);
    }
    sort_items(all, heavier, Ghost(hour_order()))
}

// ---------------------------------------------------------------------------
// Schedules
// ---------------------------------------------------------------------------

/// A time of the day at which slots are primed.
#[derive(Clone, Copy, Debug, PartialEq, Eq, Structural)]
pub struct PrimeScheduleTime {
    pub hour: u8,
    pub minute: u8,
    pub source_hour: u8,
    pub score: Double,
    pub start_tokens: u64,
    pub rollout_tokens: u64,
    pub threads: u64,
    pub rollout_samples: u64,
}

/// The minute of the day that is `lead_minutes` before an hour, on the day before
/// where need be.
pub open spec fn minutes_before(source_hour: int, lead_minutes: int) -> int {
    (source_hour * 60 - lead_minutes) % 1440
}

/// The minute of the day that is `lead_minutes` before an hour.
pub fn prime_minutes_before(source_hour: u8, lead_minutes: u32) -> (out: u32)
    ensures
        out == minutes_before(source_hour as int, lead_minutes as int),
        out < 1440,
{
    let source: u32 = (source_hour as u32) * 60;
    let lead: u32 = lead_minutes % 1440;
    proof {
        let s = source as int;
        let l = lead_minutes as int;
        vstd::arithmetic::div_mod::lemma_fundamental_div_mod(l, 1440);
        assert(s + 1440 - lead == (s - l) + 1440 * (1 + l / 1440));
        vstd::arithmetic::div_mod::lemma_mod_multiples_vanish(1 + l / 1440, s - l, 1440);
    }
    (source + 1440 - lead) % 1440
}

/// The time for an hour.
pub open spec fn time_for(score: PrimeHourScore, lead_minutes: int) -> PrimeScheduleTime {
    let minutes = minutes_before(score.hour as int, lead_minutes);
    PrimeScheduleTime {
        hour: (minutes / 60) as u8,
        minute: (minutes % 60) as u8,
        source_hour: score.hour,
        score: score.score,
        start_tokens: score.start_tokens,
        rollout_tokens: score.rollout_tokens,
        threads: score.threads,
        rollout_samples: score.rollout_samples,
    }
}

fn time_of(score: &PrimeHourScore, lead_minutes: u32) -> (out: PrimeScheduleTime)
    ensures
        out == time_for(*score, lead_minutes as int),
{
    let minutes = prime_minutes_before(score.hour, lead_minutes);
    PrimeScheduleTime {
        hour: (minutes / 60) as u8,
        minute: (minutes % 60) as u8,
        source_hour: score.hour,
        score: score.score,
        start_tokens: score.start_tokens,
        rollout_tokens: score.rollout_tokens,
        threads: score.threads,
        rollout_samples: score.rollout_samples,
    }
}

/// Whether an hour is heavy enough.
pub open spec fn is_heavy(score: PrimeHourScore, min_tokens: u64) -> bool {
    score.start_tokens >= min_tokens || score.rollout_tokens >= min_tokens
}

/// The hours that are heavy enough.
pub open spec fn heavy_hours(scores: Seq<PrimeHourScore>, min_tokens: u64) -> Seq<PrimeHourScore>
    decreases scores.len(),
{
    if scores.len() == 0 {
        seq![]
    } else if is_heavy(scores.last(), min_tokens) {
        heavy_hours(scores.drop_last(), min_tokens).push(scores.last())
    } else {
        heavy_hours(scores.drop_last(), min_tokens)
    }
}

/// The first of some items.
pub open spec fn first_of<T>(items: Seq<T>, count: nat) -> Seq<T> {
    if items.len() <= count {
        items
    } else {
        items.take(count as int)
    }
}

/// The hours that are planned for: those that are heavy enough, or the first ones
/// where none is.
pub open spec fn planned_hours(scores: Seq<PrimeHourScore>, max_times: nat, min_tokens: u64) -> Seq<
    PrimeHourScore,
> {
    if heavy_hours(scores, min_tokens).len() == 0 {
        first_of(scores, max_times)
    } else {
        heavy_hours(scores, min_tokens)
    }
}

/// Whether a time is earlier in the day.
pub open spec fn is_earlier(a: PrimeScheduleTime, b: PrimeScheduleTime) -> bool {
    a.hour < b.hour || (a.hour == b.hour && a.minute < b.minute)
}

fn earlier(a: &PrimeScheduleTime, b: &PrimeScheduleTime) -> (out: bool)
    ensures
        out == is_earlier(*a, *b),
{
    a.hour < b.hour || (a.hour == b.hour && a.minute < b.minute)
}

/// The order of the day.
pub open spec fn day_order() -> spec_fn(PrimeScheduleTime, PrimeScheduleTime) -> bool {
    |a: PrimeScheduleTime, b: PrimeScheduleTime| is_earlier(a, b)
}

/// Whether a time is for a heavier hour, or an earlier one of the same weight.
pub open spec fn is_preferred(a: PrimeScheduleTime, b: PrimeScheduleTime) -> bool {
    a.score.rank() > b.score.rank() || (a.score.rank() == b.score.rank() && a.source_hour < b.source_hour)
}

fn preferred(a: &PrimeScheduleTime, b: &PrimeScheduleTime) -> (out: bool)
    ensures
        out == is_preferred(*a, *b),
{
    a.score.order() > b.score.order() || (a.score.order() == b.score.order() && a.source_hour < b.source_hour)
}

/// The order of weight.
pub open spec fn weight_order() -> spec_fn(PrimeScheduleTime, PrimeScheduleTime) -> bool {
    |a: PrimeScheduleTime, b: PrimeScheduleTime| is_preferred(a, b)
}

/// Whether two times are the same time of the day.
pub open spec fn is_same_time(a: PrimeScheduleTime, b: PrimeScheduleTime) -> bool {
    a.hour == b.hour && a.minute == b.minute
}

/// Times with one more. Of two for the same time of the day the heavier one is kept.
pub open spec fn put_time(times: Seq<PrimeScheduleTime>, item: PrimeScheduleTime) -> Seq<
    PrimeScheduleTime,
>
    decreases times.len(),
{
    if times.len() == 0 {
        seq![item]
    } else if is_same_time(times[0], item) {
        if item.score.rank() > times[0].score.rank() {
            seq![item] + times.skip(1)
        } else {
            times
        }
    } else {
        seq![times[0]] + put_time(times.skip(1), item)
    }
}

/// The times for hours, one for each time of the day.
pub open spec fn times_for(scores: Seq<PrimeHourScore>, lead_minutes: int) -> Seq<PrimeScheduleTime>
    decreases scores.len(),
{
    if scores.len() == 0 {
        seq![]
    } else {
        put_time(
            times_for(scores.drop_last(), lead_minutes),
            time_for(scores.last(), lead_minutes),
        )
    }
}

/// The times at which slots are primed, in the order of the day: those for the
/// heaviest hours, at most `max_times`.
pub open spec fn schedule(
    scores: Seq<PrimeHourScore>,
    lead_minutes: int,
    max_times: nat,
    min_tokens: u64,
) -> Seq<PrimeScheduleTime> {
    let times = times_for(planned_hours(scores, max_times, min_tokens), lead_minutes);
    let listed = crate::sorting::sorted(times, day_order());
    let ranked = crate::sorting::sorted(listed, weight_order());
    crate::sorting::sorted(first_of(ranked, max_times), day_order())
}

fn insert_time(times: &mut Vec<PrimeScheduleTime>, item: PrimeScheduleTime)
    ensures
        final(times)@ == put_time(old(times)@, item),
{
    let ghost all = times@;
    let mut i: usize = 0;
    proof {
        assert(all.skip(0) =~= all);
        assert(all.take(0) + put_time(all, item) =~= put_time(all, item));
    }
    while i < times.len()
        invariant
            i <= times.len(),
            all == times@,
            all == old(times)@,
            put_time(all, item) == all.take(i as int) + put_time(all.skip(i as int), item),
        decreases times.len() - i,
    {
        let ghost rest = all.skip(i as int);
        proof {
            assert(rest[0] == all[i as int]);
            assert(rest.skip(1) =~= all.skip(i + 1));
        }
        if times[i].hour == item.hour && times[i].minute == item.minute {
            if item.score.order() > times[i].score.order() {
                times.set(i, item);
                proof {
                    assert(times@ =~= all.take(i as int) + (seq![item] + rest.skip(1)));
                }
            } else {
                proof {
                    assert(all.take(i as int) + rest =~= all);
                }
            }
            return ;
        }
        proof {
            assert(all.take(i as int) + (seq![rest[0]] + put_time(rest.skip(1), item))
                =~= all.take(i + 1) + put_time(all.skip(i + 1), item));
        }
        i += 1;
    }
    times.push(item);
    proof {
        assert(all.skip(i as int) =~= seq![]);
        assert(times@ =~= all.take(i as int) + seq![item]);
    }
}

fn take_first<T: Copy>(items: &Vec<T>, count: usize) -> (out: Vec<T>)
    ensures
        out@ == first_of(items@, count as nat),
{
    let n: usize = if items.len() <= count {
        items.len()
    } else {
        count
    };
    let mut out: Vec<T> = Vec::new();
    let mut i: usize = 0;
    while i < n
        invariant
            i <= n <= items.len(),
            out@ == items@.take(i as int),
        decreases n - i,
    {
        out.push(items[i]);
        proof {
            assert(items@.take(i + 1) =~= items@.take(i as int).push(items@[i as int]));
        }
        i += 1;
    }
    proof {
        assert(out@ =~= first_of(items@, count as nat));
    }
    out
}

/// The times at which slots are primed.
pub fn schedule_times_from_scores(
    hour_scores: &Vec<PrimeHourScore>,
    lead_minutes: u32,
    max_times: usize,
    min_tokens: u64,
) -> (out: Vec<PrimeScheduleTime>)
    ensures
        out@ == schedule(hour_scores@, lead_minutes as int, max_times as nat, min_tokens),
{
    let mut heavy: Vec<PrimeHourScore> = Vec::new();
    let mut i: usize = 0;
    proof {
        assert(hour_scores@.take(0) =~= seq![]);
    }
    while i < hour_scores.len()
        invariant
            i <= hour_scores.len(),
            heavy@ == heavy_hours(hour_scores@.take(i as int), min_tokens),
        decreases hour_scores.len() - i,
    {
        proof {
            assert(hour_scores@.take(i + 1).drop_last() =~= hour_scores@.take(i as int));
            assert(hour_scores@.take(i + 1).last() == hour_scores@[i as int]);
        }
        let score = hour_scores[i];
        if score.start_tokens >= min_tokens || score.rollout_tokens >= min_tokens {
            heavy.push(score);
        }
        i += 1;
    }
    proof {
        assert(hour_scores@.take(hour_scores@.len() as int) =~= hour_scores@);
    }
    let planned = if heavy.len() == 0 {
        take_first(hour_scores, max_times)
    } else {
        heavy
    };
    let mut times: Vec<PrimeScheduleTime> = Vec::new();
    let mut j: usize = 0;
    proof {
        assert(planned@.take(0) =~= seq![]);
    }
    while j < planned.len()
        invariant
            j <= planned.len(),
            times@ == times_for(planned@.take(j as int), lead_minutes as int),
        decreases planned.len() - j,
    {
        proof {
            assert(planned@.take(j + 1).drop_last() =~= planned@.take(j as int));
            assert(planned@.take(j + 1).last() == planned@[j as int]);
        }
        insert_time(&mut times, time_of(&planned[j], lead_minutes));
        j += 1;
    }
    proof {
        assert(planned@.take(planned@.len() as int) =~= planned@);
    }
    let listed = sort_items(times, earlier, Ghost(day_order()));
    let ranked = sort_items(listed, preferred, Ghost(weight_order()));
    sort_items(take_first(&ranked, max_times), earlier, Ghost(day_order()))
}

/// A plan: the times, and what they were inferred from.
#[derive(Debug)]
pub struct PrimePlanReport {
    pub schema_version: u64,
    pub days: u32,
    pub lead_minutes: u32,
    pub max_times: usize,
    pub min_tokens: u64,
    pub source_databases: Vec<String>,
    pub rollout_cache: Option<String>,
    pub schedules: Vec<PrimeScheduleTime>,
    pub hour_scores: Vec<PrimeHourScore>,
}

/// A number that is at least one.
pub open spec fn at_least_one(n: nat) -> nat {
    if n == 0 {
        1
    } else {
        n
    }
}

/// The moment from which on history counts, in seconds.
pub open spec fn cutoff_of(now: i64, days: u32) -> int {
    let cut = now - at_least_one(days as nat) * 86400;
    if cut < i64::MIN {
        i64::MIN as int
    } else {
        cut
    }
}

/// The moment from which on history counts, in seconds.
pub fn history_cutoff(now: i64, days: u32) -> (out: i64)
    ensures
        out == cutoff_of(now, days),
{
    let span: i64 = (if days == 0 {
        1
    } else {
        days as i64
    }) * 86400;
    if now < i64::MIN + span {
        i64::MIN
    } else {
        now - span
    }
}

/// A plan from the threads and the use of the past days.
pub fn build_plan(
    args: &PrimeScheduleArgs,
    source_databases: Vec<String>,
    threads: &Vec<ThreadRow>,
    rollout_cache: Option<String>,
    rollouts: &Vec<RolloutRow>,
) -> (out: PrimePlanReport)
    ensures
        out.schema_version == PRIME_SCHEMA_VERSION,
        out.days == at_least_one(args.days as nat),
        out.lead_minutes == args.lead_minutes,
        out.max_times == at_least_one(args.max_times as nat),
        out.min_tokens == args.min_tokens,
        out.source_databases == source_databases,
        out.rollout_cache == rollout_cache,
        out.hour_scores@ == crate::sorting::sorted(
            known_hours(with_rollouts(with_threads(threads@), rollouts@)),
            hour_order(),
        ),
        out.schedules@ == schedule(
            out.hour_scores@,
            args.lead_minutes as int,
            out.max_times as nat,
            args.min_tokens,
        ),
{
    let mut hours = add_state_db_hour_scores(threads);
    add_rollout_hour_scores(&mut hours, rollouts);
    let hour_scores = ranked_hours(&hours);
    let max_times: usize = if args.max_times == 0 {
        1
    } else {
        args.max_times
    };
    let schedules = schedule_times_from_scores(
        &hour_scores,
        args.lead_minutes,
        max_times,
        args.min_tokens,
    );
    PrimePlanReport {
        schema_version: PRIME_SCHEMA_VERSION,
        days: if args.days == 0 {
            1
        } else {
            args.days
        },
        lead_minutes: args.lead_minutes,
        max_times,
        min_tokens: args.min_tokens,
        source_databases,
        rollout_cache,
        schedules,
        hour_scores,
    }
}

// ---------------------------------------------------------------------------
// Settings
// ---------------------------------------------------------------------------

/// What prime runs go by. Times are in seconds, and shares are
/// percentages.
#[derive(Debug)]
pub struct PrimeConfig {
    pub schema_version: u64,
    pub installed_at: i64,
    pub days: u32,
    pub lead_minutes: u32,
    pub max_times: usize,
    pub min_tokens: u64,
    pub schedules: Vec<PrimeScheduleTime>,
    pub target: Option<String>,
    pub slots: Vec<String>,
    pub max_slots: Option<usize>,
    pub codex_bin: Option<String>,
    pub model: Option<String>,
    pub prompt: String,
    pub timeout: Double,
    pub jobs: usize,
    pub retries: usize,
    pub min_weekly_remaining: Double,
}

/// The prompt that a text is, or why it is none.
pub open spec fn prompt_of(raw: Seq<char>) -> Result<Seq<char>, Seq<char>> {
    let prompt = crate::lines::trimmed(raw);
    if prompt.len() == 0 {
        Err("prime prompt cannot be empty"@)
    } else if vstd::utf8::encode_utf8(prompt).len() > 2000 {
        Err("prime prompt is too long; keep it below 2000 bytes"@)
    } else {
        Ok(prompt)
    }
}

/// Reads a prompt.
pub fn validate_prompt(prompt: &str) -> (out: Result<String, String>)
    ensures
        crate::envfile::result_text(out) == prompt_of(prompt@),
{
    let text = trim_text(prompt);
    if text.as_str().unicode_len() == 0 {
        return Err(copy_of("prime prompt cannot be empty"));
    }
    if text.as_str().as_bytes().len() > MAX_PROMPT_BYTES {
        return Err(copy_of("prime prompt is too long; keep it below 2000 bytes"));
    }
    Ok(text)
}

/// A time to wait that is at least a tenth of a second.
pub open spec fn wait_of(seconds: Double) -> Double {
    let least = Double { bits: TENTH_OF_A_SECOND };
    if least.is_less(seconds) {
        seconds
    } else {
        least
    }
}

fn at_least_tenth(seconds: Double) -> (out: Double)
    ensures
        out == wait_of(seconds),
{
    let least = Double { bits: TENTH_OF_A_SECOND };
    if least.less(seconds) {
        seconds
    } else {
        least
    }
}

/// A limit on slots that is at least one.
pub open spec fn limit_of(limit: Option<usize>) -> Option<usize> {
    match limit {
        Some(n) => Some(at_least_one(n as nat) as usize),
        None => None,
    }
}

fn at_least_one_slot(limit: Option<usize>) -> (out: Option<usize>)
    ensures
        out == limit_of(limit),
{
    match limit {
        Some(n) => Some(
            if n == 0 {
                1
            } else {
                n
            },
        ),
        None => None,
    }
}

/// Whether `config` is what was asked for.
pub open spec fn is_config_for(
    config: PrimeConfig,
    args: PrimeInstallArgs,
    plan: PrimePlanReport,
    codex_bin: Seq<char>,
    now: i64,
) -> bool {
    &&& config.schema_version == PRIME_SCHEMA_VERSION
    &&& config.installed_at == now
    &&& config.days == args.schedule.days
    &&& config.lead_minutes == args.schedule.lead_minutes
    &&& config.max_times == args.schedule.max_times
    &&& config.min_tokens == args.schedule.min_tokens
    &&& config.schedules@ == plan.schedules@
    &&& crate::text::opt_text(config.target) == crate::text::opt_text(args.target)
    &&& crate::text::texts(config.slots@) == crate::text::texts(args.slots@)
    &&& config.max_slots == limit_of(args.max_slots)
    &&& crate::text::opt_text(config.codex_bin) == Some(codex_bin)
    &&& crate::text::opt_text(config.model) == crate::text::opt_text(args.model)
    &&& prompt_of(args.prompt@) == Ok::<Seq<char>, Seq<char>>(config.prompt@)
    &&& config.timeout == wait_of(args.timeout)
    &&& config.jobs == at_least_one(args.jobs as nat)
    &&& config.retries == args.retries
    &&& config.min_weekly_remaining == args.min_weekly_remaining.within_percent()
}

/// Why an installation is refused, if it is.
pub open spec fn install_refusal(args: PrimeInstallArgs, plan: PrimePlanReport) -> Option<Seq<char>> {
    if plan.schedules@.len() == 0 {
        Some("no prime schedule could be inferred from local usage"@)
    } else {
        match prompt_of(args.prompt@) {
            Err(message) => Some(message),
            Ok(_) => None,
        }
    }
}

/// Whether anything was planned.
pub fn check_plan(plan: &PrimePlanReport) -> (out: Result<(), String>)
    ensures
        match out {
            Ok(_) => plan.schedules@.len() > 0,
            Err(message) => plan.schedules@.len() == 0 && message@
                == "no prime schedule could be inferred from local usage"@,
        },
{
    if plan.schedules.len() == 0 {
        Err(copy_of("no prime schedule could be inferred from local usage"))
    } else {
        Ok(())
    }
}

/// What prime runs go by once they are installed.
pub fn install_config(args: &PrimeInstallArgs, plan: &PrimePlanReport, codex_bin: &str, now: i64) -> (out:
    Result<PrimeConfig, String>)
    ensures
        match out {
            Ok(config) => install_refusal(*args, *plan) is None && is_config_for(
                config,
                *args,
                *plan,
                codex_bin@,
                now,
            ),
            Err(message) => install_refusal(*args, *plan) == Some(message@),
        },
{
    match check_plan(plan) {
        Ok(_) => {},
        Err(message) => {
            return Err(message);
        },
    }
    let prompt = match validate_prompt(args.prompt.as_str()) {
        Ok(prompt) => prompt,
        Err(message) => {
            return Err(message);
        },
    };
    let count: usize = plan.schedules.len();
    let schedules = take_first(&plan.schedules, count);
    Ok(
        PrimeConfig {
            schema_version: PRIME_SCHEMA_VERSION,
            installed_at: now,
            days: args.schedule.days,
            lead_minutes: args.schedule.lead_minutes,
            max_times: args.schedule.max_times,
            min_tokens: args.schedule.min_tokens,
            schedules,
            target: opt_copy(&args.target),
            slots: copy_all(&args.slots),
            max_slots: at_least_one_slot(args.max_slots),
            codex_bin: Some(copy_of(codex_bin)),
            model: opt_copy(&args.model),
            prompt,
            timeout: at_least_tenth(args.timeout),
            jobs: if args.jobs == 0 {
                1
            } else {
                args.jobs
            },
            retries: args.retries,
            min_weekly_remaining: args.min_weekly_remaining.clamp_percent(),
        },
    )
}

/// Settings that were read: those of another version are not used, and the old
/// default limit of the first version is dropped.
pub fn load_config(parsed: Option<PrimeConfig>) -> (out: Option<PrimeConfig>)
    ensures
        match (parsed, out) {
            (Some(read), Some(config)) => (read.schema_version == 1 || read.schema_version
                == PRIME_SCHEMA_VERSION) && config == (PrimeConfig {
                max_slots: if read.schema_version == 1 && read.max_slots == Some(3usize) {
                    None
                } else {
                    read.max_slots
                },
                ..read
            }),
            (Some(read), None) => read.schema_version != 1 && read.schema_version
                != PRIME_SCHEMA_VERSION,
            (None, None) => true,
            (None, Some(_)) => false,
        },
{
    match parsed {
        None => None,
        Some(read) => {
            if read.schema_version != 1 && read.schema_version != PRIME_SCHEMA_VERSION {
                return None;
            }
            let mut config = read;
            if config.schema_version == 1 {
                match config.max_slots {
                    Some(n) => {
                        if n == 3 {
                            config.max_slots = None;
                        }
                    },
                    None => {},
                }
            }
            Some(config)
        },
    }
}

/// What a prime run goes by.
#[derive(Debug)]
pub struct EffectiveRunConfig {
    pub target: Option<String>,
    pub slots: Vec<String>,
    pub max_slots: Option<usize>,
    pub codex_bin: Option<String>,
    pub model: Option<String>,
    pub prompt: String,
    pub timeout: Double,
    pub jobs: usize,
    pub retries: usize,
    pub min_weekly_remaining: Double,
}

/// What was asked for, else what is set.
pub open spec fn asked_or_set(asked: Option<Seq<char>>, set: Option<Seq<char>>) -> Option<Seq<char>> {
    match asked {
        Some(text) => Some(text),
        None => set,
    }
}

fn asked_else_set(asked: &Option<String>, set: &Option<String>) -> (out: Option<String>)
    ensures
        crate::text::opt_text(out) == asked_or_set(
            crate::text::opt_text(*asked),
            crate::text::opt_text(*set),
        ),
{
    match asked {
        Some(text) => Some(text.clone()),
        None => opt_copy(set),
    }
}

/// The prompt of a run: the one asked for, else the one that is set, else the default.
pub open spec fn run_prompt(asked: Option<Seq<char>>, config: Option<PrimeConfig>) -> Seq<char> {
    match (asked, config) {
        (Some(text), _) => text,
        (None, Some(set)) => set.prompt@,
        (None, None) => "Reply exactly: hi"@,
    }
}

/// Whether `run` is what follows from settings and arguments: what was asked for goes
/// before what is set, and that before the defaults.
pub open spec fn is_effective(
    run: EffectiveRunConfig,
    config: Option<PrimeConfig>,
    args: PrimeRunArgs,
) -> bool {
    let set_slots = match config {
        Some(set) => crate::text::texts(set.slots@),
        None => seq![],
    };
    &&& crate::text::opt_text(run.target) == asked_or_set(
        crate::text::opt_text(args.target),
        match config {
            Some(set) => crate::text::opt_text(set.target),
            None => None,
        },
    )
    &&& crate::text::texts(run.slots@) == (if args.slots@.len() == 0 {
        set_slots
    } else {
        crate::text::texts(args.slots@)
    })
    &&& run.max_slots == (match args.max_slots {
        Some(_) => limit_of(args.max_slots),
        None => match config {
            Some(set) => set.max_slots,
            None => None,
        },
    })
    &&& crate::text::opt_text(run.codex_bin) == asked_or_set(
        crate::text::opt_text(args.codex_bin),
        match config {
            Some(set) => crate::text::opt_text(set.codex_bin),
            None => None,
        },
    )
    &&& crate::text::opt_text(run.model) == asked_or_set(
        crate::text::opt_text(args.model),
        match config {
            Some(set) => crate::text::opt_text(set.model),
            None => None,
        },
    )
    &&& prompt_of(run_prompt(crate::text::opt_text(args.prompt), config)) == Ok::<
        Seq<char>,
        Seq<char>,
    >(run.prompt@)
    &&& run.timeout == wait_of(
        match config {
            Some(set) => set.timeout,
            None => Double { bits: TWO_SECONDS },
        },
    )
    &&& run.jobs == at_least_one(
        match config {
            Some(set) => set.jobs as nat,
            None => 4,
        },
    )
    &&& run.retries == (match config {
        Some(set) => set.retries,
        None => 1,
    })
    &&& run.min_weekly_remaining == (match config {
        Some(set) => set.min_weekly_remaining.within_percent(),
        None => Double { bits: MIN_WEEKLY_REMAINING },
    })
}

impl EffectiveRunConfig {
    /// What a run goes by. Only the prompt can be refused.
    pub fn from_config_and_args(config: &Option<PrimeConfig>, args: &PrimeRunArgs) -> (out: Result<
        EffectiveRunConfig,
        String,
    >)
        ensures
            ({
                let prompt = prompt_of(run_prompt(crate::text::opt_text(args.prompt), *config));
                match out {
                    Ok(run) => prompt is Ok && is_effective(run, *config, *args),
                    Err(message) => prompt == Err::<Seq<char>, Seq<char>>(message@),
                }
            }),
    {
        let none: Option<String> = None;
        let raw = match &args.prompt {
            Some(text) => text.clone(),
            None => match config {
                Some(set) => set.prompt.clone(),
                None => copy_of(DEFAULT_PRIME_PROMPT),
            },
        };
        let prompt = match validate_prompt(raw.as_str()) {
            Ok(prompt) => prompt,
            Err(message) => {
                return Err(message);
            },
        };
        let max_slots = match args.max_slots {
            Some(n) => at_least_one_slot(Some(n)),
            None => match config {
                Some(set) => set.max_slots,
                None => None,
            },
        };
        let slots = if args.slots.len() == 0 {
            match config {
                Some(set) => copy_all(&set.slots),
                None => {
                    let empty: Vec<String> = Vec::new();
                    proof {
                        assert(crate::text::texts(empty@) =~= seq![]);
                    }
                    empty
                },
            }
        } else {
            copy_all(&args.slots)
        };
        let jobs: usize = match config {
            Some(set) => if set.jobs == 0 {
                1
            } else {
                set.jobs
            },
            None => 4,
        };
        Ok(
            EffectiveRunConfig {
                target: match config {
                    Some(set) => asked_else_set(&args.target, &set.target),
                    None => asked_else_set(&args.target, &none),
                },
                slots,
                max_slots,
                codex_bin: match config {
                    Some(set) => asked_else_set(&args.codex_bin, &set.codex_bin),
                    None => asked_else_set(&args.codex_bin, &none),
                },
                model: match config {
                    Some(set) => asked_else_set(&args.model, &set.model),
                    None => asked_else_set(&args.model, &none),
                },
                prompt,
                timeout: match config {
                    Some(set) => at_least_tenth(set.timeout),
                    None => Double { bits: TWO_SECONDS },
                },
                jobs,
                retries: match config {
                    Some(set) => set.retries,
                    None => 1,
                },
                min_weekly_remaining: match config {
                    Some(set) => set.min_weekly_remaining.clamp_percent(),
                    None => Double { bits: MIN_WEEKLY_REMAINING },
                },
            },
        )
    }
}

// ---------------------------------------------------------------------------
// Choosing slots
// ---------------------------------------------------------------------------

/// The slots that a run looks at.
pub fn prime_slots(config: &EffectiveRunConfig, target: &Option<TargetSpec>, rotation: &Vec<String>) -> (out:
    Result<Vec<String>, String>)
    ensures
        ({
            let slots = if config.slots@.len() > 0 {
                crate::text::texts(config.slots@)
            } else {
                crate::target::slots_of(
                    crate::target::opt_target(*target),
                    crate::text::texts(rotation@),
                )
            };
            match out {
                Ok(names) => slots.len() > 0 && crate::text::texts(names@) == slots,
                Err(message) => slots.len() == 0 && message@
                    == "no slots configured for prime run"@,
            }
        }),
{
    let slots = if config.slots.len() > 0 {
        copy_all(&config.slots)
    } else {
        slots_or_rotation(target, rotation)
    };
    proof {
        assert(crate::text::texts(slots@).len() == slots@.len());
        assert(crate::text::texts(config.slots@).len() == config.slots@.len());
    }
    if slots.len() == 0 {
        Err(copy_of("no slots configured for prime run"))
    } else {
        Ok(slots)
    }
}

/// What is used of a window; nothing where that is not known.
pub open spec fn used_of(used: Option<Double>) -> Double {
    match used {
        Some(part) => part,
        None => Double { bits: 0 },
    }
}

fn known_use(used: Option<Double>) -> (out: Double)
    ensures
        out == used_of(used),
{
    match used {
        Some(part) => part,
        None => Double { bits: 0 },
    }
}

/// What is left of a window.
pub fn remaining_percent(used: Option<Double>) -> (out: Double)
    ensures
        out == used_of(used).left(),
{
    known_use(used).left_of_percent()
}

/// A difference, as far as it can be counted.
pub open spec fn seconds_until(refresh_at: Option<i64>, now: i64) -> Option<int> {
    match refresh_at {
        Some(then) => Some(crate::selector::saturated_difference(then, now)),
        None => None,
    }
}

/// Whether so little of a window is used that it may not have been started.
pub open spec fn is_idle_use(used: Double) -> bool {
    let most = Double { bits: MAX_IDLE_FIVE_HOUR_USED };
    used.is_less(most) || used.rank() == most.rank()
}

/// Whether the window of a slot runs already, as the server sees it. One that has
/// just begun and of which almost nothing is used counts as one that does not.
pub open spec fn is_active(used: Option<Double>, refresh_at: Option<i64>, now: i64) -> bool {
    let part = used_of(used);
    let left = seconds_until(refresh_at, now);
    let fresh = left matches Some(seconds) && seconds >= FIVE_HOUR_WINDOW_SECONDS
        - ACTIVE_REFRESH_GRACE_SECONDS;
    let ahead = left matches Some(seconds) && seconds > ACTIVE_REFRESH_GRACE_SECONDS;
    !(is_idle_use(part) && fresh) && !part.is_not_positive() && ahead
}

/// Why a slot is skipped whose window runs already.
pub open spec fn active_text(used: Double, refresh: Option<Seq<char>>) -> Seq<char> {
    let when = match refresh {
        Some(text) => ", refresh "@ + text,
        None => seq![],
    };
    "5h window already active (used "@ + used.form(1) + "%"@ + when
        + ")"@
}

/// Why a slot is skipped whose window runs already.
pub fn remote_active_five_hour_window_reason(
    result: &SlotResult,
    now: i64,
    refresh: &Option<String>,
) -> (out: Option<String>)
    ensures
        match out {
            Some(reason) => is_active(
                result.five_hour_used,
                result.five_hour_refresh_at,
                now,
            ) && reason@ == active_text(
                used_of(result.five_hour_used),
                crate::text::opt_text(*refresh),
            ),
            None => !is_active(result.five_hour_used, result.five_hour_refresh_at, now),
        },
{
    let used = known_use(result.five_hour_used);
    let most = Double { bits: MAX_IDLE_FIVE_HOUR_USED };
    let mut fresh = false;
    let mut ahead = false;
    match result.five_hour_refresh_at {
        Some(then) => {
            let seconds = crate::selector::saturating_difference(then, now);
            fresh = seconds >= FIVE_HOUR_WINDOW_SECONDS - ACTIVE_REFRESH_GRACE_SECONDS;
            ahead = seconds > ACTIVE_REFRESH_GRACE_SECONDS;
        },
        None => {},
    }
    if (used.less(most) || used.order() == most.order()) && fresh {
        return None;
    }
    if used.not_positive() || !ahead {
        return None;
    }
    let head = concat3("5h window already active (used ", used.text(1).as_str(), "%");
    proof {
        assert(head@ + seq![] =~= head@);
    }
    match refresh {
        Some(text) => Some(concat4(head.as_str(), ", refresh ", text.as_str(), ")")),
        None => Some(concat2(head.as_str(), ")")),
    }
}

/// What is left of the week for a slot that may be primed, or why it is skipped.
pub open spec fn candidate(
    result: SlotResult,
    now: i64,
    min_weekly: Double,
    force: bool,
    refresh: Option<Seq<char>>,
) -> Result<Double, Seq<char>> {
    let left = used_of(result.weekly_used).left();
    if result.status != SlotStatus::Available {
        Err("status "@ + result.status.name())
    } else if result.stale && !force {
        Err("stale usage cache"@)
    } else if left.is_less(min_weekly) {
        Err(
            "weekly remaining "@ + left.form(1) + "% below "@
                + min_weekly.form(1) + "%"@,
        )
    } else if !force && is_active(result.five_hour_used, result.five_hour_refresh_at, now) {
        Err(active_text(used_of(result.five_hour_used), refresh))
    } else {
        Ok(left)
    }
}

/// What is left of the week for a slot that may be primed, or why it is skipped.
pub fn prime_candidate(
    result: &SlotResult,
    now: i64,
    min_weekly: Double,
    force: bool,
    refresh: &Option<String>,
) -> (out: Result<Double, String>)
    ensures
        match (candidate(*result, now, min_weekly, force, crate::text::opt_text(*refresh)), out) {
            (Ok(left), Ok(share)) => share == left,
            (Err(reason), Err(message)) => message@ == reason,
            _ => false,
        },
{
    if result.status != SlotStatus::Available {
        return Err(concat2("status ", result.status.as_str()));
    }
    if result.stale && !force {
        return Err(copy_of("stale usage cache"));
    }
    let left = remaining_percent(result.weekly_used);
    if left.less(min_weekly) {
        let head = concat4(
            "weekly remaining ",
            left.text(1).as_str(),
            "% below ",
            min_weekly.text(1).as_str(),
        );
        return Err(concat2(head.as_str(), "%"));
    }
    if !force {
        match remote_active_five_hour_window_reason(result, now, refresh) {
            Some(reason) => {
                return Err(reason);
            },
            None => {},
        }
    }
    Ok(left)
}

/// A slot that may be primed: its place among the results, its place in rotation, and
/// what is left of its week.
#[derive(Clone, Copy, Debug, PartialEq, Eq, Structural)]
pub struct PrimeCandidate {
    pub position: usize,
    pub index: usize,
    pub weekly_remaining: Double,
}

/// Whether a slot is primed before another: the one with more left, then the one
/// earlier in rotation.
pub open spec fn is_primed_first(a: PrimeCandidate, b: PrimeCandidate) -> bool {
    a.weekly_remaining.rank() > b.weekly_remaining.rank() || (a.weekly_remaining.rank() == b.weekly_remaining.rank()
        && a.index < b.index)
}

fn primed_first(a: &PrimeCandidate, b: &PrimeCandidate) -> (out: bool)
    ensures
        out == is_primed_first(*a, *b),
{
    a.weekly_remaining.order() > b.weekly_remaining.order() || (a.weekly_remaining.order() == b.weekly_remaining.order() && a.index
        < b.index)
}

/// The order of priming.
pub open spec fn prime_order() -> spec_fn(PrimeCandidate, PrimeCandidate) -> bool {
    |a: PrimeCandidate, b: PrimeCandidate| is_primed_first(a, b)
}

/// A slot that is skipped, and why.
#[derive(Debug)]
pub struct PrimeSkip {
    pub slot: String,
    pub reason: String,
}

/// The texts of skips.
pub open spec fn skip_models(items: Seq<PrimeSkip>) -> Seq<(Seq<char>, Seq<char>)> {
    items.map_values(|s: PrimeSkip| (s.slot@, s.reason@))
}

/// The slots that may be primed.
pub open spec fn candidates_of(
    results: Seq<SlotResult>,
    now: i64,
    min_weekly: Double,
    force: bool,
    refreshes: Seq<Option<Seq<char>>>,
) -> Seq<PrimeCandidate>
    decreases results.len(),
{
    if results.len() == 0 {
        seq![]
    } else {
        let k = results.len() - 1;
        let before = candidates_of(results.drop_last(), now, min_weekly, force, refreshes);
        match candidate(results.last(), now, min_weekly, force, refreshes[k]) {
            Ok(left) => before.push(
                PrimeCandidate {
                    position: k as usize,
                    index: results.last().index,
                    weekly_remaining: left,
                },
            ),
            Err(_) => before,
        }
    }
}

/// The slots that are skipped.
pub open spec fn skips_of(
    results: Seq<SlotResult>,
    now: i64,
    min_weekly: Double,
    force: bool,
    refreshes: Seq<Option<Seq<char>>>,
) -> Seq<(Seq<char>, Seq<char>)>
    decreases results.len(),
{
    if results.len() == 0 {
        seq![]
    } else {
        let k = results.len() - 1;
        let before = skips_of(results.drop_last(), now, min_weekly, force, refreshes);
        match candidate(results.last(), now, min_weekly, force, refreshes[k]) {
            Ok(_) => before,
            Err(reason) => before.push((results.last()@.slot, reason)),
        }
    }
}

/// How many slots may be primed, the ones that are, and those that are skipped.
#[derive(Debug)]
pub struct PrimeChoice {
    pub candidates: usize,
    pub selected: Vec<PrimeCandidate>,
    pub skipped: Vec<PrimeSkip>,
}

/// Optional texts.
pub open spec fn opt_texts(items: Seq<Option<String>>) -> Seq<Option<Seq<char>>> {
    items.map_values(|item: Option<String>| crate::text::opt_text(item))
}

/// The most slots that are primed.
pub open spec fn most_of(limit: Option<usize>) -> nat {
    match limit {
        Some(n) => n as nat,
        None => usize::MAX as nat,
    }
}

/// Whether every candidate stands for one of `count` results.
pub open spec fn are_positions(items: Seq<PrimeCandidate>, count: nat) -> bool {
    forall|i: int| 0 <= i < items.len() ==> (#[trigger] items[i]).position < count
}

proof fn lemma_inserted_positions(
    list: Seq<PrimeCandidate>,
    item: PrimeCandidate,
    before: spec_fn(PrimeCandidate, PrimeCandidate) -> bool,
    count: nat,
)
    requires
        are_positions(list, count),
        item.position < count,
    ensures
        are_positions(crate::sorting::inserted(list, item, before), count),
    decreases list.len(),
{
    if list.len() > 0 {
        lemma_inserted_positions(list.drop_last(), item, before, count);
    }
}

proof fn lemma_sorted_positions(
    items: Seq<PrimeCandidate>,
    before: spec_fn(PrimeCandidate, PrimeCandidate) -> bool,
    count: nat,
)
    requires
        are_positions(items, count),
    ensures
        are_positions(crate::sorting::sorted(items, before), count),
    decreases items.len(),
{
    if items.len() > 0 {
        lemma_sorted_positions(items.drop_last(), before, count);
        lemma_inserted_positions(
            crate::sorting::sorted(items.drop_last(), before),
            items.last(),
            before,
            count,
        );
    }
}

/// The slots that are primed: the candidates with the most left, in that order, as many
/// as may be primed.
pub open spec fn chosen_of(
    results: Seq<SlotResult>,
    now: i64,
    min_weekly: Double,
    force: bool,
    refreshes: Seq<Option<Seq<char>>>,
    limit: Option<usize>,
) -> Seq<PrimeCandidate> {
    first_of(
        crate::sorting::sorted(
            candidates_of(results, now, min_weekly, force, refreshes),
            prime_order(),
        ),
        most_of(limit),
    )
}

/// Chooses the slots that are primed. `refreshes` tells when the windows of the slots
/// are full again.
pub fn choose_slots(
    results: &Vec<SlotResult>,
    now: i64,
    config: &EffectiveRunConfig,
    force: bool,
    refreshes: &Vec<Option<String>>,
) -> (out: PrimeChoice)
    requires
        refreshes.len() == results.len(),
    ensures
        out.candidates == candidates_of(
            results@,
            now,
            config.min_weekly_remaining,
            force,
            opt_texts(refreshes@),
        ).len(),
        out.selected@ == first_of(
            crate::sorting::sorted(
                candidates_of(
                    results@,
                    now,
                    config.min_weekly_remaining,
                    force,
                    opt_texts(refreshes@),
                ),
                prime_order(),
            ),
            most_of(config.max_slots),
        ),
        out.selected@ == chosen_of(
            results@,
            now,
            config.min_weekly_remaining,
            force,
            opt_texts(refreshes@),
            config.max_slots,
        ),
        are_positions(out.selected@, results@.len()),
        skip_models(out.skipped@) == skips_of(
            results@,
            now,
            config.min_weekly_remaining,
            force,
            opt_texts(refreshes@),
        ),
{
    let min_weekly = config.min_weekly_remaining;
    let ghost texts = opt_texts(refreshes@);
    let mut candidates: Vec<PrimeCandidate> = Vec::new();
    let mut skipped: Vec<PrimeSkip> = Vec::new();
    let mut i: usize = 0;
    proof {
        assert(results@.take(0) =~= seq![]);
        assert(skip_models(skipped@) =~= seq![]);
    }
    while i < results.len()
        invariant
            i <= results.len(),
            refreshes.len() == results.len(),
            texts == opt_texts(refreshes@),
            candidates@ == candidates_of(results@.take(i as int), now, min_weekly, force, texts),
            are_positions(candidates@, results@.len()),
            skip_models(skipped@) == skips_of(
                results@.take(i as int),
                now,
                min_weekly,
                force,
                texts,
            ),
        decreases results.len() - i,
    {
        let ghost before = skip_models(skipped@);
        proof {
            assert(results@.take(i + 1).drop_last() =~= results@.take(i as int));
            assert(results@.take(i + 1).last() == results@[i as int]);
            assert(texts[i as int] == crate::text::opt_text(refreshes@[i as int]));
        }
        match prime_candidate(&results[i], now, min_weekly, force, &refreshes[i]) {
            Ok(left) => {
                candidates.push(
                    PrimeCandidate {
                        position: i,
                        index: results[i].index,
                        weekly_remaining: left,
                    },
                );
            },
            Err(reason) => {
                let ghost why = reason@;
                skipped.push(PrimeSkip { slot: results[i].slot.clone(), reason });
                proof {
                    assert(skip_models(skipped@) =~= before.push((results@[i as int]@.slot, why)));
                }
            },
        }
        i += 1;
    }
    proof {
        assert(results@.take(results@.len() as int) =~= results@);
    }
    proof {
        lemma_sorted_positions(candidates@, prime_order(), results@.len());
    }
    let count: usize = candidates.len();
    let ranked = sort_items(candidates, primed_first, Ghost(prime_order()));
    let most: usize = match config.max_slots {
        Some(n) => n,
        None => usize::MAX,
    };
    PrimeChoice { candidates: count, selected: take_first(&ranked, most), skipped }
}

// ---------------------------------------------------------------------------
// Runs
// ---------------------------------------------------------------------------

/// A slot that was primed, or was to be.
#[derive(Debug)]
pub struct PrimeAttempt {
    pub slot: String,
    pub account: Option<String>,
    pub dry_run: bool,
    pub success: bool,
    pub exit_code: Option<i32>,
    pub elapsed_ms: u128,
    pub note: String,
}

/// Whether `attempt` says that a slot would be primed.
pub open spec fn is_dry_attempt(
    attempt: PrimeAttempt,
    result: SlotResult,
    weekly_remaining: Double,
) -> bool {
    &&& attempt.slot@ == result@.slot
    &&& crate::text::opt_text(attempt.account) == result@.account_label
    &&& attempt.dry_run
    &&& attempt.success
    &&& attempt.exit_code is None
    &&& attempt.elapsed_ms == 0
    &&& attempt.note@ == "would prime; weekly remaining "@ + weekly_remaining.form(1) + "%"@
}

/// A slot that would be primed.
pub fn dry_attempt(result: &SlotResult, weekly_remaining: Double) -> (out: PrimeAttempt)
    ensures
        is_dry_attempt(out, *result, weekly_remaining),
{
    PrimeAttempt {
        slot: result.slot.clone(),
        account: opt_copy(&result.account_label),
        dry_run: true,
        success: true,
        exit_code: None,
        elapsed_ms: 0,
        note: concat3(
            "would prime; weekly remaining ",
            weekly_remaining.text(1).as_str(),
            "%",
        ),
    }
}

/// A slot whose worker broke down.
pub fn broken_attempt() -> (out: PrimeAttempt)
    ensures
        out.slot@ == "<unknown>"@,
        out.account is None,
        !out.dry_run,
        !out.success,
        out.exit_code is None,
        out.elapsed_ms == 0,
        out.note@ == "prime worker panicked"@,
{
    PrimeAttempt {
        slot: copy_of("<unknown>"),
        account: None,
        dry_run: false,
        success: false,
        exit_code: None,
        elapsed_ms: 0,
        note: copy_of("prime worker panicked"),
    }
}

/// How Codex ended.
#[derive(Debug)]
pub struct CommandOutcome {
    pub success: bool,
    pub exit_code: Option<i32>,
    pub note: String,
}

/// A text of at most `max` characters, the last three of them dots where it was cut.
pub open spec fn cut(text: Seq<char>, max: nat) -> Seq<char> {
    if text.len() <= max {
        text
    } else if max <= 3 {
        "..."@
    } else {
        text.take(max - 3) + "..."@
    }
}

/// A text of at most `max` characters, the last three of them dots where it was cut.
pub fn cut_text(value: &str, max_chars: usize) -> (out: String)
    ensures
        out@ == cut(value@, max_chars as nat),
{
    let chars = chars_of(value);
    if chars.len() <= max_chars {
        return copy_of(value);
    }
    if max_chars <= 3 {
        return copy_of("...");
    }
    let head = sub_chars(&chars, 0, max_chars - 3);
    proof {
        assert(value@.subrange(0, max_chars - 3) =~= value@.take(max_chars - 3));
    }
    concat2(string_of(&head).as_str(), "...")
}

/// The last line that is not blank.
pub open spec fn last_words(lines: Seq<Seq<char>>) -> Option<Seq<char>>
    decreases lines.len(),
{
    if lines.len() == 0 {
        None
    } else if crate::lines::trimmed(lines.last()).len() > 0 {
        Some(lines.last())
    } else {
        last_words(lines.drop_last())
    }
}

/// What is noted of a run of Codex that failed: the last thing that it said.
pub open spec fn failure_note(said: Seq<char>) -> Seq<char> {
    "codex exec failed: "@ + cut(
        match last_words(crate::lines::lines_of(said)) {
            Some(line) => line,
            None => "codex exec failed"@,
        },
        240,
    )
}

fn note_of_failure(said: &str) -> (out: String)
    ensures
        out@ == failure_note(said@),
{
    let lines = split_lines(&chars_of(said));
    let ghost all = crate::lines::lines_of(said@);
    let mut k: usize = lines.len();
    proof {
        assert(all.len() == lines@.len());
        assert(all.take(k as int) =~= all);
    }
    while k > 0
        invariant
            k <= lines.len(),
            all == crate::lines::rows(lines@),
            all == crate::lines::lines_of(said@),
            last_words(all) == last_words(all.take(k as int)),
        decreases k,
    {
        proof {
            assert(all.take(k as int).last() == lines@[k - 1]@);
            assert(all.take(k as int).drop_last() =~= all.take(k - 1));
        }
        if trim(&lines[k - 1]).len() > 0 {
            return concat2(
                "codex exec failed: ",
                cut_text(string_of(&lines[k - 1]).as_str(), 240).as_str(),
            );
        }
        k -= 1;
    }
    concat2("codex exec failed: ", cut_text("codex exec failed", 240).as_str())
}

/// How Codex ended, by what it said.
pub fn command_outcome(success: bool, exit_code: Option<i32>, stderr: &[u8]) -> (out:
    CommandOutcome)
    ensures
        out.success == success,
        out.exit_code == exit_code,
        out.note@ == (if success {
            "primed"@
        } else {
            failure_note(crate::frames::lossy_of(stderr@))
        }),
{
    CommandOutcome {
        success,
        exit_code,
        note: if success {
            copy_of("primed")
        } else {
            note_of_failure(lossy_text(stderr).as_str())
        },
    }
}

/// A slot that was primed, or could not be.
pub fn run_prime_slot(
    slot: &str,
    account: &Option<String>,
    result: Result<CommandOutcome, String>,
    elapsed_ms: u128,
) -> (out: PrimeAttempt)
    ensures
        out.slot@ == slot@,
        crate::text::opt_text(out.account) == crate::text::opt_text(*account),
        !out.dry_run,
        out.elapsed_ms == elapsed_ms,
        match result {
            Ok(outcome) => out.success == outcome.success && out.exit_code == outcome.exit_code
                && out.note@ == outcome.note@,
            Err(reason) => !out.success && out.exit_code is None && out.note@ == reason@,
        },
{
    let outcome = match result {
        Ok(outcome) => outcome,
        Err(reason) => CommandOutcome { success: false, exit_code: None, note: reason },
    };
    PrimeAttempt {
        slot: copy_of(slot),
        account: opt_copy(account),
        dry_run: false,
        success: outcome.success,
        exit_code: outcome.exit_code,
        elapsed_ms,
        note: outcome.note,
    }
}

/// The arguments of Codex for a priming request.
pub open spec fn codex_args(model: Option<Seq<char>>, prompt: Seq<char>) -> Seq<Seq<char>> {
    let first = match model {
        Some(name) => seq!["-m"@, name],
        None => seq![],
    };
    first + seq![
        "--ask-for-approval"@,
        "never"@,
        "exec"@,
        "--skip-git-repo-check"@,
        "--ephemeral"@,
        "--ignore-rules"@,
        "-s"@,
        "read-only"@,
        "--color"@,
        "never"@,
        prompt,
    ]
}

/// The arguments of Codex for a priming request.
pub fn prime_codex_args(config: &EffectiveRunConfig) -> (out: Vec<String>)
    ensures
        crate::text::texts(out@) == codex_args(
            crate::text::opt_text(config.model),
            config.prompt@,
        ),
{
    let mut out: Vec<String> = Vec::new();
    match &config.model {
        Some(model) => {
            out.push(copy_of("-m"));
            out.push(model.clone());
        },
        None => {},
    }
    out.push(copy_of("--ask-for-approval"));
    out.push(copy_of("never"));
    out.push(copy_of("exec"));
    out.push(copy_of("--skip-git-repo-check"));
    out.push(copy_of("--ephemeral"));
    out.push(copy_of("--ignore-rules"));
    out.push(copy_of("-s"));
    out.push(copy_of("read-only"));
    out.push(copy_of("--color"));
    out.push(copy_of("never"));
    out.push(config.prompt.clone());
    proof {
        assert(crate::text::texts(out@) =~= codex_args(
            crate::text::opt_text(config.model),
            config.prompt@,
        ));
    }
    out
}

/// A report on a run.
#[derive(Debug)]
pub struct PrimeRunReport {
    pub schema_version: u64,
    pub ran_at: i64,
    pub dry_run: bool,
    pub force: bool,
    pub checked_slots: usize,
    pub max_slots: Option<usize>,
    pub primed: Vec<PrimeAttempt>,
    pub skipped: Vec<PrimeSkip>,
}

/// The moment before which primes are forgotten.
pub open spec fn forget_before(ran_at: i64) -> int {
    crate::selector::saturated_difference(ran_at, 36000)
}

/// The primes that are not forgotten.
pub open spec fn remembered(history: Map<Seq<char>, i64>, cutoff: int) -> Map<Seq<char>, i64> {
    history.restrict(Set::new(|slot: Seq<char>| history.dom().contains(slot) && history[slot]
        >= cutoff))
}

/// A history with the slots that were primed with success.
pub open spec fn with_primes(
    history: Map<Seq<char>, i64>,
    primed: Seq<PrimeAttempt>,
    ran_at: i64,
) -> Map<Seq<char>, i64>
    decreases primed.len(),
{
    if primed.len() == 0 {
        history
    } else {
        let before = with_primes(history, primed.drop_last(), ran_at);
        if primed.last().success {
            before.insert(primed.last().slot@, ran_at)
        } else {
            before
        }
    }
}

/// The primes that are remembered after a run.
pub open spec fn history_after(history: Map<Seq<char>, i64>, report: PrimeRunReport) -> Map<
    Seq<char>,
    i64,
> {
    let kept = remembered(history, forget_before(report.ran_at));
    if report.dry_run {
        kept
    } else {
        with_primes(kept, report.primed@, report.ran_at)
    }
}

fn keep_recent(history: &TextMap<i64>, cutoff: i64) -> (out: TextMap<i64>)
    ensures
        out@ == remembered(history@, cutoff as int),
{
    let entries = history.entries();
    let mut out: TextMap<i64> = TextMap::new();
    let ghost all = entries@;
    let mut i: usize = 0;
    while i < entries.len()
        invariant
            i <= entries.len(),
            all == entries@,
            crate::textmap::is_sorted(all),
            history@ == crate::textmap::map_of(all),
            forall|key: Seq<char>| #[trigger]
                out@.dom().contains(key) <==> exists|j: int|
                    0 <= j < i && (#[trigger] all[j]).0@ == key && all[j].1 >= cutoff,
            forall|key: Seq<char>| #[trigger]
                out@.dom().contains(key) ==> history@.dom().contains(key) && out@[key]
                    == history@[key],
        decreases entries.len() - i,
    {
        let ghost before = out@;
        proof {
            crate::textmap::lemma_position(all, i as int);
            assert(crate::textmap::has_key(all, all[i as int].0@));
        }
        if entries[i].1 >= cutoff {
            out.insert(entries[i].0.clone(), entries[i].1);
        }
        proof {
            assert forall|key: Seq<char>| #[trigger]
                out@.dom().contains(key) <==> exists|j: int|
                    0 <= j < i + 1 && (#[trigger] all[j]).0@ == key && all[j].1 >= cutoff by {
                if before.dom().contains(key) {
                    let j = choose|j: int|
                        0 <= j < i && (#[trigger] all[j]).0@ == key && all[j].1 >= cutoff;
                    assert(0 <= j < i + 1 && all[j].0@ == key && all[j].1 >= cutoff);
                }
                if exists|j: int|
                    0 <= j < i + 1 && (#[trigger] all[j]).0@ == key && all[j].1 >= cutoff {
                    let j = choose|j: int|
                        0 <= j < i + 1 && (#[trigger] all[j]).0@ == key && all[j].1 >= cutoff;
                    if j < i {
                        assert(before.dom().contains(key));
                    }
                }
            }
        }
        i += 1;
    }
    proof {
        let wanted = remembered(history@, cutoff as int);
        assert forall|key: Seq<char>| #[trigger] out@.dom().contains(key) <==> wanted.dom().contains(
            key,
        ) by {
            if out@.dom().contains(key) {
                let j = choose|j: int|
                    0 <= j < all.len() && (#[trigger] all[j]).0@ == key && all[j].1 >= cutoff;
                crate::textmap::lemma_position(all, j);
            }
            if wanted.dom().contains(key) {
                let j = crate::textmap::key_position(all, key);
                assert(crate::textmap::has_key(all, key));
                assert(all[j].0@ == key && all[j].1 >= cutoff);
            }
        }
        assert(out@ =~= wanted);
    }
    out
}

/// The primes that are remembered after a run: those of the last ten hours, and the
/// new ones.
pub fn updated_prime_history(previous: &TextMap<i64>, report: &PrimeRunReport) -> (out: TextMap<i64>)
    ensures
        out@ == history_after(previous@, *report),
{
    let cutoff = crate::selector::saturating_difference(report.ran_at, 36000);
    let mut out = keep_recent(previous, cutoff);
    if report.dry_run {
        return out;
    }
    let ghost base = out@;
    let mut i: usize = 0;
    proof {
        assert(report.primed@.take(0) =~= seq![]);
    }
    while i < report.primed.len()
        invariant
            i <= report.primed.len(),
            out@ == with_primes(base, report.primed@.take(i as int), report.ran_at),
        decreases report.primed.len() - i,
    {
        proof {
            assert(report.primed@.take(i + 1).drop_last() =~= report.primed@.take(i as int));
            assert(report.primed@.take(i + 1).last() == report.primed@[i as int]);
        }
        if report.primed[i].success {
            out.insert(report.primed[i].slot.clone(), report.ran_at);
        }
        i += 1;
    }
    proof {
        assert(report.primed@.take(report.primed@.len() as int) =~= report.primed@);
    }
    out
}

/// The slots that would be primed.
pub fn dry_attempts(results: &Vec<SlotResult>, selected: &Vec<PrimeCandidate>) -> (out: Vec<
    PrimeAttempt,
>)
    requires
        are_positions(selected@, results@.len()),
    ensures
        out@.len() == selected@.len(),
        forall|i: int|
            0 <= i < selected@.len() ==> is_dry_attempt(
                #[trigger] out@[i],
                results@[selected@[i].position as int],
                selected@[i].weekly_remaining,
            ),
{
    let mut out: Vec<PrimeAttempt> = Vec::new();
    let mut i: usize = 0;
    while i < selected.len()
        invariant
            i <= selected.len(),
            are_positions(selected@, results@.len()),
            out@.len() == i,
            forall|j: int|
                0 <= j < i ==> is_dry_attempt(
                    #[trigger] out@[j],
                    results@[selected@[j].position as int],
                    selected@[j].weekly_remaining,
                ),
        decreases selected.len() - i,
    {
        let chosen = selected[i];
        out.push(dry_attempt(&results[chosen.position], chosen.weekly_remaining));
        i += 1;
    }
    out
}

/// Whether Codex has to be found for a run.
pub fn needs_codex(dry_run: bool, choice: &PrimeChoice) -> (out: bool)
    ensures
        out == (!dry_run && choice.candidates > 0),
{
    !dry_run && choice.candidates > 0
}

/// What is done about a run of Codex that goes on.
#[derive(Debug)]
pub enum WaitStep {
    Read,
    Kill { message: String },
    Sleep { millis: u64 },
}

/// What is done about a run of Codex: its words are read once it is done, and it is
/// ended where it takes too long.
pub fn wait_with_timeout(done: bool, elapsed_millis: u64) -> (out: WaitStep)
    ensures
        match out {
            WaitStep::Read => done,
            WaitStep::Kill { message } => !done && elapsed_millis >= 90000 && message@
                == "codex prime command timed out after "@ + crate::numbers::decimal_of(90) + "s"@,
            WaitStep::Sleep { millis } => !done && elapsed_millis < 90000 && millis == 100,
        },
{
    if done {
        WaitStep::Read
    } else if elapsed_millis >= PRIME_TIMEOUT_SECONDS * 1000 {
        WaitStep::Kill {
            message: concat3(
                "codex prime command timed out after ",
                decimal(PRIME_TIMEOUT_SECONDS).as_str(),
                "s",
            ),
        }
    } else {
        WaitStep::Sleep { millis: 100 }
    }
}

/// A report on a run: of a dry one it says what would be primed, of another one what
/// came of `attempts`.
pub fn run_prime_check(
    results: &Vec<SlotResult>,
    choice: PrimeChoice,
    now: i64,
    config: &EffectiveRunConfig,
    force: bool,
    dry_run: bool,
    attempts: Vec<PrimeAttempt>,
) -> (out: PrimeRunReport)
    requires
        are_positions(choice.selected@, results@.len()),
    ensures
        out.schema_version == PRIME_SCHEMA_VERSION,
        out.ran_at == now,
        out.dry_run == dry_run,
        out.force == force,
        out.checked_slots == results@.len(),
        out.max_slots == config.max_slots,
        out.skipped == choice.skipped,
        !dry_run ==> out.primed == attempts,
        dry_run ==> out.primed@.len() == choice.selected@.len() && forall|i: int|
            0 <= i < choice.selected@.len() ==> is_dry_attempt(
                #[trigger] out.primed@[i],
                results@[choice.selected@[i].position as int],
                choice.selected@[i].weekly_remaining,
            ),
{
    let primed = if dry_run {
        dry_attempts(results, &choice.selected)
    } else {
        attempts
    };
    PrimeRunReport {
        schema_version: PRIME_SCHEMA_VERSION,
        ran_at: now,
        dry_run,
        force,
        checked_slots: results.len(),
        max_slots: config.max_slots,
        primed,
        skipped: choice.skipped,
    }
}

/// What is kept between runs.
#[derive(Debug)]
pub struct PrimeState {
    pub schema_version: u64,
    pub updated_at: i64,
    pub last_successful_primes: TextMap<i64>,
    pub last_run: Option<PrimeRunReport>,
}

/// What was kept, unless it is of another version.
pub fn load_state(parsed: Option<PrimeState>) -> (out: Option<PrimeState>)
    ensures
        out == (match parsed {
            Some(state) => if state.schema_version == PRIME_SCHEMA_VERSION {
                Some(state)
            } else {
                None
            },
            None => None,
        }),
{
    match parsed {
        Some(state) => if state.schema_version == PRIME_SCHEMA_VERSION {
            Some(state)
        } else {
            None
        },
        None => None,
    }
}

/// The primes that were kept.
pub open spec fn kept_history(previous: Option<PrimeState>) -> Map<Seq<char>, i64> {
    match previous {
        Some(state) => state.last_successful_primes@,
        None => Map::empty(),
    }
}

/// What is kept after a run.
pub fn state_after(previous: &Option<PrimeState>, report: PrimeRunReport, now: i64) -> (out:
    PrimeState)
    ensures
        out.schema_version == PRIME_SCHEMA_VERSION,
        out.updated_at == now,
        out.last_run == Some(report),
        out.last_successful_primes@ == history_after(kept_history(*previous), report),
{
    let none: TextMap<i64> = TextMap::new();
    let last_successful_primes = match previous {
        Some(state) => updated_prime_history(&state.last_successful_primes, &report),
        None => updated_prime_history(&none, &report),
    };
    PrimeState {
        schema_version: PRIME_SCHEMA_VERSION,
        updated_at: now,
        last_successful_primes,
        last_run: Some(report),
    }
}

// ---------------------------------------------------------------------------
// Databases
// ---------------------------------------------------------------------------

/// The places where the threads of slots are listed.
pub open spec fn database_places(base_home: Seq<char>, slot_dirs: Seq<Seq<char>>) -> Seq<Seq<char>> {
    seq![crate::paths::joined_path(base_home, "state_5.sqlite"@)] + slot_dirs.map_values(
        |dir: Seq<char>|
            crate::paths::joined_path(
                crate::paths::joined_path(dir, "home/sqlite"@),
                "state_5.sqlite"@,
            ),
    )
}

fn all_places(base_home: &str, slot_dirs: &Vec<String>) -> (out: Vec<String>)
    ensures
        crate::text::texts(out@) == database_places(base_home@, crate::text::texts(slot_dirs@)),
{
    let ghost wanted = database_places(base_home@, crate::text::texts(slot_dirs@));
    let mut out: Vec<String> = Vec::new();
    push_text(&mut out, join_path(base_home, STATE_DB));
    let mut i: usize = 0;
    proof {
        assert(crate::text::texts(out@) =~= wanted.take(1));
    }
    while i < slot_dirs.len()
        invariant
            i <= slot_dirs.len(),
            wanted == database_places(base_home@, crate::text::texts(slot_dirs@)),
            crate::text::texts(out@) == wanted.take(i + 1),
        decreases slot_dirs.len() - i,
    {
        let sqlite = join_path(slot_dirs[i].as_str(), "home/sqlite");
        push_text(&mut out, join_path(sqlite.as_str(), STATE_DB));
        proof {
            assert(wanted[i + 1] == crate::paths::joined_path(sqlite@, "state_5.sqlite"@));
            assert(wanted.take(i + 2) =~= wanted.take(i + 1).push(wanted[i + 1]));
        }
        i += 1;
    }
    proof {
        assert(wanted.take(wanted.len() as int) =~= wanted);
    }
    out
}

/// Where the threads of slots are listed, in order, each place once.
pub fn state_db_paths(paths: &ManagerPaths, slot_dirs: &Vec<String>) -> (out: Vec<String>)
    ensures
        crate::text::texts(out@) == crate::paths::without_repeats(
            crate::sorting::sorted(
                database_places(paths.base_codex_home@, crate::text::texts(slot_dirs@)),
                crate::paths::path_order(),
            ),
        ),
{
    crate::paths::sort_paths(all_places(paths.base_codex_home.as_str(), slot_dirs))
}

// ---------------------------------------------------------------------------
// The agent
// ---------------------------------------------------------------------------

/// Where the file of the agent is.
pub fn launch_agent_path(home: &str) -> (out: String)
    ensures
        out@ == crate::paths::joined_path(
            crate::paths::joined_path(
                crate::paths::joined_path(home@, "Library"@),
                "LaunchAgents"@,
            ),
            "dev.xiaotian.cx.prime.plist"@,
        ),
{
    let library = join_path(home, "Library");
    let agents = join_path(library.as_str(), "LaunchAgents");
    join_path(agents.as_str(), "dev.xiaotian.cx.prime.plist")
}

/// A time in the file of the agent.
pub open spec fn interval_of(time: PrimeScheduleTime) -> Seq<char> {
    "    <dict>\n      <key>Hour</key><integer>"@ + crate::numbers::decimal_of(time.hour as nat)
        + "</integer>\n      <key>Minute</key><integer>"@ + crate::numbers::decimal_of(
        time.minute as nat,
    ) + "</integer>\n    </dict>\n"@
}

/// The times in the file of the agent.
pub open spec fn intervals_of(times: Seq<PrimeScheduleTime>) -> Seq<char>
    decreases times.len(),
{
    if times.len() == 0 {
        seq![]
    } else {
        intervals_of(times.drop_last()) + interval_of(times.last())
    }
}

fn intervals_text(times: &Vec<PrimeScheduleTime>) -> (out: String)
    ensures
        out@ == intervals_of(times@),
{
    proof {
        reveal_strlit("");
        assert(times@.take(0) =~= seq![]);
        assert(""@ =~= seq![]);
    }
    let mut out = copy_of("");
    let mut i: usize = 0;
    while i < times.len()
        invariant
            i <= times.len(),
            out@ == intervals_of(times@.take(i as int)),
        decreases times.len() - i,
    {
        proof {
            assert(times@.take(i + 1).drop_last() =~= times@.take(i as int));
            assert(times@.take(i + 1).last() == times@[i as int]);
        }
        let hour = concat2(
            "    <dict>\n      <key>Hour</key><integer>",
            decimal(times[i].hour as u64).as_str(),
        );
        let both = concat4(
            hour.as_str(),
            "</integer>\n      <key>Minute</key><integer>",
            decimal(times[i].minute as u64).as_str(),
            "</integer>\n    </dict>\n",
        );
        out = concat2(out.as_str(), both.as_str());
        i += 1;
    }
    proof {
        assert(times@.take(times@.len() as int) =~= times@);
    }
    out
}

/// The file that tells the system when to prime.
pub open spec fn agent_of(
    cx_bin: Seq<char>,
    manager_dir: Seq<char>,
    times: Seq<PrimeScheduleTime>,
    home: Seq<char>,
) -> Seq<char> {
    "<?xml version=\"1.0\" encoding=\"UTF-8\"?>\n<!DOCTYPE plist PUBLIC \"-//Apple//DTD PLIST 1.0//EN\" \"http://www.apple.com/DTDs/PropertyList-1.0.dtd\">\n<plist version=\"1.0\">\n<dict>\n  <key>Label</key>\n  <string>"@
        + crate::service::xml_text("dev.xiaotian.cx.prime"@)
        + "</string>\n  <key>ProgramArguments</key>\n  <array>\n    <string>"@
        + crate::service::xml_text(cx_bin)
        + "</string>\n    <string>prime</string>\n    <string>run</string>\n    <string>--manager-dir</string>\n    <string>"@
        + crate::service::xml_text(manager_dir)
        + "</string>\n  </array>\n  <key>StartCalendarInterval</key>\n  <array>\n"@
        + intervals_of(times)
        + "  </array>\n  <key>WorkingDirectory</key>\n  <string>"@ + crate::service::xml_text(
        home,
    ) + "</string>\n  <key>StandardOutPath</key>\n  <string>"@ + crate::service::xml_text(
        crate::paths::joined_path(manager_dir, "prime/launchd.out.log"@),
    ) + "</string>\n  <key>StandardErrorPath</key>\n  <string>"@ + crate::service::xml_text(
        crate::paths::joined_path(manager_dir, "prime/launchd.err.log"@),
    ) + "</string>\n</dict>\n</plist>\n"@
}

/// The file that tells the system when to prime.
pub fn launch_agent_text(
    paths: &ManagerPaths,
    cx_bin: &str,
    times: &Vec<PrimeScheduleTime>,
    home: &str,
) -> (out: String)
    ensures
        out@ == agent_of(cx_bin@, paths.manager_dir@, times@, home@),
{
    let label = concat3(
        "<?xml version=\"1.0\" encoding=\"UTF-8\"?>\n<!DOCTYPE plist PUBLIC \"-//Apple//DTD PLIST 1.0//EN\" \"http://www.apple.com/DTDs/PropertyList-1.0.dtd\">\n<plist version=\"1.0\">\n<dict>\n  <key>Label</key>\n  <string>",
        xml_escape("dev.xiaotian.cx.prime").as_str(),
        "</string>\n  <key>ProgramArguments</key>\n  <array>\n    <string>",
    );
    let program = concat4(
        label.as_str(),
        xml_escape(cx_bin).as_str(),
        "</string>\n    <string>prime</string>\n    <string>run</string>\n    <string>--manager-dir</string>\n    <string>",
        xml_escape(paths.manager_dir.as_str()).as_str(),
    );
    let dates = concat4(
        program.as_str(),
        "</string>\n  </array>\n  <key>StartCalendarInterval</key>\n  <array>\n",
        intervals_text(times).as_str(),
        "  </array>\n  <key>WorkingDirectory</key>\n  <string>",
    );
    let stdout = join_path(paths.manager_dir.as_str(), "prime/launchd.out.log");
    let place = concat4(
        dates.as_str(),
        xml_escape(home).as_str(),
        "</string>\n  <key>StandardOutPath</key>\n  <string>",
        xml_escape(stdout.as_str()).as_str(),
    );
    let stderr = join_path(paths.manager_dir.as_str(), "prime/launchd.err.log");
    concat4(
        place.as_str(),
        "</string>\n  <key>StandardErrorPath</key>\n  <string>",
        xml_escape(stderr.as_str()).as_str(),
        "</string>\n</dict>\n</plist>\n",
    )
}

/// The agent of a user, as the system names it.
pub fn launchctl_agent(domain: &str) -> (out: String)
    ensures
        out@ == domain@ + "/"@ + "dev.xiaotian.cx.prime"@,
{
    concat3(domain, "/", LAUNCHD_LABEL)
}

/// The arguments that take the agent away.
pub fn unload_args(domain: &str, plist: &str) -> (out: Vec<String>)
    ensures
        crate::text::texts(out@) == seq!["bootout"@, domain@, plist@],
{
    let mut out: Vec<String> = Vec::new();
    out.push(copy_of("bootout"));
    out.push(copy_of(domain));
    out.push(copy_of(plist));
    proof {
        assert(crate::text::texts(out@) =~= seq!["bootout"@, domain@, plist@]);
    }
    out
}

/// The arguments that bring the agent in.
pub fn load_args(domain: &str, plist: &str) -> (out: Vec<String>)
    ensures
        crate::text::texts(out@) == seq!["bootstrap"@, domain@, plist@],
{
    let mut out: Vec<String> = Vec::new();
    out.push(copy_of("bootstrap"));
    out.push(copy_of(domain));
    out.push(copy_of(plist));
    proof {
        assert(crate::text::texts(out@) =~= seq!["bootstrap"@, domain@, plist@]);
    }
    out
}

/// The arguments that switch the agent on.
pub fn enable_args(domain: &str) -> (out: Vec<String>)
    ensures
        crate::text::texts(out@) == seq!["enable"@, domain@ + "/"@ + "dev.xiaotian.cx.prime"@],
{
    let mut out: Vec<String> = Vec::new();
    out.push(copy_of("enable"));
    out.push(launchctl_agent(domain));
    proof {
        assert(crate::text::texts(out@) =~= seq![
            "enable"@,
            domain@ + "/"@ + "dev.xiaotian.cx.prime"@,
        ]);
    }
    out
}

/// The arguments that ask whether the agent is there.
pub fn loaded_args(domain: &str) -> (out: Vec<String>)
    ensures
        crate::text::texts(out@) == seq!["print"@, domain@ + "/"@ + "dev.xiaotian.cx.prime"@],
{
    let mut out: Vec<String> = Vec::new();
    out.push(copy_of("print"));
    out.push(launchctl_agent(domain));
    proof {
        assert(crate::text::texts(out@) =~= seq![
            "print"@,
            domain@ + "/"@ + "dev.xiaotian.cx.prime"@,
        ]);
    }
    out
}

/// What is said where the system refuses.
pub fn launchctl_failure(args: &Vec<String>, stderr: &[u8]) -> (out: String)
    ensures
        out@ == "launchctl "@ + crate::lines::joined(crate::text::texts(args@), " "@)
            + " failed: "@ + crate::lines::trimmed(crate::frames::lossy_of(stderr@)),
{
    let said = lossy_text(stderr);
    concat4("launchctl ", join(args, " ").as_str(), " failed: ", trim_text(said.as_str()).as_str())
}

/// What is said of a new agent, before the plan.
pub fn install_lines(config_path: &str, plist: &str) -> (out: Vec<String>)
    ensures
        crate::text::texts(out@) == seq![
            "saved prime config: "@ + config_path@,
            "installed LaunchAgent: "@ + plist@,
        ],
{
    let mut out: Vec<String> = Vec::new();
    out.push(concat2("saved prime config: ", config_path));
    out.push(concat2("installed LaunchAgent: ", plist));
    proof {
        assert(crate::text::texts(out@) =~= seq![
            "saved prime config: "@ + config_path@,
            "installed LaunchAgent: "@ + plist@,
        ]);
    }
    out
}

/// What is said of an agent that was to be removed. `config` and `state` are the files
/// that were removed with it.
pub fn uninstall_lines(
    plist: &str,
    was_there: bool,
    config: &Option<String>,
    state: &Option<String>,
) -> (out: Vec<String>)
    ensures
        crate::text::texts(out@) == seq![
            if was_there {
                "removed LaunchAgent: "@ + plist@
            } else {
                "LaunchAgent not installed: "@ + plist@
            },
        ] + (match config {
            Some(path) => seq!["removed config: "@ + path@],
            None => seq![],
        }) + (match state {
            Some(path) => seq!["removed state: "@ + path@],
            None => seq![],
        }),
{
    let mut out: Vec<String> = Vec::new();
    if was_there {
        out.push(concat2("removed LaunchAgent: ", plist));
    } else {
        out.push(concat2("LaunchAgent not installed: ", plist));
    }
    match config {
        Some(path) => {
            out.push(concat2("removed config: ", path.as_str()));
        },
        None => {},
    }
    match state {
        Some(path) => {
            out.push(concat2("removed state: ", path.as_str()));
        },
        None => {},
    }
    proof {
        assert(crate::text::texts(out@) =~= seq![
            if was_there {
                "removed LaunchAgent: "@ + plist@
            } else {
                "LaunchAgent not installed: "@ + plist@
            },
        ] + (match config {
            Some(path) => seq!["removed config: "@ + path@],
            None => seq![],
        }) + (match state {
            Some(path) => seq!["removed state: "@ + path@],
            None => seq![],
        }));
    }
    out
}

// ---------------------------------------------------------------------------
// Reports
// ---------------------------------------------------------------------------

/// A time of the day.
pub open spec fn clock_of(hour: u8, minute: u8) -> Seq<char> {
    crate::format::two_digits_of(hour as nat) + ":"@ + crate::format::two_digits_of(minute as nat)
}

/// A time of the day.
pub fn format_time(hour: u8, minute: u8) -> (out: String)
    ensures
        out@ == clock_of(hour, minute),
{
    concat3(two_digits(hour as u64).as_str(), ":", two_digits(minute as u64).as_str())
}

/// The first words of the line of a time.
pub open spec fn time_head(time: PrimeScheduleTime) -> Seq<char> {
    "- "@ + clock_of(time.hour, time.minute) + "  from heavy hour "@
        + crate::format::two_digits_of(time.source_hour as nat) + ":00"@
}

fn head_of_time(time: &PrimeScheduleTime) -> (out: String)
    ensures
        out@ == time_head(*time),
{
    let clock = concat3("- ", format_time(time.hour, time.minute).as_str(), "  from heavy hour ");
    concat3(clock.as_str(), two_digits(time.source_hour as u64).as_str(), ":00")
}

/// The line of a time in a plan.
pub open spec fn time_line(time: PrimeScheduleTime) -> Seq<char> {
    time_head(time) + "  score "@ + time.score.form(0) + "  start "@ + crate::numbers::decimal_of(time.start_tokens as nat) + "  rollout "@
        + crate::numbers::decimal_of(time.rollout_tokens as nat)
}

/// The lines of a plan.
pub open spec fn plan_lines_of(report: PrimePlanReport) -> Seq<Seq<char>> {
    let head = "prime plan: "@ + crate::numbers::decimal_of(report.days as nat)
        + "d history, lead "@ + crate::numbers::decimal_of(report.lead_minutes as nat) + "m, "@
        + crate::numbers::decimal_of(report.schedules@.len()) + " schedule(s)"@;
    let sources = if report.source_databases@.len() == 0 {
        "source state dbs: none"@
    } else {
        "source state dbs: "@ + crate::numbers::decimal_of(report.source_databases@.len())
    };
    let cache = match report.rollout_cache {
        Some(path) => seq!["rollout cache: "@ + path@],
        None => seq![],
    };
    seq![head, sources] + cache + seq![seq![]] + report.schedules@.map_values(
        |time: PrimeScheduleTime| time_line(time),
    )
}

/// The lines of a plan.
pub fn print_plan(report: &PrimePlanReport) -> (out: Vec<String>)
    ensures
        crate::text::texts(out@) == plan_lines_of(*report),
{
    proof {
        reveal_strlit("");
        assert(""@ =~= seq![]);
    }
    let days = concat3("prime plan: ", decimal(report.days as u64).as_str(), "d history, lead ");
    let lead = concat3(days.as_str(), decimal(report.lead_minutes as u64).as_str(), "m, ");
    let mut out: Vec<String> = Vec::new();
    out.push(
        concat3(lead.as_str(), decimal(report.schedules.len() as u64).as_str(), " schedule(s)"),
    );
    if report.source_databases.len() == 0 {
        out.push(copy_of("source state dbs: none"));
    } else {
        out.push(
            concat2(
                "source state dbs: ",
                decimal(report.source_databases.len() as u64).as_str(),
            ),
        );
    }
    match &report.rollout_cache {
        Some(path) => {
            out.push(concat2("rollout cache: ", path.as_str()));
        },
        None => {},
    }
    out.push(copy_of(""));
    let ghost head = crate::text::texts(out@);
    let ghost rows = report.schedules@.map_values(|time: PrimeScheduleTime| time_line(time));
    let mut i: usize = 0;
    proof {
        assert(head + rows.take(0) =~= head);
    }
    while i < report.schedules.len()
        invariant
            i <= report.schedules.len(),
            rows == report.schedules@.map_values(|time: PrimeScheduleTime| time_line(time)),
            crate::text::texts(out@) == head + rows.take(i as int),
        decreases report.schedules.len() - i,
    {
        let time = report.schedules[i];
        let score = concat4(
            head_of_time(&time).as_str(),
            "  score ",
            time.score.text(0).as_str(),
            "  start ",
        );
        push_text(
            &mut out,
            concat4(
                score.as_str(),
                decimal(time.start_tokens).as_str(),
                "  rollout ",
                decimal(time.rollout_tokens).as_str(),
            ),
        );
        proof {
            assert(head + rows.take(i + 1) =~= (head + rows.take(i as int)).push(rows[i as int]));
        }
        i += 1;
    }
    proof {
        assert(rows.take(rows.len() as int) =~= rows);
        assert(crate::text::texts(out@) =~= plan_lines_of(*report));
    }
    out
}

/// The line of a slot that was primed.
pub open spec fn attempt_line(attempt: PrimeAttempt) -> Seq<char> {
    let status = if attempt.success {
        "ok"@
    } else {
        "failed"@
    };
    "- "@ + attempt.slot@ + "  "@ + status + "  "@ + crate::numbers::decimal_of(
        attempt.elapsed_ms as nat,
    ) + "ms  "@ + attempt.note@
}

/// The line of a slot that was skipped.
pub open spec fn skip_line(skip: PrimeSkip) -> Seq<char> {
    "- "@ + skip.slot@ + "  "@ + skip.reason@
}

/// The lines of the slots that were skipped: the first twelve, and how many more.
pub open spec fn skip_lines(skipped: Seq<PrimeSkip>) -> Seq<Seq<char>> {
    if skipped.len() == 0 {
        seq![]
    } else {
        let shown = first_of(skipped, 12).map_values(|skip: PrimeSkip| skip_line(skip));
        let more = if skipped.len() > 12 {
            seq![
                "- ... "@ + crate::numbers::decimal_of((skipped.len() - 12) as nat) + " more"@,
            ]
        } else {
            seq![]
        };
        seq!["skipped:"@] + shown + more
    }
}

/// The lines of a run.
pub open spec fn run_lines_of(report: PrimeRunReport) -> Seq<Seq<char>> {
    let head = "prime run: checked "@ + crate::numbers::decimal_of(report.checked_slots as nat)
        + " slot(s), primed "@ + crate::numbers::decimal_of(report.primed@.len()) + " slot(s)"@ + (
    if report.dry_run {
        " (dry run)"@
    } else {
        seq![]
    });
    let none = if report.primed@.len() == 0 {
        seq!["no slots needed priming"@]
    } else {
        seq![]
    };
    seq![head] + report.primed@.map_values(|attempt: PrimeAttempt| attempt_line(attempt)) + none
        + skip_lines(report.skipped@)
}

fn lines_of_skips(skipped: &Vec<PrimeSkip>) -> (out: Vec<String>)
    ensures
        crate::text::texts(out@) == skip_lines(skipped@),
{
    let mut out: Vec<String> = Vec::new();
    if skipped.len() == 0 {
        proof {
            assert(crate::text::texts(out@) =~= skip_lines(skipped@));
        }
        return out;
    }
    out.push(copy_of("skipped:"));
    let n: usize = if skipped.len() <= 12 {
        skipped.len()
    } else {
        12
    };
    let mut i: usize = 0;
    while i < n
        invariant
            i <= n <= skipped.len(),
            out@.len() == i + 1,
            out@[0]@ == "skipped:"@,
            forall|j: int| 1 <= j <= i ==> (#[trigger] out@[j])@ == skip_line(skipped@[j - 1]),
        decreases n - i,
    {
        out.push(
            concat4("- ", skipped[i].slot.as_str(), "  ", skipped[i].reason.as_str()),
        );
        i += 1;
    }
    if skipped.len() > 12 {
        out.push(concat3("- ... ", decimal((skipped.len() - 12) as u64).as_str(), " more"));
    }
    proof {
        assert(crate::text::texts(out@) =~= skip_lines(skipped@));
    }
    out
}

/// The lines of a run.
pub fn print_run_report(report: &PrimeRunReport) -> (out: Vec<String>)
    ensures
        crate::text::texts(out@) == run_lines_of(*report),
{
    let checked = concat3(
        "prime run: checked ",
        decimal(report.checked_slots as u64).as_str(),
        " slot(s), primed ",
    );
    let primed = concat3(checked.as_str(), decimal(report.primed.len() as u64).as_str(), " slot(s)");
    proof {
        assert(primed@ + seq![] =~= primed@);
    }
    let head = if report.dry_run {
        concat2(primed.as_str(), " (dry run)")
    } else {
        primed
    };
    let ghost first = head@;
    let ghost rows = report.primed@.map_values(|attempt: PrimeAttempt| attempt_line(attempt));
    let mut out: Vec<String> = Vec::new();
    push_text(&mut out, head);
    let mut i: usize = 0;
    proof {
        assert(crate::text::texts(out@) =~= seq![first] + rows.take(0));
    }
    while i < report.primed.len()
        invariant
            i <= report.primed.len(),
            rows == report.primed@.map_values(|attempt: PrimeAttempt| attempt_line(attempt)),
            crate::text::texts(out@) == seq![first] + rows.take(i as int),
        decreases report.primed.len() - i,
    {
        let attempt = &report.primed[i];
        let status = if attempt.success {
            "ok"
        } else {
            "failed"
        };
        let name = concat4("- ", attempt.slot.as_str(), "  ", status);
        let time = concat4(name.as_str(), "  ", decimal_wide(attempt.elapsed_ms).as_str(), "ms  ");
        push_text(&mut out, concat2(time.as_str(), attempt.note.as_str()));
        proof {
            assert(seq![first] + rows.take(i + 1) =~= (seq![first] + rows.take(i as int)).push(
                rows[i as int],
            ));
        }
        i += 1;
    }
    proof {
        assert(rows.take(rows.len() as int) =~= rows);
    }
    if report.primed.len() == 0 {
        push_text(&mut out, copy_of("no slots needed priming"));
    }
    extend(&mut out, lines_of_skips(&report.skipped));
    proof {
        assert(crate::text::texts(out@) =~= run_lines_of(*report));
    }
    out
}

/// What is known of priming.
#[derive(Debug)]
pub struct PrimeStatusReport {
    pub schema_version: u64,
    pub launch_agent_path: String,
    pub launch_agent_installed: bool,
    pub launch_agent_loaded: bool,
    pub config: Option<PrimeConfig>,
    pub state: Option<PrimeState>,
}

/// The lines about settings.
pub open spec fn config_lines(config: PrimeConfig) -> Seq<Seq<char>> {
    let most = match config.max_slots {
        Some(n) => crate::numbers::decimal_of(n as nat),
        None => "all"@,
    };
    seq![
        seq![],
        "config: lead "@ + crate::numbers::decimal_of(config.lead_minutes as nat)
            + "m, max slots "@ + most + ", min weekly "@ + config.min_weekly_remaining.form(1) + "%"@,
    ] + config.schedules@.map_values(|time: PrimeScheduleTime| time_head(time))
}

/// The lines about the last run.
pub open spec fn last_run_lines(run: PrimeRunReport) -> Seq<Seq<char>> {
    let dry = if run.dry_run {
        " (dry run)"@
    } else {
        ""@
    };
    seq![
        seq![],
        "last run"@ + dry + ": checked "@ + crate::numbers::decimal_of(run.checked_slots as nat)
            + ", primed "@ + crate::numbers::decimal_of(run.primed@.len()),
    ]
}

/// The lines of a status.
pub open spec fn status_lines_of(report: PrimeStatusReport) -> Seq<Seq<char>> {
    let config = match report.config {
        Some(set) => config_lines(set),
        None => seq![],
    };
    let run = match report.state {
        Some(state) => match state.last_run {
            Some(last) => last_run_lines(last),
            None => seq![],
        },
        None => seq![],
    };
    seq![
        "LaunchAgent: "@ + report.launch_agent_path@,
        if report.launch_agent_installed {
            "installed: yes"@
        } else {
            "installed: no"@
        },
        if report.launch_agent_loaded {
            "loaded: yes"@
        } else {
            "loaded: no"@
        },
    ] + config + run
}

fn lines_of_config(config: &PrimeConfig) -> (out: Vec<String>)
    ensures
        crate::text::texts(out@) == config_lines(*config),
{
    proof {
        reveal_strlit("");
        assert(""@ =~= seq![]);
    }
    let most = match config.max_slots {
        Some(n) => decimal(n as u64),
        None => copy_of("all"),
    };
    let lead = concat4(
        "config: lead ",
        decimal(config.lead_minutes as u64).as_str(),
        "m, max slots ",
        most.as_str(),
    );
    let mut out: Vec<String> = Vec::new();
    out.push(copy_of(""));
    out.push(
        concat4(
            lead.as_str(),
            ", min weekly ",
            config.min_weekly_remaining.text(1).as_str(),
            "%",
        ),
    );
    let ghost head = crate::text::texts(out@);
    let ghost rows = config.schedules@.map_values(|time: PrimeScheduleTime| time_head(time));
    let mut i: usize = 0;
    proof {
        assert(head + rows.take(0) =~= head);
    }
    while i < config.schedules.len()
        invariant
            i <= config.schedules.len(),
            rows == config.schedules@.map_values(|time: PrimeScheduleTime| time_head(time)),
            crate::text::texts(out@) == head + rows.take(i as int),
        decreases config.schedules.len() - i,
    {
        push_text(&mut out, head_of_time(&config.schedules[i]));
        proof {
            assert(head + rows.take(i + 1) =~= (head + rows.take(i as int)).push(rows[i as int]));
        }
        i += 1;
    }
    proof {
        assert(rows.take(rows.len() as int) =~= rows);
        assert(crate::text::texts(out@) =~= config_lines(*config));
    }
    out
}

/// The lines of a status.
pub fn print_status_report(report: &PrimeStatusReport) -> (out: Vec<String>)
    ensures
        crate::text::texts(out@) == status_lines_of(*report),
{
    proof {
        reveal_strlit("");
        assert(""@ =~= seq![]);
    }
    let mut out: Vec<String> = Vec::new();
    out.push(concat2("LaunchAgent: ", report.launch_agent_path.as_str()));
    if report.launch_agent_installed {
        out.push(copy_of("installed: yes"));
    } else {
        out.push(copy_of("installed: no"));
    }
    if report.launch_agent_loaded {
        out.push(copy_of("loaded: yes"));
    } else {
        out.push(copy_of("loaded: no"));
    }
    proof {
        assert(crate::text::texts(out@) =~= seq![out@[0]@, out@[1]@, out@[2]@]);
    }
    match &report.config {
        Some(config) => {
            extend(&mut out, lines_of_config(config));
        },
        None => {},
    }
    match &report.state {
        Some(state) => match &state.last_run {
            Some(run) => {
                let dry = if run.dry_run {
                    " (dry run)"
                } else {
                    ""
                };
                let head = concat4(
                    "last run",
                    dry,
                    ": checked ",
                    decimal(run.checked_slots as u64).as_str(),
                );
                push_text(&mut out, copy_of(""));
                push_text(
                    &mut out,
                    concat3(head.as_str(), ", primed ", decimal(run.primed.len() as u64).as_str()),
                );
            },
            None => {},
        },
        None => {},
    }
    proof {
        assert(crate::text::texts(out@) =~= status_lines_of(*report));
    }
    out
}

// ---------------------------------------------------------------------------
// Laws
// ---------------------------------------------------------------------------

/// A time is just the lead before its hour, on the clock.
pub proof fn times_lead_their_hours(score: PrimeHourScore, lead_minutes: int)
    requires
        score.hour < 24,
        lead_minutes >= 0,
    ensures
        ({
            let time = time_for(score, lead_minutes);
            &&& time.hour < 24
            &&& time.minute < 60
            &&& (time.hour * 60 + time.minute + lead_minutes) % 1440 == score.hour * 60
        }),
{
    let minutes = minutes_before(score.hour as int, lead_minutes);
    let start = score.hour * 60 - lead_minutes;
    assert(0 <= minutes < 1440);
    assert(minutes / 60 < 24);
    vstd::arithmetic::div_mod::lemma_fundamental_div_mod(start, 1440);
    let k = start / 1440;
    assert(minutes + lead_minutes == score.hour * 60 - 1440 * k);
    vstd::arithmetic::div_mod::lemma_mod_multiples_vanish(-k, score.hour * 60, 1440);
    vstd::arithmetic::div_mod::lemma_small_mod((score.hour * 60) as nat, 1440);
}

proof fn lemma_day_order()
    ensures
        crate::sorting::is_order(day_order()),
{
}

proof fn lemma_weight_order()
    ensures
        crate::sorting::is_order(weight_order()),
{
}

/// A schedule holds at most as many times as were asked for, in the order of the day.
pub proof fn schedules_are_short_and_sorted(
    scores: Seq<PrimeHourScore>,
    lead_minutes: int,
    max_times: nat,
    min_tokens: u64,
)
    ensures
        schedule(scores, lead_minutes, max_times, min_tokens).len() <= max_times,
        crate::sorting::is_sorted(
            schedule(scores, lead_minutes, max_times, min_tokens),
            day_order(),
        ),
{
    let times = times_for(planned_hours(scores, max_times, min_tokens), lead_minutes);
    let listed = crate::sorting::sorted(times, day_order());
    let ranked = crate::sorting::sorted(listed, weight_order());
    lemma_day_order();
    lemma_weight_order();
    crate::sorting::sorting_keeps_items(first_of(ranked, max_times), day_order());
}

/// No window that runs already is primed unless that is forced, and no slot with less
/// left than asked for is primed at all.
pub proof fn primed_slots_are_idle(
    result: SlotResult,
    now: i64,
    min_weekly: Double,
    force: bool,
    refresh: Option<Seq<char>>,
)
    ensures
        candidate(result, now, min_weekly, force, refresh) matches Ok(left) ==> {
            &&& result.status == SlotStatus::Available
            &&& !left.is_less(min_weekly)
            &&& !force ==> !result.stale && !is_active(
                result.five_hour_used,
                result.five_hour_refresh_at,
                now,
            )
        },
{
}

/// Every slot that was asked is either a candidate or skipped with a reason.
pub proof fn every_slot_is_accounted_for(
    results: Seq<SlotResult>,
    now: i64,
    min_weekly: Double,
    force: bool,
    refreshes: Seq<Option<Seq<char>>>,
)
    ensures
        candidates_of(results, now, min_weekly, force, refreshes).len() + skips_of(
            results,
            now,
            min_weekly,
            force,
            refreshes,
        ).len() == results.len(),
    decreases results.len(),
{
    if results.len() > 0 {
        every_slot_is_accounted_for(results.drop_last(), now, min_weekly, force, refreshes);
    }
}

/// A dry run remembers no prime that was not remembered before.
pub proof fn dry_runs_remember_nothing(
    history: Map<Seq<char>, i64>,
    report: PrimeRunReport,
    slot: Seq<char>,
)
    requires
        report.dry_run,
        history_after(history, report).dom().contains(slot),
    ensures
        history.dom().contains(slot),
        history_after(history, report)[slot] == history[slot],
{
}

proof fn lemma_primes_are_kept(
    history: Map<Seq<char>, i64>,
    primed: Seq<PrimeAttempt>,
    ran_at: i64,
    k: int,
)
    requires
        0 <= k < primed.len(),
        primed[k].success,
    ensures
        with_primes(history, primed, ran_at).dom().contains(primed[k].slot@),
        with_primes(history, primed, ran_at)[primed[k].slot@] == ran_at,
    decreases primed.len(),
{
    if k < primed.len() - 1 {
        assert(primed.drop_last()[k] == primed[k]);
        lemma_primes_are_kept(history, primed.drop_last(), ran_at, k);
    }
}

/// Every prime of a run that was no dry run, and that succeeded, is remembered with
/// the time of the run.
pub proof fn primes_are_remembered(history: Map<Seq<char>, i64>, report: PrimeRunReport, k: int)
    requires
        !report.dry_run,
        0 <= k < report.primed@.len(),
        report.primed@[k].success,
    ensures
        history_after(history, report).dom().contains(report.primed@[k].slot@),
        history_after(history, report)[report.primed@[k].slot@] == report.ran_at,
{
    lemma_primes_are_kept(
        remembered(history, forget_before(report.ran_at)),
        report.primed@,
        report.ran_at,
        k,
    );
}

/// Of a list in order, the first items are kept, and no other goes before one of them.
proof fn lemma_first_of<T>(items: Seq<T>, before: spec_fn(T, T) -> bool, count: nat, kept: T, other: T)
    requires
        crate::sorting::is_sorted(items, before),
        first_of(items, count).contains(kept),
        items.contains(other),
        !first_of(items, count).contains(other),
    ensures
        !before(other, kept),
        items.contains(kept),
        items.len() > count,
        first_of(items, count).len() == count,
{
    let head = first_of(items, count);
    let i = choose|i: int| 0 <= i < head.len() && head[i] == kept;
    let j = choose|j: int| 0 <= j < items.len() && items[j] == other;
    if items.len() <= count {
        assert(head.contains(other));
    } else {
        assert(items[i] == kept);
        if j < count {
            assert(head[j] == other);
        }
    }
}

/// The hours with enough tokens are planned for, and no others; where there are none, the
/// first hours are.
pub proof fn heavy_hours_are_planned(
    scores: Seq<PrimeHourScore>,
    max_times: nat,
    min_tokens: u64,
    hour: PrimeHourScore,
)
    ensures
        ({
            let planned = planned_hours(scores, max_times, min_tokens);
            if exists|i: int|
                0 <= i < scores.len() && ((#[trigger] scores[i]).start_tokens >= min_tokens
                    || scores[i].rollout_tokens >= min_tokens) {
                planned.contains(hour) == (scores.contains(hour) && (hour.start_tokens >= min_tokens
                    || hour.rollout_tokens >= min_tokens))
            } else {
                planned == scores.take(
                    if scores.len() < max_times {
                        scores.len() as int
                    } else {
                        max_times as int
                    },
                )
            }
        }),
{
    lemma_heavy_hours(scores, min_tokens, hour);
    if exists|i: int|
        0 <= i < scores.len() && ((#[trigger] scores[i]).start_tokens >= min_tokens
            || scores[i].rollout_tokens >= min_tokens) {
        let i = choose|i: int|
            0 <= i < scores.len() && ((#[trigger] scores[i]).start_tokens >= min_tokens
                || scores[i].rollout_tokens >= min_tokens);
        lemma_heavy_hours(scores, min_tokens, scores[i]);
        assert(heavy_hours(scores, min_tokens).contains(scores[i]));
    } else {
        if heavy_hours(scores, min_tokens).len() > 0 {
            let found = heavy_hours(scores, min_tokens)[0];
            lemma_heavy_hours(scores, min_tokens, found);
            assert(heavy_hours(scores, min_tokens).contains(found));
            let k = choose|k: int| 0 <= k < scores.len() && scores[k] == found;
            assert(scores[k].start_tokens >= min_tokens || scores[k].rollout_tokens >= min_tokens);
        }
        assert(scores.take(scores.len() as int) =~= scores);
    }
}

proof fn lemma_heavy_hours(scores: Seq<PrimeHourScore>, min_tokens: u64, hour: PrimeHourScore)
    ensures
        heavy_hours(scores, min_tokens).contains(hour) == (scores.contains(hour) && (
        hour.start_tokens >= min_tokens || hour.rollout_tokens >= min_tokens)),
    decreases scores.len(),
{
    if scores.len() > 0 {
        let rest = scores.drop_last();
        let last = scores.last();
        lemma_heavy_hours(rest, min_tokens, hour);
        lemma_pushed_contains(rest, last, hour);
        assert(rest.push(last) =~= scores);
        lemma_pushed_contains(heavy_hours(rest, min_tokens), last, hour);
    }
}

proof fn lemma_pushed_contains<T>(items: Seq<T>, last: T, item: T)
    ensures
        items.push(last).contains(item) == (items.contains(item) || item == last),
{
    let all = items.push(last);
    if items.contains(item) {
        let k = choose|k: int| 0 <= k < items.len() && items[k] == item;
        assert(all[k] == item);
    }
    if item == last {
        assert(all[items.len() as int] == item);
    }
    if all.contains(item) {
        let k = choose|k: int| 0 <= k < all.len() && all[k] == item;
        if k < items.len() {
            assert(items[k] == item);
        }
    }
}

/// Whether times hold one that primes for an hour: at the same time of the day, and for
/// an hour that is no lighter.
pub open spec fn covers(times: Seq<PrimeScheduleTime>, hour: PrimeHourScore, lead_minutes: int) -> bool {
    exists|i: int|
        0 <= i < times.len() && {
            &&& (#[trigger] times[i]).hour * 60 + times[i].minute == (hour.hour * 60 - lead_minutes)
                % 1440
            &&& times[i].score.rank() >= hour.score.rank()
        }
}

/// Whether a time is the one for an hour of some hours.
pub open spec fn is_for_one_of(
    time: PrimeScheduleTime,
    hours: Seq<PrimeHourScore>,
    lead_minutes: int,
) -> bool {
    exists|i: int|
        0 <= i < hours.len() && {
            &&& time.source_hour == (#[trigger] hours[i]).hour
            &&& time.score == hours[i].score
            &&& time.start_tokens == hours[i].start_tokens
            &&& time.rollout_tokens == hours[i].rollout_tokens
            &&& time.hour * 60 + time.minute == (hours[i].hour * 60 - lead_minutes) % 1440
        }
}

proof fn lemma_put_time(times: Seq<PrimeScheduleTime>, item: PrimeScheduleTime, k: int)
    ensures
        put_time(times, item).len() >= times.len(),
        0 <= k < put_time(times, item).len() ==> {
            let x = put_time(times, item)[k];
            x == item || times.contains(x)
        },
        0 <= k < times.len() ==> exists|i: int|
            0 <= i < put_time(times, item).len() && is_same_time(
                #[trigger] put_time(times, item)[i],
                times[k],
            ) && put_time(times, item)[i].score.rank() >= times[k].score.rank(),
        exists|i: int|
            0 <= i < put_time(times, item).len() && is_same_time(
                #[trigger] put_time(times, item)[i],
                item,
            ) && put_time(times, item)[i].score.rank() >= item.score.rank(),
    decreases times.len(),
{
    let out = put_time(times, item);
    if times.len() == 0 {
        assert(out[0] == item);
    } else if is_same_time(times[0], item) {
        if item.score.rank() > times[0].score.rank() {
            assert(out[0] == item);
            if 0 < k < out.len() {
                assert(out[k] == times[k]);
                assert(times.contains(times[k]));
            }
            if 0 <= k < times.len() {
                assert(is_same_time(out[k], times[k]));
            }
        } else {
            if 0 <= k < times.len() {
                assert(is_same_time(out[k], times[k]));
                assert(times.contains(out[k]));
            }
            assert(is_same_time(out[0], item));
        }
    } else {
        let rest = times.skip(1);
        lemma_put_time(rest, item, k - 1);
        let inner = put_time(rest, item);
        assert(out[0] == times[0]);
        assert forall|i: int| 0 <= i < inner.len() implies out[i + 1] == #[trigger] inner[i] by {}
        if k == 0 {
            assert(times.contains(times[0]));
            assert(is_same_time(out[0], times[0]));
        }
        if 0 < k < out.len() {
            assert(out[k] == inner[k - 1]);
            if inner[k - 1] != item {
                let m = choose|m: int| 0 <= m < rest.len() && rest[m] == inner[k - 1];
                assert(times[m + 1] == inner[k - 1]);
            }
        }
        if 0 < k < times.len() {
            let i = choose|i: int|
                0 <= i < inner.len() && is_same_time(#[trigger] inner[i], rest[k - 1])
                    && inner[i].score.rank() >= rest[k - 1].score.rank();
            assert(rest[k - 1] == times[k]);
            assert(is_same_time(out[i + 1], times[k]));
        }
        let i = choose|i: int|
            0 <= i < inner.len() && is_same_time(#[trigger] inner[i], item)
                && inner[i].score.rank() >= item.score.rank();
        assert(is_same_time(out[i + 1], item));
    }
}

proof fn lemma_time_for(hour: PrimeHourScore, lead_minutes: int)
    ensures
        ({
            let time = time_for(hour, lead_minutes);
            time.hour * 60 + time.minute == (hour.hour * 60 - lead_minutes) % 1440
        }),
{
    let minutes = (hour.hour * 60 - lead_minutes) % 1440;
    assert(0 <= minutes < 1440);
    assert(minutes / 60 < 24);
}

/// Every hour has a time that primes for it, just the lead before it or for a heavier
/// hour at the same time of the day, and every time is for one of the hours.
pub proof fn every_hour_has_a_time(hours: Seq<PrimeHourScore>, lead_minutes: int, k: int)
    ensures
        0 <= k < hours.len() ==> covers(times_for(hours, lead_minutes), hours[k], lead_minutes),
        0 <= k < times_for(hours, lead_minutes).len() ==> is_for_one_of(
            times_for(hours, lead_minutes)[k],
            hours,
            lead_minutes,
        ),
    decreases hours.len(),
{
    if hours.len() > 0 {
        let rest = hours.drop_last();
        let before = times_for(rest, lead_minutes);
        let item = time_for(hours.last(), lead_minutes);
        let out = times_for(hours, lead_minutes);
        lemma_time_for(hours.last(), lead_minutes);
        if 0 <= k < hours.len() {
            if k == hours.len() - 1 {
                lemma_put_time(before, item, 0);
                let i = choose|i: int|
                    0 <= i < out.len() && is_same_time(#[trigger] out[i], item)
                        && out[i].score.rank() >= item.score.rank();
                assert(out[i].score.rank() >= hours[k].score.rank());
            } else {
                every_hour_has_a_time(rest, lead_minutes, k);
                assert(rest[k] == hours[k]);
                let i = choose|i: int|
                    0 <= i < before.len() && {
                        &&& (#[trigger] before[i]).hour * 60 + before[i].minute == (hours[k].hour
                            * 60 - lead_minutes) % 1440
                        &&& before[i].score.rank() >= hours[k].score.rank()
                    };
                lemma_put_time(before, item, i);
                let j = choose|j: int|
                    0 <= j < out.len() && is_same_time(#[trigger] out[j], before[i])
                        && out[j].score.rank() >= before[i].score.rank();
                assert(out[j].hour * 60 + out[j].minute == (hours[k].hour * 60 - lead_minutes)
                    % 1440);
            }
        }
        if 0 <= k < out.len() {
            lemma_put_time(before, item, k);
            if out[k] == item {
                assert(item.source_hour == hours[hours.len() - 1].hour);
            } else {
                let m = choose|m: int| 0 <= m < before.len() && before[m] == out[k];
                every_hour_has_a_time(rest, lead_minutes, m);
                let i = choose|i: int|
                    0 <= i < rest.len() && {
                        &&& out[k].source_hour == (#[trigger] rest[i]).hour
                        &&& out[k].score == rest[i].score
                        &&& out[k].start_tokens == rest[i].start_tokens
                        &&& out[k].rollout_tokens == rest[i].rollout_tokens
                        &&& out[k].hour * 60 + out[k].minute == (rest[i].hour * 60 - lead_minutes)
                            % 1440
                    };
                assert(hours[i] == rest[i]);
            }
        }
    }
}

/// A schedule is cut only where it holds as many times as were asked for, and then no
/// time that is left out is for a heavier hour than one that is kept. Every time of it is
/// a time for one of the hours that are planned for, and it is in the order of the day.
pub proof fn schedules_keep_the_heaviest_hours(
    scores: Seq<PrimeHourScore>,
    lead_minutes: int,
    max_times: nat,
    min_tokens: u64,
    kept: PrimeScheduleTime,
    other: PrimeScheduleTime,
)
    ensures
        ({
            let times = times_for(planned_hours(scores, max_times, min_tokens), lead_minutes);
            let chosen = schedule(scores, lead_minutes, max_times, min_tokens);
            &&& chosen.len() == (if times.len() < max_times {
                times.len()
            } else {
                max_times
            })
            &&& chosen.contains(kept) ==> times.contains(kept)
            &&& chosen.contains(kept) && times.contains(other) && !chosen.contains(other)
                ==> other.score.rank() <= kept.score.rank()
            &&& forall|i: int, j: int|
                0 <= i < j < chosen.len() ==> (#[trigger] chosen[i]).hour * 60 + chosen[i].minute
                    <= (#[trigger] chosen[j]).hour * 60 + chosen[j].minute || chosen[i].hour
                    < chosen[j].hour
        }),
{
    let times = times_for(planned_hours(scores, max_times, min_tokens), lead_minutes);
    let listed = crate::sorting::sorted(times, day_order());
    let ranked = crate::sorting::sorted(listed, weight_order());
    let head = first_of(ranked, max_times);
    let chosen = schedule(scores, lead_minutes, max_times, min_tokens);
    lemma_day_order();
    lemma_weight_order();
    crate::sorting::sorting_keeps_items(times, day_order());
    crate::sorting::sorting_keeps_items(listed, weight_order());
    crate::sorting::sorting_keeps_items(head, day_order());
    crate::sorting::lemma_sorted_contains(head, day_order(), kept);
    crate::sorting::lemma_sorted_contains(head, day_order(), other);
    crate::sorting::lemma_sorted_contains(listed, weight_order(), kept);
    crate::sorting::lemma_sorted_contains(listed, weight_order(), other);
    crate::sorting::lemma_sorted_contains(times, day_order(), kept);
    crate::sorting::lemma_sorted_contains(times, day_order(), other);
    if chosen.contains(kept) {
        let i = choose|i: int| 0 <= i < head.len() && head[i] == kept;
        assert(ranked[i] == kept);
        assert(ranked.contains(kept));
    }
    if chosen.contains(kept) && times.contains(other) && !chosen.contains(other) {
        lemma_first_of(ranked, weight_order(), max_times, kept, other);
        assert(!is_preferred(other, kept));
    }
    assert forall|i: int, j: int| 0 <= i < j < chosen.len() implies (#[trigger] chosen[i]).hour * 60
        + chosen[i].minute <= (#[trigger] chosen[j]).hour * 60 + chosen[j].minute || chosen[i].hour
        < chosen[j].hour by {
        assert(!day_order()(chosen[j], chosen[i]));
        assert(!is_earlier(chosen[j], chosen[i]));
    }
}

/// The slots that are primed are candidates, those with the most left first; a candidate
/// that is not primed has no more left than one that is, and is left out only where as
/// many are primed as may be.
pub proof fn slots_with_the_most_left_are_primed(
    results: Seq<SlotResult>,
    now: i64,
    min_weekly: Double,
    force: bool,
    refreshes: Seq<Option<Seq<char>>>,
    limit: Option<usize>,
    kept: PrimeCandidate,
    other: PrimeCandidate,
)
    ensures
        ({
            let all = candidates_of(results, now, min_weekly, force, refreshes);
            let chosen = chosen_of(results, now, min_weekly, force, refreshes, limit);
            &&& limit is None && all.len() <= usize::MAX ==> chosen.len() == all.len()
            &&& limit matches Some(n) ==> chosen.len() == (if all.len() < n {
                all.len() as int
            } else {
                n as int
            })
            &&& chosen.contains(kept) ==> all.contains(kept)
            &&& chosen.contains(kept) && all.contains(other) && !chosen.contains(other)
                ==> other.weekly_remaining.rank() <= kept.weekly_remaining.rank()
            &&& forall|i: int, j: int|
                0 <= i < j < chosen.len() ==> (#[trigger] chosen[i]).weekly_remaining.rank() >= (
                #[trigger] chosen[j]).weekly_remaining.rank()
        }),
{
    let all = candidates_of(results, now, min_weekly, force, refreshes);
    let ranked = crate::sorting::sorted(all, prime_order());
    let chosen = chosen_of(results, now, min_weekly, force, refreshes, limit);
    assert(crate::sorting::is_order(prime_order()));
    crate::sorting::sorting_keeps_items(all, prime_order());
    crate::sorting::lemma_sorted_contains(all, prime_order(), kept);
    crate::sorting::lemma_sorted_contains(all, prime_order(), other);
    if chosen.contains(kept) {
        let i = choose|i: int| 0 <= i < chosen.len() && chosen[i] == kept;
        assert(ranked[i] == kept);
        assert(ranked.contains(kept));
    }
    if chosen.contains(kept) && all.contains(other) && !chosen.contains(other) {
        lemma_first_of(ranked, prime_order(), most_of(limit), kept, other);
        assert(!is_primed_first(other, kept));
    }
    assert forall|i: int, j: int| 0 <= i < j < chosen.len() implies (
    #[trigger] chosen[i]).weekly_remaining.rank() >= (
    #[trigger] chosen[j]).weekly_remaining.rank() by {
        assert(chosen[i] == ranked[i] && chosen[j] == ranked[j]);
        assert(!prime_order()(ranked[j], ranked[i]));
        assert(!is_primed_first(ranked[j], ranked[i]));
    }
}

/// A slot may be primed if it is available, was asked just now, has as much of its week
/// left as is asked for, and its window does not run yet; a forced run minds neither old
/// answers nor running windows. What is left is the rest of what is used.
pub proof fn idle_slots_may_be_primed(
    result: SlotResult,
    now: i64,
    min_weekly: Double,
    force: bool,
    refresh: Option<Seq<char>>,
)
    ensures
        ({
            let left = match result.weekly_used {
                Some(used) => used.left(),
                None => (Double { bits: 0 }).left(),
            };
            candidate(result, now, min_weekly, force, refresh) == Ok::<Double, Seq<char>>(left)
                <==> {
                &&& result.status == SlotStatus::Available
                &&& force || !result.stale
                &&& !left.is_less(min_weekly)
                &&& force || !is_active(result.five_hour_used, result.five_hour_refresh_at, now)
            }
        }),
        candidate(result, now, min_weekly, force, refresh) is Ok ==> candidate(
            result,
            now,
            min_weekly,
            true,
            refresh,
        ) is Ok,
{
}

/// A window runs if some of it is used and it refreshes later than in five minutes, but
/// for one that has hardly begun: of which no more than one percent is used, and which
/// refreshes in no less than five hours but five minutes.
pub proof fn running_windows_are_known(used: Double, then: i64, now: i64)
    requires
        !used.is_negative(),
        !used.is_nan(),
        i64::MIN <= then - now <= i64::MAX,
    ensures
        is_active(Some(used), Some(then), now) <==> {
            &&& used.bits > 0
            &&& then - now > 300
            &&& used.bits > 0x3ff0_0000_0000_0000 || then - now < 17700
        },
        !is_active(Some(used), None, now),
        !is_active(None, Some(then), now),
{
}

/// A slot is primed at its own place, with what is left of its week.
pub proof fn candidates_are_results(
    results: Seq<SlotResult>,
    now: i64,
    min_weekly: Double,
    force: bool,
    refreshes: Seq<Option<Seq<char>>>,
    k: int,
)
    requires
        results.len() <= usize::MAX,
    ensures
        0 <= k < candidates_of(results, now, min_weekly, force, refreshes).len() ==> {
            let found = candidates_of(results, now, min_weekly, force, refreshes)[k];
            let at = found.position as int;
            &&& 0 <= at < results.len()
            &&& found.index == results[at].index
            &&& candidate(results[at], now, min_weekly, force, refreshes[at]) == Ok::<
                Double,
                Seq<char>,
            >(found.weekly_remaining)
        },
        0 <= k < results.len() && candidate(
            results[k],
            now,
            min_weekly,
            force,
            refreshes[k],
        ) is Ok ==> exists|i: int|
            0 <= i < candidates_of(results, now, min_weekly, force, refreshes).len() && (
            #[trigger] candidates_of(results, now, min_weekly, force, refreshes)[i]).position == k,
    decreases results.len(),
{
    if results.len() > 0 {
        let rest = results.drop_last();
        let before = candidates_of(rest, now, min_weekly, force, refreshes);
        let all = candidates_of(results, now, min_weekly, force, refreshes);
        candidates_are_results(rest, now, min_weekly, force, refreshes, k);
        if 0 <= k < before.len() {
            assert(all[k] == before[k]);
            assert(rest[before[k].position as int] == results[before[k].position as int]);
        }
        if 0 <= k < results.len() && candidate(
            results[k],
            now,
            min_weekly,
            force,
            refreshes[k],
        ) is Ok {
            if k < rest.len() {
                assert(rest[k] == results[k]);
                let i = choose|i: int| 0 <= i < before.len() && (#[trigger] before[i]).position == k;
                assert(all[i].position == k);
            } else {
                assert(all[all.len() - 1].position == k);
            }
        }
    }
}

/// A thread counts once, in its own hour: it adds one to the threads of that hour and
/// its tokens to the tokens, and changes no other hour.
pub proof fn threads_count_once(rows: Seq<ThreadRow>, row: ThreadRow, hour: int)
    requires
        0 <= hour < 24,
    ensures
        ({
            let before = with_threads(rows);
            let after = with_threads(rows.push(row));
            let counted = !has_thread(rows, row.id@) && 0 <= row.hour <= 23;
            let old = known(before, hour);
            let new = known(after, hour);
            &&& after.len() == 24
            &&& !counted || row.hour != hour ==> after[hour] == before[hour]
            &&& counted && row.hour == hour ==> after[hour] is Some
            &&& counted && row.hour == hour && old.threads < u64::MAX ==> new.threads == old.threads
                + 1
            &&& counted && row.hour == hour && row.tokens >= 0 && old.start_tokens + row.tokens
                <= u64::MAX ==> new.start_tokens == old.start_tokens + row.tokens
            &&& counted && row.hour == hour && row.tokens < 0 ==> new.start_tokens
                == old.start_tokens
            &&& counted && row.hour == hour && row.tokens >= 0 ==> new.score == old.score.sum(
                Double {
                    bits: crate::doubles::nearest(
                        row.tokens as nat * crate::doubles::one(),
                        1,
                    ) as u64,
                },
            )
            &&& new.rollout_tokens == old.rollout_tokens
            &&& new.rollout_samples == old.rollout_samples
            &&& new.hour == old.hour
        }),
        with_threads(seq![])[hour] is None,
{
    assert(rows.push(row).drop_last() =~= rows);
    lemma_hours_len(rows);
    lemma_hours_len(rows.push(row));
}

proof fn lemma_hours_len(rows: Seq<ThreadRow>)
    ensures
        with_threads(rows).len() == 24,
    decreases rows.len(),
{
    if rows.len() > 0 {
        lemma_hours_len(rows.drop_last());
    }
}

/// What was recorded for an hour adds to that hour's tokens and samples, and changes no
/// other hour.
pub proof fn recordings_add_to_their_hour(
    hours: Seq<Option<PrimeHourScore>>,
    rows: Seq<RolloutRow>,
    row: RolloutRow,
    hour: int,
)
    requires
        hours.len() == 24,
        0 <= hour < 24,
    ensures
        ({
            let before = with_rollouts(hours, rows);
            let after = with_rollouts(hours, rows.push(row));
            let old = known(before, hour);
            let new = known(after, hour);
            &&& after.len() == 24
            &&& row.hour != hour ==> after[hour] == before[hour]
            &&& row.hour == hour ==> after[hour] is Some
            &&& row.hour == hour && row.tokens >= 0 && old.rollout_tokens + row.tokens <= u64::MAX
                ==> new.rollout_tokens == old.rollout_tokens + row.tokens
            &&& row.hour == hour && row.samples >= 0 && old.rollout_samples + row.samples <= u64::MAX
                ==> new.rollout_samples == old.rollout_samples + row.samples
            &&& row.hour == hour && row.tokens >= 0 ==> new.score == old.score.sum(
                Double { bits: crate::doubles::weighted(row.tokens as nat) as u64 },
            )
            &&& new.start_tokens == old.start_tokens
            &&& new.threads == old.threads
            &&& new.hour == old.hour
        }),
        with_rollouts(hours, seq![]) == hours,
{
    assert(rows.push(row).drop_last() =~= rows);
    lemma_rollouts_len(hours, rows);
    lemma_rollouts_len(hours, rows.push(row));
}

proof fn lemma_rollouts_len(hours: Seq<Option<PrimeHourScore>>, rows: Seq<RolloutRow>)
    requires
        hours.len() == 24,
    ensures
        with_rollouts(hours, rows).len() == 24,
    decreases rows.len(),
{
    if rows.len() > 0 {
        lemma_rollouts_len(hours, rows.drop_last());
    }
}

proof fn lemma_hour_order()
    ensures
        crate::sorting::is_order(hour_order()),
{
    let order = hour_order();
    assert forall|a: PrimeHourScore, b: PrimeHourScore, c: PrimeHourScore|
        !(#[trigger] order(b, a)) && !(#[trigger] order(c, b)) implies !order(c, a) by {
        assert(!is_heavier(b, a) && !is_heavier(c, b));
        assert(!is_heavier(c, a));
    }
    assert forall|a: PrimeHourScore, b: PrimeHourScore| #[trigger] order(a, b) implies !order(
        b,
        a,
    ) by {
        assert(is_heavier(a, b));
        assert(!is_heavier(b, a));
    }
}

/// Hours are listed by their score, the highest first; of two with the same score, the
/// one with more tokens, then the earlier one.
pub proof fn hours_are_listed_by_score(hours: Seq<PrimeHourScore>, i: int, j: int)
    requires
        0 <= i < j < hours.len(),
    ensures
        ({
            let listed = crate::sorting::sorted(hours, hour_order());
            let a = listed[i];
            let b = listed[j];
            &&& listed.len() == hours.len()
            &&& listed.to_multiset() == hours.to_multiset()
            &&& a.score.rank() >= b.score.rank()
            &&& a.score.rank() == b.score.rank() ==> a.start_tokens >= b.start_tokens
            &&& a.score.rank() == b.score.rank() && a.start_tokens == b.start_tokens ==> a.hour
                <= b.hour
        }),
{
    lemma_hour_order();
    crate::sorting::sorting_keeps_items(hours, hour_order());
    let listed = crate::sorting::sorted(hours, hour_order());
    assert(!hour_order()(listed[j], listed[i]));
    assert(!is_heavier(listed[j], listed[i]));
}

/// Hours of which something is known are listed in their order, and no other ones.
pub proof fn known_hours_are_kept(hours: Seq<Option<PrimeHourScore>>, hour: PrimeHourScore)
    ensures
        known_hours(hours.push(Some(hour))) == known_hours(hours).push(hour),
        known_hours(hours.push(None)) == known_hours(hours),
        known_hours(seq![]).len() == 0,
{
    assert(hours.push(Some(hour)).drop_last() =~= hours);
    assert(hours.push(None).drop_last() =~= hours);
}

/// Of two times with the same score the one for the earlier hour is kept, and of two
/// slots with as much left the one that comes first is primed.
pub proof fn ties_go_by_place(
    a: PrimeScheduleTime,
    b: PrimeScheduleTime,
    x: PrimeCandidate,
    y: PrimeCandidate,
)
    ensures
        a.score.rank() == b.score.rank() && a.source_hour < b.source_hour ==> weight_order()(a, b)
            && !weight_order()(b, a),
        a.score.rank() > b.score.rank() ==> weight_order()(a, b) && !weight_order()(b, a),
        x.weekly_remaining.rank() == y.weekly_remaining.rank() && x.index < y.index
            ==> prime_order()(x, y) && !prime_order()(y, x),
        x.weekly_remaining.rank() > y.weekly_remaining.rank() ==> prime_order()(x, y)
            && !prime_order()(y, x),
{
}

/// The history goes back by whole days, one at least.
pub proof fn histories_go_back_by_days(now: i64, days: u32)
    requires
        now >= 0,
    ensures
        days >= 1 ==> cutoff_of(now, days) == now - days * 86400,
        cutoff_of(now, 0) == now - 86400,
{
}

/// A prompt is used without the white space around it. Nothing is no prompt, and
/// neither is more than two thousand bytes.
pub proof fn prompts_are_short_and_something(raw: Seq<char>)
    ensures
        ({
            let prompt = crate::lines::trimmed(raw);
            &&& prompt_of(raw) is Ok <==> prompt.len() > 0 && vstd::utf8::encode_utf8(prompt).len()
                <= 2000
            &&& prompt_of(raw) is Ok ==> prompt_of(raw)->Ok_0 == prompt
            &&& prompt.len() == 0 ==> prompt_of(raw) == Err::<Seq<char>, Seq<char>>(
                "prime prompt cannot be empty"@,
            )
        }),
{
}

/// What is asked for on the command line goes before what was set up, and that before
/// what is usual.
pub proof fn asking_goes_before_setting_up(
    run: EffectiveRunConfig,
    config: Option<PrimeConfig>,
    args: PrimeRunArgs,
)
    requires
        is_effective(run, config, args),
    ensures
        args.target is Some ==> run.target is Some && run.target->0@ == args.target->0@,
        args.slots@.len() > 0 ==> crate::text::texts(run.slots@) == crate::text::texts(args.slots@),
        args.max_slots matches Some(n) ==> (n > 0 ==> run.max_slots == Some(n)),
        args.max_slots matches Some(n) ==> (n == 0 ==> run.max_slots == Some(1usize)),
        args.model is Some ==> run.model is Some && run.model->0@ == args.model->0@,
        args.codex_bin is Some ==> run.codex_bin is Some && run.codex_bin->0@ == args.codex_bin->0@,
        args.prompt is Some ==> run.prompt@ == crate::lines::trimmed(args.prompt->0@),
        config matches Some(set) ==> {
            &&& args.target is None ==> crate::text::opt_text(run.target) == crate::text::opt_text(
                set.target,
            )
            &&& args.slots@.len() == 0 ==> crate::text::texts(run.slots@) == crate::text::texts(
                set.slots@,
            )
            &&& args.max_slots is None ==> run.max_slots == set.max_slots
            &&& args.model is None ==> crate::text::opt_text(run.model) == crate::text::opt_text(
                set.model,
            )
            &&& args.codex_bin is None ==> crate::text::opt_text(run.codex_bin)
                == crate::text::opt_text(set.codex_bin)
            &&& args.prompt is None ==> run.prompt@ == crate::lines::trimmed(set.prompt@)
            &&& run.retries == set.retries
            &&& set.jobs > 0 ==> run.jobs == set.jobs
            &&& (Double { bits: TENTH_OF_A_SECOND }).is_less(set.timeout) ==> run.timeout
                == set.timeout
        },
        config is None ==> {
            &&& args.target is None ==> run.target is None
            &&& args.slots@.len() == 0 ==> run.slots@.len() == 0
            &&& args.max_slots is None ==> run.max_slots is None
            &&& args.prompt is None ==> run.prompt@ == crate::lines::trimmed("Reply exactly: hi"@)
            &&& run.jobs == 4
            &&& run.retries == 1
        },
{
    if config is None && args.slots@.len() == 0 {
        assert(crate::text::texts(run.slots@).len() == 0);
    }
}

/// A slot that was not primed now is remembered for ten hours after it was, and then
/// forgotten.
pub proof fn primes_are_forgotten_after_ten_hours(
    history: Map<Seq<char>, i64>,
    report: PrimeRunReport,
    slot: Seq<char>,
)
    requires
        report.ran_at >= 0,
        forall|k: int|
            0 <= k < report.primed@.len() && (#[trigger] report.primed@[k]).success
                ==> report.primed@[k].slot@ != slot,
    ensures
        history_after(history, report).dom().contains(slot) <==> history.dom().contains(slot)
            && history[slot] >= report.ran_at - 36000,
        history_after(history, report).dom().contains(slot) ==> history_after(history, report)[slot]
            == history[slot],
{
    let kept = remembered(history, forget_before(report.ran_at));
    if !report.dry_run {
        lemma_others_stay(kept, report.primed@, report.ran_at, slot);
    }
}

proof fn lemma_others_stay(
    history: Map<Seq<char>, i64>,
    primed: Seq<PrimeAttempt>,
    ran_at: i64,
    slot: Seq<char>,
)
    requires
        forall|k: int|
            0 <= k < primed.len() && (#[trigger] primed[k]).success ==> primed[k].slot@ != slot,
    ensures
        with_primes(history, primed, ran_at).dom().contains(slot) == history.dom().contains(slot),
        history.dom().contains(slot) ==> with_primes(history, primed, ran_at)[slot]
            == history[slot],
    decreases primed.len(),
{
    if primed.len() > 0 {
        let rest = primed.drop_last();
        assert forall|k: int| 0 <= k < rest.len() && (#[trigger] rest[k]).success implies rest[k].slot@
            != slot by {
            assert(rest[k] == primed[k]);
        }
        lemma_others_stay(history, rest, ran_at, slot);
        assert(primed.last() == primed[primed.len() - 1]);
    }
}

/// A text that is too long is cut and ends with three dots, within the room.
pub proof fn long_texts_are_cut(text: Seq<char>, max: nat)
    requires
        max >= 3,
    ensures
        text.len() <= max ==> cut(text, max) == text,
        text.len() > max ==> cut(text, max).len() == max && cut(text, max).take(max - 3)
            == text.take(max - 3) && cut(text, max).skip(max - 3) == "..."@,
{
    reveal_strlit("...");
    if text.len() > max {
        assert(cut(text, max).take(max - 3) =~= text.take(max - 3));
        assert(cut(text, max).skip(max - 3) =~= "..."@);
    }
}

/// A failure is told in the last words that were said.
pub proof fn failures_are_told_in_the_last_words(lines: Seq<Seq<char>>, line: Seq<char>)
    ensures
        crate::lines::trimmed(line).len() > 0 ==> last_words(lines.push(line)) == Some(line),
        crate::lines::trimmed(line).len() == 0 ==> last_words(lines.push(line)) == last_words(
            lines,
        ),
        last_words(seq![]) is None,
{
    assert(lines.push(line).drop_last() =~= lines);
}

/// What a failure is told in begins with what failed.
pub proof fn failures_name_what_failed(said: Seq<char>, line: Seq<char>)
    ensures
        crate::text::has_prefix(failure_note(said), "codex exec failed: "@),
        last_words(crate::lines::lines_of(said)) == Some(line) && line.len() <= 240 ==> failure_note(
            said,
        ) == "codex exec failed: "@ + line,
{
    let head = "codex exec failed: "@;
    assert(failure_note(said).take(head.len() as int) =~= head);
}

/// A prime is one question, asked last: nothing may be changed or asked back, and
/// nothing is kept of it.
pub proof fn primes_ask_one_question(model: Option<Seq<char>>, prompt: Seq<char>)
    ensures
        ({
            let args = codex_args(model, prompt);
            let n = args.len() as int;
            &&& args.last() == prompt
            &&& model is Some ==> args[0] == "-m"@ && args[1] == model->0
            &&& n == (if model is Some {
                13int
            } else {
                11int
            })
            &&& args[n - 11] == "--ask-for-approval"@ && args[n - 10] == "never"@
            &&& args[n - 9] == "exec"@
            &&& args[n - 7] == "--ephemeral"@
            &&& args[n - 5] == "-s"@ && args[n - 4] == "read-only"@
        }),
{
}

/// Usage is read from the home and from every slot.
pub proof fn usage_is_read_everywhere(base_home: Seq<char>, slot_dirs: Seq<Seq<char>>, i: int)
    ensures
        database_places(base_home, slot_dirs).len() == slot_dirs.len() + 1,
        database_places(base_home, slot_dirs)[0] == crate::paths::joined_path(
            base_home,
            "state_5.sqlite"@,
        ),
        0 <= i < slot_dirs.len() && slot_dirs[i].len() > 0 && slot_dirs[i].last() != '/'
            ==> database_places(base_home, slot_dirs)[i + 1] == slot_dirs[i]
            + "/home/sqlite/state_5.sqlite"@,
{
    reveal_strlit("home/sqlite");
    reveal_strlit("state_5.sqlite");
    reveal_strlit("/home/sqlite/state_5.sqlite");
    if 0 <= i < slot_dirs.len() && slot_dirs[i].len() > 0 && slot_dirs[i].last() != '/' {
        let dir = slot_dirs[i];
        let below = crate::paths::joined_path(dir, "home/sqlite"@);
        assert(below =~= dir.push('/') + "home/sqlite"@);
        assert(below.last() == 'e');
        assert(database_places(base_home, slot_dirs)[i + 1] =~= dir
            + "/home/sqlite/state_5.sqlite"@);
    }
}

/// Each time of a schedule is told to launchd, with its hour and its minute, in order.
pub proof fn times_are_told_in_order(times: Seq<PrimeScheduleTime>, time: PrimeScheduleTime)
    ensures
        intervals_of(times.push(time)) == intervals_of(times)
            + "    <dict>\n      <key>Hour</key><integer>"@ + crate::numbers::decimal_of(
            time.hour as nat,
        ) + "</integer>\n      <key>Minute</key><integer>"@ + crate::numbers::decimal_of(
            time.minute as nat,
        ) + "</integer>\n    </dict>\n"@,
        intervals_of(seq![]).len() == 0,
{
    assert(times.push(time).drop_last() =~= times);
    assert(intervals_of(times.push(time)) =~= intervals_of(times)
        + "    <dict>\n      <key>Hour</key><integer>"@ + crate::numbers::decimal_of(
        time.hour as nat,
    ) + "</integer>\n      <key>Minute</key><integer>"@ + crate::numbers::decimal_of(
        time.minute as nat,
    ) + "</integer>\n    </dict>\n"@);
}

/// A plan is printed with what it goes by first and a line for each time, in order.
pub proof fn plans_are_printed(report: PrimePlanReport, i: int)
    ensures
        ({
            let lines = plan_lines_of(report);
            let n = report.schedules@.len();
            &&& lines[0] == "prime plan: "@ + crate::numbers::decimal_of(report.days as nat)
                + "d history, lead "@ + crate::numbers::decimal_of(report.lead_minutes as nat)
                + "m, "@ + crate::numbers::decimal_of(n) + " schedule(s)"@
            &&& report.source_databases@.len() == 0 ==> lines[1] == "source state dbs: none"@
            &&& report.source_databases@.len() > 0 ==> lines[1] == "source state dbs: "@
                + crate::numbers::decimal_of(report.source_databases@.len())
            &&& report.rollout_cache is Some ==> lines[2] == "rollout cache: "@
                + report.rollout_cache->0@
            &&& 0 <= i < n ==> crate::text::has_prefix(
                lines[lines.len() - n + i],
                time_head(report.schedules@[i]),
            )
        }),
{
    let lines = plan_lines_of(report);
    let n = report.schedules@.len();
    if 0 <= i < n {
        let time = report.schedules@[i];
        let line = lines[lines.len() - n + i];
        assert(line == time_line(time));
        let head = time_head(time);
        assert(line.take(head.len() as int) =~= head);
    }
}

/// A time is shown as it is on a clock, with the hour that it is for.
pub proof fn times_are_shown_by_the_clock(time: PrimeScheduleTime)
    ensures
        time_head(time) == "- "@ + crate::format::two_digits_of(time.hour as nat) + ":"@
            + crate::format::two_digits_of(time.minute as nat) + "  from heavy hour "@
            + crate::format::two_digits_of(time.source_hour as nat) + ":00"@,
{
    assert(time_head(time) =~= "- "@ + crate::format::two_digits_of(time.hour as nat) + ":"@
        + crate::format::two_digits_of(time.minute as nat) + "  from heavy hour "@
        + crate::format::two_digits_of(time.source_hour as nat) + ":00"@);
}

/// A run is printed with what it did: each slot that was primed, how it went, and up to
/// twelve that were not, with the number of the rest.
pub proof fn runs_are_printed(report: PrimeRunReport, i: int, k: int)
    ensures
        ({
            let lines = run_lines_of(report);
            let primed = report.primed@;
            let skipped = report.skipped@;
            let skips = skip_lines(skipped);
            &&& primed.len() == 0 ==> lines[1] == "no slots needed priming"@
            &&& 0 <= i < primed.len() && primed[i].success ==> lines[1 + i] == "- "@ + primed[i].slot@
                + "  "@ + "ok"@ + "  "@ + crate::numbers::decimal_of(primed[i].elapsed_ms as nat)
                + "ms  "@ + primed[i].note@
            &&& 0 <= i < primed.len() && !primed[i].success ==> lines[1 + i] == "- "@
                + primed[i].slot@ + "  "@ + "failed"@ + "  "@ + crate::numbers::decimal_of(
                primed[i].elapsed_ms as nat,
            ) + "ms  "@ + primed[i].note@
            &&& lines.skip(lines.len() - skips.len()) == skips
            &&& skipped.len() == 0 ==> skips.len() == 0
            &&& 0 < skipped.len() <= 12 ==> skips.len() == skipped.len() + 1
            &&& skipped.len() > 12 ==> skips.len() == 14 && skips.last() == "- ... "@
                + crate::numbers::decimal_of((skipped.len() - 12) as nat) + " more"@
            &&& 0 <= k < skipped.len() && k < 12 ==> skips[0] == "skipped:"@ && skips[1 + k] == "- "@
                + skipped[k].slot@ + "  "@ + skipped[k].reason@
        }),
{
    let lines = run_lines_of(report);
    let skips = skip_lines(report.skipped@);
    assert(lines.skip(lines.len() - skips.len()) =~= skips);
}

/// The head of a run says how many slots were checked and primed, and whether it was
/// only tried.
pub proof fn runs_are_headed(report: PrimeRunReport)
    ensures
        ({
            let head = "prime run: checked "@ + crate::numbers::decimal_of(
                report.checked_slots as nat,
            ) + " slot(s), primed "@ + crate::numbers::decimal_of(report.primed@.len())
                + " slot(s)"@;
            &&& report.dry_run ==> run_lines_of(report)[0] == head + " (dry run)"@
            &&& !report.dry_run ==> run_lines_of(report)[0] == head
        }),
{
    let head = "prime run: checked "@ + crate::numbers::decimal_of(report.checked_slots as nat)
        + " slot(s), primed "@ + crate::numbers::decimal_of(report.primed@.len()) + " slot(s)"@;
    assert(head + Seq::<char>::empty() =~= head);
}

/// The status says whether the agent is installed and loaded, what was set up and what
/// the last run did.
pub proof fn statuses_are_printed(report: PrimeStatusReport, config: PrimeConfig, i: int)
    requires
        report.config == Some(config),
    ensures
        ({
            let lines = status_lines_of(report);
            &&& lines[0] == "LaunchAgent: "@ + report.launch_agent_path@
            &&& report.launch_agent_installed ==> lines[1] == "installed: yes"@
            &&& !report.launch_agent_installed ==> lines[1] == "installed: no"@
            &&& report.launch_agent_loaded ==> lines[2] == "loaded: yes"@
            &&& !report.launch_agent_loaded ==> lines[2] == "loaded: no"@
            &&& crate::text::has_prefix(
                lines[4],
                "config: lead "@ + crate::numbers::decimal_of(config.lead_minutes as nat)
                    + "m, max slots "@ + (if config.max_slots is Some {
                    crate::numbers::decimal_of(config.max_slots->0 as nat)
                } else {
                    "all"@
                }) + ", min weekly "@,
            )
            &&& 0 <= i < config.schedules@.len() ==> lines[5 + i] == time_head(config.schedules@[i])
        }),
{
    let lines = status_lines_of(report);
    let head = "config: lead "@ + crate::numbers::decimal_of(config.lead_minutes as nat)
        + "m, max slots "@ + (if config.max_slots is Some {
        crate::numbers::decimal_of(config.max_slots->0 as nat)
    } else {
        "all"@
    }) + ", min weekly "@;
    assert(lines[4] == config_lines(config)[1]);
    assert(lines[4].take(head.len() as int) =~= head);
}

/// A schedule is set up as it was asked for, and only where there is one and something
/// to ask.
pub proof fn schedules_are_set_up_as_asked(
    config: PrimeConfig,
    args: PrimeInstallArgs,
    plan: PrimePlanReport,
    codex_bin: Seq<char>,
    now: i64,
)
    ensures
        plan.schedules@.len() == 0 ==> install_refusal(args, plan) is Some,
        plan.schedules@.len() > 0 && crate::lines::trimmed(args.prompt@).len() > 0
            && vstd::utf8::encode_utf8(crate::lines::trimmed(args.prompt@)).len() <= 2000
            ==> install_refusal(args, plan) is None,
        is_config_for(config, args, plan, codex_bin, now) ==> {
            &&& config.schedules@ == plan.schedules@
            &&& config.prompt@ == crate::lines::trimmed(args.prompt@)
            &&& crate::text::texts(config.slots@) == crate::text::texts(args.slots@)
            &&& args.jobs > 0 ==> config.jobs == args.jobs
            &&& config.retries == args.retries
            &&& config.installed_at == now
            &&& config.lead_minutes == args.schedule.lead_minutes
            &&& config.min_tokens == args.schedule.min_tokens
            &&& args.max_slots is None ==> config.max_slots is None
            &&& args.max_slots matches Some(n) ==> (n > 0 ==> config.max_slots == Some(n))
        },
{
}

} // verus!
