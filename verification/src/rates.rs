//! How fast slots are asked: slower after a rate limit, faster again after
//! successes; and the course of one query of many slots.

use vstd::prelude::*;

use crate::selector::fresh;
use crate::selector::saturating_difference;
use crate::selector::stale_or_cooldown;
use crate::selector::stale_or_rate_limited;
use crate::selector::stale_or_refresh_error;
use crate::selector::CachedUsageSlot;
use crate::selector::DEFAULT_START_INTERVAL_MS;
use crate::selector::MAX_START_INTERVAL_MS;
use crate::selector::MIN_START_INTERVAL_MS;
use crate::selector::RATE_STATE_IDLE_RESET_SECONDS;
use crate::selector::RATE_STATE_SCHEMA_VERSION;
use crate::selector::SUCCESS_INTERVAL_STEP_MS;
use crate::selector::SUCCESS_RECOVERY_WINDOW;
use crate::sorting::sort_items;
use crate::usage::SlotModel;
use crate::usage::SlotResult;
use crate::usage::SlotStatus;

verus! {

/// How fast slots are asked, and what led to it.
#[derive(Clone, Copy, Debug, PartialEq, Eq)]
pub struct UsageRateState {
    pub schema_version: u64,
    pub updated_at: i64,
    pub start_interval_ms: u64,
    pub throttled_until: Option<i64>,
    pub throttle_count: u64,
    pub successful_refreshes: u64,
}

/// Whether a result shows that the service limits the rate.
pub open spec fn shows_throttle(result: SlotModel) -> bool {
    result.refresh_status == Some("rate_limited"@) || (result.status == SlotStatus::RateLimited
        && result.refresh_status != Some("cooldown"@))
}

/// Whether a result shows that the service limits the rate.
pub fn result_observed_throttle(result: &SlotResult) -> (out: bool)
    ensures
        out == shows_throttle(result@),
{
    result.refreshed_as("rate_limited") || (result.status == SlotStatus::RateLimited
        && !result.refreshed_as("cooldown"))
}

/// Whether any result shows that the service limits the rate.
pub open spec fn any_throttle(results: Seq<SlotResult>) -> bool {
    exists|i: int| 0 <= i < results.len() && shows_throttle((#[trigger] results[i])@)
}

/// The longest wait that the results ask for which show a rate limit.
pub open spec fn longest_wait(results: Seq<SlotResult>) -> Option<i64>
    decreases results.len(),
{
    if results.len() == 0 {
        None
    } else {
        let rest = longest_wait(results.drop_last());
        let last = results.last();
        if shows_throttle(last@) && last.retry_after_seconds is Some {
            match rest {
                Some(wait) if wait >= last.retry_after_seconds->0 => rest,
                _ => last.retry_after_seconds,
            }
        } else {
            rest
        }
    }
}

/// The number of results that were just fetched.
pub open spec fn live_count(results: Seq<SlotResult>) -> nat
    decreases results.len(),
{
    if results.len() == 0 {
        0
    } else {
        live_count(results.drop_last()) + (if results.last().cache_age_seconds is None {
            1nat
        } else {
            0nat
        })
    }
}

/// Whether no result that was just fetched is a failure.
pub open spec fn live_all_good(results: Seq<SlotResult>) -> bool {
    forall|i: int|
        0 <= i < results.len() && (#[trigger] results[i]).cache_age_seconds is None
            ==> !results[i]@.is_transient()
}

/// The wait after rate limit number `count` in a row where the service names none.
pub open spec fn fallback_wait(count: int) -> int {
    if count <= 1 {
        1
    } else if count == 2 {
        2
    } else if count == 3 {
        4
    } else if count == 4 {
        8
    } else {
        16
    }
}

/// The interval and the successes left after each full window of successes has
/// shortened the interval by one step.
pub open spec fn recovered(interval: nat, successes: nat) -> (nat, nat)
    decreases successes,
{
    if successes >= SUCCESS_RECOVERY_WINDOW && interval > MIN_START_INTERVAL_MS {
        let next = if interval < MIN_START_INTERVAL_MS + SUCCESS_INTERVAL_STEP_MS {
            MIN_START_INTERVAL_MS as nat
        } else {
            (interval - SUCCESS_INTERVAL_STEP_MS) as nat
        };
        recovered(next, (successes - SUCCESS_RECOVERY_WINDOW) as nat)
    } else {
        (interval, successes)
    }
}

/// `a + b`, kept within the range of `u64`.
pub open spec fn saturated_sum(a: int, b: int) -> int {
    if a + b > u64::MAX {
        u64::MAX as int
    } else {
        a + b
    }
}

/// The interval after a rate limit: twice as long, from the default on, up to the longest.
pub open spec fn slowed(interval: int) -> int {
    let base = if interval < DEFAULT_START_INTERVAL_MS {
        DEFAULT_START_INTERVAL_MS as int
    } else {
        interval
    };
    if 2 * base > MAX_START_INTERVAL_MS {
        MAX_START_INTERVAL_MS as int
    } else {
        2 * base
    }
}

/// The time until which nothing is asked after rate limit number `count` in a row.
pub open spec fn wait_until(now: int, named: Option<i64>, count: int) -> int {
    let wait = match named {
        Some(seconds) => if seconds < 1 {
            1
        } else {
            seconds as int
        },
        None => fallback_wait(count),
    };
    if now + wait > i64::MAX {
        i64::MAX as int
    } else {
        now + wait
    }
}

/// The state after `results` came in at time `now`.
pub open spec fn recorded(
    state: UsageRateState,
    results: Seq<SlotResult>,
    now: i64,
) -> UsageRateState {
    if any_throttle(results) {
        let count = saturated_sum(state.throttle_count as int, 1);
        UsageRateState {
            throttle_count: count as u64,
            successful_refreshes: 0,
            start_interval_ms: slowed(state.start_interval_ms as int) as u64,
            throttled_until: Some(wait_until(now as int, longest_wait(results), count) as i64),
            updated_at: now,
            ..state
        }
    } else if live_count(results) == 0 {
        state
    } else if live_all_good(results) {
        let sum = saturated_sum(state.successful_refreshes as int, live_count(results) as int);
        let (interval, successes) = recovered(state.start_interval_ms as nat, sum as nat);
        UsageRateState {
            throttle_count: 0,
            throttled_until: None,
            start_interval_ms: interval as u64,
            successful_refreshes: successes as u64,
            updated_at: now,
            ..state
        }
    } else {
        UsageRateState { throttle_count: 0, throttled_until: None, updated_at: now, ..state }
    }
}

/// `interval` brought into the range of allowed intervals.
pub open spec fn clamped_interval(interval: u64) -> u64 {
    if interval < MIN_START_INTERVAL_MS {
        MIN_START_INTERVAL_MS
    } else if interval > MAX_START_INTERVAL_MS {
        MAX_START_INTERVAL_MS
    } else {
        interval
    }
}

/// The state as it is taken up again at time `now`.
pub open spec fn normalized(state: UsageRateState, now: i64) -> UsageRateState {
    let until = match state.throttled_until {
        Some(time) if time <= now => None,
        other => other,
    };
    let clamped = clamped_interval(state.start_interval_ms);
    let interval = if until is None && state.throttle_count == 0 && clamped
        > DEFAULT_START_INTERVAL_MS {
        DEFAULT_START_INTERVAL_MS
    } else {
        clamped
    };
    let idle = crate::selector::saturated_difference(now, state.updated_at)
        > RATE_STATE_IDLE_RESET_SECONDS;
    if until is None && idle {
        UsageRateState {
            schema_version: RATE_STATE_SCHEMA_VERSION,
            start_interval_ms: DEFAULT_START_INTERVAL_MS,
            throttled_until: None,
            throttle_count: 0,
            successful_refreshes: 0,
            ..state
        }
    } else {
        UsageRateState {
            schema_version: RATE_STATE_SCHEMA_VERSION,
            start_interval_ms: interval,
            throttled_until: until,
            ..state
        }
    }
}

/// The state to start with.
pub open spec fn loaded(kept: Option<UsageRateState>, now: i64) -> UsageRateState {
    match kept {
        Some(state) if state.schema_version == RATE_STATE_SCHEMA_VERSION => normalized(state, now),
        _ => UsageRateState {
            schema_version: RATE_STATE_SCHEMA_VERSION,
            updated_at: now,
            start_interval_ms: DEFAULT_START_INTERVAL_MS,
            throttled_until: None,
            throttle_count: 0,
            successful_refreshes: 0,
        },
    }
}

impl UsageRateState {
    /// The state before anything was asked.
    pub fn initial(now: i64) -> (out: UsageRateState)
        ensures
            out == (UsageRateState {
                schema_version: RATE_STATE_SCHEMA_VERSION,
                updated_at: now,
                start_interval_ms: DEFAULT_START_INTERVAL_MS,
                throttled_until: None,
                throttle_count: 0,
                successful_refreshes: 0,
            }),
    {
        UsageRateState {
            schema_version: RATE_STATE_SCHEMA_VERSION,
            updated_at: now,
            start_interval_ms: DEFAULT_START_INTERVAL_MS,
            throttled_until: None,
            throttle_count: 0,
            successful_refreshes: 0,
        }
    }

    /// The state to start with: the one that was kept, if it is of the current
    /// format, or else the initial one.
    pub fn load(kept: Option<UsageRateState>, now: i64) -> (out: UsageRateState)
        ensures
            out == loaded(kept, now),
    {
        let mut state = match kept {
            Some(state) => if state.schema_version == RATE_STATE_SCHEMA_VERSION {
                state
            } else {
                Self::initial(now)
            },
            None => Self::initial(now),
        };
        state.normalize(now);
        state
    }

    /// The time between two questions, in milliseconds.
    pub fn start_interval(&self) -> (out: u64)
        ensures
            out == clamped_interval(self.start_interval_ms),
    {
        if self.start_interval_ms < MIN_START_INTERVAL_MS {
            MIN_START_INTERVAL_MS
        } else if self.start_interval_ms > MAX_START_INTERVAL_MS {
            MAX_START_INTERVAL_MS
        } else {
            self.start_interval_ms
        }
    }

    /// The seconds for which nothing must be asked.
    pub open spec fn pause_left(self, now: i64) -> Option<i64> {
        match self.throttled_until {
            Some(until) if crate::selector::saturated_difference(until, now) > 0 => Some(
                crate::selector::saturated_difference(until, now) as i64,
            ),
            _ => None,
        }
    }

    /// The seconds for which nothing must be asked.
    pub fn cooldown_remaining(&self, now: i64) -> (out: Option<i64>)
        ensures
            out == self.pause_left(now),
    {
        match self.throttled_until {
            Some(until) => {
                let left = saturating_difference(until, now);
                if left > 0 {
                    Some(left)
                } else {
                    None
                }
            },
            None => None,
        }
    }

    /// Takes note of results that came in at time `now`.
    pub fn record_results(&mut self, results: &Vec<SlotResult>, now: i64)
        ensures
            *final(self) == recorded(*old(self), results@, now),
    {
        let ghost all = results@;
        let mut throttled = false;
        let mut named: Option<i64> = None;
        let mut live: u64 = 0;
        let mut good = true;
        let mut i: usize = 0;
        proof {
            assert(all.take(0) =~= seq![]);
        }
        while i < results.len()
            invariant
                i <= results.len(),
                all == results@,
                throttled == any_throttle(all.take(i as int)),
                named == longest_wait(all.take(i as int)),
                live == live_count(all.take(i as int)),
                live <= i,
                good == live_all_good(all.take(i as int)),
            decreases results.len() - i,
        {
            let result = &results[i];
            proof {
                let t = all.take(i + 1);
                let s = all.take(i as int);
                assert(t.drop_last() =~= s);
                assert(t.last() == all[i as int]);
                assert(forall|j: int| 0 <= j < s.len() ==> s[j] == t[j]);
                if any_throttle(s) {
                    let j = choose|j: int| 0 <= j < s.len() && shows_throttle(s[j]@);
                    assert(shows_throttle(t[j]@));
                }
                if shows_throttle(all[i as int]@) {
                    assert(shows_throttle(t[i as int]@));
                }
                if any_throttle(t) {
                    let j = choose|j: int| 0 <= j < t.len() && shows_throttle(t[j]@);
                    if j < i {
                        assert(shows_throttle(s[j]@));
                    }
                }
                if live_all_good(t) {
                    assert forall|j: int|
                        0 <= j < s.len() && (#[trigger] s[j]).cache_age_seconds is None implies !s[j]@.is_transient() by {
                        assert(t[j] == s[j]);
                    }
                }
                if good && !(all[i as int].cache_age_seconds is None && all[i as int]@.is_transient()) {
                    assert forall|j: int|
                        0 <= j < t.len() && (#[trigger] t[j]).cache_age_seconds is None implies !t[j]@.is_transient() by {
                        if j < i {
                            assert(t[j] == s[j]);
                        }
                    }
                }
                if all[i as int].cache_age_seconds is None && all[i as int]@.is_transient() {
                    assert(t[i as int] == all[i as int]);
                }
            }
            if result_observed_throttle(result) {
                throttled = true;
                if let Some(wait) = result.retry_after_seconds {
                    named = match named {
                        Some(longest) => if longest >= wait {
                            Some(longest)
                        } else {
                            Some(wait)
                        },
                        None => Some(wait),
                    };
                }
            }
            if result.cache_age_seconds.is_none() {
                live += 1;
                if result.is_transient() {
                    good = false;
                }
            }
            i += 1;
        }
        proof {
            assert(all.take(results@.len() as int) =~= all);
        }
        if throttled {
            self.slow_down(named, now);
            return ;
        }
        if live == 0 {
            return ;
        }
        self.throttled_until = None;
        self.throttle_count = 0;
        if good {
            self.successful_refreshes = self.successful_refreshes.saturating_add(live);
            self.recover();
        }
        self.updated_at = now;
    }

    fn slow_down(&mut self, named: Option<i64>, now: i64)
        ensures
            *final(self) == (UsageRateState {
                throttle_count: saturated_sum(old(self).throttle_count as int, 1) as u64,
                successful_refreshes: 0,
                start_interval_ms: slowed(old(self).start_interval_ms as int) as u64,
                throttled_until: Some(
                    wait_until(
                        now as int,
                        named,
                        saturated_sum(old(self).throttle_count as int, 1),
                    ) as i64,
                ),
                updated_at: now,
                ..*old(self)
            }),
    {
        self.throttle_count = self.throttle_count.saturating_add(1);
        self.successful_refreshes = 0;
        self.start_interval_ms = if self.start_interval_ms < DEFAULT_START_INTERVAL_MS {
            2 * DEFAULT_START_INTERVAL_MS
        } else if self.start_interval_ms > MAX_START_INTERVAL_MS / 2 {
            MAX_START_INTERVAL_MS
        } else {
            2 * self.start_interval_ms
        };
        let fallback: i64 = if self.throttle_count <= 1 {
            1
        } else if self.throttle_count == 2 {
            2
        } else if self.throttle_count == 3 {
            4
        } else if self.throttle_count == 4 {
            8
        } else {
            16
        };
        let wait: i64 = match named {
            Some(seconds) => if seconds < 1 {
                1
            } else {
                seconds
            },
            None => fallback,
        };
        self.throttled_until = Some(
            match now.checked_add(wait) {
                Some(time) => time,
                None => i64::MAX,
            },
        );
        self.updated_at = now;
    }

    fn recover(&mut self)
        ensures
            ({
                let (interval, successes) = recovered(
                    old(self).start_interval_ms as nat,
                    old(self).successful_refreshes as nat,
                );
                *final(self) == (UsageRateState {
                    start_interval_ms: interval as u64,
                    successful_refreshes: successes as u64,
                    ..*old(self)
                })
            }),
    {
        let ghost start = *self;
        while self.successful_refreshes >= SUCCESS_RECOVERY_WINDOW && self.start_interval_ms
            > MIN_START_INTERVAL_MS
            invariant
                recovered(start.start_interval_ms as nat, start.successful_refreshes as nat)
                    == recovered(self.start_interval_ms as nat, self.successful_refreshes as nat),
                *self == (UsageRateState {
                    start_interval_ms: self.start_interval_ms,
                    successful_refreshes: self.successful_refreshes,
                    ..start
                }),
            decreases self.successful_refreshes,
        {
            self.start_interval_ms = if self.start_interval_ms < MIN_START_INTERVAL_MS
                + SUCCESS_INTERVAL_STEP_MS {
                MIN_START_INTERVAL_MS
            } else {
                self.start_interval_ms - SUCCESS_INTERVAL_STEP_MS
            };
            self.successful_refreshes = self.successful_refreshes - SUCCESS_RECOVERY_WINDOW;
        }
    }

    /// Takes the state up again at time `now`.
    pub fn normalize(&mut self, now: i64)
        ensures
            *final(self) == normalized(*old(self), now),
    {
        self.start_interval_ms = self.start_interval();
        if let Some(until) = self.throttled_until {
            if until <= now {
                self.throttled_until = None;
            }
        }
        if self.throttled_until.is_none() && self.throttle_count == 0 && self.start_interval_ms
            > DEFAULT_START_INTERVAL_MS {
            self.start_interval_ms = DEFAULT_START_INTERVAL_MS;
        }
        if self.throttled_until.is_none() && saturating_difference(now, self.updated_at)
            > RATE_STATE_IDLE_RESET_SECONDS {
            self.start_interval_ms = DEFAULT_START_INTERVAL_MS;
            self.throttle_count = 0;
            self.successful_refreshes = 0;
        }
        self.schema_version = RATE_STATE_SCHEMA_VERSION;
    }
}

// ---------------------------------------------------------------------------
// Laws of the rate
// ---------------------------------------------------------------------------

/// Whether the interval lies in the allowed range.
pub open spec fn in_range(state: UsageRateState) -> bool {
    MIN_START_INTERVAL_MS <= state.start_interval_ms <= MAX_START_INTERVAL_MS
}

/// A state that is taken up has an allowed interval, and no pause that is over.
pub proof fn normalized_states_are_in_range(state: UsageRateState, now: i64)
    ensures
        in_range(normalized(state, now)),
        normalized(state, now).throttled_until matches Some(until) ==> until > now,
{
}

proof fn lemma_recovered_bounds(interval: nat, successes: nat)
    requires
        interval >= MIN_START_INTERVAL_MS,
    ensures
        MIN_START_INTERVAL_MS <= recovered(interval, successes).0 <= interval,
        recovered(interval, successes).1 <= successes,
    decreases successes,
{
    if successes >= SUCCESS_RECOVERY_WINDOW && interval > MIN_START_INTERVAL_MS {
        let next = if interval < MIN_START_INTERVAL_MS + SUCCESS_INTERVAL_STEP_MS {
            MIN_START_INTERVAL_MS as nat
        } else {
            (interval - SUCCESS_INTERVAL_STEP_MS) as nat
        };
        lemma_recovered_bounds(next, (successes - SUCCESS_RECOVERY_WINDOW) as nat);
    }
}

/// Results keep the interval in the allowed range: a rate limit never shortens
/// it, anything else never lengthens it.
pub proof fn recording_keeps_the_range(state: UsageRateState, results: Seq<SlotResult>, now: i64)
    requires
        in_range(state),
    ensures
        in_range(recorded(state, results, now)),
        any_throttle(results) ==> recorded(state, results, now).start_interval_ms
            >= state.start_interval_ms,
        !any_throttle(results) ==> recorded(state, results, now).start_interval_ms
            <= state.start_interval_ms,
{
    let sum = saturated_sum(state.successful_refreshes as int, live_count(results) as int);
    lemma_recovered_bounds(state.start_interval_ms as nat, sum as nat);
}

/// After a rate limit nothing is asked for at least a second, and for as long as
/// the service asked.
pub proof fn rate_limits_pause(state: UsageRateState, results: Seq<SlotResult>, now: i64)
    requires
        any_throttle(results),
        now <= i64::MAX - 1,
    ensures
        recorded(state, results, now).pause_left(now) matches Some(left) && left >= 1 && (
        longest_wait(results) matches Some(wait) ==> (now >= 0 && now + wait <= i64::MAX
            ==> left >= wait)),
{
}

/// What is in the cache answers nothing about the rate: remembered results alone
/// leave the state as it is, unless they were recalled because of a rate limit.
pub proof fn remembered_results_leave_the_rate(
    state: UsageRateState,
    results: Seq<SlotResult>,
    now: i64,
)
    requires
        !any_throttle(results),
        forall|i: int|
            0 <= i < results.len() ==> (#[trigger] results[i]).cache_age_seconds is Some,
    ensures
        recorded(state, results, now) == state,
{
    lemma_no_live(results);
}

proof fn lemma_no_live(results: Seq<SlotResult>)
    requires
        forall|i: int|
            0 <= i < results.len() ==> (#[trigger] results[i]).cache_age_seconds is Some,
    ensures
        live_count(results) == 0,
    decreases results.len(),
{
    if results.len() > 0 {
        let rest = results.drop_last();
        assert forall|i: int| 0 <= i < rest.len() implies (
        #[trigger] rest[i]).cache_age_seconds is Some by {
            assert(rest[i] == results[i]);
        }
        lemma_no_live(rest);
        assert(results[results.len() - 1].cache_age_seconds is Some);
    }
}

// ---------------------------------------------------------------------------
// One question
// ---------------------------------------------------------------------------

/// What to do about a slot.
pub enum QueryPlan {
    /// Answer without asking.
    Answer(SlotResult),
    /// Ask, after this many milliseconds if the slot is asked again.
    Ask(Option<u64>),
}

/// Whether and how a slot is answered without being asked.
pub open spec fn answer_without_asking(
    cache: Option<CachedUsageSlot>,
    now: i64,
    slot: Seq<char>,
    index: nat,
    retry: bool,
    throttled: bool,
    state: UsageRateState,
) -> Option<SlotModel> {
    let young = crate::selector::recalled(
        cache,
        now,
        index,
        crate::selector::USAGE_CACHE_TTL_SECONDS as int,
        false,
        None,
        None,
    );
    if !retry && young is Some {
        young
    } else if throttled {
        Some(crate::selector::rate_limited_answer(cache, now, slot, index, None))
    } else {
        match state.pause_left(now) {
            Some(left) => Some(crate::selector::cooldown_answer(cache, now, slot, index, left)),
            None => None,
        }
    }
}

/// What to do about a slot: a fresh result is used, a rate limit or a pause is
/// respected, and otherwise the slot is asked.
pub fn plan_query(
    cache: &Option<CachedUsageSlot>,
    now: i64,
    slot: &str,
    index: usize,
    retry_attempt: Option<usize>,
    throttled: bool,
    state: &UsageRateState,
) -> (out: QueryPlan)
    ensures
        match (
            out,
            answer_without_asking(
                *cache,
                now,
                slot@,
                index as nat,
                retry_attempt is Some,
                throttled,
                *state,
            ),
        ) {
            (QueryPlan::Answer(result), Some(answer)) => result@ == answer,
            (QueryPlan::Ask(delay), None) => match (delay, retry_attempt) {
                (Some(millis), Some(attempt)) => millis == crate::selector::delay_before(
                    slot@,
                    attempt,
                    now,
                ) && millis <= crate::selector::retry_cap_ms(attempt as nat),
                (None, None) => true,
                _ => false,
            },
            _ => false,
        },
{
    if retry_attempt.is_none() {
        if let Some(result) = fresh(cache, now, index) {
            return QueryPlan::Answer(result);
        }
    }
    if throttled {
        return QueryPlan::Answer(stale_or_rate_limited(cache, now, slot, index, None));
    }
    if let Some(left) = state.cooldown_remaining(now) {
        return QueryPlan::Answer(stale_or_cooldown(cache, now, slot, index, left));
    }
    match retry_attempt {
        Some(attempt) => QueryPlan::Ask(Some(crate::selector::retry_delay(slot, attempt, now))),
        None => QueryPlan::Ask(None),
    }
}

/// The answer for a slot that replied with `reply`, and whether the reply is to
/// be remembered.
pub open spec fn answer_to_reply(
    cache: Option<CachedUsageSlot>,
    now: i64,
    slot: Seq<char>,
    index: nat,
    reply: SlotModel,
) -> (SlotModel, bool) {
    if reply.status == SlotStatus::RateLimited {
        (
            crate::selector::rate_limited_answer(cache, now, slot, index, reply.retry_after_seconds),
            false,
        )
    } else if reply.is_retryable() {
        (crate::selector::refresh_error_answer(cache, now, index, reply), false)
    } else {
        (reply, reply.is_cacheable())
    }
}

/// The answer for a slot that replied with `reply`, and whether the reply is to
/// be remembered.
pub fn settle_query(
    cache: &Option<CachedUsageSlot>,
    now: i64,
    slot: &str,
    index: usize,
    reply: SlotResult,
) -> (out: (SlotResult, bool))
    ensures
        (out.0@, out.1) == answer_to_reply(*cache, now, slot@, index as nat, reply@),
{
    if reply.status == SlotStatus::RateLimited {
        return (stale_or_rate_limited(cache, now, slot, index, reply.retry_after_seconds), false);
    }
    if reply.is_retryable_transient() {
        return (stale_or_refresh_error(cache, now, index, reply), false);
    }
    let keep = reply.is_cacheable_usage();
    (reply, keep)
}

// ---------------------------------------------------------------------------
// Many questions
// ---------------------------------------------------------------------------

/// Spaces the starts of requests. Times are in milliseconds.
#[derive(Clone, Copy, Debug, PartialEq, Eq, Structural)]
pub struct RequestPacer {
    /// When the next request may start.
    pub next_start: u64,
    /// The time between two starts.
    pub interval: u64,
}

/// The later of two moments.
pub open spec fn later(a: u64, b: u64) -> u64 {
    if a > b {
        a
    } else {
        b
    }
}

impl RequestPacer {
    /// Requests may start from `now` on.
    pub fn new(interval: u64, now: u64) -> (out: RequestPacer)
        ensures
            out == (RequestPacer { next_start: now, interval }),
    {
        RequestPacer { next_start: now, interval }
    }

    /// Takes the next turn: how long to wait for it.
    pub fn take_turn(&mut self, now: u64) -> (out: u64)
        ensures
            out == later(old(self).next_start, now) - now,
            *final(self) == (RequestPacer {
                next_start: saturated_sum(
                    later(old(self).next_start, now) as int,
                    old(self).interval as int,
                ) as u64,
                interval: old(self).interval,
            }),
    {
        let start = if self.next_start > now {
            self.next_start
        } else {
            now
        };
        self.next_start = if start > u64::MAX - self.interval {
            u64::MAX
        } else {
            start + self.interval
        };
        start - now
    }
}

/// Two turns are at least the interval apart: a request that takes its turn after
/// another starts no earlier than the interval after it.
pub proof fn turns_are_apart(pacer: RequestPacer, first: u64, second: u64)
    requires
        first <= second,
        later(pacer.next_start, first) + pacer.interval <= u64::MAX,
    ensures
        ({
            let start = later(pacer.next_start, first);
            let next = saturated_sum(start as int, pacer.interval as int) as u64;
            later(next, second) >= start + pacer.interval
        }),
{
}

/// The number of questions asked at once: at least one, and no more than there are.
pub fn worker_count(jobs: usize, slots: usize) -> (out: usize)
    requires
        slots > 0,
    ensures
        out == (if jobs == 0 {
            1
        } else if jobs > slots {
            slots
        } else {
            jobs
        }),
        1 <= out <= slots,
{
    if jobs == 0 {
        1
    } else if jobs > slots {
        slots
    } else {
        jobs
    }
}

/// The slots that are to be asked again.
pub open spec fn retries_of(results: Seq<SlotModel>) -> Seq<(nat, Seq<char>)>
    decreases results.len(),
{
    if results.len() == 0 {
        seq![]
    } else {
        let rest = retries_of(results.drop_last());
        let last = results.last();
        if last.is_retryable() {
            rest.push((last.index, last.slot))
        } else {
            rest
        }
    }
}

/// The positions and names of listed slots.
pub open spec fn indexed_texts(slots: Seq<(usize, String)>) -> Seq<(nat, Seq<char>)> {
    slots.map_values(|slot: (usize, String)| (slot.0 as nat, slot.1@))
}

/// The slots that are to be asked again.
pub fn slots_to_retry(results: &Vec<SlotResult>) -> (out: Vec<(usize, String)>)
    ensures
        indexed_texts(out@) == retries_of(crate::usage::slot_models(results@)),
{
    let ghost all = crate::usage::slot_models(results@);
    let mut out: Vec<(usize, String)> = Vec::new();
    let mut i: usize = 0;
    proof {
        assert(all.take(0) =~= seq![]);
        assert(indexed_texts(out@) =~= seq![]);
    }
    while i < results.len()
        invariant
            i <= results.len(),
            all == crate::usage::slot_models(results@),
            indexed_texts(out@) == retries_of(all.take(i as int)),
        decreases results.len() - i,
    {
        proof {
            assert(all.take(i + 1).drop_last() =~= all.take(i as int));
            assert(all.take(i + 1).last() == results@[i as int]@);
        }
        if results[i].is_retryable_transient() {
            let ghost before = out@;
            out.push((results[i].index, results[i].slot.clone()));
            proof {
                assert(indexed_texts(out@) =~= indexed_texts(before).push(
                    (results@[i as int].index as nat, results@[i as int].slot@),
                ));
            }
        }
        i += 1;
    }
    proof {
        assert(all.take(results@.len() as int) =~= all);
    }
    out
}

/// `results` with each of `again` in the place that its position names.
pub open spec fn replaced(results: Seq<SlotModel>, again: Seq<SlotModel>) -> Seq<SlotModel>
    decreases again.len(),
{
    if again.len() == 0 {
        results
    } else {
        let rest = replaced(results, again.drop_last());
        let last = again.last();
        if last.index < rest.len() {
            rest.update(last.index as int, last)
        } else {
            rest
        }
    }
}

/// Puts each of `again` in the place that its position names.
pub fn merge_retries(results: &mut Vec<SlotResult>, again: Vec<SlotResult>)
    ensures
        crate::usage::slot_models(final(results)@) == replaced(
            crate::usage::slot_models(old(results)@),
            crate::usage::slot_models(again@),
        ),
{
    let ghost start = crate::usage::slot_models(results@);
    let ghost all = crate::usage::slot_models(again@);
    let mut i: usize = 0;
    proof {
        assert(all.take(0) =~= seq![]);
    }
    while i < again.len()
        invariant
            i <= again.len(),
            all == crate::usage::slot_models(again@),
            crate::usage::slot_models(results@) == replaced(start, all.take(i as int)),
        decreases again.len() - i,
    {
        let result = again[i].copy();
        let ghost before = results@;
        proof {
            assert(all.take(i + 1).drop_last() =~= all.take(i as int));
            assert(all.take(i + 1).last() == again@[i as int]@);
        }
        let index = result.index;
        if index < results.len() {
            results.set(index, result);
            proof {
                assert(crate::usage::slot_models(results@) =~= crate::usage::slot_models(
                    before,
                ).update(index as int, result@));
            }
        }
        i += 1;
    }
    proof {
        assert(all.take(again@.len() as int) =~= all);
    }
}

/// The order of positions.
pub open spec fn position_order() -> spec_fn(SlotModel, SlotModel) -> bool {
    |a: SlotModel, b: SlotModel| a.index < b.index
}

fn comes_earlier(a: &SlotResult, b: &SlotResult) -> (out: bool)
    ensures
        out == (a.index < b.index),
{
    a.index < b.index
}

/// Puts `results` in the order of their positions.
pub fn sort_by_index(results: Vec<SlotResult>) -> (out: Vec<SlotResult>)
    ensures
        crate::usage::slot_models(out@) == crate::sorting::sorted(
            crate::usage::slot_models(results@),
            position_order(),
        ),
{
    let ghost before = |a: SlotResult, b: SlotResult| a.index < b.index;
    proof {
        crate::sorting::sorting_goes_by_images(
            results@,
            before,
            |result: SlotResult| result@,
            position_order(),
        );
    }
    sort_items(results, comes_earlier, Ghost(before))
}

/// An answer shows that requests are limited if it says so, and not if slots are only
/// left alone for a while.
pub proof fn limits_are_seen(result: SlotModel)
    ensures
        result.refresh_status == Some("rate_limited"@) ==> shows_throttle(result),
        result.refresh_status is None && result.status == SlotStatus::RateLimited
            ==> shows_throttle(result),
        result.refresh_status == Some("cooldown"@) ==> !shows_throttle(result),
        result.refresh_status is None && result.status != SlotStatus::RateLimited
            ==> !shows_throttle(result),
{
    reveal_strlit("rate_limited");
    reveal_strlit("cooldown");
    assert("rate_limited"@.len() == 12 && "cooldown"@.len() == 8);
}

/// The wait of limited answers is the longest that any of them names.
pub proof fn longest_waits_count(results: Seq<SlotResult>, k: int)
    ensures
        0 <= k < results.len() && shows_throttle(results[k]@) ==> (
        results[k].retry_after_seconds matches Some(wait) ==> longest_wait(results) is Some
            && longest_wait(results)->0 >= wait),
        longest_wait(results) matches Some(longest) ==> exists|i: int|
            0 <= i < results.len() && shows_throttle((#[trigger] results[i])@)
                && results[i].retry_after_seconds == Some(longest),
    decreases results.len(),
{
    if results.len() > 0 {
        let rest = results.drop_last();
        longest_waits_count(rest, k);
        if 0 <= k < rest.len() {
            assert(rest[k] == results[k]);
        }
        match longest_wait(rest) {
            Some(wait) => {
                let i = choose|i: int|
                    0 <= i < rest.len() && shows_throttle((#[trigger] rest[i])@)
                        && rest[i].retry_after_seconds == Some(wait);
                assert(results[i] == rest[i]);
            },
            None => {},
        }
        assert(results[results.len() - 1] == results.last());
    }
}

/// Where requests are limited they start half as often as before, at least, and pause:
/// for as long as the server asks, or else for one, two, four, eight and at last sixteen
/// seconds.
pub proof fn limits_slow_requests_down(state: UsageRateState, results: Seq<SlotResult>, now: i64, k: int)
    requires
        0 <= k < results.len(),
        shows_throttle(results[k]@),
        in_range(state),
        0 <= now,
        now <= i64::MAX - 16,
        state.throttle_count < u64::MAX,
    ensures
        ({
            let next = recorded(state, results, now);
            &&& next.throttle_count == state.throttle_count + 1
            &&& next.successful_refreshes == 0
            &&& next.start_interval_ms >= 70
            &&& next.start_interval_ms == 750 || next.start_interval_ms >= 2
                * state.start_interval_ms
            &&& next.updated_at == now
            &&& results[k].retry_after_seconds is Some && now + results[k].retry_after_seconds->0
                <= i64::MAX ==> next.throttled_until is Some && next.throttled_until->0 >= now
                + results[k].retry_after_seconds->0
            &&& longest_wait(results) is None ==> next.throttled_until == Some(
                (now + (if state.throttle_count == 0 {
                    1int
                } else if state.throttle_count == 1 {
                    2
                } else if state.throttle_count == 2 {
                    4
                } else if state.throttle_count == 3 {
                    8
                } else {
                    16
                })) as i64,
            )
        }),
{
    assert(any_throttle(results));
    longest_waits_count(results, k);
}

/// Where all answers are good the pause ends, and for every four of them requests start
/// a little more often, but no more often than they may.
pub proof fn good_answers_speed_requests_up(interval: nat, successes: nat)
    requires
        interval >= MIN_START_INTERVAL_MS,
    ensures
        MIN_START_INTERVAL_MS <= recovered(interval, successes).0 <= interval,
        successes < 4 ==> recovered(interval, successes) == (interval, successes),
        successes >= 4 && interval >= 35 ==> recovered(interval, successes) == recovered(
            (interval - 20) as nat,
            (successes - 4) as nat,
        ),
        recovered(interval, successes).0 > MIN_START_INTERVAL_MS ==> recovered(
            interval,
            successes,
        ).1 < 4,
    decreases successes,
{
    if successes >= SUCCESS_RECOVERY_WINDOW && interval > MIN_START_INTERVAL_MS {
        let next = if interval < MIN_START_INTERVAL_MS + SUCCESS_INTERVAL_STEP_MS {
            MIN_START_INTERVAL_MS as nat
        } else {
            (interval - SUCCESS_INTERVAL_STEP_MS) as nat
        };
        good_answers_speed_requests_up(next, (successes - SUCCESS_RECOVERY_WINDOW) as nat);
    }
}

/// Answers that were asked for, none of which is limited or failed, end a pause and
/// forget past limits; one that failed ends the pause too but counts as no success.
pub proof fn answers_end_pauses(state: UsageRateState, results: Seq<SlotResult>, now: i64, k: int)
    requires
        !any_throttle(results),
        0 <= k < results.len(),
        results[k].cache_age_seconds is None,
    ensures
        recorded(state, results, now).throttled_until is None,
        recorded(state, results, now).throttle_count == 0,
        recorded(state, results, now).updated_at == now,
        results[k].status == SlotStatus::Error ==> recorded(state, results, now).start_interval_ms
            == state.start_interval_ms && recorded(state, results, now).successful_refreshes
            == state.successful_refreshes,
{
    lemma_live_count(results, k);
}

proof fn lemma_live_count(results: Seq<SlotResult>, k: int)
    requires
        0 <= k < results.len(),
        results[k].cache_age_seconds is None,
    ensures
        live_count(results) > 0,
    decreases results.len(),
{
    if k < results.len() - 1 {
        assert(results.drop_last()[k] == results[k]);
        lemma_live_count(results.drop_last(), k);
    }
}

/// A pause that is over is forgotten, one that is not is kept, and after a quarter of an
/// hour without requests everything else is forgotten too.
pub proof fn pauses_pass(state: UsageRateState, now: i64)
    ensures
        state.throttled_until matches Some(until) ==> (normalized(state, now).throttled_until
            == (if until > now {
            Some(until)
        } else {
            None
        })),
        state.throttled_until is None ==> normalized(state, now).throttled_until is None,
        state.throttled_until is None && now - state.updated_at > 900 ==> {
            let fresh = normalized(state, now);
            fresh.throttle_count == 0 && fresh.successful_refreshes == 0
                && fresh.start_interval_ms == DEFAULT_START_INTERVAL_MS
        },
        state.throttled_until matches Some(until) && until > now ==> normalized(
            state,
            now,
        ).throttle_count == state.throttle_count,
        0 <= now && 0 <= state.updated_at && now - state.updated_at <= 900 ==> normalized(
            state,
            now,
        ).successful_refreshes == state.successful_refreshes,
        state.throttled_until matches Some(until) ==> (until > now && until - now <= i64::MAX
            ==> state.pause_left(now) == Some((until - now) as i64)),
        state.throttled_until is None ==> state.pause_left(now) is None,
{
}

/// A slot is asked unless it answered half a minute ago at most, requests are limited, or
/// they pause. One that is asked again is not answered for from memory first.
pub proof fn slots_are_asked_when_they_may_be(
    cache: CachedUsageSlot,
    now: i64,
    slot: Seq<char>,
    index: nat,
    state: UsageRateState,
)
    requires
        cache.schema_version == 1,
        0 <= cache.fetched_at <= now,
    ensures
        ({
            let young = now - cache.fetched_at <= 30;
            let asked_first = answer_without_asking(
                Some(cache),
                now,
                slot,
                index,
                false,
                false,
                state,
            );
            let asked_again = answer_without_asking(
                Some(cache),
                now,
                slot,
                index,
                true,
                false,
                state,
            );
            &&& asked_first is None <==> !young && state.pause_left(now) is None
            &&& asked_again is None <==> state.pause_left(now) is None
            &&& young ==> asked_first is Some && !asked_first->0.stale
                && crate::selector::same_usage(asked_first->0, cache.result@)
            &&& answer_without_asking(Some(cache), now, slot, index, true, true, state) is Some
            &&& answer_without_asking(None, now, slot, index, false, false, state) is None
                <==> state.pause_left(now) is None
        }),
{
}

/// A reply with usage is the answer and is remembered; a reply that slots have no login is
/// the answer and is not; one that is limited or failed is answered for from memory where
/// that is young enough.
pub proof fn replies_are_settled(
    cache: Option<CachedUsageSlot>,
    now: i64,
    slot: Seq<char>,
    index: nat,
    reply: SlotModel,
)
    ensures
        ({
            let (answer, kept) = answer_to_reply(cache, now, slot, index, reply);
            &&& kept <==> reply.status == SlotStatus::Available || reply.status
                == SlotStatus::Exhausted
            &&& reply.status == SlotStatus::Available || reply.status == SlotStatus::Exhausted
                || reply.status == SlotStatus::NeedsLogin ==> answer == reply
            &&& reply.status == SlotStatus::RateLimited && cache is None ==> answer.status
                == SlotStatus::RateLimited && answer.retry_after_seconds
                == reply.retry_after_seconds && answer.slot == slot
            &&& reply.status == SlotStatus::Error && cache is None ==> answer == reply
            &&& (reply.status == SlotStatus::Error || reply.status == SlotStatus::RateLimited) && (
            cache matches Some(old_answer) && old_answer.schema_version == 1
                && crate::selector::saturated_difference(now, old_answer.fetched_at) <= 600)
                ==> answer.stale && crate::selector::same_usage(answer, cache->0.result@)
        }),
{
}

/// A slot is paused while the end of its pause lies ahead, and for as long; at its end
/// it is not.
pub proof fn pauses_end_in_time(state: UsageRateState, until: i64, now: i64)
    requires
        i64::MIN <= until - now <= i64::MAX,
    ensures
        state.throttled_until == Some(until) && until > now ==> state.pause_left(now) == Some(
            (until - now) as i64,
        ),
        state.throttled_until == Some(until) && until <= now ==> state.pause_left(now) is None,
        state.throttled_until is None ==> state.pause_left(now) is None,
{
}

} // verus!
