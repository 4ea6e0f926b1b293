//! Asking slots for their usage, and choosing the slot to use.

use std::collections::hash_map::DefaultHasher;
use std::hash::Hasher;
use vstd::prelude::*;
use vstd::std_specs::hash::DefaultHasherAdditionalSpecFns;

use crate::doubles::Double;
use crate::numbers::signed_decimal;
use crate::text::concat3;
use crate::text::same;
use crate::usage::SlotModel;
use crate::usage::SlotResult;
use crate::usage::SlotStatus;

verus! {

pub const DEFAULT_SLOT_QUERY_JOBS: usize = 8;

pub const DEFAULT_SLOT_QUERY_RETRIES: usize = 1;

/// The bits of the score of a slot that has none, which is less than nothing.
pub const NO_SCORE: u64 = 0xbff0_0000_0000_0000;

pub const USAGE_CACHE_SCHEMA_VERSION: u64 = 1;

pub const USAGE_CACHE_TTL_SECONDS: i64 = 30;

pub const USAGE_STALE_TTL_SECONDS: i64 = 600;

pub const RATE_STATE_SCHEMA_VERSION: u64 = 1;

pub const DEFAULT_START_INTERVAL_MS: u64 = 35;

pub const MIN_START_INTERVAL_MS: u64 = 15;

pub const MAX_START_INTERVAL_MS: u64 = 750;

pub const SUCCESS_RECOVERY_WINDOW: u64 = 4;

pub const SUCCESS_INTERVAL_STEP_MS: u64 = 20;

pub const MAX_THROTTLE_COOLDOWN_SECONDS: i64 = 30;

pub const RATE_STATE_IDLE_RESET_SECONDS: i64 = 900;

pub const RETRY_BACKOFF_BASE_MS: u64 = 250;

pub const RETRY_BACKOFF_CAP_MS: u64 = 2000;

/// What wants to know how far a query of many slots has come.
pub trait SlotQueryProgress {
    /// `_total` slots are about to be asked.
    fn started(&mut self, _total: usize) {
    }

    /// A slot has answered.
    fn slot_checked(&mut self, _result: &SlotResult) {
    }

    /// `_total` slots are about to be asked again.
    fn retry_started(&mut self, _attempt: usize, _total_attempts: usize, _total: usize) {
    }

    /// All slots have answered.
    fn finished(&mut self) {
    }
}

/// How slots are asked: the time to wait for an answer in seconds,
/// how many at once, and how often again.
#[derive(Clone, Copy, Debug, PartialEq, Eq, Structural)]
pub struct SlotQueryOptions {
    pub timeout: Double,
    pub jobs: usize,
    pub retries: usize,
}

impl SlotQueryOptions {
    /// At least one slot is asked at a time.
    pub fn new(timeout: Double, jobs: usize, retries: usize) -> (out: SlotQueryOptions)
        ensures
            out.timeout == timeout,
            out.retries == retries,
            out.jobs == (if jobs == 0 {
                1
            } else {
                jobs
            }),
    {
        SlotQueryOptions {
            timeout,
            jobs: if jobs == 0 {
                1
            } else {
                jobs
            },
            retries,
        }
    }
}

// ---------------------------------------------------------------------------
// Choosing
// ---------------------------------------------------------------------------

/// Whether `slot` is one of `excluded`.
pub open spec fn is_excluded(slot: Seq<char>, excluded: Seq<String>) -> bool {
    exists|i: int| 0 <= i < excluded.len() && (#[trigger] excluded[i])@ == slot
}

/// Whether `results[i]` is usable and not excluded.
pub open spec fn is_candidate(results: Seq<SlotResult>, excluded: Seq<String>, i: int) -> bool {
    0 <= i < results.len() && results[i]@.is_available() && !is_excluded(results[i]@.slot, excluded)
}

/// Whether `results[i]` could not be checked and is not excluded.
pub open spec fn is_fallback(results: Seq<SlotResult>, excluded: Seq<String>, i: int) -> bool {
    0 <= i < results.len() && results[i]@.is_transient() && !is_excluded(results[i]@.slot, excluded)
}

/// Whether `results[i]` is chosen over `results[j]`: the higher score first, then
/// the earlier slot.
pub open spec fn is_better(results: Seq<SlotResult>, i: int, j: int) -> bool {
    let a = results[i];
    let b = results[j];
    a.score.rank() > b.score.rank() || (a.score.rank() == b.score.rank() && is_earlier(
        results,
        i,
        j,
    ))
}

/// Whether `results[i]` comes before `results[j]` in the order asked for.
pub open spec fn is_earlier(results: Seq<SlotResult>, i: int, j: int) -> bool {
    results[i].index < results[j].index || (results[i].index == results[j].index && i < j)
}

/// Whether `results[i]` is the one to choose.
pub open spec fn is_choice(results: Seq<SlotResult>, excluded: Seq<String>, i: int) -> bool {
    if exists|j: int| is_candidate(results, excluded, j) {
        is_candidate(results, excluded, i) && forall|j: int|
            #[trigger] is_candidate(results, excluded, j) && j != i ==> is_better(results, i, j)
    } else {
        is_fallback(results, excluded, i) && forall|j: int|
            #[trigger] is_fallback(results, excluded, j) && j != i ==> is_earlier(results, i, j)
    }
}

fn excludes(excluded: &Vec<String>, slot: &str) -> (out: bool)
    ensures
        out == is_excluded(slot@, excluded@),
{
    let mut i: usize = 0;
    while i < excluded.len()
        invariant
            i <= excluded.len(),
            forall|j: int| 0 <= j < i ==> (#[trigger] excluded@[j])@ != slot@,
        decreases excluded.len() - i,
    {
        if same(excluded[i].as_str(), slot) {
            return true;
        }
        i += 1;
    }
    false
}

/// The position of the result to choose.
pub fn choose_index(results: &Vec<SlotResult>, excluded: &Vec<String>) -> (out: Option<usize>)
    ensures
        match out {
            Some(i) => is_choice(results@, excluded@, i as int) && i < results@.len(),
            None => forall|i: int| !#[trigger] is_choice(results@, excluded@, i),
        },
{
    let ghost all = results@;
    let ghost not = excluded@;
    let mut best: Option<usize> = None;
    let mut spare: Option<usize> = None;
    let mut i: usize = 0;
    while i < results.len()
        invariant
            i <= results.len(),
            all == results@,
            not == excluded@,
            match best {
                Some(b) => b < i && is_candidate(all, not, b as int) && forall|j: int|
                    0 <= j < i && #[trigger] is_candidate(all, not, j) && j != b ==> is_better(
                        all,
                        b as int,
                        j,
                    ),
                None => forall|j: int| 0 <= j < i ==> !#[trigger] is_candidate(all, not, j),
            },
            match spare {
                Some(b) => b < i && is_fallback(all, not, b as int) && forall|j: int|
                    0 <= j < i && #[trigger] is_fallback(all, not, j) && j != b ==> is_earlier(
                        all,
                        b as int,
                        j,
                    ),
                None => forall|j: int| 0 <= j < i ==> !#[trigger] is_fallback(all, not, j),
            },
        decreases results.len() - i,
    {
        let result = &results[i];
        if !excludes(excluded, result.slot.as_str()) {
            if result.is_available() {
                best = match best {
                    None => Some(i),
                    Some(b) => {
                        let held = &results[b];
                        let mine = result.score.order();
                        let other = held.score.order();
                        if mine > other || (mine == other && result.index < held.index) {
                            Some(i)
                        } else {
                            Some(b)
                        }
                    },
                };
            }
            if result.is_transient() {
                spare = match spare {
                    None => Some(i),
                    Some(b) => {
                        if result.index < results[b].index {
                            Some(i)
                        } else {
                            Some(b)
                        }
                    },
                };
            }
        }
        i += 1;
    }
    match best {
        Some(b) => {
            proof {
                assert(is_candidate(all, not, b as int));
            }
            Some(b)
        },
        None => {
            proof {
                assert forall|j: int| !is_candidate(all, not, j) by {}
            }
            spare
        },
    }
}

/// The result to choose among those whose slots are not excluded: the usable slot
/// with the highest score, or else the first slot that could not be checked.
pub fn choose_result_excluding<'a>(results: &'a Vec<SlotResult>, excluded: &Vec<String>) -> (out:
    Option<&'a SlotResult>)
    ensures
        match out {
            Some(result) => exists|i: int|
                is_choice(results@, excluded@, i) && 0 <= i < results@.len() && results@[i]
                    == *result,
            None => forall|i: int| !#[trigger] is_choice(results@, excluded@, i),
        },
{
    match choose_index(results, excluded) {
        Some(i) => {
            proof {
                assert(is_choice(results@, excluded@, i as int));
            }
            Some(&results[i])
        },
        None => None,
    }
}

/// The result to choose among all.
pub fn choose_result<'a>(results: &'a Vec<SlotResult>) -> (out: Option<&'a SlotResult>)
    ensures
        match out {
            Some(result) => exists|i: int|
                is_choice(results@, seq![], i) && 0 <= i < results@.len() && results@[i]
                    == *result,
            None => forall|i: int| !#[trigger] is_choice(results@, seq![], i),
        },
{
    let none: Vec<String> = Vec::new();
    proof {
        assert(none@ =~= seq![]);
    }
    choose_result_excluding(results, &none)
}

/// At most one result is the one to choose.
pub proof fn choice_is_unique(results: Seq<SlotResult>, excluded: Seq<String>, i: int, j: int)
    requires
        is_choice(results, excluded, i),
        is_choice(results, excluded, j),
    ensures
        i == j,
{
    if exists|k: int| is_candidate(results, excluded, k) {
        assert(is_candidate(results, excluded, i) && is_candidate(results, excluded, j));
    } else {
        assert(is_fallback(results, excluded, i) && is_fallback(results, excluded, j));
    }
}

/// Nothing is chosen only where no slot is usable and none failed to be checked.
pub proof fn some_slot_is_chosen(results: Seq<SlotResult>, excluded: Seq<String>, k: int)
    requires
        is_candidate(results, excluded, k) || is_fallback(results, excluded, k),
    ensures
        exists|i: int| is_choice(results, excluded, i),
    decreases results.len(),
{
    if exists|j: int| is_candidate(results, excluded, j) {
        let j = choose|j: int| is_candidate(results, excluded, j);
        let b = lemma_best_candidate(results, excluded, results.len() as int, j);
        assert(is_choice(results, excluded, b));
    } else {
        let b = lemma_first_fallback(results, excluded, results.len() as int, k);
        assert(is_choice(results, excluded, b));
    }
}

proof fn lemma_best_candidate(
    results: Seq<SlotResult>,
    excluded: Seq<String>,
    n: int,
    k: int,
) -> (b: int)
    requires
        0 <= k < n <= results.len(),
        is_candidate(results, excluded, k),
    ensures
        0 <= b < n,
        is_candidate(results, excluded, b),
        forall|j: int|
            0 <= j < n && #[trigger] is_candidate(results, excluded, j) && j != b ==> is_better(
                results,
                b,
                j,
            ),
    decreases n,
{
    if exists|j: int| 0 <= j < n - 1 && is_candidate(results, excluded, j) {
        let j = choose|j: int| 0 <= j < n - 1 && is_candidate(results, excluded, j);
        let b = lemma_best_candidate(results, excluded, n - 1, j);
        if is_candidate(results, excluded, n - 1) && is_better(results, n - 1, b) {
            n - 1
        } else {
            b
        }
    } else {
        k
    }
}

proof fn lemma_first_fallback(
    results: Seq<SlotResult>,
    excluded: Seq<String>,
    n: int,
    k: int,
) -> (b: int)
    requires
        0 <= k < n <= results.len(),
        is_fallback(results, excluded, k),
    ensures
        0 <= b < n,
        is_fallback(results, excluded, b),
        forall|j: int|
            0 <= j < n && #[trigger] is_fallback(results, excluded, j) && j != b ==> is_earlier(
                results,
                b,
                j,
            ),
    decreases n,
{
    if exists|j: int| 0 <= j < n - 1 && is_fallback(results, excluded, j) {
        let j = choose|j: int| 0 <= j < n - 1 && is_fallback(results, excluded, j);
        let b = lemma_first_fallback(results, excluded, n - 1, j);
        if is_fallback(results, excluded, n - 1) && is_earlier(results, n - 1, b) {
            n - 1
        } else {
            b
        }
    } else {
        k
    }
}

// ---------------------------------------------------------------------------
// Waiting before a retry
// ---------------------------------------------------------------------------

/// The longest wait before retry number `attempt`, in milliseconds.
pub open spec fn retry_cap_ms(attempt: nat) -> nat {
    if attempt == 0 {
        250
    } else if attempt == 1 {
        500
    } else if attempt == 2 {
        1000
    } else {
        2000
    }
}

/// The longest wait before retry number `attempt`, in milliseconds.
pub fn retry_cap(attempt: usize) -> (out: u64)
    ensures
        out == retry_cap_ms(attempt as nat),
        RETRY_BACKOFF_BASE_MS <= out <= RETRY_BACKOFF_CAP_MS,
{
    let shift: usize = if attempt > 8 {
        8
    } else {
        attempt
    };
    let mut cap: u64 = RETRY_BACKOFF_BASE_MS;
    let mut i: usize = 0;
    while i < shift && cap < RETRY_BACKOFF_CAP_MS
        invariant
            i <= shift <= 8,
            shift == (if attempt > 8 {
                8
            } else {
                attempt
            }),
            cap == retry_cap_ms(i as nat),
        decreases shift - i,
    {
        cap = cap * 2;
        i += 1;
    }
    cap
}

/// A number that differs from slot to slot, attempt to attempt and second to
/// second: what the hasher of std makes of all three.
pub open spec fn scattered(slot: Seq<char>, attempt: usize, now: i64) -> u64 {
    DefaultHasher::spec_finish(
        seq![
            vstd::utf8::encode_utf8(slot),
            seq![0xffu8],
            vstd::bytes::spec_u64_to_le_bytes(attempt as u64),
            vstd::bytes::spec_u64_to_le_bytes(now as u64),
        ],
    )
}

fn scatter(slot: &str, attempt: usize, now: i64) -> (out: u64)
    ensures
        out == scattered(slot@, attempt, now),
{
    let mut hasher = DefaultHasher::new();
    let end: [u8; 1] = [0xff];
    hasher.write(slot.as_bytes());
    hasher.write(end.as_slice());
    hasher.write(vstd::bytes::u64_to_le_bytes(attempt as u64).as_slice());
    hasher.write(vstd::bytes::u64_to_le_bytes(now as u64).as_slice());
    proof {
        assert(end@ =~= seq![0xffu8]);
        assert(hasher@ =~= seq![
            vstd::utf8::encode_utf8(slot@),
            seq![0xffu8],
            vstd::bytes::spec_u64_to_le_bytes(attempt as u64),
            vstd::bytes::spec_u64_to_le_bytes(now as u64),
        ]);
    }
    hasher.finish()
}

/// `seed` brought into the range of zero to `cap`.
pub fn jitter_millis(seed: u64, cap: u64) -> (out: u64)
    ensures
        out <= cap,
        out == (if cap == u64::MAX {
            seed as int
        } else {
            seed as int % (cap + 1)
        }),
{
    if cap == u64::MAX {
        seed
    } else {
        seed % (cap + 1)
    }
}

/// How long to wait before retry number `attempt` of `slot`, in milliseconds.
pub open spec fn delay_before(slot: Seq<char>, attempt: usize, now: i64) -> int {
    scattered(slot, attempt, now) as int % (retry_cap_ms(attempt as nat) + 1) as int
}

/// How long to wait before retry number `attempt` of `slot`, in milliseconds.
pub fn retry_delay(slot: &str, attempt: usize, now: i64) -> (out: u64)
    ensures
        out == delay_before(slot@, attempt, now),
        out <= retry_cap_ms(attempt as nat),
{
    jitter_millis(scatter(slot, attempt, now), retry_cap(attempt))
}

// ---------------------------------------------------------------------------
// Remembered results
// ---------------------------------------------------------------------------

/// A remembered result and when it was fetched.
pub struct CachedUsageSlot {
    pub schema_version: u64,
    pub fetched_at: i64,
    pub result: SlotResult,
}

/// `a - b`, kept within the range of `i64`.
pub open spec fn saturated_difference(a: i64, b: i64) -> int {
    if a - b > i64::MAX {
        i64::MAX as int
    } else if a - b < i64::MIN {
        i64::MIN as int
    } else {
        a - b
    }
}

/// `a - b`, kept within the range of `i64`.
pub fn saturating_difference(a: i64, b: i64) -> (out: i64)
    ensures
        out == saturated_difference(a, b),
{
    match a.checked_sub(b) {
        Some(d) => d,
        None => if b < 0 {
            i64::MAX
        } else {
            i64::MIN
        },
    }
}

/// The remembered result, unless there is none in the current format that is at
/// most `max_age` seconds old.
pub open spec fn recalled(
    cache: Option<CachedUsageSlot>,
    now: i64,
    index: nat,
    max_age: int,
    stale: bool,
    refresh_status: Option<Seq<char>>,
    retry_after: Option<i64>,
) -> Option<SlotModel> {
    match cache {
        Some(cached) if cached.schema_version == USAGE_CACHE_SCHEMA_VERSION
            && saturated_difference(now, cached.fetched_at) <= max_age => Some(
            cached.result@.cached(
                index,
                saturated_difference(now, cached.fetched_at) as i64,
                stale,
                refresh_status,
                retry_after,
            ),
        ),
        _ => None,
    }
}

/// The model held by an optional result.
pub open spec fn opt_slot(result: Option<SlotResult>) -> Option<SlotModel> {
    match result {
        Some(known) => Some(known@),
        None => None,
    }
}

/// The remembered result, if it is young enough.
pub fn cached_result(
    cache: &Option<CachedUsageSlot>,
    now: i64,
    index: usize,
    max_age: i64,
    stale: bool,
    refresh_status: Option<String>,
    retry_after: Option<i64>,
) -> (out: Option<SlotResult>)
    ensures
        opt_slot(out) == recalled(
            *cache,
            now,
            index as nat,
            max_age as int,
            stale,
            crate::text::opt_text(refresh_status),
            retry_after,
        ),
{
    match cache {
        None => None,
        Some(cached) => {
            if cached.schema_version != USAGE_CACHE_SCHEMA_VERSION {
                return None;
            }
            let age = saturating_difference(now, cached.fetched_at);
            if age > max_age {
                return None;
            }
            Some(
                cached.result.copy().mark_cached(index, age, stale, refresh_status, retry_after),
            )
        },
    }
}

/// The remembered result, if it is fresh.
pub fn fresh(cache: &Option<CachedUsageSlot>, now: i64, index: usize) -> (out: Option<SlotResult>)
    ensures
        opt_slot(out) == recalled(
            *cache,
            now,
            index as nat,
            USAGE_CACHE_TTL_SECONDS as int,
            false,
            None,
            None,
        ),
{
    cached_result(cache, now, index, USAGE_CACHE_TTL_SECONDS, false, None, None)
}

/// The answer for a slot that must not be asked because of a rate limit.
pub open spec fn rate_limited_answer(
    cache: Option<CachedUsageSlot>,
    now: i64,
    slot: Seq<char>,
    index: nat,
    retry_after: Option<i64>,
) -> SlotModel {
    match recalled(
        cache,
        now,
        index,
        USAGE_STALE_TTL_SECONDS as int,
        true,
        Some("rate_limited"@),
        retry_after,
    ) {
        Some(result) => result,
        None => {
            let summary = match retry_after {
                Some(seconds) => "usage refresh rate limited; retry after "@
                    + crate::numbers::signed_decimal_of(seconds as int) + "s"@,
                None => "usage refresh rate limited"@,
            };
            SlotModel {
                retry_after_seconds: retry_after,
                ..SlotModel::fresh(slot, index, SlotStatus::RateLimited, Double { bits: NO_SCORE }, summary)
            }
        },
    }
}

/// The answer for a slot that must not be asked because of a rate limit.
pub fn stale_or_rate_limited(
    cache: &Option<CachedUsageSlot>,
    now: i64,
    slot: &str,
    index: usize,
    retry_after: Option<i64>,
) -> (out: SlotResult)
    ensures
        out@ == rate_limited_answer(*cache, now, slot@, index as nat, retry_after),
{
    let status = String::from_str("rate_limited");
    match cached_result(
        cache,
        now,
        index,
        USAGE_STALE_TTL_SECONDS,
        true,
        Some(status),
        retry_after,
    ) {
        Some(result) => result,
        None => {
            let summary = match retry_after {
                Some(seconds) => concat3(
                    "usage refresh rate limited; retry after ",
                    signed_decimal(seconds).as_str(),
                    "s",
                ),
                None => String::from_str("usage refresh rate limited"),
            };
            SlotResult::new(slot, index, SlotStatus::RateLimited, Double { bits: NO_SCORE }, summary.as_str())
                .with_retry_after_seconds(retry_after)
        },
    }
}

/// The answer for a slot while nothing is asked for `retry_after` seconds.
pub open spec fn cooldown_answer(
    cache: Option<CachedUsageSlot>,
    now: i64,
    slot: Seq<char>,
    index: nat,
    retry_after: i64,
) -> SlotModel {
    match recalled(
        cache,
        now,
        index,
        USAGE_STALE_TTL_SECONDS as int,
        true,
        Some("cooldown"@),
        Some(retry_after),
    ) {
        Some(result) => result,
        None => {
            let summary = "usage refresh paused; retry after "@
                + crate::numbers::signed_decimal_of(retry_after as int) + "s"@;
            SlotModel {
                retry_after_seconds: Some(retry_after),
                refresh_status: Some("cooldown"@),
                ..SlotModel::fresh(slot, index, SlotStatus::RateLimited, Double { bits: NO_SCORE }, summary)
            }
        },
    }
}

/// The answer for a slot while nothing is asked for `retry_after` seconds.
pub fn stale_or_cooldown(
    cache: &Option<CachedUsageSlot>,
    now: i64,
    slot: &str,
    index: usize,
    retry_after: i64,
) -> (out: SlotResult)
    ensures
        out@ == cooldown_answer(*cache, now, slot@, index as nat, retry_after),
{
    let status = String::from_str("cooldown");
    match cached_result(
        cache,
        now,
        index,
        USAGE_STALE_TTL_SECONDS,
        true,
        Some(status),
        Some(retry_after),
    ) {
        Some(result) => result,
        None => {
            let summary = concat3(
                "usage refresh paused; retry after ",
                signed_decimal(retry_after).as_str(),
                "s",
            );
            SlotResult::new(slot, index, SlotStatus::RateLimited, Double { bits: NO_SCORE }, summary.as_str())
                .with_retry_after_seconds(Some(retry_after)).with_refresh_status("cooldown")
        },
    }
}

/// The answer for a slot whose usage could not be fetched.
pub open spec fn refresh_error_answer(
    cache: Option<CachedUsageSlot>,
    now: i64,
    index: nat,
    error: SlotModel,
) -> SlotModel {
    match recalled(
        cache,
        now,
        index,
        USAGE_STALE_TTL_SECONDS as int,
        true,
        Some(error.status.name()),
        None,
    ) {
        Some(result) => result,
        None => error,
    }
}

/// The answer for a slot whose usage could not be fetched.
pub fn stale_or_refresh_error(
    cache: &Option<CachedUsageSlot>,
    now: i64,
    index: usize,
    error: SlotResult,
) -> (out: SlotResult)
    ensures
        out@ == refresh_error_answer(*cache, now, index as nat, error@),
{
    let status = String::from_str(error.status.as_str());
    match cached_result(cache, now, index, USAGE_STALE_TTL_SECONDS, true, Some(status), None) {
        Some(result) => result,
        None => error,
    }
}

/// What is remembered of a result.
pub fn to_remember(result: &SlotResult, now: i64) -> (out: CachedUsageSlot)
    ensures
        out.schema_version == USAGE_CACHE_SCHEMA_VERSION,
        out.fetched_at == now,
        out.result@ == result@.for_cache(),
{
    CachedUsageSlot {
        schema_version: USAGE_CACHE_SCHEMA_VERSION,
        fetched_at: now,
        result: result.copy().for_cache(),
    }
}

/// Whether `a` and `b` say the same about the usage of the same slot.
pub open spec fn same_usage(a: SlotModel, b: SlotModel) -> bool {
    &&& a.slot == b.slot
    &&& a.status == b.status
    &&& a.score == b.score
    &&& a.summary == b.summary
    &&& a.account_label == b.account_label
    &&& a.five_hour_used == b.five_hour_used
    &&& a.five_hour_refresh_at == b.five_hour_refresh_at
    &&& a.weekly_used == b.weekly_used
    &&& a.weekly_refresh_at == b.weekly_refresh_at
}

/// Usage that was remembered is recalled as it was until it is too old, with its age,
/// and not at all after that.
pub proof fn usage_is_remembered_for_a_while(
    cache: CachedUsageSlot,
    result: SlotModel,
    now: i64,
    index: nat,
    max_age: int,
    stale: bool,
    refresh_status: Option<Seq<char>>,
    retry_after: Option<i64>,
)
    requires
        cache.schema_version == USAGE_CACHE_SCHEMA_VERSION,
        cache.result@ == result.for_cache(),
        cache.fetched_at <= now,
        now - cache.fetched_at <= i64::MAX,
    ensures
        ({
            let found = recalled(
                Some(cache),
                now,
                index,
                max_age,
                stale,
                refresh_status,
                retry_after,
            );
            &&& found is Some <==> now - cache.fetched_at <= max_age
            &&& found matches Some(again) ==> same_usage(again, result) && again.index == index
                && again.stale == stale && again.cache_age_seconds == Some(
                (now - cache.fetched_at) as i64,
            )
        }),
{
}

/// Whether a result is for none of the excluded slots.
pub open spec fn is_allowed(results: Seq<SlotResult>, excluded: Seq<String>, i: int) -> bool {
    0 <= i < results.len() && forall|k: int|
        0 <= k < excluded.len() ==> (#[trigger] excluded[k])@ != results[i]@.slot
}

/// The slot that is chosen is available and not excluded, and none such has a higher
/// score; of those with its score it comes first.
pub proof fn best_slots_are_chosen(results: Seq<SlotResult>, excluded: Seq<String>, i: int, j: int)
    requires
        is_choice(results, excluded, i),
        is_allowed(results, excluded, j),
        results[j].status == SlotStatus::Available,
    ensures
        is_allowed(results, excluded, i),
        results[i].status == SlotStatus::Available,
        results[j].score.rank() <= results[i].score.rank(),
        results[j].score.rank() == results[i].score.rank() ==> results[i].index
            <= results[j].index,
{
    assert(is_candidate(results, excluded, j));
    assert(is_candidate(results, excluded, i));
    assert(!is_excluded(results[i]@.slot, excluded));
    if i != j {
        assert(is_better(results, i, j));
    }
}

/// Where no slot is available, the first one that could not be checked is chosen; one
/// without anything left or without a login is never chosen.
pub proof fn unchecked_slots_stand_in(results: Seq<SlotResult>, excluded: Seq<String>, i: int, j: int)
    requires
        is_choice(results, excluded, i),
        forall|k: int|
            is_allowed(results, excluded, k) ==> (#[trigger] results[k]).status
                != SlotStatus::Available,
    ensures
        is_allowed(results, excluded, i),
        results[i].status == SlotStatus::Error || results[i].status == SlotStatus::RateLimited,
        is_allowed(results, excluded, j) && (results[j].status == SlotStatus::Error
            || results[j].status == SlotStatus::RateLimited) ==> results[i].index
            <= results[j].index,
{
    assert forall|k: int| !is_candidate(results, excluded, k) by {
        if is_candidate(results, excluded, k) {
            assert(is_allowed(results, excluded, k)) by {
                assert(!is_excluded(results[k]@.slot, excluded));
            }
            assert(results[k].status == SlotStatus::Available);
        }
    }
    assert(is_fallback(results, excluded, i));
    assert(!is_excluded(results[i]@.slot, excluded));
    if is_allowed(results, excluded, j) && (results[j].status == SlotStatus::Error
        || results[j].status == SlotStatus::RateLimited) {
        assert(is_fallback(results, excluded, j));
        if i != j {
            assert(is_earlier(results, i, j));
        }
    }
}

/// A slot is chosen where one is available or could not be checked, and not excluded;
/// nowhere else.
pub proof fn slots_are_chosen_where_any_will_do(results: Seq<SlotResult>, excluded: Seq<String>, k: int)
    ensures
        is_allowed(results, excluded, k) && results[k].status != SlotStatus::Exhausted
            && results[k].status != SlotStatus::NeedsLogin ==> exists|i: int|
            is_choice(results, excluded, i),
        is_choice(results, excluded, k) ==> 0 <= k < results.len() && results[k].status
            != SlotStatus::Exhausted && results[k].status != SlotStatus::NeedsLogin,
{
    if is_allowed(results, excluded, k) && results[k].status != SlotStatus::Exhausted
        && results[k].status != SlotStatus::NeedsLogin {
        assert(!is_excluded(results[k]@.slot, excluded));
        some_slot_is_chosen(results, excluded, k);
    }
}

/// The longest delay before a slot is asked again doubles with each attempt, from a
/// quarter of a second up to two seconds.
pub proof fn delays_double(attempt: nat, slot: Seq<char>, again: usize, now: i64)
    ensures
        retry_cap_ms(0) == 250,
        retry_cap_ms(attempt) <= 2000,
        retry_cap_ms(attempt + 1) == (if 2 * retry_cap_ms(attempt) > 2000 {
            2000
        } else {
            2 * retry_cap_ms(attempt)
        }),
        0 <= delay_before(slot, again, now) <= retry_cap_ms(again as nat),
{
}

/// A slot whose usage cannot be asked for is answered for from memory, as stale, for ten
/// minutes; after that it counts as limited, with the time to wait.
pub proof fn old_answers_stand_in(
    cache: Option<CachedUsageSlot>,
    now: i64,
    slot: Seq<char>,
    index: nat,
    retry_after: Option<i64>,
    wait: i64,
    error: SlotModel,
)
    ensures
        ({
            let limited = rate_limited_answer(cache, now, slot, index, retry_after);
            let paused = cooldown_answer(cache, now, slot, index, wait);
            let failed = refresh_error_answer(cache, now, index, error);
            let known = cache matches Some(kept) && kept.schema_version == 1
                && saturated_difference(now, kept.fetched_at) <= 600;
            &&& known ==> {
                let kept = cache->0.result@;
                &&& same_usage(limited, kept) && limited.stale && limited.index == index
                &&& same_usage(paused, kept) && paused.stale && paused.index == index
                &&& same_usage(failed, kept) && failed.stale && failed.index == index
                &&& limited.refresh_status == Some("rate_limited"@)
                &&& paused.refresh_status == Some("cooldown"@)
                &&& failed.refresh_status == Some(error.status.name())
            }
            &&& !known ==> {
                &&& limited.slot == slot && limited.index == index && !limited.stale
                &&& limited.status == SlotStatus::RateLimited
                &&& paused.slot == slot && paused.index == index && !paused.stale
                &&& paused.status == SlotStatus::RateLimited
                &&& paused.refresh_status == Some("cooldown"@)
                &&& failed == error
            }
            &&& limited.retry_after_seconds == retry_after
            &&& paused.retry_after_seconds == Some(wait)
        }),
{
}

/// What is remembered of a slot is its usage, and nothing about how it was asked.
pub proof fn memories_hold_usage(result: SlotModel)
    ensures
        same_usage(result.for_cache(), result),
        !result.for_cache().stale,
        result.for_cache().refresh_status is None,
        result.for_cache().retry_after_seconds is None,
        result.for_cache().cache_age_seconds is None,
{
}

} // verus!
