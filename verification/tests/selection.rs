//! Choosing slots, remembering usage and pacing requests.

use std::collections::hash_map::DefaultHasher;
use std::hash::Hash;
use std::hash::Hasher;

use cx::doubles::Double;
use cx::entry::chosen_slot;
use cx::entry::select_outcome;
use cx::entry::sort_by_score_desc;
use cx::entry::sort_results;
use cx::entry::SelectOutcome;
use cx::cli::StatusSort;
use cx::query::query_slots_with_progress;
use cx::query::QueryStep;
use cx::rates::merge_retries;
use cx::rates::plan_query;
use cx::rates::settle_query;
use cx::rates::slots_to_retry;
use cx::rates::sort_by_index;
use cx::rates::worker_count;
use cx::rates::QueryPlan;
use cx::rates::RequestPacer;
use cx::rates::UsageRateState;
use cx::run::choose_launch_result;
use cx::selector::choose_result;
use cx::selector::choose_result_excluding;
use cx::selector::fresh;
use cx::selector::jitter_millis;
use cx::selector::retry_delay;
use cx::selector::stale_or_cooldown;
use cx::selector::stale_or_rate_limited;
use cx::selector::stale_or_refresh_error;
use cx::selector::to_remember;
use cx::selector::CachedUsageSlot;
use cx::selector::SlotQueryOptions;
use cx::selector::DEFAULT_START_INTERVAL_MS;
use cx::selector::MAX_START_INTERVAL_MS;
use cx::selector::RATE_STATE_IDLE_RESET_SECONDS;
use cx::selector::SUCCESS_INTERVAL_STEP_MS;
use cx::selector::SUCCESS_RECOVERY_WINDOW;
use cx::selector::RETRY_BACKOFF_BASE_MS;
use cx::selector::RETRY_BACKOFF_CAP_MS;
use cx::usage::SlotResult;
use cx::usage::SlotStatus;

const NOW: i64 = 1_700_000_000;

fn percent(value: i64) -> Double {
    Double { bits: (value as f64).to_bits() }
}

fn cached(slot: &str, index: usize) -> Option<CachedUsageSlot> {
    let result = SlotResult::new(slot, index, SlotStatus::Available, percent(75), "cached");
    Some(to_remember(&result, NOW))
}

#[test]
fn chooses_highest_remaining_slot() {
    let results = vec![
        SlotResult::new("busy", 0, SlotStatus::Available, percent(20), "busy"),
        SlotResult::new("fresh", 1, SlotStatus::Available, percent(90), "fresh"),
        SlotResult::new("done", 2, SlotStatus::Exhausted, percent(100), "done"),
    ];

    assert_eq!(choose_result(&results).map(|result| result.slot.as_str()), Some("fresh"));
}

#[test]
fn falls_back_to_transient_when_every_live_slot_failed_to_check() {
    let results = vec![
        SlotResult::new("bad-auth", 0, SlotStatus::NeedsLogin, percent(-1), "bad"),
        SlotResult::new("network", 1, SlotStatus::Error, percent(-1), "offline"),
    ];

    assert_eq!(choose_result(&results).map(|result| result.slot.as_str()), Some("network"));
}

#[test]
fn excludes_current_and_cooldown_slots() {
    let results = vec![
        SlotResult::new("current", 0, SlotStatus::Available, percent(100), "current"),
        SlotResult::new("cooldown", 1, SlotStatus::Available, percent(90), "cooldown"),
        SlotResult::new("next", 2, SlotStatus::Available, percent(80), "next"),
    ];
    let excluded = vec![String::from("current"), String::from("cooldown")];

    assert_eq!(
        choose_result_excluding(&results, &excluded).map(|result| result.slot.as_str()),
        Some("next")
    );
}

#[test]
fn excludes_transient_slots_too() {
    let results = vec![
        SlotResult::new("current", 0, SlotStatus::Error, percent(-1), "offline"),
        SlotResult::new("network", 1, SlotStatus::Error, percent(-1), "offline"),
    ];
    let excluded = vec![String::from("current")];

    assert_eq!(
        choose_result_excluding(&results, &excluded).map(|result| result.slot.as_str()),
        Some("network")
    );
}

#[test]
fn plain_slot_selection_still_uses_usage_score() {
    let results = vec![
        SlotResult::new("bus1", 0, SlotStatus::Available, percent(95), "fresh"),
        SlotResult::new("dia7", 1, SlotStatus::Available, percent(10), "lower score"),
    ];

    assert_eq!(
        choose_launch_result(&results).map(|result| result.slot.as_str()),
        Some("bus1")
    );
}

#[test]
fn nothing_is_chosen_where_no_slot_can_be_used() {
    let results = vec![
        SlotResult::new("a", 0, SlotStatus::Exhausted, percent(0), "empty"),
        SlotResult::new("b", 1, SlotStatus::NeedsLogin, percent(-1), "login"),
    ];
    assert!(choose_result(&results).is_none());
    assert_eq!(chosen_slot(&results), None);
    match select_outcome(&results) {
        SelectOutcome::Nothing { lines, error } => {
            assert_eq!(lines[0], "cx: no available slots");
            assert_eq!(lines.len(), 3);
            assert_eq!(error, "no available slot");
        }
        SelectOutcome::Chosen { slot } => panic!("{slot} was chosen"),
    }
}

#[test]
fn equal_scores_are_settled_by_the_order_of_the_slots() {
    let results = vec![
        SlotResult::new("late", 1, SlotStatus::Available, percent(50), "same"),
        SlotResult::new("early", 0, SlotStatus::Available, percent(50), "same"),
    ];
    match select_outcome(&results) {
        SelectOutcome::Chosen { slot } => assert_eq!(slot, "early"),
        SelectOutcome::Nothing { .. } => panic!("nothing was chosen"),
    }
}

#[test]
fn status_lists_the_best_slots_first() {
    let results = || {
        vec![
            SlotResult::new("low", 0, SlotStatus::Available, percent(10), ""),
            SlotResult::new("high", 1, SlotStatus::Available, percent(90), ""),
            SlotResult::new("same", 2, SlotStatus::Available, percent(10), ""),
        ]
    };
    let names = |list: Vec<SlotResult>| list.into_iter().map(|r| r.slot).collect::<Vec<_>>();
    assert_eq!(names(sort_by_score_desc(results())), vec!["high", "low", "same"]);
    assert_eq!(names(sort_results(results(), StatusSort::Score)), vec!["high", "low", "same"]);
    assert_eq!(names(sort_results(results(), StatusSort::Rotation)), vec!["low", "high", "same"]);
}

#[test]
fn query_options_clamp_jobs_to_one() {
    assert_eq!(SlotQueryOptions::new(percent(2), 0, 1).jobs, 1);
}

#[test]
fn retry_delay_uses_full_jitter_with_attempt_cap() {
    assert!(retry_delay("bus1", 0, NOW) <= RETRY_BACKOFF_BASE_MS);
    assert!(retry_delay("bus1", 8, NOW) <= RETRY_BACKOFF_CAP_MS);
}

#[test]
fn jitter_is_a_remainder() {
    assert_eq!(jitter_millis(1003, 250), 1003 % 251);
    assert_eq!(jitter_millis(7, 0), 0);
}

#[test]
fn retry_delays_depend_on_the_moment() {
    let delays: Vec<u64> = (0..64).map(|n| retry_delay("bus1", 8, NOW + n)).collect();
    assert!(delays.iter().any(|delay| *delay != delays[0]));
}

#[test]
fn usage_cache_is_per_slot_and_marks_fresh_results() {
    let cache = cached("bus1", 7);

    let found = fresh(&cache, NOW, 3).expect("fresh slot cache");
    assert_eq!(found.slot, "bus1");
    assert_eq!(found.index, 3);
    assert_eq!(found.status, SlotStatus::Available);
    assert_eq!(found.cache_age_seconds, Some(0));
    assert!(!found.stale);
    assert!(fresh(&None, NOW, 4).is_none());
}

#[test]
fn usage_cache_can_fallback_to_stale_on_rate_limit() {
    let stale = stale_or_rate_limited(&cached("bus1", 0), NOW, "bus1", 2, Some(4));

    assert_eq!(stale.status, SlotStatus::Available);
    assert_eq!(stale.index, 2);
    assert!(stale.stale);
    assert_eq!(stale.refresh_status.as_deref(), Some("rate_limited"));
    assert_eq!(stale.retry_after_seconds, Some(4));
}

#[test]
fn usage_cache_can_fallback_to_stale_on_transient_error() {
    let error = SlotResult::new("bus1", 2, SlotStatus::Error, percent(-1), "offline");
    let stale = stale_or_refresh_error(&cached("bus1", 0), NOW, 2, error);

    assert_eq!(stale.status, SlotStatus::Available);
    assert!(stale.stale);
    assert_eq!(stale.refresh_status.as_deref(), Some("error"));
}

#[test]
fn remembered_usage_grows_old() {
    assert!(fresh(&cached("bus1", 0), NOW + 30, 0).is_some());
    assert!(fresh(&cached("bus1", 0), NOW + 31, 0).is_none());
    let late = stale_or_rate_limited(&cached("bus1", 0), NOW + 601, "bus1", 0, Some(9));
    assert_eq!(late.status, SlotStatus::RateLimited);
    assert_eq!(late.summary, "usage refresh rate limited; retry after 9s");
    let paused = stale_or_cooldown(&None, NOW, "bus1", 0, 5);
    assert_eq!(paused.summary, "usage refresh paused; retry after 5s");
    assert_eq!(paused.refresh_status.as_deref(), Some("cooldown"));
}

#[test]
fn rate_state_uses_multiplicative_decrease_and_additive_recovery() {
    let mut state = UsageRateState::initial(NOW);
    let throttled = SlotResult::new("bus1", 0, SlotStatus::RateLimited, percent(-1), "limited")
        .with_retry_after_seconds(Some(3));

    state.record_results(&vec![throttled], NOW);

    assert_eq!(state.start_interval_ms, DEFAULT_START_INTERVAL_MS * 2);
    assert!(matches!(state.cooldown_remaining(NOW), Some(1..=3)));

    state.throttled_until = None;
    let successes = (0..SUCCESS_RECOVERY_WINDOW)
        .map(|index| {
            SlotResult::new(
                &format!("bus{index}"),
                index as usize,
                SlotStatus::Available,
                percent(90),
                "ok",
            )
        })
        .collect::<Vec<_>>();
    state.record_results(&successes, NOW);

    assert_eq!(
        state.start_interval_ms,
        DEFAULT_START_INTERVAL_MS * 2 - SUCCESS_INTERVAL_STEP_MS
    );
    assert_eq!(state.throttle_count, 0);
}

#[test]
fn rate_state_idle_reset_prevents_permanent_slowdown() {
    let mut state = UsageRateState {
        start_interval_ms: MAX_START_INTERVAL_MS,
        updated_at: NOW - RATE_STATE_IDLE_RESET_SECONDS - 1,
        throttle_count: 4,
        successful_refreshes: 3,
        ..UsageRateState::initial(NOW)
    };

    state.normalize(NOW);

    assert_eq!(state.start_interval_ms, DEFAULT_START_INTERVAL_MS);
    assert_eq!(state.throttle_count, 0);
    assert_eq!(state.successful_refreshes, 0);
}

#[test]
fn rate_state_without_throttle_debt_uses_aggressive_default() {
    let mut state = UsageRateState {
        start_interval_ms: DEFAULT_START_INTERVAL_MS * 3,
        updated_at: NOW,
        throttle_count: 0,
        throttled_until: None,
        ..UsageRateState::initial(NOW)
    };

    state.normalize(NOW);

    assert_eq!(state.start_interval_ms, DEFAULT_START_INTERVAL_MS);
}

#[test]
fn rate_state_preserves_recent_throttle_slowdown() {
    let mut state = UsageRateState {
        start_interval_ms: DEFAULT_START_INTERVAL_MS * 3,
        updated_at: NOW,
        throttle_count: 1,
        throttled_until: None,
        ..UsageRateState::initial(NOW)
    };

    state.normalize(NOW);

    assert_eq!(state.start_interval_ms, DEFAULT_START_INTERVAL_MS * 3);
}

#[test]
fn kept_rates_of_another_version_are_dropped() {
    let other = UsageRateState { schema_version: 9, ..UsageRateState::initial(NOW) };
    let state = UsageRateState::load(Some(other), NOW + 5);
    assert_eq!(state.updated_at, NOW + 5);
    assert_eq!(state.start_interval(), DEFAULT_START_INTERVAL_MS);
}

#[test]
fn recording_only_remembered_results_changes_nothing() {
    let mut state = UsageRateState::initial(NOW);
    state.throttle_count = 2;
    let remembered = fresh(&cached("bus1", 0), NOW, 0).expect("remembered");
    state.record_results(&vec![remembered], NOW + 100);
    assert_eq!(state.throttle_count, 2);
    assert_eq!(state.updated_at, NOW);
}

#[test]
fn slots_are_asked_only_where_nothing_is_known() {
    let state = UsageRateState::initial(NOW);
    match plan_query(&cached("bus1", 0), NOW, "bus1", 4, None, false, &state) {
        QueryPlan::Answer(result) => assert_eq!(result.index, 4),
        QueryPlan::Ask(_) => panic!("asked though usage is remembered"),
    }
    match plan_query(&None, NOW, "bus1", 4, None, false, &state) {
        QueryPlan::Ask(delay) => assert_eq!(delay, None),
        QueryPlan::Answer(_) => panic!("answered out of nothing"),
    }
    match plan_query(&cached("bus1", 0), NOW, "bus1", 4, Some(1), false, &state) {
        QueryPlan::Ask(delay) => assert!(delay.expect("a delay") <= 500),
        QueryPlan::Answer(_) => panic!("a retry was answered from memory"),
    }
    match plan_query(&None, NOW, "bus1", 4, None, true, &state) {
        QueryPlan::Answer(result) => assert_eq!(result.status, SlotStatus::RateLimited),
        QueryPlan::Ask(_) => panic!("asked though throttled"),
    }
}

#[test]
fn replies_are_settled() {
    let good = SlotResult::new("bus1", 1, SlotStatus::Available, percent(80), "ok");
    let (result, keep) = settle_query(&None, NOW, "bus1", 1, good);
    assert!(keep);
    assert_eq!(result.summary, "ok");
    let bad = SlotResult::new("bus1", 1, SlotStatus::Error, percent(-1), "offline");
    let (result, keep) = settle_query(&cached("bus1", 0), NOW, "bus1", 1, bad);
    assert!(!keep);
    assert!(result.stale);
}

#[test]
fn failed_slots_are_asked_again() {
    let mut results = vec![
        SlotResult::new("a", 0, SlotStatus::Available, percent(80), "ok"),
        SlotResult::new("b", 1, SlotStatus::Error, percent(-1), "offline"),
        SlotResult::new("c", 2, SlotStatus::RateLimited, percent(-1), "limited"),
    ];
    let again = slots_to_retry(&results);
    assert_eq!(again, vec![(1, "b".to_string())]);
    let better = SlotResult::new("b", 1, SlotStatus::Available, percent(60), "back");
    merge_retries(&mut results, vec![better]);
    assert_eq!(results[1].summary, "back");
    assert_eq!(results.len(), 3);
    let mixed = vec![
        SlotResult::new("c", 2, SlotStatus::Available, percent(0), ""),
        SlotResult::new("a", 0, SlotStatus::Available, percent(0), ""),
    ];
    let sorted = sort_by_index(mixed);
    assert_eq!(sorted[0].slot, "a");
    assert_eq!(worker_count(8, 3), 3);
    assert_eq!(worker_count(0, 3), 1);
}

#[test]
fn requests_are_spaced() {
    let mut pacer = RequestPacer::new(35, 100);
    assert_eq!(pacer.take_turn(100), 0);
    assert_eq!(pacer.take_turn(100), 35);
    assert_eq!(pacer.take_turn(110), 60);
    assert_eq!(pacer.take_turn(1000), 0);
    assert_eq!(pacer.next_start, 1035);
}

fn named(slots: &[&str]) -> Vec<String> {
    slots.iter().map(|slot| slot.to_string()).collect()
}

fn trouble(slot: &str, index: usize) -> SlotResult {
    SlotResult::new(slot, index, SlotStatus::Error, percent(-1), "timed out")
}

fn available(slot: &str, index: usize) -> SlotResult {
    SlotResult::new(slot, index, SlotStatus::Available, percent(50), "fine")
}

#[test]
fn queries_ask_troubled_slots_again() {
    let options = SlotQueryOptions::new(percent(2), 4, 2);
    let (mut query, step) =
        query_slots_with_progress(&named(&["a", "b", "c"]), options, None, 1000);
    match step {
        QueryStep::Ask { slots, attempt } => {
            assert_eq!(attempt, None);
            assert_eq!(slots[2], (2, "c".to_string()));
            assert_eq!(slots.len(), 3);
        }
        other => panic!("{other:?}"),
    }
    let step = query.answered(vec![trouble("c", 2), available("a", 0), trouble("b", 1)], 1001);
    match step {
        QueryStep::Ask { slots, attempt } => {
            assert_eq!(attempt, Some(0));
            assert_eq!(slots, vec![(1, "b".to_string()), (2, "c".to_string())]);
        }
        other => panic!("{other:?}"),
    }
    let step = query.answered(vec![available("c", 2), trouble("b", 1)], 1002);
    match step {
        QueryStep::Ask { slots, attempt } => {
            assert_eq!(attempt, Some(1));
            assert_eq!(slots, vec![(1, "b".to_string())]);
        }
        other => panic!("{other:?}"),
    }
    assert!(matches!(query.answered(vec![trouble("b", 1)], 1003), QueryStep::Done));
    let order: Vec<&str> = query.results.iter().map(|result| result.slot.as_str()).collect();
    assert_eq!(order, vec!["a", "b", "c"]);
    assert!(query.results[2].is_available());
    assert!(!query.results[1].is_available());
    assert_eq!(query.state.updated_at, 1003);
}

#[test]
fn queries_of_nothing_ask_nothing() {
    let options = SlotQueryOptions::new(percent(2), 4, 2);
    let (_, step) = query_slots_with_progress(&Vec::new(), options, None, 1000);
    assert!(matches!(step, QueryStep::Nothing));
    let none = SlotQueryOptions::new(percent(2), 4, 0);
    let (mut query, _) = query_slots_with_progress(&named(&["a"]), none, None, 1000);
    assert!(matches!(query.answered(vec![trouble("a", 0)], 1001), QueryStep::Done));
}

#[test]
fn retry_delays_come_from_the_hash_of_what_is_retried() {
    for attempt in 0..4_usize {
        let mut hasher = DefaultHasher::new();
        "bus1".hash(&mut hasher);
        attempt.hash(&mut hasher);
        NOW.hash(&mut hasher);
        let cap = [250, 500, 1000, 2000][attempt];
        assert_eq!(retry_delay("bus1", attempt, NOW), hasher.finish() % (cap + 1));
    }
}
