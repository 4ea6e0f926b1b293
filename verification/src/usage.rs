//! What is known of the usage of a slot.

use vstd::prelude::*;

use crate::doubles::Double;
use crate::text::opt_copy;
use crate::text::same;

verus! {

/// The outcome of asking for the usage of a slot.
#[derive(Clone, Copy, Debug, PartialEq, Eq, Structural)]
pub enum SlotStatus {
    Available,
    Exhausted,
    NeedsLogin,
    Error,
    RateLimited,
}

impl SlotStatus {
    /// The name of the status.
    pub open spec fn name(self) -> Seq<char> {
        match self {
            SlotStatus::Available => "available"@,
            SlotStatus::Exhausted => "exhausted"@,
            SlotStatus::NeedsLogin => "needs_login"@,
            SlotStatus::Error => "error"@,
            SlotStatus::RateLimited => "rate_limited"@,
        }
    }

    /// The name of the status.
    pub fn as_str(self) -> (out: &'static str)
        ensures
            out@ == self.name(),
    {
        match self {
            SlotStatus::Available => "available",
            SlotStatus::Exhausted => "exhausted",
            SlotStatus::NeedsLogin => "needs_login",
            SlotStatus::Error => "error",
            SlotStatus::RateLimited => "rate_limited",
        }
    }
}

/// What is known of the usage of a slot.
#[derive(Debug)]
pub struct SlotResult {
    pub slot: String,
    /// The position of the slot among those asked for.
    pub index: usize,
    pub status: SlotStatus,
    pub score: Double,
    pub summary: String,
    pub account_label: Option<String>,
    pub five_hour_used: Option<Double>,
    pub five_hour_refresh_at: Option<i64>,
    pub weekly_used: Option<Double>,
    pub weekly_refresh_at: Option<i64>,
    pub retry_after_seconds: Option<i64>,
    pub refresh_status: Option<String>,
    pub cache_age_seconds: Option<i64>,
    pub stale: bool,
}

/// What is known of the usage of a slot, over mathematical values.
pub struct SlotModel {
    pub slot: Seq<char>,
    pub index: nat,
    pub status: SlotStatus,
    pub score: Double,
    pub summary: Seq<char>,
    pub account_label: Option<Seq<char>>,
    pub five_hour_used: Option<Double>,
    pub five_hour_refresh_at: Option<i64>,
    pub weekly_used: Option<Double>,
    pub weekly_refresh_at: Option<i64>,
    pub retry_after_seconds: Option<i64>,
    pub refresh_status: Option<Seq<char>>,
    pub cache_age_seconds: Option<i64>,
    pub stale: bool,
}

impl View for SlotResult {
    type V = SlotModel;

    open spec fn view(&self) -> SlotModel {
        SlotModel {
            slot: self.slot@,
            index: self.index as nat,
            status: self.status,
            score: self.score,
            summary: self.summary@,
            account_label: crate::text::opt_text(self.account_label),
            five_hour_used: self.five_hour_used,
            five_hour_refresh_at: self.five_hour_refresh_at,
            weekly_used: self.weekly_used,
            weekly_refresh_at: self.weekly_refresh_at,
            retry_after_seconds: self.retry_after_seconds,
            refresh_status: crate::text::opt_text(self.refresh_status),
            cache_age_seconds: self.cache_age_seconds,
            stale: self.stale,
        }
    }
}

/// The models of listed results.
pub open spec fn slot_models(results: Seq<SlotResult>) -> Seq<SlotModel> {
    results.map_values(|result: SlotResult| result@)
}

impl SlotModel {
    /// A result that was just asked for and tells nothing else.
    pub open spec fn fresh(
        slot: Seq<char>,
        index: nat,
        status: SlotStatus,
        score: Double,
        summary: Seq<char>,
    ) -> SlotModel {
        SlotModel {
            slot,
            index,
            status,
            score,
            summary,
            account_label: None,
            five_hour_used: None,
            five_hour_refresh_at: None,
            weekly_used: None,
            weekly_refresh_at: None,
            retry_after_seconds: None,
            refresh_status: None,
            cache_age_seconds: None,
            stale: false,
        }
    }

    /// Whether the slot can be used.
    pub open spec fn is_available(self) -> bool {
        self.status == SlotStatus::Available
    }

    /// Whether the usage could not be found out for now.
    pub open spec fn is_transient(self) -> bool {
        self.status == SlotStatus::Error || self.status == SlotStatus::RateLimited
    }

    /// Whether asking again at once may help.
    pub open spec fn is_retryable(self) -> bool {
        self.status == SlotStatus::Error
    }

    /// Whether the result is worth remembering.
    pub open spec fn is_cacheable(self) -> bool {
        self.status == SlotStatus::Available || self.status == SlotStatus::Exhausted
    }

    /// The result as it is remembered: without how it was come by.
    pub open spec fn for_cache(self) -> SlotModel {
        SlotModel {
            retry_after_seconds: None,
            refresh_status: None,
            cache_age_seconds: None,
            stale: false,
            ..self
        }
    }

    /// The remembered result as the answer for position `index`.
    pub open spec fn cached(
        self,
        index: nat,
        age: i64,
        stale: bool,
        refresh_status: Option<Seq<char>>,
        retry_after: Option<i64>,
    ) -> SlotModel {
        SlotModel {
            index,
            cache_age_seconds: Some(age),
            stale,
            refresh_status,
            retry_after_seconds: retry_after,
            ..self
        }
    }
}

impl SlotResult {
    /// A result that was just asked for and tells nothing else.
    pub fn new(slot: &str, index: usize, status: SlotStatus, score: Double, summary: &str) -> (out:
        SlotResult)
        ensures
            out@ == SlotModel::fresh(slot@, index as nat, status, score, summary@),
    {
        SlotResult {
            slot: String::from_str(slot),
            index,
            status,
            score,
            summary: String::from_str(summary),
            account_label: None,
            five_hour_used: None,
            five_hour_refresh_at: None,
            weekly_used: None,
            weekly_refresh_at: None,
            retry_after_seconds: None,
            refresh_status: None,
            cache_age_seconds: None,
            stale: false,
        }
    }

    /// The result with a time to wait before asking again.
    pub fn with_retry_after_seconds(self, seconds: Option<i64>) -> (out: SlotResult)
        ensures
            out@ == (SlotModel { retry_after_seconds: seconds, ..self@ }),
    {
        let mut out = self;
        out.retry_after_seconds = seconds;
        out
    }

    /// The result with a note on how it was come by.
    pub fn with_refresh_status(self, status: &str) -> (out: SlotResult)
        ensures
            out@ == (SlotModel { refresh_status: Some(status@), ..self@ }),
    {
        let mut out = self;
        out.refresh_status = Some(String::from_str(status));
        out
    }

    /// Whether the slot can be used.
    pub fn is_available(&self) -> (out: bool)
        ensures
            out == self@.is_available(),
    {
        self.status == SlotStatus::Available
    }

    /// Whether the usage could not be found out for now.
    pub fn is_transient(&self) -> (out: bool)
        ensures
            out == self@.is_transient(),
    {
        self.status == SlotStatus::Error || self.status == SlotStatus::RateLimited
    }

    /// Whether asking again at once may help.
    pub fn is_retryable_transient(&self) -> (out: bool)
        ensures
            out == self@.is_retryable(),
    {
        self.status == SlotStatus::Error
    }

    /// Whether the result is worth remembering.
    pub fn is_cacheable_usage(&self) -> (out: bool)
        ensures
            out == self@.is_cacheable(),
    {
        self.status == SlotStatus::Available || self.status == SlotStatus::Exhausted
    }

    /// A copy of the result.
    pub fn copy(&self) -> (out: SlotResult)
        ensures
            out@ == self@,
    {
        SlotResult {
            slot: self.slot.clone(),
            index: self.index,
            status: self.status,
            score: self.score,
            summary: self.summary.clone(),
            account_label: opt_copy(&self.account_label),
            five_hour_used: self.five_hour_used,
            five_hour_refresh_at: self.five_hour_refresh_at,
            weekly_used: self.weekly_used,
            weekly_refresh_at: self.weekly_refresh_at,
            retry_after_seconds: self.retry_after_seconds,
            refresh_status: opt_copy(&self.refresh_status),
            cache_age_seconds: self.cache_age_seconds,
            stale: self.stale,
        }
    }

    /// The result as it is remembered.
    pub fn for_cache(self) -> (out: SlotResult)
        ensures
            out@ == self@.for_cache(),
    {
        let mut out = self;
        out.retry_after_seconds = None;
        out.refresh_status = None;
        out.cache_age_seconds = None;
        out.stale = false;
        out
    }

    /// The remembered result as the answer for position `index`.
    pub fn mark_cached(
        self,
        index: usize,
        age: i64,
        stale: bool,
        refresh_status: Option<String>,
        retry_after: Option<i64>,
    ) -> (out: SlotResult)
        ensures
            out@ == self@.cached(
                index as nat,
                age,
                stale,
                crate::text::opt_text(refresh_status),
                retry_after,
            ),
    {
        let mut out = self;
        out.index = index;
        out.cache_age_seconds = Some(age);
        out.stale = stale;
        out.refresh_status = refresh_status;
        out.retry_after_seconds = retry_after;
        out
    }

    /// Whether the note on how the result was come by is `status`.
    pub fn refreshed_as(&self, status: &str) -> (out: bool)
        ensures
            out == (self@.refresh_status == Some(status@)),
    {
        match &self.refresh_status {
            Some(text) => same(text.as_str(), status),
            None => false,
        }
    }
}

/// A slot can be used where it is available; it is asked again after an error, and what
/// is remembered is what was learned of its use.
pub proof fn statuses_say_what_to_do(result: SlotModel)
    ensures
        result.is_available() <==> result.status == SlotStatus::Available,
        result.is_retryable() <==> result.status == SlotStatus::Error,
        result.is_transient() <==> result.status == SlotStatus::Error || result.status
            == SlotStatus::RateLimited,
        result.is_cacheable() <==> result.status == SlotStatus::Available || result.status
            == SlotStatus::Exhausted,
        result.is_cacheable() ==> !result.is_transient(),
{
}

/// What is remembered of a slot is its use, and not how it was learned. When it is
/// recalled, all that was remembered comes back, with how old it is.
pub proof fn remembered_slots_come_back(
    result: SlotModel,
    index: nat,
    age: i64,
    stale: bool,
    refresh_status: Option<Seq<char>>,
    retry_after: Option<i64>,
)
    ensures
        ({
            let recalled = result.for_cache().cached(index, age, stale, refresh_status, retry_after);
            &&& recalled.slot == result.slot
            &&& recalled.status == result.status
            &&& recalled.score == result.score
            &&& recalled.summary == result.summary
            &&& recalled.account_label == result.account_label
            &&& recalled.five_hour_used == result.five_hour_used
            &&& recalled.five_hour_refresh_at == result.five_hour_refresh_at
            &&& recalled.weekly_used == result.weekly_used
            &&& recalled.weekly_refresh_at == result.weekly_refresh_at
            &&& recalled.index == index
            &&& recalled.cache_age_seconds == Some(age)
            &&& recalled.stale == stale
            &&& recalled.refresh_status == refresh_status
            &&& recalled.retry_after_seconds == retry_after
        }),
        ({
            let kept = result.for_cache();
            &&& kept.retry_after_seconds is None && kept.refresh_status is None
            &&& kept.cache_age_seconds is None && !kept.stale
            &&& kept.index == result.index
        }),
{
}

/// The five states have different names.
pub proof fn states_have_different_names(a: SlotStatus, b: SlotStatus)
    requires
        a != b,
    ensures
        a.name() != b.name(),
{
    reveal_strlit("available");
    reveal_strlit("exhausted");
    reveal_strlit("needs_login");
    reveal_strlit("error");
    reveal_strlit("rate_limited");
    assert("available"@.len() == 9 && "exhausted"@.len() == 9 && "needs_login"@.len() == 11
        && "error"@.len() == 5 && "rate_limited"@.len() == 12);
    assert("available"@[0] == 'a' && "exhausted"@[0] == 'e');
}

} // verus!
