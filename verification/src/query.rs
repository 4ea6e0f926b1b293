//! A query of slots: rounds of questions, until no slot is worth another one.

use vstd::prelude::*;

use crate::rates::merge_retries;
use crate::rates::slots_to_retry;
use crate::rates::sort_by_index;
use crate::rates::UsageRateState;
use crate::selector::SlotQueryOptions;
use crate::usage::SlotModel;
use crate::usage::SlotResult;

verus! {

/// A query under way.
pub struct SlotQuery {
    /// What is known of the slots so far.
    pub results: Vec<SlotResult>,
    pub state: UsageRateState,
    pub retries: usize,
    /// The attempt that is under way; the first round is none.
    pub attempt: Option<usize>,
}

/// A query under way over mathematical values.
pub struct QueryModel {
    pub results: Seq<SlotModel>,
    pub retries: nat,
    pub attempt: Option<nat>,
}

/// What a query needs next.
#[derive(Debug)]
pub enum QueryStep {
    /// Ask these slots, each with its position.
    Ask { slots: Vec<(usize, String)>, attempt: Option<usize> },
    /// The results are final, and the state is worth keeping.
    Done,
    /// There was nothing to ask.
    Nothing,
}

/// What a query needs next over mathematical values.
pub enum StepModel {
    Ask { slots: Seq<(nat, Seq<char>)>, attempt: Option<nat> },
    Done,
    Nothing,
}

/// An attempt over mathematical values.
pub open spec fn attempt_model(attempt: Option<usize>) -> Option<nat> {
    match attempt {
        Some(n) => Some(n as nat),
        None => None,
    }
}

impl View for SlotQuery {
    type V = QueryModel;

    open spec fn view(&self) -> QueryModel {
        QueryModel {
            results: crate::usage::slot_models(self.results@),
            retries: self.retries as nat,
            attempt: attempt_model(self.attempt),
        }
    }
}

impl View for QueryStep {
    type V = StepModel;

    open spec fn view(&self) -> StepModel {
        match self {
            QueryStep::Ask { slots, attempt } => StepModel::Ask {
                slots: crate::rates::indexed_texts(slots@),
                attempt: attempt_model(*attempt),
            },
            QueryStep::Done => StepModel::Done,
            QueryStep::Nothing => StepModel::Nothing,
        }
    }
}

impl QueryModel {
    /// The attempts that a query may still make are counted down.
    pub open spec fn is_valid(self) -> bool {
        self.attempt matches Some(n) ==> n < self.retries
    }

    /// The attempt after the round under way.
    pub open spec fn next_attempt(self) -> nat {
        match self.attempt {
            Some(n) => n + 1,
            None => 0,
        }
    }

    /// What is known once a round was answered.
    pub open spec fn known_after(self, found: Seq<SlotModel>) -> Seq<SlotModel> {
        match self.attempt {
            Some(_) => crate::rates::replaced(self.results, found),
            None => crate::sorting::sorted(found, crate::rates::position_order()),
        }
    }

    /// Whether another round follows.
    pub open spec fn goes_on(self, found: Seq<SlotModel>) -> bool {
        self.next_attempt() < self.retries && crate::rates::retries_of(
            self.known_after(found),
        ).len() > 0
    }

    /// The query once a round was answered.
    pub open spec fn after(self, found: Seq<SlotModel>) -> QueryModel {
        if self.goes_on(found) {
            QueryModel {
                results: self.known_after(found),
                attempt: Some(self.next_attempt()),
                ..self
            }
        } else {
            QueryModel {
                results: crate::sorting::sorted(
                    self.known_after(found),
                    crate::rates::position_order(),
                ),
                ..self
            }
        }
    }

    /// What follows a round that was answered.
    pub open spec fn step(self, found: Seq<SlotModel>) -> StepModel {
        if self.goes_on(found) {
            StepModel::Ask {
                slots: crate::rates::retries_of(self.known_after(found)),
                attempt: Some(self.next_attempt()),
            }
        } else {
            StepModel::Done
        }
    }
}

/// Slots with their positions.
pub open spec fn numbered(slots: Seq<Seq<char>>) -> Seq<(nat, Seq<char>)> {
    Seq::new(slots.len(), |i: int| (i as nat, slots[i]))
}

fn number_slots(slots: &Vec<String>) -> (out: Vec<(usize, String)>)
    ensures
        crate::rates::indexed_texts(out@) == numbered(crate::text::texts(slots@)),
{
    let mut out: Vec<(usize, String)> = Vec::new();
    let mut i: usize = 0;
    while i < slots.len()
        invariant
            i <= slots.len(),
            out@.len() == i,
            forall|j: int|
                0 <= j < i ==> (#[trigger] out@[j]).0 == j && out@[j].1@ == slots@[j]@,
        decreases slots.len() - i,
    {
        out.push((i, slots[i].clone()));
        i += 1;
    }
    proof {
        assert(crate::rates::indexed_texts(out@) =~= numbered(crate::text::texts(slots@)));
    }
    out
}

/// Starts a query, whose progress shows in its steps. The first round asks every
/// slot.
pub fn query_slots_with_progress(
    slots: &Vec<String>,
    options: SlotQueryOptions,
    kept: Option<UsageRateState>,
    now: i64,
) -> (out: (SlotQuery, QueryStep))
    ensures
        out.0@ == (QueryModel {
            results: seq![],
            retries: options.retries as nat,
            attempt: None,
        }),
        out.0@.is_valid(),
        out.0.state == crate::rates::loaded(kept, now),
        out.1@ == (if slots@.len() == 0 {
            StepModel::Nothing
        } else {
            StepModel::Ask { slots: numbered(crate::text::texts(slots@)), attempt: None }
        }),
{
    let query = SlotQuery {
        results: Vec::new(),
        state: UsageRateState::load(kept, now),
        retries: options.retries,
        attempt: None,
    };
    proof {
        assert(query@.results =~= seq![]);
    }
    let step = if slots.len() == 0 {
        QueryStep::Nothing
    } else {
        QueryStep::Ask { slots: number_slots(slots), attempt: None }
    };
    (query, step)
}

impl SlotQuery {
    /// Takes the answers of a round, and says what follows.
    pub fn answered(&mut self, found: Vec<SlotResult>, now: i64) -> (out: QueryStep)
        requires
            old(self)@.is_valid(),
        ensures
            final(self)@ == old(self)@.after(crate::usage::slot_models(found@)),
            final(self)@.is_valid(),
            final(self).state == crate::rates::recorded(old(self).state, found@, now),
            out@ == old(self)@.step(crate::usage::slot_models(found@)),
    {
        let ghost start = self@;
        let ghost answers = crate::usage::slot_models(found@);
        self.state.record_results(&found, now);
        let next: usize = match self.attempt {
            Some(n) => {
                merge_retries(&mut self.results, found);
                n + 1
            },
            None => {
                self.results = sort_by_index(found);
                0
            },
        };
        proof {
            assert(crate::usage::slot_models(self.results@) == start.known_after(answers));
        }
        if next < self.retries {
            let again = slots_to_retry(&self.results);
            proof {
                assert(crate::rates::indexed_texts(again@).len() == again@.len());
            }
            if again.len() > 0 {
                self.attempt = Some(next);
                return QueryStep::Ask { slots: again, attempt: Some(next) };
            }
        }
        let mut known: Vec<SlotResult> = Vec::new();
        std::mem::swap(&mut known, &mut self.results);
        self.results = sort_by_index(known);
        QueryStep::Done
    }
}

// ---------------------------------------------------------------------------
// Laws
// ---------------------------------------------------------------------------

/// Each round but the first is one more attempt, and there are no more of them than
/// were asked for.
pub proof fn queries_end(query: QueryModel, found: Seq<SlotModel>)
    requires
        query.is_valid(),
    ensures
        query.after(found).is_valid(),
        query.step(found) matches StepModel::Ask { attempt, .. } ==> attempt == Some(
            query.next_attempt(),
        ) && query.next_attempt() < query.retries && query.after(found).attempt == attempt,
        query.retries <= query.next_attempt() ==> query.step(found) is Done,
{
}

/// Whether `results` hold one result for each slot, in the order of the slots.
pub open spec fn reports(results: Seq<SlotModel>, slots: Seq<Seq<char>>) -> bool {
    &&& results.len() == slots.len()
    &&& forall|i: int|
        0 <= i < slots.len() ==> (#[trigger] results[i]).index == i && results[i].slot == slots[i]
}

/// Whether each of `found` is about the slot at its position, and no two are about
/// the same.
pub open spec fn answers(found: Seq<SlotModel>, slots: Seq<Seq<char>>) -> bool {
    &&& forall|i: int|
        0 <= i < found.len() ==> (#[trigger] found[i]).index < slots.len() && found[i].slot
            == slots[found[i].index as int]
    &&& forall|i: int, j: int|
        0 <= i < j < found.len() ==> (#[trigger] found[i]).index != (#[trigger] found[j]).index
}

proof fn lemma_found_in(found: Seq<SlotModel>, other: Seq<SlotModel>, i: int) -> (at: int)
    requires
        found.to_multiset() == other.to_multiset(),
        0 <= i < other.len(),
    ensures
        0 <= at < found.len(),
        found[at] == other[i],
{
    broadcast use vstd::seq_lib::group_to_multiset_ensures;

    assert(other.contains(other[i]));
    assert(other.to_multiset().count(other[i]) > 0);
    assert(found.to_multiset().count(other[i]) > 0);
    assert(found.contains(other[i]));
    choose|k: int| 0 <= k < found.len() && found[k] == other[i]
}

proof fn lemma_rising(results: Seq<SlotModel>, i: int)
    requires
        forall|a: int, b: int|
            0 <= a < b < results.len() ==> (#[trigger] results[a]).index < (
            #[trigger] results[b]).index,
        forall|a: int| 0 <= a < results.len() ==> (#[trigger] results[a]).index < results.len(),
        0 <= i < results.len(),
    ensures
        results[i].index >= i,
    decreases i,
{
    if i > 0 {
        lemma_rising(results, i - 1);
        assert(results[i - 1].index < results[i].index);
    }
}

proof fn lemma_bounded(results: Seq<SlotModel>, i: int)
    requires
        forall|a: int, b: int|
            0 <= a < b < results.len() ==> (#[trigger] results[a]).index < (
            #[trigger] results[b]).index,
        forall|a: int| 0 <= a < results.len() ==> (#[trigger] results[a]).index < results.len(),
        0 <= i < results.len(),
    ensures
        results[i].index <= i,
    decreases results.len() - i,
{
    if i + 1 < results.len() {
        lemma_bounded(results, i + 1);
        assert(results[i].index < results[i + 1].index);
    }
}

/// When each slot is answered once, in whatever order, the first round leaves one
/// result for each slot, in the order in which the slots were named.
pub proof fn first_answers_are_put_in_order(found: Seq<SlotModel>, slots: Seq<Seq<char>>)
    requires
        answers(found, slots),
        found.len() == slots.len(),
    ensures
        reports(crate::sorting::sorted(found, crate::rates::position_order()), slots),
{
    let order = crate::rates::position_order();
    let listed = crate::sorting::sorted(found, order);
    assert(crate::sorting::is_order(order));
    crate::sorting::sorting_keeps_items(found, order);
    assert(found.no_duplicates());
    found.lemma_multiset_has_no_duplicates();
    assert forall|a: int, b: int| 0 <= a < b < listed.len() implies (#[trigger] listed[a]).index
        < (#[trigger] listed[b]).index by {
        let i = lemma_found_in(found, listed, a);
        let j = lemma_found_in(found, listed, b);
        assert(!order(listed[b], listed[a]));
        if listed[a].index == listed[b].index {
            assert(i == j);
            assert(listed[a] == listed[b]);
            listed.lemma_multiset_has_no_duplicates_conv();
            assert(listed.no_duplicates());
        }
    }
    assert forall|a: int| 0 <= a < listed.len() implies (#[trigger] listed[a]).index
        < listed.len() && listed[a].slot == slots[listed[a].index as int] by {
        let i = lemma_found_in(found, listed, a);
    }
    assert forall|i: int| 0 <= i < slots.len() implies (#[trigger] listed[i]).index == i
        && listed[i].slot == slots[i] by {
        lemma_rising(listed, i);
        lemma_bounded(listed, i);
    }
}

/// Later answers take the places of earlier ones: there is still one result for each
/// slot, in the order of the slots, and the slots that were not asked again keep
/// theirs.
pub proof fn later_answers_take_their_places(
    results: Seq<SlotModel>,
    found: Seq<SlotModel>,
    slots: Seq<Seq<char>>,
)
    requires
        reports(results, slots),
        answers(found, slots),
    ensures
        reports(crate::rates::replaced(results, found), slots),
        forall|i: int|
            0 <= i < found.len() ==> crate::rates::replaced(results, found)[(
            #[trigger] found[i]).index as int] == found[i],
        forall|i: int|
            0 <= i < slots.len() && (forall|j: int|
                0 <= j < found.len() ==> (#[trigger] found[j]).index != i) ==> (
            #[trigger] crate::rates::replaced(results, found)[i]) == results[i],
    decreases found.len(),
{
    if found.len() > 0 {
        let rest = found.drop_last();
        let last = found.last();
        assert forall|i: int| 0 <= i < rest.len() implies (#[trigger] rest[i]).index < slots.len()
            && rest[i].slot == slots[rest[i].index as int] by {
            assert(rest[i] == found[i]);
        }
        later_answers_take_their_places(results, rest, slots);
        let before = crate::rates::replaced(results, rest);
        let after = crate::rates::replaced(results, found);
        assert(last == found[found.len() - 1]);
        assert(after == before.update(last.index as int, last));
        assert forall|i: int| 0 <= i < found.len() implies after[(
        #[trigger] found[i]).index as int] == found[i] by {
            if i < rest.len() {
                assert(rest[i] == found[i]);
            }
        }
        assert forall|i: int|
            0 <= i < slots.len() && (forall|j: int|
                0 <= j < found.len() ==> (#[trigger] found[j]).index != i) implies (
        #[trigger] after[i]) == results[i] by {
            assert forall|j: int| 0 <= j < rest.len() implies (#[trigger] rest[j]).index != i by {
                assert(rest[j] == found[j]);
            }
            assert(before[i] == results[i]);
        }
    }
}

proof fn lemma_asked(results: Seq<SlotModel>, slots: Seq<Seq<char>>, n: int)
    requires
        reports(results, slots),
        0 <= n <= results.len(),
    ensures
        ({
            let asked = crate::rates::retries_of(results.take(n));
            &&& forall|k: int|
                0 <= k < asked.len() ==> (#[trigger] asked[k]).0 < n && asked[k].1
                    == slots[asked[k].0 as int] && results[asked[k].0 as int].is_retryable()
            &&& forall|i: int|
                0 <= i < n && (#[trigger] results[i]).is_retryable() ==> asked.contains(
                    (i as nat, slots[i]),
                )
        }),
    decreases n,
{
    if n > 0 {
        lemma_asked(results, slots, n - 1);
        let rest = crate::rates::retries_of(results.take(n - 1));
        let asked = crate::rates::retries_of(results.take(n));
        let last = results[n - 1];
        assert(results.take(n).drop_last() =~= results.take(n - 1));
        assert(results.take(n).last() == last);
        assert forall|k: int| 0 <= k < asked.len() implies (#[trigger] asked[k]).0 < n
            && asked[k].1 == slots[asked[k].0 as int]
            && results[asked[k].0 as int].is_retryable() by {
            if k < rest.len() {
                assert(asked[k] == rest[k]);
            } else {
                assert(asked[k] == (last.index, last.slot));
            }
        }
        assert forall|i: int| 0 <= i < n && (#[trigger] results[i]).is_retryable() implies
            asked.contains((i as nat, slots[i])) by {
            if i < n - 1 {
                let k = choose|k: int|
                    0 <= k < rest.len() && rest[k] == (i as nat, slots[i]);
                assert(rest.contains((i as nat, slots[i])));
                assert(asked[k] == rest[k]);
            } else {
                assert(asked[rest.len() as int] == (i as nat, slots[i]));
            }
        }
    }
}

/// The slots in passing trouble are asked again, each at its own position, and no
/// others.
pub proof fn troubled_slots_are_asked_again(results: Seq<SlotModel>, slots: Seq<Seq<char>>)
    requires
        reports(results, slots),
    ensures
        ({
            let asked = crate::rates::retries_of(results);
            &&& forall|k: int|
                0 <= k < asked.len() ==> (#[trigger] asked[k]).0 < slots.len() && asked[k].1
                    == slots[asked[k].0 as int] && results[asked[k].0 as int].is_retryable()
            &&& forall|i: int|
                0 <= i < slots.len() && (#[trigger] results[i]).is_retryable() ==> asked.contains(
                    (i as nat, slots[i]),
                )
        }),
{
    lemma_asked(results, slots, results.len() as int);
    assert(results.take(results.len() as int) =~= results);
}

proof fn lemma_retries(results: Seq<SlotModel>, k: int)
    ensures
        0 <= k < results.len() && results[k].status == crate::usage::SlotStatus::Error
            ==> crate::rates::retries_of(results).len() > 0,
        crate::rates::retries_of(results).len() > 0 ==> exists|i: int|
            0 <= i < results.len() && (#[trigger] results[i]).status
                == crate::usage::SlotStatus::Error,
    decreases results.len(),
{
    if results.len() > 0 {
        let rest = results.drop_last();
        lemma_retries(rest, k);
        if 0 <= k < rest.len() {
            assert(rest[k] == results[k]);
        }
        if crate::rates::retries_of(rest).len() > 0 {
            let i = choose|i: int|
                0 <= i < rest.len() && (#[trigger] rest[i]).status
                    == crate::usage::SlotStatus::Error;
            assert(results[i] == rest[i]);
        }
        assert(results[results.len() - 1] == results.last());
    }
}

/// Slots are asked again as long as one of them failed and attempts are left, and then no
/// more: the results are final, in the order in which the slots were asked for.
pub proof fn failed_slots_are_asked_again(query: QueryModel, found: Seq<SlotModel>)
    ensures
        query.step(found) is Ask <==> query.next_attempt() < query.retries && exists|i: int|
            0 <= i < query.known_after(found).len() && (
            #[trigger] query.known_after(found)[i]).status == crate::usage::SlotStatus::Error,
        query.step(found) is Ask ==> query.after(found).results == query.known_after(found),
        query.step(found) is Done ==> query.after(found).results.len() == query.known_after(
            found,
        ).len() && forall|i: int, j: int|
            0 <= i < j < query.after(found).results.len() ==> (
            #[trigger] query.after(found).results[i]).index <= (
            #[trigger] query.after(found).results[j]).index,
{
    let known = query.known_after(found);
    if exists|i: int|
        0 <= i < known.len() && (#[trigger] known[i]).status == crate::usage::SlotStatus::Error {
        let i = choose|i: int|
            0 <= i < known.len() && (#[trigger] known[i]).status
                == crate::usage::SlotStatus::Error;
        lemma_retries(known, i);
    }
    lemma_retries(known, 0);
    let order = crate::rates::position_order();
    assert(crate::sorting::is_order(order));
    crate::sorting::sorting_keeps_items(known, order);
    if query.step(found) is Done {
        let last = query.after(found).results;
        assert forall|i: int, j: int| 0 <= i < j < last.len() implies (#[trigger] last[i]).index
            <= (#[trigger] last[j]).index by {
            assert(!order(last[j], last[i]));
        }
    }
}

/// Every slot that is asked for is asked at its own position.
pub proof fn slots_are_numbered(slots: Seq<Seq<char>>, i: int)
    requires
        0 <= i < slots.len(),
    ensures
        numbered(slots).len() == slots.len(),
        numbered(slots)[i] == (i as nat, slots[i]),
{
}

} // verus!
