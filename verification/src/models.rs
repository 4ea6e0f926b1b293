//! Models as they are shown: names, tallies, rankings and colours.

use vstd::prelude::*;

use crate::format::repeat;
use crate::numbers::decimal;
use crate::stats::DailyModelUsage;
use crate::stats::TokenUsage;
use crate::text::concat2;
use crate::text::concat3;
use crate::text::same;
use crate::textmap::place;
use crate::textmap::Place;

verus! {

// ---------------------------------------------------------------------------
// Names
// ---------------------------------------------------------------------------

/// A model, by its provider and its name.
#[derive(Debug)]
pub struct DisplayModelKey {
    pub provider: String,
    pub model: String,
}

/// A model, over mathematical values.
#[verifier::ext_equal]
pub struct KeyModel {
    pub provider: Seq<char>,
    pub model: Seq<char>,
}

impl View for DisplayModelKey {
    type V = KeyModel;

    open spec fn view(&self) -> KeyModel {
        KeyModel { provider: self.provider@, model: self.model@ }
    }
}

/// The views of models.
pub open spec fn key_models(keys: Seq<DisplayModelKey>) -> Seq<KeyModel> {
    keys.map_values(|k: DisplayModelKey| k@)
}

/// What stands for all models that are not shown.
pub open spec fn other_key() -> KeyModel {
    KeyModel { provider: "other"@, model: "other"@ }
}

/// What stands for all models that are not shown.
pub fn other_model_key() -> (out: DisplayModelKey)
    ensures
        out@ == other_key(),
{
    DisplayModelKey { provider: String::from_str("other"), model: String::from_str("other") }
}

/// The model of a day's usage.
pub open spec fn key_of(model: crate::stats::DailyModelModel) -> KeyModel {
    KeyModel { provider: model.provider, model: model.model }
}

/// The name under which a model is shown.
pub open spec fn label_of(key: KeyModel) -> Seq<char> {
    if key.provider == "openai"@ || key.provider == "unknown"@ || key.provider == "other"@ {
        key.model
    } else {
        key.provider + "/"@ + key.model
    }
}

/// The name under which a model is shown.
pub fn model_label(key: &DisplayModelKey) -> (out: String)
    ensures
        out@ == label_of(key@),
{
    let provider = key.provider.as_str();
    if same(provider, "openai") || same(provider, "unknown") || same(provider, "other") {
        key.model.clone()
    } else {
        concat3(provider, "/", key.model.as_str())
    }
}

impl DisplayModelKey {
    /// The model of a day's usage.
    pub fn from_daily_model(model: &DailyModelUsage) -> (out: DisplayModelKey)
        ensures
            out@ == key_of(model@),
    {
        DisplayModelKey { provider: model.provider.clone(), model: model.model.clone() }
    }

    /// Whether this stands for all models that are not shown.
    pub fn is_other(&self) -> (out: bool)
        ensures
            out == (self@ == other_key()),
    {
        same(self.provider.as_str(), "other") && same(self.model.as_str(), "other")
    }

    /// Whether two models are the same.
    pub fn same_as(&self, other: &DisplayModelKey) -> (out: bool)
        ensures
            out == (self@ == other@),
    {
        same(self.provider.as_str(), other.provider.as_str()) && same(
            self.model.as_str(),
            other.model.as_str(),
        )
    }

    /// A copy.
    pub fn copy(&self) -> (out: DisplayModelKey)
        ensures
            out@ == self@,
    {
        DisplayModelKey { provider: self.provider.clone(), model: self.model.clone() }
    }
}

// ---------------------------------------------------------------------------
// Tallies
// ---------------------------------------------------------------------------

/// What can be summed up by model.
pub trait Amount: Copy {
    /// The sum of two amounts.
    spec fn sum_with(self, other: Self) -> Self;

    /// The number of tokens that the amount stands for.
    spec fn weight(self) -> u64;

    /// The sum of two amounts.
    fn combined(&self, other: &Self) -> (out: Self)
        ensures
            out == self.sum_with(*other),
    ;

    /// The number of tokens that the amount stands for.
    fn token_count(&self) -> (out: u64)
        ensures
            out == self.weight(),
    ;
}

impl Amount for u64 {
    open spec fn sum_with(self, other: u64) -> u64 {
        crate::stats::capped(self + other)
    }

    open spec fn weight(self) -> u64 {
        self
    }

    fn combined(&self, other: &u64) -> (out: u64) {
        self.saturating_add(*other)
    }

    fn token_count(&self) -> (out: u64) {
        *self
    }
}

impl Amount for TokenUsage {
    open spec fn sum_with(self, other: TokenUsage) -> TokenUsage {
        crate::stats::usage_sum(self, other)
    }

    open spec fn weight(self) -> u64 {
        self.tokens
    }

    fn combined(&self, other: &TokenUsage) -> (out: TokenUsage) {
        self.add_usage(other)
    }

    fn token_count(&self) -> (out: u64) {
        self.tokens
    }
}

/// An amount for a model.
#[derive(Debug)]
pub struct Tally<A> {
    pub key: DisplayModelKey,
    pub amount: A,
}

/// The views of tallies.
pub open spec fn tallies<A>(items: Seq<Tally<A>>) -> Seq<(KeyModel, A)> {
    items.map_values(|t: Tally<A>| (t.key@, t.amount))
}

/// The place of the first tally for `key`, or the number of tallies if there is none.
pub open spec fn place_of<A>(items: Seq<(KeyModel, A)>, key: KeyModel) -> int
    decreases items.len(),
{
    if items.len() == 0 || items[0].0 == key {
        0
    } else {
        1 + place_of(items.skip(1), key)
    }
}

/// The amount for `key`, if there is a tally for it.
pub open spec fn amount_of<A>(items: Seq<(KeyModel, A)>, key: KeyModel) -> Option<A> {
    let i = place_of(items, key);
    if i < items.len() {
        Some(items[i].1)
    } else {
        None
    }
}

/// `items` with `amount` added for `key`.
pub open spec fn with_amount<A: Amount>(items: Seq<(KeyModel, A)>, key: KeyModel, amount: A) -> Seq<
    (KeyModel, A),
> {
    let i = place_of(items, key);
    if i < items.len() {
        items.update(i, (key, items[i].1.sum_with(amount)))
    } else {
        items.push((key, amount))
    }
}

/// The sum of the entries for each model, in the order in which models first occur.
pub open spec fn tallied<A: Amount>(entries: Seq<(KeyModel, A)>) -> Seq<(KeyModel, A)>
    decreases entries.len(),
{
    if entries.len() == 0 {
        seq![]
    } else {
        with_amount(tallied(entries.drop_last()), entries.last().0, entries.last().1)
    }
}

/// The place of a key is that of its first occurrence.
pub proof fn lemma_place_of<A>(items: Seq<(KeyModel, A)>, key: KeyModel)
    ensures
        0 <= place_of(items, key) <= items.len(),
        place_of(items, key) < items.len() ==> items[place_of(items, key)].0 == key,
        forall|j: int| 0 <= j < place_of(items, key) ==> (#[trigger] items[j]).0 != key,
    decreases items.len(),
{
    if items.len() > 0 && items[0].0 != key {
        let rest = items.skip(1);
        lemma_place_of(rest, key);
        assert forall|j: int| 0 <= j < place_of(items, key) implies (#[trigger] items[j]).0
            != key by {
            if j > 0 {
                assert(rest[j - 1] == items[j]);
            }
        }
    }
}

/// A place with the key behind places without it is the place of the key.
pub proof fn lemma_place_is<A>(items: Seq<(KeyModel, A)>, key: KeyModel, i: int)
    requires
        0 <= i <= items.len(),
        i < items.len() ==> items[i].0 == key,
        forall|j: int| 0 <= j < i ==> (#[trigger] items[j]).0 != key,
    ensures
        place_of(items, key) == i,
{
    lemma_place_of(items, key);
    let p = place_of(items, key);
    if p < i {
        assert(items[p].0 != key);
    }
    if i < p {
        assert(items[i].0 != key);
    }
}

/// The place of the first tally for `key`.
pub fn find_tally<A>(items: &Vec<Tally<A>>, key: &DisplayModelKey) -> (out: usize)
    ensures
        out == place_of(tallies(items@), key@),
        out <= items@.len(),
{
    let mut i: usize = 0;
    while i < items.len() && !items[i].key.same_as(key)
        invariant
            i <= items.len(),
            forall|j: int| 0 <= j < i ==> (#[trigger] tallies(items@)[j]).0 != key@,
        decreases items.len() - i,
    {
        i += 1;
    }
    proof {
        lemma_place_is(tallies(items@), key@, i as int);
    }
    i
}

/// The amount for `key`, if there is a tally for it.
pub fn find_amount<A: Copy>(items: &Vec<Tally<A>>, key: &DisplayModelKey) -> (out: Option<A>)
    ensures
        out == amount_of(tallies(items@), key@),
{
    let i = find_tally(items, key);
    if i < items.len() {
        Some(items[i].amount)
    } else {
        None
    }
}

/// Adds `amount` for `key`.
pub fn add_amount<A: Amount>(items: &mut Vec<Tally<A>>, key: DisplayModelKey, amount: A)
    ensures
        tallies(final(items)@) == with_amount(tallies(old(items)@), key@, amount),
{
    let ghost before = items@;
    let ghost name = key@;
    let i = find_tally(items, &key);
    if i < items.len() {
        let sum = items[i].amount.combined(&amount);
        items.set(i, Tally { key, amount: sum });
    } else {
        items.push(Tally { key, amount });
    }
    proof {
        assert(tallies(items@) =~= with_amount(tallies(before), name, amount));
    }
}

/// The entries for one model.
pub open spec fn entries_for<A>(entries: Seq<(KeyModel, A)>, key: KeyModel) -> Seq<A>
    decreases entries.len(),
{
    if entries.len() == 0 {
        seq![]
    } else if entries.last().0 == key {
        entries_for(entries.drop_last(), key).push(entries.last().1)
    } else {
        entries_for(entries.drop_last(), key)
    }
}

/// The sum of some amounts, if there are any.
pub open spec fn sum_of<A: Amount>(amounts: Seq<A>) -> Option<A>
    decreases amounts.len(),
{
    if amounts.len() == 0 {
        None
    } else {
        match sum_of(amounts.drop_last()) {
            None => Some(amounts.last()),
            Some(sum) => Some(sum.sum_with(amounts.last())),
        }
    }
}

/// Whether no model occurs twice.
pub open spec fn keys_differ<A>(items: Seq<(KeyModel, A)>) -> bool {
    forall|i: int, j: int|
        0 <= i < j < items.len() ==> (#[trigger] items[i]).0 != (#[trigger] items[j]).0
}

/// A tally holds each model once, with the sum of the entries for it.
pub proof fn tallies_are_sums<A: Amount>(entries: Seq<(KeyModel, A)>, key: KeyModel)
    ensures
        keys_differ(tallied(entries)),
        amount_of(tallied(entries), key) == sum_of(entries_for(entries, key)),
    decreases entries.len(),
{
    if entries.len() > 0 {
        let head = tallied(entries.drop_last());
        let k = entries.last().0;
        let a = entries.last().1;
        tallies_are_sums(entries.drop_last(), key);
        tallies_are_sums(entries.drop_last(), k);
        lemma_place_of(head, k);
        lemma_place_of(head, key);
        let whole = tallied(entries);
        let p = place_of(head, k);
        assert forall|i: int, j: int| 0 <= i < j < whole.len() implies (#[trigger] whole[i]).0 != (
        #[trigger] whole[j]).0 by {
            if j < head.len() {
                assert(whole[i].0 == head[i].0);
                assert(whole[j].0 == head[j].0);
            } else {
                assert(whole[i] == head[i]);
            }
        }
        let mine = entries_for(entries.drop_last(), key);
        if k == key {
            assert(entries_for(entries, key).drop_last() =~= mine);
            lemma_place_is(whole, key, p);
        } else {
            let q = place_of(head, key);
            if q < head.len() {
                assert forall|j: int| 0 <= j < q implies (#[trigger] whole[j]).0 != key by {
                    assert(head[j].0 != key);
                    assert(whole[j].0 == head[j].0);
                }
                assert(whole[q] == head[q]);
                lemma_place_is(whole, key, q);
            } else {
                assert forall|j: int| 0 <= j < whole.len() implies (#[trigger] whole[j]).0 != key by {
                    if j < head.len() {
                        assert(head[j].0 != key);
                        assert(whole[j].0 == head[j].0);
                    }
                }
                lemma_place_is(whole, key, whole.len() as int);
            }
        }
    }
}

// ---------------------------------------------------------------------------
// Rankings
// ---------------------------------------------------------------------------

/// Whether `a` is ranked before `b`: by tokens, the most first, then by provider,
/// then by model.
pub open spec fn outranks<A: Amount>(a: (KeyModel, A), b: (KeyModel, A)) -> bool {
    if a.1.weight() != b.1.weight() {
        a.1.weight() > b.1.weight()
    } else if a.0.provider != b.0.provider {
        crate::textmap::text_lt(a.0.provider, b.0.provider)
    } else {
        crate::textmap::text_lt(a.0.model, b.0.model)
    }
}

/// The number of items at the front of `items` that are ranked before `item`.
pub open spec fn rank_in<A: Amount>(items: Seq<(KeyModel, A)>, item: (KeyModel, A)) -> int
    decreases items.len(),
{
    if items.len() == 0 || !outranks(items[0], item) {
        0
    } else {
        1 + rank_in(items.skip(1), item)
    }
}

/// The items in the order of their rank.
pub open spec fn ranked<A: Amount>(items: Seq<(KeyModel, A)>) -> Seq<(KeyModel, A)>
    decreases items.len(),
{
    if items.len() == 0 {
        seq![]
    } else {
        let rest = ranked(items.drop_last());
        rest.insert(rank_in(rest, items.last()), items.last())
    }
}

proof fn lemma_rank_in<A: Amount>(items: Seq<(KeyModel, A)>, item: (KeyModel, A))
    ensures
        0 <= rank_in(items, item) <= items.len(),
        forall|j: int| 0 <= j < rank_in(items, item) ==> outranks(#[trigger] items[j], item),
        rank_in(items, item) < items.len() ==> !outranks(items[rank_in(items, item)], item),
    decreases items.len(),
{
    if items.len() > 0 && outranks(items[0], item) {
        let rest = items.skip(1);
        lemma_rank_in(rest, item);
        assert forall|j: int| 0 <= j < rank_in(items, item) implies outranks(
            #[trigger] items[j],
            item,
        ) by {
            if j > 0 {
                assert(rest[j - 1] == items[j]);
            }
        }
    }
}

proof fn lemma_rank_is<A: Amount>(items: Seq<(KeyModel, A)>, item: (KeyModel, A), i: int)
    requires
        0 <= i <= items.len(),
        i < items.len() ==> !outranks(items[i], item),
        forall|j: int| 0 <= j < i ==> outranks(#[trigger] items[j], item),
    ensures
        rank_in(items, item) == i,
{
    lemma_rank_in(items, item);
    let r = rank_in(items, item);
    if r < i {
        assert(outranks(items[r], item));
    }
    if i < r {
        assert(outranks(items[i], item));
    }
}

/// Whether `a` is ranked before `b`.
pub fn ranks_before<A: Amount>(a: &Tally<A>, b: &Tally<A>) -> (out: bool)
    ensures
        out == outranks((a.key@, a.amount), (b.key@, b.amount)),
{
    let x: u64 = a.amount.token_count();
    let y: u64 = b.amount.token_count();
    if x != y {
        return x > y;
    }
    proof {
        crate::textmap::lemma_text_lt_irreflexive(a.key.provider@);
    }
    match place(a.key.provider.as_str(), b.key.provider.as_str()) {
        Place::Before => true,
        Place::After => false,
        Place::Same => match place(a.key.model.as_str(), b.key.model.as_str()) {
            Place::Before => true,
            _ => false,
        },
    }
}

/// The tallies in the order of their rank.
pub fn rank<A: Amount>(items: Vec<Tally<A>>) -> (out: Vec<Tally<A>>)
    ensures
        tallies(out@) == ranked(tallies(items@)),
{
    let ghost all = tallies(items@);
    let mut out: Vec<Tally<A>> = Vec::new();
    let mut i: usize = 0;
    while i < items.len()
        invariant
            i <= items.len(),
            all == tallies(items@),
            tallies(out@) == ranked(all.take(i as int)),
        decreases items.len() - i,
    {
        let item = Tally { key: items[i].key.copy(), amount: items[i].amount };
        let ghost it = (item.key@, item.amount);
        let mut at: usize = 0;
        while at < out.len() && ranks_before(&out[at], &item)
            invariant
                at <= out.len(),
                it == (item.key@, item.amount),
                forall|j: int| 0 <= j < at ==> outranks(#[trigger] tallies(out@)[j], it),
            decreases out.len() - at,
        {
            proof {
                assert(tallies(out@)[at as int] == (out@[at as int].key@, out@[at as int].amount));
            }
            at += 1;
        }
        let ghost before = tallies(out@);
        proof {
            if at < out@.len() {
                assert(before[at as int] == (out@[at as int].key@, out@[at as int].amount));
            }
            lemma_rank_is(before, it, at as int);
        }
        out.insert(at, item);
        proof {
            assert(tallies(out@) =~= before.insert(at as int, it));
            assert(all.take(i + 1).drop_last() =~= all.take(i as int));
            assert(all.take(i + 1).last() == it);
        }
        i += 1;
    }
    proof {
        assert(all.take(all.len() as int) =~= all);
    }
    out
}

/// A ranking holds the items that were ranked, and none of them is ranked before
/// one that stands earlier.
pub proof fn rankings_are_sorted<A: Amount>(items: Seq<(KeyModel, A)>)
    ensures
        ranked(items).to_multiset() == items.to_multiset(),
        forall|i: int, j: int|
            0 <= i < j < ranked(items).len() ==> !outranks(
                #[trigger] ranked(items)[j],
                #[trigger] ranked(items)[i],
            ),
    decreases items.len(),
{
    if items.len() == 0 {
        assert(ranked(items) =~= items);
    } else {
        let rest = ranked(items.drop_last());
        let item = items.last();
        rankings_are_sorted(items.drop_last());
        lemma_rank_in(rest, item);
        let r = rank_in(rest, item);
        let whole = ranked(items);
        vstd::seq_lib::to_multiset_insert(rest, r, item);
        vstd::seq_lib::to_multiset_build(items.drop_last(), item);
        assert(items.drop_last().push(item) =~= items);
        assert forall|i: int, j: int| 0 <= i < j < whole.len() implies !outranks(
            #[trigger] whole[j],
            #[trigger] whole[i],
        ) by {
            if j < r {
                assert(whole[i] == rest[i] && whole[j] == rest[j]);
            } else if j == r {
                assert(whole[i] == rest[i]);
                assert(outranks(rest[i], item));
                lemma_outranks_asymmetric(rest[i], item);
            } else if i == r {
                assert(whole[j] == rest[j - 1]);
                if outranks(rest[j - 1], item) {
                    if j - 1 == r {
                    } else {
                        assert(!outranks(rest[j - 1], rest[r]));
                        lemma_outranks_step(rest[j - 1], item, rest[r]);
                    }
                }
            } else if i < r {
                assert(whole[i] == rest[i] && whole[j] == rest[j - 1]);
            } else {
                assert(whole[i] == rest[i - 1] && whole[j] == rest[j - 1]);
            }
        }
    }
}

proof fn lemma_outranks_asymmetric<A: Amount>(a: (KeyModel, A), b: (KeyModel, A))
    requires
        outranks(a, b),
    ensures
        !outranks(b, a),
{
    if outranks(b, a) {
        if a.1.weight() == b.1.weight() {
            if a.0.provider != b.0.provider {
                crate::textmap::lemma_text_lt_transitive(
                    a.0.provider,
                    b.0.provider,
                    a.0.provider,
                );
                crate::textmap::lemma_text_lt_irreflexive(a.0.provider);
            } else {
                crate::textmap::lemma_text_lt_transitive(a.0.model, b.0.model, a.0.model);
                crate::textmap::lemma_text_lt_irreflexive(a.0.model);
            }
        }
    }
}

proof fn lemma_outranks_step<A: Amount>(a: (KeyModel, A), b: (KeyModel, A), c: (KeyModel, A))
    requires
        outranks(a, b),
        !outranks(c, b),
    ensures
        outranks(a, c),
{
    if a.1.weight() == b.1.weight() && b.1.weight() == c.1.weight() {
        crate::textmap::lemma_text_lt_total(b.0.provider, c.0.provider);
        if b.0.provider == c.0.provider {
            crate::textmap::lemma_text_lt_total(b.0.model, c.0.model);
            if a.0.provider == b.0.provider && b.0.model != c.0.model {
                crate::textmap::lemma_text_lt_transitive(a.0.model, b.0.model, c.0.model);
            }
        } else {
            if a.0.provider != b.0.provider {
                crate::textmap::lemma_text_lt_transitive(
                    a.0.provider,
                    b.0.provider,
                    c.0.provider,
                );
                crate::textmap::lemma_text_lt_irreflexive(a.0.provider);
            }
        }
    }
}

// ---------------------------------------------------------------------------
// Colours
// ---------------------------------------------------------------------------

/// The number of colours.
pub const COLOR_COUNT: usize = 12;

/// The red, green and blue parts of the colours.
pub open spec fn color_parts(index: int) -> (u8, u8, u8) {
    seq![
        (124u8, 156u8, 255u8),
        (40u8, 209u8, 124u8),
        (255u8, 176u8, 0u8),
        (255u8, 92u8, 138u8),
        (0u8, 194u8, 255u8),
        (181u8, 108u8, 255u8),
        (255u8, 122u8, 26u8),
        (0u8, 208u8, 176u8),
        (242u8, 233u8, 78u8),
        (255u8, 79u8, 216u8),
        (110u8, 231u8, 249u8),
        (184u8, 243u8, 90u8),
    ][index % 12]
}

/// The glyphs that tell models apart where there is no colour.
pub open spec fn plain_glyph(index: int) -> char {
    seq!['█', '▓', '▒', '░', '■', '□', '●', '○', '◆', '◇', '▲', '△'][index % 12]
}

/// The hash of `bytes` that starts from `seed`: each byte is mixed in, then the
/// hash is multiplied by a prime.
pub open spec fn hash_from(seed: u64, bytes: Seq<u8>) -> u64
    decreases bytes.len(),
{
    if bytes.len() == 0 {
        seed
    } else {
        let mixed = hash_from(seed, bytes.drop_last()) ^ (bytes.last() as u64);
        ((mixed as nat * 0x100000001b3) % 0x1_0000_0000_0000_0000) as u64
    }
}

/// The hash of a model: over the bytes of its provider, a zero and the bytes of
/// its name.
pub open spec fn key_hash(key: KeyModel) -> u64 {
    hash_from(
        0xcbf29ce484222325,
        vstd::utf8::encode_utf8(key.provider) + seq![0u8] + vstd::utf8::encode_utf8(key.model),
    )
}

/// The colour that a model has if it is free.
pub open spec fn preferred_color(key: KeyModel) -> int {
    key_hash(key) as int % 12
}

fn hash_step(hash: u64, byte: u8) -> (out: u64)
    ensures
        out == (((hash ^ (byte as u64)) as nat * 0x100000001b3) % 0x1_0000_0000_0000_0000) as u64,
{
    (hash ^ (byte as u64)).wrapping_mul(0x100000001b3)
}

fn hash_text(seed: u64, text: &str) -> (out: u64)
    ensures
        out == hash_from(seed, vstd::utf8::encode_utf8(text@)),
{
    let bytes = text.as_bytes();
    let ghost all = vstd::utf8::encode_utf8(text@);
    let mut hash: u64 = seed;
    let mut i: usize = 0;
    while i < bytes.len()
        invariant
            i <= bytes.len(),
            bytes@ == all,
            hash == hash_from(seed, all.take(i as int)),
        decreases bytes.len() - i,
    {
        proof {
            assert(all.take(i + 1).drop_last() =~= all.take(i as int));
        }
        hash = hash_step(hash, bytes[i]);
        i += 1;
    }
    proof {
        assert(all.take(all.len() as int) =~= all);
    }
    hash
}

proof fn lemma_hash_splits(seed: u64, a: Seq<u8>, b: Seq<u8>)
    ensures
        hash_from(seed, a + b) == hash_from(hash_from(seed, a), b),
    decreases b.len(),
{
    if b.len() == 0 {
        assert(a + b =~= a);
    } else {
        lemma_hash_splits(seed, a, b.drop_last());
        assert((a + b).drop_last() =~= a + b.drop_last());
        assert((a + b).last() == b.last());
    }
}

/// The hash of a model.
pub fn model_visual_hash(key: &DisplayModelKey) -> (out: u64)
    ensures
        out == key_hash(key@),
{
    let head: u64 = hash_text(0xcbf29ce484222325, key.provider.as_str());
    let middle: u64 = hash_step(head, 0);
    let out: u64 = hash_text(middle, key.model.as_str());
    proof {
        let p = vstd::utf8::encode_utf8(key.provider@);
        let m = vstd::utf8::encode_utf8(key.model@);
        assert((p + seq![0u8]).drop_last() =~= p);
        lemma_hash_splits(0xcbf29ce484222325, p + seq![0u8], m);
    }
    out
}

/// The colour that a model has if it is free.
pub fn preferred_model_color_index(key: &DisplayModelKey) -> (out: usize)
    ensures
        out == preferred_color(key@),
        out < COLOR_COUNT,
{
    (model_visual_hash(key) % 12) as usize
}

/// The first colour from `preferred` on, in steps of five, that is not used, or
/// `preferred` if all are.
pub open spec fn free_color(preferred: int, used: Seq<int>, offset: int) -> int
    decreases 12 - offset,
{
    if offset < 0 || offset >= 12 {
        preferred
    } else if !used.contains((preferred + 5 * offset) % 12) {
        (preferred + 5 * offset) % 12
    } else {
        free_color(preferred, used, offset + 1)
    }
}

/// The colours of `models`, each of which gets one that is free when it is met.
pub open spec fn colors_for(models: Seq<KeyModel>) -> Seq<(KeyModel, int)>
    decreases models.len(),
{
    if models.len() == 0 {
        seq![]
    } else {
        let head = colors_for(models.drop_last());
        let key = models.last();
        if place_of(head, key) < head.len() {
            head
        } else {
            head.push((key, free_color(preferred_color(key), used_colors(head), 0)))
        }
    }
}

/// The colours that are used.
pub open spec fn used_colors(items: Seq<(KeyModel, int)>) -> Seq<int> {
    items.map_values(|item: (KeyModel, int)| item.1)
}

/// The colour of a model among `colors`, or the one it prefers.
pub open spec fn color_of(colors: Seq<(KeyModel, int)>, key: KeyModel) -> int {
    match amount_of(colors, key) {
        Some(color) => color,
        None => preferred_color(key),
    }
}

/// The colours of some models.
#[derive(Debug)]
pub struct ModelVisuals {
    colors: Vec<Tally<usize>>,
}

/// The views of colours.
pub open spec fn color_items(items: Seq<Tally<usize>>) -> Seq<(KeyModel, int)> {
    items.map_values(|t: Tally<usize>| (t.key@, t.amount as int))
}

impl View for ModelVisuals {
    type V = Seq<(KeyModel, int)>;

    closed spec fn view(&self) -> Seq<(KeyModel, int)> {
        color_items(self.colors@)
    }
}

proof fn lemma_color_places(items: Seq<Tally<usize>>, key: KeyModel)
    ensures
        place_of(tallies(items), key) == place_of(color_items(items), key),
{
    lemma_place_of(tallies(items), key);
    let p = place_of(tallies(items), key);
    assert forall|j: int| 0 <= j < p implies (#[trigger] color_items(items)[j]).0 != key by {
        assert(tallies(items)[j].0 != key);
    }
    lemma_place_is(color_items(items), key, p);
}

fn is_used(items: &Vec<Tally<usize>>, color: usize) -> (out: bool)
    ensures
        out == used_colors(color_items(items@)).contains(color as int),
{
    let ghost used = used_colors(color_items(items@));
    let mut i: usize = 0;
    while i < items.len()
        invariant
            i <= items.len(),
            used == used_colors(color_items(items@)),
            forall|j: int| 0 <= j < i ==> #[trigger] used[j] != color,
        decreases items.len() - i,
    {
        if items[i].amount == color {
            proof {
                assert(used[i as int] == color);
            }
            return true;
        }
        i += 1;
    }
    false
}

fn choose_model_color(key: &DisplayModelKey, items: &Vec<Tally<usize>>) -> (out: usize)
    ensures
        out == free_color(preferred_color(key@), used_colors(color_items(items@)), 0),
        out < COLOR_COUNT,
{
    let preferred = preferred_model_color_index(key);
    let ghost used = used_colors(color_items(items@));
    let mut offset: usize = 0;
    while offset < 12
        invariant
            offset <= 12,
            preferred < 12,
            preferred == preferred_color(key@),
            used == used_colors(color_items(items@)),
            free_color(preferred as int, used, 0) == free_color(
                preferred as int,
                used,
                offset as int,
            ),
        decreases 12 - offset,
    {
        let candidate: usize = (preferred + 5 * offset) % 12;
        if !is_used(items, candidate) {
            return candidate;
        }
        offset += 1;
    }
    preferred
}

impl ModelVisuals {
    /// Gives each of `models` a colour.
    pub fn from_models(models: &Vec<DisplayModelKey>) -> (out: ModelVisuals)
        ensures
            out@ == colors_for(key_models(models@)),
    {
        let ghost all = key_models(models@);
        let mut colors: Vec<Tally<usize>> = Vec::new();
        let mut i: usize = 0;
        while i < models.len()
            invariant
                i <= models.len(),
                all == key_models(models@),
                color_items(colors@) == colors_for(all.take(i as int)),
            decreases models.len() - i,
        {
            let ghost before = color_items(colors@);
            proof {
                assert(all.take(i + 1).drop_last() =~= all.take(i as int));
                lemma_color_places(colors@, models@[i as int]@);
            }
            if find_tally(&colors, &models[i]) == colors.len() {
                let color = choose_model_color(&models[i], &colors);
                colors.push(Tally { key: models[i].copy(), amount: color });
                proof {
                    assert(color_items(colors@) =~= before.push((all[i as int], color as int)));
                }
            }
            i += 1;
        }
        proof {
            assert(all.take(all.len() as int) =~= all);
        }
        ModelVisuals { colors }
    }

    /// The colour of a model.
    pub fn color_index(&self, key: &DisplayModelKey) -> (out: usize)
        ensures
            out == color_of(self@, key@),
    {
        proof {
            lemma_color_places(self.colors@, key@);
            lemma_place_of(self@, key@);
        }
        match find_amount(&self.colors, key) {
            Some(color) => color,
            None => preferred_model_color_index(key),
        }
    }
}

/// As long as there are no more models than colours, no two models have the same
/// colour.
pub proof fn colors_are_distinct(models: Seq<KeyModel>)
    requires
        colors_for(models).len() <= COLOR_COUNT,
    ensures
        used_colors(colors_for(models)).no_duplicates(),
    decreases models.len(),
{
    if models.len() > 0 {
        let head = colors_for(models.drop_last());
        colors_are_distinct(models.drop_last());
        let key = models.last();
        if place_of(head, key) >= head.len() {
            let used = used_colors(head);
            let color = free_color(preferred_color(key), used, 0);
            lemma_free_color(preferred_color(key), used);
            assert(used_colors(colors_for(models)) =~= used.push(color));
        }
    }
}

/// Steps of five lead from each colour to each colour.
proof fn lemma_steps_reach(preferred: int, color: int) -> (k: int)
    requires
        0 <= preferred < 12,
        0 <= color < 12,
    ensures
        0 <= k < 12,
        (preferred + 5 * k) % 12 == color,
{
    let d = 5 * (color - preferred);
    let k = d % 12;
    let m = d / 12;
    assert(preferred + 5 * k == color + 12 * (2 * (color - preferred) - 5 * m));
    k
}

/// While a colour is free, a free colour is chosen.
pub proof fn lemma_free_color(preferred: int, used: Seq<int>)
    requires
        0 <= preferred < 12,
        used.len() < 12,
    ensures
        !used.contains(free_color(preferred, used, 0)),
        0 <= free_color(preferred, used, 0) < 12,
{
    lemma_free_from(preferred, used, 0);
    if used.contains(free_color(preferred, used, 0)) {
        let all = vstd::set_lib::set_int_range(0, 12);
        vstd::set_lib::lemma_int_range(0, 12);
        vstd::seq_lib::seq_to_set_is_finite(used);
        used.lemma_cardinality_of_set();
        assert forall|r: int| #[trigger] all.contains(r) implies used.to_set().contains(r) by {
            let k = lemma_steps_reach(preferred, r);
            assert(used.contains((preferred + 5 * k) % 12));
        }
        assert(all.subset_of(used.to_set()));
        vstd::set_lib::lemma_len_subset(all, used.to_set());
    }
}

proof fn lemma_free_from(preferred: int, used: Seq<int>, offset: int)
    requires
        0 <= preferred < 12,
        0 <= offset <= 12,
    ensures
        0 <= free_color(preferred, used, offset) < 12,
        used.contains(free_color(preferred, used, offset)) ==> forall|k: int|
            offset <= k < 12 ==> used.contains(#[trigger] ((preferred + 5 * k) % 12)),
    decreases 12 - offset,
{
    if offset < 12 {
        lemma_free_from(preferred, used, offset + 1);
    }
}

// ---------------------------------------------------------------------------
// Coloured text
// ---------------------------------------------------------------------------

/// The red, green and blue parts of a colour.
pub fn color_at(index: usize) -> (out: (u8, u8, u8))
    ensures
        out == color_parts(index as int),
{
    match index % 12 {
        0 => (124, 156, 255),
        1 => (40, 209, 124),
        2 => (255, 176, 0),
        3 => (255, 92, 138),
        4 => (0, 194, 255),
        5 => (181, 108, 255),
        6 => (255, 122, 26),
        7 => (0, 208, 176),
        8 => (242, 233, 78),
        9 => (255, 79, 216),
        10 => (110, 231, 249),
        _ => (184, 243, 90),
    }
}

/// The glyph that stands for a colour where there is none.
pub fn fallback_bar_glyph(color_index: usize) -> (out: char)
    ensures
        out == plain_glyph(color_index as int),
{
    match color_index % 12 {
        0 => '█',
        1 => '▓',
        2 => '▒',
        3 => '░',
        4 => '■',
        5 => '□',
        6 => '●',
        7 => '○',
        8 => '◆',
        9 => '◇',
        10 => '▲',
        _ => '△',
    }
}

/// `text` in the colour `index`.
pub open spec fn colored(text: Seq<char>, index: int, use_color: bool) -> Seq<char> {
    if use_color {
        let parts = color_parts(index);
        "\u{1b}[38;2;"@ + crate::numbers::decimal_of(parts.0 as nat) + ";"@
            + crate::numbers::decimal_of(parts.1 as nat) + ";"@ + crate::numbers::decimal_of(
            parts.2 as nat,
        ) + "m"@ + text + crate::ansi::reset()
    } else {
        text
    }
}

/// `text` in the colour `index`.
pub fn colorize(text: &str, index: usize, use_color: bool) -> (out: String)
    ensures
        out@ == colored(text@, index as int, use_color),
{
    if !use_color {
        return String::from_str(text);
    }
    proof {
        reveal_strlit("\u{1b}[0m");
        assert("\u{1b}[0m"@ =~= crate::ansi::reset());
    }
    let parts = color_at(index);
    let mut out = concat2("\u{1b}[38;2;", decimal(parts.0 as u64).as_str());
    out.append(";");
    out.append(decimal(parts.1 as u64).as_str());
    out.append(";");
    out.append(decimal(parts.2 as u64).as_str());
    out.append("m");
    out.append(text);
    out.append("\u{1b}[0m");
    out
}

/// `text` in the colour of labels.
pub open spec fn accented(text: Seq<char>, use_color: bool) -> Seq<char> {
    if use_color {
        "\u{1b}[38;5;202m"@ + text + crate::ansi::reset()
    } else {
        text
    }
}

/// `text` in the colour of labels.
pub fn accent(text: &str, use_color: bool) -> (out: String)
    ensures
        out@ == accented(text@, use_color),
{
    proof {
        reveal_strlit("\u{1b}[0m");
        assert("\u{1b}[0m"@ =~= crate::ansi::reset());
    }
    if use_color {
        concat3("\u{1b}[38;5;202m", text, "\u{1b}[0m")
    } else {
        String::from_str(text)
    }
}

/// The glyph of a model's bars.
pub open spec fn bar_glyph(colors: Seq<(KeyModel, int)>, key: KeyModel, use_color: bool) -> char {
    if use_color {
        '█'
    } else {
        plain_glyph(color_of(colors, key))
    }
}

/// The glyph of a model's bars.
pub fn bar_glyph_for_key(key: &DisplayModelKey, visuals: &ModelVisuals, use_color: bool) -> (out:
    char)
    ensures
        out == bar_glyph(visuals@, key@, use_color),
{
    if use_color {
        '█'
    } else {
        fallback_bar_glyph(visuals.color_index(key))
    }
}

/// The mark before a model's name.
pub open spec fn marker_of(
    colors: Seq<(KeyModel, int)>,
    key: KeyModel,
    use_color: bool,
) -> Seq<char> {
    colored(seq![bar_glyph(colors, key, use_color)], color_of(colors, key), use_color)
}

/// The mark before a model's name.
pub fn model_marker_for_key(key: &DisplayModelKey, visuals: &ModelVisuals, use_color: bool) -> (out:
    String)
    ensures
        out@ == marker_of(visuals@, key@, use_color),
{
    let glyph = repeat(bar_glyph_for_key(key, visuals, use_color), 1);
    proof {
        assert(glyph@ =~= seq![bar_glyph(visuals@, key@, use_color)]);
    }
    colorize(glyph.as_str(), visuals.color_index(key), use_color)
}

/// Numbers of tokens are added up without going past the largest number, and an
/// amount weighs as much as its tokens.
pub proof fn amounts_add_their_tokens(a: u64, b: u64, x: TokenUsage, y: TokenUsage)
    ensures
        a + b <= u64::MAX ==> a.sum_with(b) == a + b,
        a + b > u64::MAX ==> a.sum_with(b) == u64::MAX,
        a.weight() == a,
        x.weight() == x.tokens,
        x.tokens + y.tokens <= u64::MAX ==> x.sum_with(y).weight() == x.tokens + y.tokens,
{
    crate::stats::usages_add_up(x, y);
}

/// Models with more tokens come first; of two with as many, the one whose provider,
/// then whose own name comes first in the order of texts.
pub proof fn heavier_models_come_first<A: Amount>(items: Seq<(KeyModel, A)>, i: int, j: int)
    requires
        0 <= i < j < items.len(),
    ensures
        ({
            let a = ranked(items)[i];
            let b = ranked(items)[j];
            &&& ranked(items).len() == items.len()
            &&& a.1.weight() >= b.1.weight()
            &&& a.1.weight() == b.1.weight() && a.0.provider != b.0.provider
                ==> !crate::textmap::text_lt(b.0.provider, a.0.provider)
            &&& a.1.weight() == b.1.weight() && a.0.provider == b.0.provider
                ==> !crate::textmap::text_lt(b.0.model, a.0.model)
        }),
{
    rankings_are_sorted(items);
    items.to_multiset_ensures();
    ranked(items).to_multiset_ensures();
    assert(ranked(items).len() == items.len());
    assert(!outranks(ranked(items)[j], ranked(items)[i]));
}

/// A model is called by its own name, behind that of its provider unless that is the
/// usual one or says nothing.
pub proof fn providers_are_named_where_they_matter(key: KeyModel)
    ensures
        key.provider == "openai"@ ==> label_of(key) == key.model,
        key.provider == "unknown"@ ==> label_of(key) == key.model,
        key.provider == "other"@ ==> label_of(key) == key.model,
        key.provider != "openai"@ && key.provider != "unknown"@ && key.provider != "other"@
            ==> label_of(key) == key.provider + "/"@ + key.model,
{
}

/// A model keeps its colour when further models are named, and the first one has the
/// colour that is its own.
pub proof fn colors_are_kept(models: Seq<KeyModel>, key: KeyModel)
    ensures
        ({
            let before = colors_for(models);
            let after = colors_for(models.push(key));
            &&& before.len() <= after.len() <= before.len() + 1
            &&& after.take(before.len() as int) == before
            &&& place_of(before, key) < before.len() ==> after == before
            &&& place_of(before, key) >= before.len() ==> after.last().0 == key
            &&& place_of(before, key) >= before.len() && !used_colors(before).contains(
                preferred_color(key),
            ) ==> after.last().1 == preferred_color(key)
        }),
{
    assert(models.push(key).drop_last() =~= models);
    let before = colors_for(models);
    let after = colors_for(models.push(key));
    assert(after.take(before.len() as int) =~= before);
    assert((preferred_color(key) + 5 * 0) % 12 == preferred_color(key));
}

/// The twelve colours differ, and so do the twelve marks that stand for them where
/// there is no colour.
pub proof fn colors_and_marks_differ(i: int, j: int)
    requires
        0 <= i < 12,
        0 <= j < 12,
        i != j,
    ensures
        color_parts(i) != color_parts(j),
        plain_glyph(i) != plain_glyph(j),
        color_parts(i + 12) == color_parts(i),
        plain_glyph(i + 12) == plain_glyph(i),
{
    assert((i + 12) % 12 == i);
}

/// Text is coloured only where that is asked for, and is then set between a colour and
/// its end.
pub proof fn colors_are_used_where_asked(
    text: Seq<char>,
    index: int,
    colors: Seq<(KeyModel, int)>,
    key: KeyModel,
)
    ensures
        colored(text, index, false) == text,
        accented(text, false) == text,
        crate::text::has_prefix(colored(text, index, true), "\u{1b}[38;2;"@),
        crate::text::has_suffix(
            colored(text, index, true),
            "m"@ + text + seq!['\u{1b}', '[', '0', 'm'],
        ),
        accented(text, true) == "\u{1b}[38;5;202m"@ + text + seq!['\u{1b}', '[', '0', 'm'],
        marker_of(colors, key, false) == seq![plain_glyph(color_of(colors, key))],
        marker_of(colors, key, true) == colored(seq!['█'], color_of(colors, key), true),
{
    let all = colored(text, index, true);
    let tail = "m"@ + text + crate::ansi::reset();
    assert(all.take("\u{1b}[38;2;"@.len() as int) =~= "\u{1b}[38;2;"@);
    assert(all.skip(all.len() - tail.len()) =~= tail);
}

} // verus!
