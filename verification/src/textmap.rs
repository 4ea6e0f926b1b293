//! Maps from text, listed in the order of their keys.

use vstd::prelude::*;

use crate::text::chars_of;

verus! {

// ---------------------------------------------------------------------------
// The order of texts
// ---------------------------------------------------------------------------

/// The order of texts: that of their first different characters, a prefix first.
pub open spec fn text_lt(a: Seq<char>, b: Seq<char>) -> bool
    decreases a.len(),
{
    if b.len() == 0 {
        false
    } else if a.len() == 0 {
        true
    } else {
        a[0] < b[0] || (a[0] == b[0] && text_lt(a.skip(1), b.skip(1)))
    }
}

/// No text is before itself.
pub proof fn lemma_text_lt_irreflexive(a: Seq<char>)
    ensures
        !text_lt(a, a),
    decreases a.len(),
{
    if a.len() > 0 {
        lemma_text_lt_irreflexive(a.skip(1));
    }
}

/// What is before a text is before all that come after it.
pub proof fn lemma_text_lt_transitive(a: Seq<char>, b: Seq<char>, c: Seq<char>)
    requires
        text_lt(a, b),
        text_lt(b, c),
    ensures
        text_lt(a, c),
    decreases a.len(),
{
    if a.len() > 0 && b.len() > 0 && c.len() > 0 && a[0] == b[0] && b[0] == c[0] {
        lemma_text_lt_transitive(a.skip(1), b.skip(1), c.skip(1));
    }
}

/// Of two different texts one is before the other.
pub proof fn lemma_text_lt_total(a: Seq<char>, b: Seq<char>)
    ensures
        text_lt(a, b) || a == b || text_lt(b, a),
    decreases a.len(),
{
    if a.len() == 0 && b.len() == 0 {
        assert(a =~= b);
    } else if a.len() > 0 && b.len() > 0 && a[0] == b[0] {
        lemma_text_lt_total(a.skip(1), b.skip(1));
        if a.skip(1) == b.skip(1) {
            assert(a =~= seq![a[0]] + a.skip(1));
            assert(b =~= seq![b[0]] + b.skip(1));
        }
    }
}

/// How two texts are placed in their order.
#[derive(Clone, Copy, PartialEq, Eq, Structural)]
pub enum Place {
    Before,
    Same,
    After,
}

/// How `a` is placed with regard to `b`.
pub open spec fn placed(a: Seq<char>, b: Seq<char>) -> Place {
    if text_lt(a, b) {
        Place::Before
    } else if a == b {
        Place::Same
    } else {
        Place::After
    }
}

/// How `a` is placed with regard to `b`.
pub fn place_chars(a: &Vec<char>, b: &Vec<char>) -> (out: Place)
    ensures
        out == placed(a@, b@),
{
    let mut i: usize = 0;
    proof {
        assert(a@.skip(0) =~= a@);
        assert(b@.skip(0) =~= b@);
    }
    while i < a.len() && i < b.len() && a[i] == b[i]
        invariant
            i <= a.len(),
            i <= b.len(),
            forall|j: int| 0 <= j < i ==> a@[j] == b@[j],
            text_lt(a@, b@) == text_lt(a@.skip(i as int), b@.skip(i as int)),
            text_lt(b@, a@) == text_lt(b@.skip(i as int), a@.skip(i as int)),
        decreases a.len() - i,
    {
        proof {
            assert(a@.skip(i as int).skip(1) =~= a@.skip(i + 1));
            assert(b@.skip(i as int).skip(1) =~= b@.skip(i + 1));
        }
        i += 1;
    }
    proof {
        lemma_text_lt_irreflexive(a@);
        if i == a@.len() && i == b@.len() {
            assert(a@ =~= b@);
        }
        if i < a@.len() {
            assert(a@.skip(i as int)[0] == a@[i as int]);
        }
        if i < b@.len() {
            assert(b@.skip(i as int)[0] == b@[i as int]);
        }
    }
    if i == a.len() {
        if i == b.len() {
            Place::Same
        } else {
            Place::Before
        }
    } else if i == b.len() {
        Place::After
    } else if a[i] < b[i] {
        Place::Before
    } else {
        Place::After
    }
}

/// How `a` is placed with regard to `b`.
pub fn place(a: &str, b: &str) -> (out: Place)
    ensures
        out == placed(a@, b@),
{
    place_chars(&chars_of(a), &chars_of(b))
}

// ---------------------------------------------------------------------------
// Maps
// ---------------------------------------------------------------------------

/// Whether the keys of `entries` come in strictly rising order.
pub open spec fn is_sorted<V>(entries: Seq<(String, V)>) -> bool {
    forall|i: int, j: int|
        0 <= i < j < entries.len() ==> text_lt(
            (#[trigger] entries[i]).0@,
            (#[trigger] entries[j]).0@,
        )
}

/// Whether `key` is the key of an entry.
pub open spec fn has_key<V>(entries: Seq<(String, V)>, key: Seq<char>) -> bool {
    exists|i: int| 0 <= i < entries.len() && (#[trigger] entries[i]).0@ == key
}

/// The position of the entry with `key`.
pub open spec fn key_position<V>(entries: Seq<(String, V)>, key: Seq<char>) -> int {
    choose|i: int| 0 <= i < entries.len() && (#[trigger] entries[i]).0@ == key
}

/// The map that `entries` list.
pub open spec fn map_of<V>(entries: Seq<(String, V)>) -> Map<Seq<char>, V> {
    Map::new(
        |key: Seq<char>| has_key(entries, key),
        |key: Seq<char>| entries[key_position(entries, key)].1,
    )
}

/// A map from text that lists its entries in the order of their keys.
#[derive(Debug)]
pub struct TextMap<V> {
    entries: Vec<(String, V)>,
}

impl<V> View for TextMap<V> {
    type V = Map<Seq<char>, V>;

    closed spec fn view(&self) -> Map<Seq<char>, V> {
        map_of(self.entries@)
    }
}

/// In sorted entries the position of a key is the one that it has.
pub proof fn lemma_position<V>(entries: Seq<(String, V)>, i: int)
    requires
        is_sorted(entries),
        0 <= i < entries.len(),
    ensures
        has_key(entries, entries[i].0@),
        key_position(entries, entries[i].0@) == i,
        map_of(entries).dom().contains(entries[i].0@),
        map_of(entries)[entries[i].0@] == entries[i].1,
{
    let key = entries[i].0@;
    assert(entries[i].0@ == key);
    let k = key_position(entries, key);
    assert(0 <= k < entries.len() && entries[k].0@ == key);
    lemma_text_lt_irreflexive(key);
    if k < i {
        assert(text_lt(entries[k].0@, entries[i].0@));
    } else if i < k {
        assert(text_lt(entries[i].0@, entries[k].0@));
    }
}

impl<V> TextMap<V> {
    #[verifier::type_invariant]
    spec fn inv(self) -> bool {
        is_sorted(self.entries@)
    }

    /// The map without entries.
    pub fn new() -> (out: Self)
        ensures
            out@ == Map::<Seq<char>, V>::empty(),
    {
        let out = TextMap { entries: Vec::new() };
        proof {
            assert(out@ =~= Map::<Seq<char>, V>::empty());
        }
        out
    }

    /// The number of entries.
    pub fn len(&self) -> (out: usize)
        ensures
            self@.dom().finite(),
            out == self@.dom().len(),
    {
        proof {
            use_type_invariant(self);
            lemma_count(self.entries@);
        }
        self.entries.len()
    }

    /// The entries in the order of their keys.
    pub fn entries(&self) -> (out: &Vec<(String, V)>)
        ensures
            is_sorted(out@),
            self@ == map_of(out@),
    {
        proof {
            use_type_invariant(self);
        }
        &self.entries
    }

    /// Hands out the entries in the order of their keys.
    pub fn into_entries(self) -> (out: Vec<(String, V)>)
        ensures
            is_sorted(out@),
            self@ == map_of(out@),
    {
        proof {
            use_type_invariant(&self);
        }
        self.entries
    }

    /// The position of the first entry whose key is not before `key`.
    fn find(&self, key: &str) -> (out: usize)
        ensures
            out <= self.entries@.len(),
            forall|j: int|
                0 <= j < out ==> text_lt((#[trigger] self.entries@[j]).0@, key@),
            forall|j: int|
                out <= j < self.entries@.len() ==> !text_lt(
                    (#[trigger] self.entries@[j]).0@,
                    key@,
                ),
    {
        proof {
            use_type_invariant(self);
        }
        let chars = chars_of(key);
        let mut i: usize = 0;
        while i < self.entries.len() && place_chars(&chars_of(self.entries[i].0.as_str()), &chars)
            == Place::Before
            invariant
                i <= self.entries.len(),
                chars@ == key@,
                forall|j: int|
                    0 <= j < i ==> text_lt((#[trigger] self.entries@[j]).0@, key@),
            decreases self.entries.len() - i,
        {
            i += 1;
        }
        proof {
            let all = self.entries@;
            assert forall|j: int| i <= j < all.len() implies !text_lt(
                (#[trigger] all[j]).0@,
                key@,
            ) by {
                if j > i {
                    assert(text_lt(all[i as int].0@, all[j].0@));
                    if text_lt(all[j].0@, key@) {
                        lemma_text_lt_transitive(all[i as int].0@, all[j].0@, key@);
                    }
                }
            }
        }
        i
    }

    /// The value of `key`.
    pub fn get(&self, key: &str) -> (out: Option<&V>)
        ensures
            match out {
                Some(value) => self@.dom().contains(key@) && self@[key@] == *value,
                None => !self@.dom().contains(key@),
            },
    {
        let i = self.find(key);
        proof {
            use_type_invariant(self);
        }
        if i < self.entries.len() && crate::text::same(self.entries[i].0.as_str(), key) {
            proof {
                lemma_position(self.entries@, i as int);
            }
            Some(&self.entries[i].1)
        } else {
            proof {
                lemma_absent(self.entries@, i as int, key@);
            }
            None
        }
    }

    /// Whether `key` has a value.
    pub fn contains_key(&self, key: &str) -> (out: bool)
        ensures
            out == self@.dom().contains(key@),
    {
        self.get(key).is_some()
    }

    /// Gives `key` the value `value`.
    pub fn insert(&mut self, key: String, value: V)
        ensures
            final(self)@ == old(self)@.insert(key@, value),
    {
        let i = self.find(key.as_str());
        proof {
            use_type_invariant(&*self);
        }
        let ghost before = self.entries@;
        let mut all: Vec<(String, V)> = Vec::new();
        std::mem::swap(&mut all, &mut self.entries);
        if i < all.len() && crate::text::same(all[i].0.as_str(), key.as_str()) {
            proof {
                lemma_replaced(before, i as int, key, value);
            }
            all.set(i, (key, value));
        } else {
            proof {
                lemma_inserted(before, i as int, key, value);
            }
            all.insert(i, (key, value));
        }
        self.entries = all;
    }
}

proof fn lemma_absent<V>(entries: Seq<(String, V)>, i: int, key: Seq<char>)
    requires
        is_sorted(entries),
        0 <= i <= entries.len(),
        forall|j: int| 0 <= j < i ==> text_lt((#[trigger] entries[j]).0@, key),
        i < entries.len() ==> entries[i].0@ != key && !text_lt(entries[i].0@, key),
    ensures
        !has_key(entries, key),
{
    lemma_text_lt_irreflexive(key);
    if has_key(entries, key) {
        let k = key_position(entries, key);
        assert(0 <= k < entries.len() && entries[k].0@ == key);
        if k < i {
            assert(text_lt(entries[k].0@, key));
        } else if k > i {
            assert(text_lt(entries[i].0@, entries[k].0@));
        }
    }
}

proof fn lemma_replaced<V>(entries: Seq<(String, V)>, i: int, key: String, value: V)
    requires
        is_sorted(entries),
        0 <= i < entries.len(),
        entries[i].0@ == key@,
    ensures
        is_sorted(entries.update(i, (key, value))),
        map_of(entries.update(i, (key, value))) == map_of(entries).insert(key@, value),
{
    let all = entries.update(i, (key, value));
    assert forall|a: int, b: int| 0 <= a < b < all.len() implies text_lt(
        (#[trigger] all[a]).0@,
        (#[trigger] all[b]).0@,
    ) by {
        assert(text_lt(entries[a].0@, entries[b].0@));
    }
    let left = map_of(all);
    let right = map_of(entries).insert(key@, value);
    assert forall|k: Seq<char>| left.dom().contains(k) == right.dom().contains(k) by {
        if has_key(all, k) {
            let p = key_position(all, k);
            assert(0 <= p < all.len() && all[p].0@ == k);
            assert(entries[p].0@ == k);
        }
        if has_key(entries, k) {
            let p = key_position(entries, k);
            assert(0 <= p < entries.len() && entries[p].0@ == k);
            assert(all[p].0@ == k);
        }
        if k == key@ {
            assert(all[i].0@ == k);
        }
    }
    assert forall|k: Seq<char>| left.dom().contains(k) implies left[k] == right[k] by {
        let p = key_position(all, k);
        assert(0 <= p < all.len() && all[p].0@ == k);
        lemma_position(all, p);
        if p == i {
        } else {
            lemma_position(entries, p);
            if k == key@ {
                lemma_position(all, i);
            }
        }
    }
    assert(left =~= right);
}

proof fn lemma_inserted<V>(entries: Seq<(String, V)>, i: int, key: String, value: V)
    requires
        is_sorted(entries),
        0 <= i <= entries.len(),
        forall|j: int| 0 <= j < i ==> text_lt((#[trigger] entries[j]).0@, key@),
        forall|j: int| i <= j < entries.len() ==> !text_lt((#[trigger] entries[j]).0@, key@),
        i < entries.len() ==> entries[i].0@ != key@,
    ensures
        is_sorted(entries.insert(i, (key, value))),
        map_of(entries.insert(i, (key, value))) == map_of(entries).insert(key@, value),
{
    let all = entries.insert(i, (key, value));
    assert forall|j: int| i <= j < entries.len() implies text_lt(
        key@,
        (#[trigger] entries[j]).0@,
    ) by {
        lemma_text_lt_total(key@, entries[j].0@);
        if entries[j].0@ == key@ {
            if j > i {
                assert(text_lt(entries[i].0@, entries[j].0@));
            }
        }
    }
    assert forall|a: int, b: int| 0 <= a < b < all.len() implies text_lt(
        (#[trigger] all[a]).0@,
        (#[trigger] all[b]).0@,
    ) by {
        if b < i {
            assert(all[a] == entries[a] && all[b] == entries[b]);
        } else if b == i {
            assert(all[a] == entries[a]);
        } else {
            assert(all[b] == entries[b - 1]);
            if a < i {
                assert(all[a] == entries[a]);
                assert(text_lt(entries[a].0@, entries[b - 1].0@));
            } else if a > i {
                assert(all[a] == entries[a - 1]);
                assert(text_lt(entries[a - 1].0@, entries[b - 1].0@));
            }
        }
    }
    let left = map_of(all);
    let right = map_of(entries).insert(key@, value);
    assert forall|k: Seq<char>| left.dom().contains(k) == right.dom().contains(k) by {
        if has_key(all, k) {
            let p = key_position(all, k);
            assert(0 <= p < all.len() && all[p].0@ == k);
            if p < i {
                assert(entries[p].0@ == k);
            } else if p > i {
                assert(entries[p - 1].0@ == k);
            }
        }
        if has_key(entries, k) {
            let p = key_position(entries, k);
            assert(0 <= p < entries.len() && entries[p].0@ == k);
            if p < i {
                assert(all[p].0@ == k);
            } else {
                assert(all[p + 1].0@ == k);
            }
        }
        if k == key@ {
            assert(all[i].0@ == k);
        }
    }
    lemma_absent(entries, i, key@);
    assert forall|k: Seq<char>| left.dom().contains(k) implies left[k] == right[k] by {
        let p = key_position(all, k);
        assert(0 <= p < all.len() && all[p].0@ == k);
        lemma_position(all, p);
        lemma_position(all, i);
        if p < i {
            lemma_position(entries, p);
        } else if p > i {
            lemma_position(entries, p - 1);
        }
    }
    assert(left =~= right);
}

proof fn lemma_count<V>(entries: Seq<(String, V)>)
    requires
        is_sorted(entries),
    ensures
        map_of(entries).dom().finite(),
        map_of(entries).dom().len() == entries.len(),
    decreases entries.len(),
{
    let all = map_of(entries).dom();
    if entries.len() == 0 {
        assert(all =~= Set::empty());
    } else {
        let rest = entries.drop_last();
        let key = entries.last().0@;
        assert(is_sorted(rest));
        lemma_count(rest);
        assert forall|k: Seq<char>| all.contains(k) == map_of(rest).dom().insert(key).contains(
            k,
        ) by {
            if has_key(entries, k) {
                let p = key_position(entries, k);
                assert(0 <= p < entries.len() && entries[p].0@ == k);
                if p < rest.len() {
                    assert(rest[p].0@ == k);
                }
            }
            if has_key(rest, k) {
                let p = key_position(rest, k);
                assert(0 <= p < rest.len() && rest[p].0@ == k);
                assert(entries[p].0@ == k);
            }
            if k == key {
                assert(entries[entries.len() - 1].0@ == k);
            }
        }
        assert(all =~= map_of(rest).dom().insert(key));
        assert(!map_of(rest).dom().contains(key)) by {
            if has_key(rest, key) {
                let p = key_position(rest, key);
                assert(0 <= p < rest.len() && rest[p].0@ == key);
                assert(text_lt(entries[p].0@, entries[entries.len() - 1].0@));
                lemma_text_lt_irreflexive(key);
            }
        }
    }
}

/// Texts are ordered by the first character in which they differ; a text comes before
/// those that it begins.
pub proof fn texts_are_ordered_by_their_first_difference(
    head: Seq<char>,
    a: char,
    b: char,
    x: Seq<char>,
    y: Seq<char>,
)
    requires
        a < b,
    ensures
        text_lt(head + seq![a] + x, head + seq![b] + y),
        !text_lt(head + seq![b] + y, head + seq![a] + x),
        text_lt(head, head + seq![a] + x),
        !text_lt(head, head),
    decreases head.len(),
{
    let p = head + seq![a] + x;
    let q = head + seq![b] + y;
    if head.len() > 0 {
        texts_are_ordered_by_their_first_difference(head.skip(1), a, b, x, y);
        assert(p.skip(1) =~= head.skip(1) + seq![a] + x);
        assert(q.skip(1) =~= head.skip(1) + seq![b] + y);
        assert(p[0] == head[0] && q[0] == head[0]);
    } else {
        assert(p[0] == a && q[0] == b);
    }
}

} // verus!
