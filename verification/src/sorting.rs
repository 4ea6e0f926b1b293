//! Sorting by an order of the caller's choice.

use vstd::prelude::*;

verus! {

/// A list with one more item, behind all that it does not go before.
pub open spec fn inserted<T>(list: Seq<T>, item: T, before: spec_fn(T, T) -> bool) -> Seq<T>
    decreases list.len(),
{
    if list.len() == 0 {
        seq![item]
    } else if before(item, list.last()) {
        inserted(list.drop_last(), item, before).push(list.last())
    } else {
        list.push(item)
    }
}

/// Items in order; those that are alike keep their places.
pub open spec fn sorted<T>(items: Seq<T>, before: spec_fn(T, T) -> bool) -> Seq<T>
    decreases items.len(),
{
    if items.len() == 0 {
        seq![]
    } else {
        inserted(sorted(items.drop_last(), before), items.last(), before)
    }
}

/// Whether `f` says of two items whether the first goes before the second.
pub open spec fn decides<T, F: Fn(&T, &T) -> bool>(f: F, before: spec_fn(T, T) -> bool) -> bool {
    &&& forall|a: &T, b: &T| #[trigger] call_requires(f, (a, b))
    &&& forall|a: &T, b: &T, out: bool|
        #[trigger] call_ensures(f, (a, b), out) ==> out == before(*a, *b)
}

fn insert_item<T, F: Fn(&T, &T) -> bool>(
    list: &mut Vec<T>,
    item: T,
    f: &F,
    Ghost(before): Ghost<spec_fn(T, T) -> bool>,
)
    requires
        decides(*f, before),
    ensures
        final(list)@ == inserted(old(list)@, item, before),
{
    let ghost all = list@;
    let mut k: usize = list.len();
    proof {
        assert(all.take(k as int) =~= all);
        assert(inserted(all, item, before) =~= inserted(all, item, before) + all.skip(k as int));
    }
    while k > 0 && f(&item, &list[k - 1])
        invariant
            k <= list.len(),
            all == list@,
            all == old(list)@,
            decides(*f, before),
            inserted(all, item, before) == inserted(all.take(k as int), item, before) + all.skip(
                k as int,
            ),
        ensures
            k <= list.len(),
            all == list@,
            inserted(all, item, before) == inserted(all.take(k as int), item, before) + all.skip(
                k as int,
            ),
            k == 0 || !before(item, all[k - 1]),
        decreases k,
    {
        proof {
            assert(all.take(k as int).drop_last() =~= all.take(k - 1));
            assert(all.take(k as int).last() == all[k - 1]);
            assert(inserted(all.take(k - 1), item, before).push(all[k - 1]) + all.skip(k as int)
                =~= inserted(all.take(k - 1), item, before) + all.skip(k - 1));
        }
        k -= 1;
    }
    proof {
        if k > 0 {
            assert(all.take(k as int).last() == all[k - 1]);
        }
        assert(inserted(all.take(k as int), item, before) =~= all.take(k as int).push(item));
    }
    list.insert(k, item);
    proof {
        assert(list@ =~= all.take(k as int).push(item) + all.skip(k as int));
    }
}

/// Items from the last to the first.
pub(crate) fn reversed<T>(items: Vec<T>) -> (out: Vec<T>)
    ensures
        out@.len() == items@.len(),
        forall|j: int|
            0 <= j < items@.len() ==> #[trigger] out@[j] == items@[items@.len() - 1 - j],
{
    let ghost all = items@;
    let mut rest = items;
    let n: usize = rest.len();
    let mut out: Vec<T> = Vec::new();
    while rest.len() > 0
        invariant
            rest.len() + out.len() == n,
            all.len() == n,
            rest@ == all.take(rest.len() as int),
            forall|j: int| 0 <= j < out.len() ==> #[trigger] out@[j] == all[n - 1 - j],
        decreases rest.len(),
    {
        let ghost before_pop = rest@;
        let last = rest.pop();
        match last {
            Some(item) => {
                proof {
                    assert(before_pop.last() == item);
                    assert(rest@ =~= all.take(rest.len() as int));
                }
                out.push(item);
            },
            None => {},
        }
    }
    out
}

/// Items in order; those that are alike keep their places.
pub(crate) fn sort_items<T, F: Fn(&T, &T) -> bool>(
    items: Vec<T>,
    f: F,
    Ghost(before): Ghost<spec_fn(T, T) -> bool>,
) -> (out: Vec<T>)
    requires
        decides(f, before),
    ensures
        out@ == sorted(items@, before),
{
    let ghost all = items@;
    let n: usize = items.len();
    let mut waiting = reversed(items);
    let mut out: Vec<T> = Vec::new();
    proof {
        assert(all.take(0) =~= seq![]);
    }
    while waiting.len() > 0
        invariant
            waiting.len() <= n,
            all.len() == n,
            decides(f, before),
            forall|j: int| 0 <= j < waiting.len() ==> #[trigger] waiting@[j] == all[n - 1 - j],
            out@ == sorted(all.take(n - waiting.len()), before),
        decreases waiting.len(),
    {
        let ghost k = n - waiting.len();
        let next = waiting.pop();
        match next {
            Some(item) => {
                proof {
                    assert(item == all[k]);
                    assert(all.take(k + 1).drop_last() =~= all.take(k));
                    assert(all.take(k + 1).last() == item);
                }
                insert_item(&mut out, item, &f, Ghost(before));
            },
            None => {},
        }
    }
    proof {
        assert(all.take(n as int) =~= all);
    }
    out
}

/// Whether an order can be sorted by: what does not go before something, and that not
/// before a third, does not go before the third, and nothing goes before what goes
/// before it.
pub open spec fn is_order<T>(before: spec_fn(T, T) -> bool) -> bool {
    &&& forall|a: T, b: T, c: T|
        !(#[trigger] before(b, a)) && !(#[trigger] before(c, b)) ==> !before(c, a)
    &&& forall|a: T, b: T| #[trigger] before(a, b) ==> !before(b, a)
}

/// Whether no item goes before one that is listed earlier.
pub open spec fn is_sorted<T>(items: Seq<T>, before: spec_fn(T, T) -> bool) -> bool {
    forall|i: int, j: int|
        0 <= i < j < items.len() ==> !before(#[trigger] items[j], #[trigger] items[i])
}

/// An item put into a sorted list leaves it sorted, and nothing else changes.
pub proof fn lemma_inserted<T>(list: Seq<T>, item: T, before: spec_fn(T, T) -> bool)
    requires
        is_order(before),
        is_sorted(list, before),
    ensures
        is_sorted(inserted(list, item, before), before),
        inserted(list, item, before).to_multiset() == list.to_multiset().insert(item),
        inserted(list, item, before).len() == list.len() + 1,
        forall|k: int|
            0 <= k < inserted(list, item, before).len() ==> {
                let x = #[trigger] inserted(list, item, before)[k];
                x == item || list.contains(x)
            },
    decreases list.len(),
{
    let out = inserted(list, item, before);
    if list.len() == 0 {
        assert(out =~= list.push(item));
        list.to_multiset_ensures();
    } else if before(item, list.last()) {
        let rest = list.drop_last();
        let last = list.last();
        lemma_inserted(rest, item, before);
        let inner = inserted(rest, item, before);
        assert(rest.push(last) =~= list);
        rest.to_multiset_ensures();
        inner.to_multiset_ensures();
        assert(out.to_multiset() =~= list.to_multiset().insert(item));
        assert forall|k: int| 0 <= k < out.len() implies {
            let x = #[trigger] out[k];
            x == item || list.contains(x)
        } by {
            if k < inner.len() {
                let x = inner[k];
                assert(out[k] == x);
                if x != item {
                    let m = choose|m: int| 0 <= m < rest.len() && rest[m] == x;
                    assert(list[m] == x);
                }
            } else {
                assert(out[k] == list[list.len() - 1]);
            }
        }
        assert forall|i: int, j: int| 0 <= i < j < out.len() implies !before(
            #[trigger] out[j],
            #[trigger] out[i],
        ) by {
            if j < inner.len() {
                assert(out[i] == inner[i]);
                assert(out[j] == inner[j]);
            } else {
                let x = inner[i];
                assert(out[i] == x);
                assert(out[j] == last);
                if x == item {
                    assert(before(item, last));
                } else {
                    let m = choose|m: int| 0 <= m < rest.len() && rest[m] == x;
                    assert(list[m] == x);
                    assert(list[list.len() - 1] == last);
                }
            }
        }
    } else {
        list.to_multiset_ensures();
        assert forall|i: int, j: int| 0 <= i < j < out.len() implies !before(
            #[trigger] out[j],
            #[trigger] out[i],
        ) by {
            if j == list.len() {
                if i < list.len() - 1 {
                    assert(!before(list[list.len() - 1], list[i]));
                    assert(!before(item, list.last()));
                }
            }
        }
        assert forall|k: int| 0 <= k < out.len() implies {
            let x = #[trigger] out[k];
            x == item || list.contains(x)
        } by {
            if k < list.len() {
                assert(out[k] == list[k]);
            }
        }
    }
}

/// Sorting puts items in order and neither loses nor adds any.
pub proof fn sorting_keeps_items<T>(items: Seq<T>, before: spec_fn(T, T) -> bool)
    requires
        is_order(before),
    ensures
        is_sorted(sorted(items, before), before),
        sorted(items, before).to_multiset() == items.to_multiset(),
        sorted(items, before).len() == items.len(),
    decreases items.len(),
{
    if items.len() == 0 {
        assert(sorted(items, before) =~= items);
    } else {
        let rest = items.drop_last();
        sorting_keeps_items(rest, before);
        lemma_inserted(sorted(rest, before), items.last(), before);
        assert(rest.push(items.last()) =~= items);
        rest.to_multiset_ensures();
    }
}

proof fn lemma_inserted_images<T, U>(
    list: Seq<T>,
    item: T,
    before: spec_fn(T, T) -> bool,
    image: spec_fn(T) -> U,
    order: spec_fn(U, U) -> bool,
)
    requires
        forall|a: T, b: T| #[trigger] before(a, b) == order(image(a), image(b)),
    ensures
        inserted(list, item, before).map_values(image) == inserted(
            list.map_values(image),
            image(item),
            order,
        ),
    decreases list.len(),
{
    let images = list.map_values(image);
    if list.len() > 0 {
        assert(images.drop_last() =~= list.drop_last().map_values(image));
        assert(images.last() == image(list.last()));
        if before(item, list.last()) {
            lemma_inserted_images(list.drop_last(), item, before, image, order);
            let rest = inserted(list.drop_last(), item, before);
            assert(rest.push(list.last()).map_values(image) =~= rest.map_values(image).push(
                image(list.last()),
            ));
        } else {
            assert(list.push(item).map_values(image) =~= images.push(image(item)));
        }
    } else {
        assert(seq![item].map_values(image) =~= seq![image(item)]);
    }
}

/// Where the order goes by an image of the items alone, the images of the sorted
/// items are the sorted images.
pub proof fn sorting_goes_by_images<T, U>(
    items: Seq<T>,
    before: spec_fn(T, T) -> bool,
    image: spec_fn(T) -> U,
    order: spec_fn(U, U) -> bool,
)
    requires
        forall|a: T, b: T| #[trigger] before(a, b) == order(image(a), image(b)),
    ensures
        sorted(items, before).map_values(image) == sorted(items.map_values(image), order),
    decreases items.len(),
{
    let images = items.map_values(image);
    if items.len() > 0 {
        assert(images.drop_last() =~= items.drop_last().map_values(image));
        assert(images.last() == image(items.last()));
        sorting_goes_by_images(items.drop_last(), before, image, order);
        lemma_inserted_images(
            sorted(items.drop_last(), before),
            items.last(),
            before,
            image,
            order,
        );
    } else {
        assert(sorted(items, before).map_values(image) =~= sorted(images, order));
    }
}

/// Sorted items are the items.
pub proof fn lemma_sorted_contains<T>(items: Seq<T>, before: spec_fn(T, T) -> bool, item: T)
    requires
        is_order(before),
    ensures
        sorted(items, before).contains(item) == items.contains(item),
{
    sorting_keeps_items(items, before);
    items.to_multiset_ensures();
    sorted(items, before).to_multiset_ensures();
    assert(items.contains(item) <==> items.to_multiset().count(item) > 0);
    assert(sorted(items, before).contains(item) <==> sorted(items, before).to_multiset().count(item)
        > 0);
}

/// What is sorted already is left as it is; so items that are alike keep their places.
pub proof fn sorted_lists_stay<T>(items: Seq<T>, before: spec_fn(T, T) -> bool)
    requires
        is_sorted(items, before),
    ensures
        sorted(items, before) == items,
    decreases items.len(),
{
    if items.len() > 0 {
        let rest = items.drop_last();
        assert forall|i: int, j: int| 0 <= i < j < rest.len() implies !before(
            #[trigger] rest[j],
            #[trigger] rest[i],
        ) by {
            assert(rest[i] == items[i] && rest[j] == items[j]);
        }
        sorted_lists_stay(rest, before);
        if rest.len() > 0 {
            assert(rest.last() == items[items.len() - 2]);
            assert(!before(items[items.len() - 1], items[items.len() - 2]));
        } else {
            assert(seq![items.last()] =~= items);
        }
        assert(rest.push(items.last()) =~= items);
    } else {
        assert(items =~= seq![]);
    }
}

} // verus!
