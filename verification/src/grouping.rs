//! Items grouped by a key: what each group holds, and that the groups hold every item once.
use vstd::prelude::*;

verus! {

/// What becomes of the items with a key, in their order.
pub open spec fn members<T, K, U>(
    items: Seq<T>,
    key: spec_fn(T) -> K,
    image: spec_fn(T) -> U,
    k: K,
) -> Seq<U>
    decreases items.len(),
{
    if items.len() == 0 {
        Seq::empty()
    } else if key(items.last()) == k {
        members(items.drop_last(), key, image, k).push(image(items.last()))
    } else {
        members(items.drop_last(), key, image, k)
    }
}

/// The sum of some sizes.
pub open spec fn total(sizes: Seq<nat>) -> nat
    decreases sizes.len(),
{
    if sizes.len() == 0 {
        0
    } else {
        total(sizes.drop_last()) + sizes.last()
    }
}

/// The sizes of the groups of some keys.
pub open spec fn group_sizes<T, K, U>(
    items: Seq<T>,
    key: spec_fn(T) -> K,
    image: spec_fn(T) -> U,
    groups: Seq<K>,
) -> Seq<nat> {
    groups.map_values(|k: K| members(items, key, image, k).len())
}

/// An item is in the group of its key.
pub proof fn item_is_member<T, K, U>(
    items: Seq<T>,
    key: spec_fn(T) -> K,
    image: spec_fn(T) -> U,
    i: int,
)
    requires
        0 <= i < items.len(),
    ensures
        members(items, key, image, key(items[i])).contains(image(items[i])),
        members(items, key, image, key(items[i])).len() > 0,
    decreases items.len(),
{
    let t = items.drop_last();
    let before = members(t, key, image, key(items[i]));
    if i == items.len() - 1 {
        assert(before.push(image(items[i]))[before.len() as int] == image(items[i]));
    } else {
        item_is_member(t, key, image, i);
        assert(t[i] == items[i]);
        let k = choose|k: int| 0 <= k < before.len() && before[k] == image(items[i]);
        if key(items.last()) == key(items[i]) {
            assert(before.push(image(items.last()))[k] == image(items[i]));
        }
    }
}

proof fn one_more_item<T, K, U>(
    items: Seq<T>,
    key: spec_fn(T) -> K,
    image: spec_fn(T) -> U,
    groups: Seq<K>,
)
    requires
        items.len() > 0,
        groups.no_duplicates(),
    ensures
        total(group_sizes(items, key, image, groups)) == total(
            group_sizes(items.drop_last(), key, image, groups),
        ) + if groups.contains(key(items.last())) {
            1nat
        } else {
            0
        },
    decreases groups.len(),
{
    if groups.len() > 0 {
        let t = groups.drop_last();
        let now = group_sizes(items, key, image, groups);
        let before = group_sizes(items.drop_last(), key, image, groups);
        assert(now.drop_last() =~= group_sizes(items, key, image, t));
        assert(before.drop_last() =~= group_sizes(items.drop_last(), key, image, t));
        assert(t.no_duplicates()) by {
            assert forall|i: int, j: int| 0 <= i < t.len() && 0 <= j < t.len() && i != j implies t[i]
                != t[j] by {
                assert(t[i] == groups[i] && t[j] == groups[j]);
            }
        }
        one_more_item(items, key, image, t);
        let x = key(items.last());
        assert(groups[groups.len() - 1] == groups.last());
        if t.contains(x) {
            let k = choose|k: int| 0 <= k < t.len() && t[k] == x;
            assert(groups[k] == x);
            assert(groups.last() != x);
        } else if groups.contains(x) {
            let k = choose|k: int| 0 <= k < groups.len() && groups[k] == x;
            if k < t.len() {
                assert(t[k] == x);
            }
        }
    }
}

proof fn none_is_none<T, K, U>(
    items: Seq<T>,
    key: spec_fn(T) -> K,
    image: spec_fn(T) -> U,
    groups: Seq<K>,
)
    requires
        items.len() == 0,
    ensures
        total(group_sizes(items, key, image, groups)) == 0,
    decreases groups.len(),
{
    if groups.len() > 0 {
        let sizes = group_sizes(items, key, image, groups);
        assert(sizes.drop_last() =~= group_sizes(items, key, image, groups.drop_last()));
        none_is_none(items, key, image, groups.drop_last());
    }
}

/// Groups for every key, and none twice, hold as many items as there are: none is lost, and
/// none is held twice.
pub proof fn groups_hold_every_item<T, K, U>(
    items: Seq<T>,
    key: spec_fn(T) -> K,
    image: spec_fn(T) -> U,
    groups: Seq<K>,
)
    requires
        groups.no_duplicates(),
        forall|i: int| 0 <= i < items.len() ==> groups.contains(key(#[trigger] items[i])),
    ensures
        total(group_sizes(items, key, image, groups)) == items.len(),
    decreases items.len(),
{
    if items.len() == 0 {
        none_is_none(items, key, image, groups);
    } else {
        let t = items.drop_last();
        assert forall|i: int| 0 <= i < t.len() implies groups.contains(key(#[trigger] t[i])) by {
            assert(t[i] == items[i]);
        }
        groups_hold_every_item(t, key, image, groups);
        one_more_item(items, key, image, groups);
        assert(items[items.len() - 1] == items.last());
    }
}

/// A group has what becomes of each item with its key, and of no other, in the order of the items.
pub proof fn a_group_has_the_items_of_its_key<T, K, U>(
    items: Seq<T>,
    key: spec_fn(T) -> K,
    image: spec_fn(T) -> U,
    k: K,
    item: T,
)
    ensures
        members(Seq::empty(), key, image, k) == Seq::<U>::empty(),
        key(item) == k ==> members(items.push(item), key, image, k) == members(items, key, image, k).push(
            image(item),
        ),
        key(item) != k ==> members(items.push(item), key, image, k) == members(items, key, image, k),
{
    assert(items.push(item).drop_last() =~= items);
}

} // verus!
