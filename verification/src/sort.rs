//! Sorting a listing. The sorted listing holds the entries given, in order
//! throughout, with the entries that tie in the order in which they were
//! given; there is one such arrangement.

use crate::file_entry::FileEntry;
use crate::order::{
    lemma_not_behind_transitive, lemma_precedes_asymmetric, precedes, tier, KeyView, SortKey,
};
use vstd::prelude::*;

verus! {

/// The items in the places that `order` gives them: in place `p` stands the
/// item with index `order[p]`.
pub open spec fn arranged<T>(items: Seq<T>, order: Seq<int>) -> Seq<T> {
    Seq::new(order.len(), |place: int| items[order[place]])
}

/// Whether `order` names each of the indices below `count` once.
pub open spec fn is_permutation(order: Seq<int>, count: int) -> bool {
    &&& order.len() == count
    &&& forall|place: int| 0 <= place < count ==> 0 <= #[trigger] order[place] < count
    &&& forall|a: int, b: int| 0 <= a < b < count ==> #[trigger] order[a] != #[trigger] order[b]
    &&& forall|index: int| 0 <= index < count ==> #[trigger] order.contains(index)
}

/// Whether `order` lists the entries with the given keys: it names every
/// entry once, no entry stands behind one that it is listed before, and of
/// two entries that tie the one given first stands first.
pub open spec fn lists(order: Seq<int>, keys: Seq<KeyView>) -> bool {
    &&& is_permutation(order, keys.len() as int)
    &&& forall|a: int, b: int|
        #![trigger order[a], order[b]]
        0 <= a < b < order.len() ==> !precedes(keys[order[b]], keys[order[a]]) && (precedes(
            keys[order[a]],
            keys[order[b]],
        ) || order[a] < order[b])
}

/// The order in which entries with the given keys are listed: in place `p`
/// stands the entry with index `listing_order(keys)[p]`.
pub open spec fn listing_order(keys: Seq<KeyView>) -> Seq<int> {
    choose|order: Seq<int>| lists(order, keys)
}

/// Whether no key of `listed` stands behind one that it is listed before.
pub open spec fn in_order(listed: Seq<KeyView>) -> bool {
    forall|a: int, b: int|
        0 <= a < b < listed.len() ==> !precedes(#[trigger] listed[b], #[trigger] listed[a])
}

/// Whether the tiers of `listed` never fall: directories come first, and
/// within directories and within files the hidden ones come first.
pub open spec fn in_tier_order(listed: Seq<KeyView>) -> bool {
    forall|a: int, b: int|
        0 <= a < b < listed.len() ==> tier(#[trigger] listed[a]) <= tier(#[trigger] listed[b])
}

/// Where an entry with the key `key` joins the entries whose keys are
/// `listed`: behind the last of them that it is not listed before.
spec fn insertion_point(listed: Seq<KeyView>, key: KeyView) -> int
    decreases listed.len(),
{
    if listed.len() > 0 && precedes(key, listed.last()) {
        insertion_point(listed.drop_last(), key)
    } else {
        listed.len() as int
    }
}

/// The order that results when the entries join one by one, each at its
/// insertion point among those that came before it.
spec fn insertion_order(keys: Seq<KeyView>) -> Seq<int>
    decreases keys.len(),
{
    if keys.len() == 0 {
        Seq::empty()
    } else {
        let front = insertion_order(keys.drop_last());
        front.insert(
            insertion_point(arranged(keys.drop_last(), front), keys.last()),
            keys.len() - 1,
        )
    }
}

/// The insertion point lies in the listing; the key is listed before
/// everything behind that point and not before what stands just in front of
/// it.
proof fn lemma_insertion_point(listed: Seq<KeyView>, key: KeyView)
    ensures
        0 <= insertion_point(listed, key) <= listed.len(),
        forall|k: int|
            insertion_point(listed, key) <= k < listed.len() ==> precedes(
                key,
                #[trigger] listed[k],
            ),
        insertion_point(listed, key) > 0 ==> !precedes(
            key,
            listed[insertion_point(listed, key) - 1],
        ),
    decreases listed.len(),
{
    if listed.len() > 0 && precedes(key, listed.last()) {
        let front = listed.drop_last();
        lemma_insertion_point(front, key);
        assert forall|k: int| insertion_point(listed, key) <= k < listed.len() implies precedes(
            key,
            #[trigger] listed[k],
        ) by {
            if k < front.len() {
                assert(listed[k] == front[k]);
            }
        }
    }
}

/// A position behind which `key` is listed before everything, and in front
/// of which stands a key that `key` is not listed before, is the insertion
/// point.
proof fn lemma_insertion_point_unique(listed: Seq<KeyView>, key: KeyView, point: int)
    requires
        0 <= point <= listed.len(),
        forall|k: int| point <= k < listed.len() ==> precedes(key, #[trigger] listed[k]),
        point > 0 ==> !precedes(key, listed[point - 1]),
    ensures
        insertion_point(listed, key) == point,
{
    lemma_insertion_point(listed, key);
}

/// Joining entry by entry lists the entries.
proof fn lemma_insertion_order_lists(keys: Seq<KeyView>)
    ensures
        lists(insertion_order(keys), keys),
    decreases keys.len(),
{
    if keys.len() > 0 {
        let rest = keys.drop_last();
        let key = keys.last();
        let last = keys.len() - 1;
        let front = insertion_order(rest);
        let listed = arranged(rest, front);
        let point = insertion_point(listed, key);
        lemma_insertion_order_lists(rest);
        lemma_insertion_point(listed, key);
        let order = insertion_order(keys);
        assert(order == front.insert(point, last));
        let from = |place: int|
            if place < point {
                place
            } else {
                place - 1
            };
        assert forall|place: int| 0 <= place < order.len() && place != point implies order[place]
            == front[from(place)] && 0 <= order[place] < last && keys[order[place]]
            == listed[from(place)] by {
            assert(listed[from(place)] == rest[front[from(place)]]);
        }
        assert forall|index: int| 0 <= index < keys.len() implies #[trigger] order.contains(
            index,
        ) by {
            if index == last {
                assert(order[point] == index);
            } else {
                assert(front.contains(index));
                let place = choose|place: int| 0 <= place < front.len() && front[place] == index;
                let moved = if place < point {
                    place
                } else {
                    place + 1
                };
                assert(order[moved] == index);
            }
        }
        assert forall|a: int, b: int|
            #![trigger order[a], order[b]]
            0 <= a < b < order.len() implies !precedes(keys[order[b]], keys[order[a]]) && (
            precedes(keys[order[a]], keys[order[b]]) || order[a] < order[b]) by {
            if a == point {
                assert(precedes(key, listed[from(b)]));
                lemma_precedes_asymmetric(key, listed[from(b)]);
            } else if b == point {
                if a < point - 1 {
                    assert(front[a] == order[a] && front[point - 1] == order[point - 1]);
                    lemma_not_behind_transitive(listed[a], listed[point - 1], key);
                }
            } else {
                assert(front[from(a)] == order[a] && front[from(b)] == order[b]);
            }
        }
    }
}

/// An order that lists the keys lists all but the last of them once the
/// last entry is taken out of it.
proof fn lemma_lists_without_last(keys: Seq<KeyView>, order: Seq<int>, point: int)
    requires
        lists(order, keys),
        0 <= point < keys.len(),
        order[point] == keys.len() - 1,
    ensures
        lists(order.remove(point), keys.drop_last()),
{
    let rest = keys.drop_last();
    let front = order.remove(point);
    let to = |place: int|
        if place < point {
            place
        } else {
            place + 1
        };
    assert forall|place: int| 0 <= place < front.len() implies front[place] == order[to(place)]
        && 0 <= front[place] < rest.len() by {
        assert(order[to(place)] != order[point]);
    }
    assert forall|index: int| 0 <= index < rest.len() implies #[trigger] front.contains(
        index,
    ) by {
        assert(order.contains(index));
        let place = choose|place: int| 0 <= place < order.len() && order[place] == index;
        let moved = if place < point {
            place
        } else {
            place - 1
        };
        assert(front[moved] == index);
    }
    assert forall|a: int, b: int|
        #![trigger front[a], front[b]]
        0 <= a < b < front.len() implies front[a] != front[b] && !precedes(
        rest[front[b]],
        rest[front[a]],
    ) && (precedes(rest[front[a]], rest[front[b]]) || front[a] < front[b]) by {
        assert(front[a] == order[to(a)] && front[b] == order[to(b)]);
        assert(rest[front[a]] == keys[order[to(a)]]);
        assert(rest[front[b]] == keys[order[to(b)]]);
    }
}

/// Two orders that list the same keys are the same.
pub proof fn lemma_lists_unique(keys: Seq<KeyView>, first: Seq<int>, second: Seq<int>)
    requires
        lists(first, keys),
        lists(second, keys),
    ensures
        first == second,
    decreases keys.len(),
{
    if keys.len() == 0 {
        assert(first =~= second);
    } else {
        let last = keys.len() - 1;
        assert(first.contains(last));
        assert(second.contains(last));
        let p = choose|p: int| 0 <= p < first.len() && first[p] == last;
        let q = choose|q: int| 0 <= q < second.len() && second[q] == last;
        lemma_lists_without_last(keys, first, p);
        lemma_lists_without_last(keys, second, q);
        lemma_lists_unique(keys.drop_last(), first.remove(p), second.remove(q));
        let front = first.remove(p);
        if p < q {
            // the entry that follows the last one in `first` stands in front
            // of it in `second`
            let other = front[p];
            assert(first[p + 1] == other);
            assert(second[p] == other);
            assert(other < last);
        } else if q < p {
            let other = front[q];
            assert(second[q + 1] == other);
            assert(first[q] == other);
            assert(other < last);
        }
        assert(first =~= front.insert(p, last));
        assert(second =~= front.insert(p, last));
    }
}

/// The listing order lists the keys, and is the one order that does.
pub proof fn lemma_listing_order(keys: Seq<KeyView>)
    ensures
        lists(listing_order(keys), keys),
        forall|order: Seq<int>| lists(order, keys) ==> order == listing_order(keys),
{
    lemma_insertion_order_lists(keys);
    assert forall|order: Seq<int>| lists(order, keys) implies order == listing_order(keys) by {
        lemma_lists_unique(keys, order, listing_order(keys));
    }
}

/// The listing is in order throughout, its tiers never fall, and an entry
/// stands in front of one that was given before it only where it is listed
/// before that one.
pub proof fn lemma_listing_in_order(keys: Seq<KeyView>)
    ensures
        arranged(keys, listing_order(keys)).len() == keys.len(),
        in_order(arranged(keys, listing_order(keys))),
        in_tier_order(arranged(keys, listing_order(keys))),
        forall|a: int, b: int|
            0 <= a < b < keys.len() && #[trigger] listing_order(keys)[a]
                > #[trigger] listing_order(keys)[b] ==> precedes(
                keys[listing_order(keys)[a]],
                keys[listing_order(keys)[b]],
            ),
{
    lemma_listing_order(keys);
    let order = listing_order(keys);
    let listed = arranged(keys, order);
    assert forall|a: int, b: int| 0 <= a < b < listed.len() implies !precedes(
        #[trigger] listed[b],
        #[trigger] listed[a],
    ) && tier(listed[a]) <= tier(listed[b]) by {
        assert(!precedes(keys[order[b]], keys[order[a]]));
    }
}

/// Listing keeps the items: the listing holds each item as often as it was
/// given.
pub proof fn lemma_listing_keeps_items<T>(items: Seq<T>, keys: Seq<KeyView>)
    requires
        items.len() == keys.len(),
    ensures
        arranged(items, listing_order(keys)).len() == items.len(),
        arranged(items, listing_order(keys)).to_multiset() == items.to_multiset(),
{
    lemma_listing_order(keys);
    lemma_arranged_keeps_items(items, listing_order(keys));
}

/// Arranging items by a permutation keeps them.
proof fn lemma_arranged_keeps_items<T>(items: Seq<T>, order: Seq<int>)
    requires
        is_permutation(order, items.len() as int),
    ensures
        arranged(items, order).to_multiset() == items.to_multiset(),
    decreases items.len(),
{
    broadcast use vstd::seq_lib::group_to_multiset_ensures;

    if items.len() == 0 {
        assert(arranged(items, order) =~= items);
    } else {
        let last = items.len() - 1;
        assert(order.contains(last));
        let point = choose|p: int| 0 <= p < order.len() && order[p] == last;
        let front = order.remove(point);
        let rest = items.drop_last();
        assert forall|place: int| 0 <= place < front.len() implies 0 <= #[trigger] front[place]
            < last by {
            let from = if place < point {
                place
            } else {
                place + 1
            };
            assert(front[place] == order[from]);
            assert(order[from] != order[point]);
        }
        assert forall|index: int| 0 <= index < last implies #[trigger] front.contains(index) by {
            assert(order.contains(index));
            let place = choose|place: int| 0 <= place < order.len() && order[place] == index;
            let moved = if place < point {
                place
            } else {
                place - 1
            };
            assert(front[moved] == index);
        }
        assert forall|a: int, b: int| 0 <= a < b < last implies #[trigger] front[a]
            != #[trigger] front[b] by {
            let fa = if a < point {
                a
            } else {
                a + 1
            };
            let fb = if b < point {
                b
            } else {
                b + 1
            };
            assert(front[a] == order[fa] && front[b] == order[fb]);
        }
        lemma_arranged_keeps_items(rest, front);
        let out = arranged(items, order);
        assert(out.remove(point) =~= arranged(rest, front));
        assert(out[point] == items.last());
        assert(out.to_multiset() =~= out.remove(point).to_multiset().insert(items.last())) by {
            assert(out.remove(point).insert(point, out[point]) =~= out);
            out.remove(point).to_multiset_ensures();
            lemma_insert_multiset(out.remove(point), point, out[point]);
        }
        assert(rest.push(items.last()) =~= items);
    }
}

/// Putting an item into a sequence adds it to what the sequence holds.
proof fn lemma_insert_multiset<T>(s: Seq<T>, point: int, item: T)
    requires
        0 <= point <= s.len(),
    ensures
        s.insert(point, item).to_multiset() == s.to_multiset().insert(item),
{
    broadcast use vstd::seq_lib::group_to_multiset_ensures;

    let out = s.insert(point, item);
    assert(out.remove(point) =~= s);
    assert(out[point] == item);
    assert(out.remove(point).to_multiset() == out.to_multiset().remove(item));
    assert(out.to_multiset().count(item) > 0) by {
        assert(out.contains(item));
    }
    assert(out.to_multiset() =~= s.to_multiset().insert(item));
}

/// Keys that are in order are listed in the order given.
pub proof fn lemma_listing_keeps_ordered(keys: Seq<KeyView>)
    requires
        in_order(keys),
    ensures
        listing_order(keys) == Seq::new(keys.len(), |i: int| i),
        arranged(keys, listing_order(keys)) == keys,
{
    let given = Seq::new(keys.len(), |i: int| i);
    assert forall|index: int| 0 <= index < keys.len() implies #[trigger] given.contains(index) by {
        assert(given[index] == index);
    }
    assert(lists(given, keys));
    lemma_listing_order(keys);
    assert(arranged(keys, given) =~= keys);
}

/// The keys as the contracts see them.
pub open spec fn key_views(keys: Seq<SortKey>) -> Seq<KeyView> {
    Seq::new(keys.len(), |i: int| keys[i]@)
}

/// The keys of the entries.
pub open spec fn keys_of(entries: Seq<FileEntry>) -> Seq<KeyView> {
    Seq::new(entries.len(), |i: int| entries[i].key())
}

/// The sorted listing of `entries`.
pub open spec fn sorted(entries: Seq<FileEntry>) -> Seq<FileEntry> {
    arranged(entries, listing_order(keys_of(entries)))
}

/// Whether every directory of `listing` stands in front of every entry
/// that is not one.
pub open spec fn directories_first(listing: Seq<FileEntry>) -> bool {
    forall|a: int, b: int|
        #![trigger listing[a], listing[b]]
        0 <= a < b < listing.len() && listing[b]@.directory ==> listing[a]@.directory
}

/// Whether among the directories of `listing`, and among its other
/// entries, every hidden entry stands in front of every visible one.
pub open spec fn hidden_first(listing: Seq<FileEntry>) -> bool {
    forall|a: int, b: int|
        #![trigger listing[a], listing[b]]
        0 <= a < b < listing.len() && listing[a]@.directory == listing[b]@.directory
            && listing[b]@.hidden ==> listing[a]@.hidden
}

/// Whether no entry of `listing` stands directly behind one that it is
/// listed before.
pub open spec fn neighbours_in_order(listing: Seq<FileEntry>) -> bool {
    forall|a: int, b: int|
        #![trigger listing[a], listing[b]]
        0 <= a && b == a + 1 && b < listing.len() ==> !precedes(listing[b].key(), listing[a].key())
}

/// The sorted listing keeps every entry and is in order throughout; so it
/// puts the directories first and within each kind the hidden entries
/// first.
pub proof fn lemma_sorted(entries: Seq<FileEntry>)
    ensures
        sorted(entries).len() == entries.len(),
        sorted(entries).to_multiset() == entries.to_multiset(),
        keys_of(sorted(entries)) == arranged(keys_of(entries), listing_order(keys_of(entries))),
        in_tier_order(keys_of(sorted(entries))),
        in_order(keys_of(sorted(entries))),
        directories_first(sorted(entries)),
        hidden_first(sorted(entries)),
        neighbours_in_order(sorted(entries)),
{
    let keys = keys_of(entries);
    let out = sorted(entries);
    lemma_listing_order(keys);
    lemma_listing_keeps_items(entries, keys);
    lemma_listing_in_order(keys);
    let listed = keys_of(out);
    assert(listed =~= arranged(keys, listing_order(keys)));
    assert forall|a: int, b: int|
        #![trigger out[a], out[b]]
        0 <= a < b < out.len() implies tier(out[a].key()) <= tier(out[b].key()) && !precedes(
        out[b].key(),
        out[a].key(),
    ) by {
        assert(tier(listed[a]) <= tier(listed[b]));
        assert(!precedes(listed[b], listed[a]));
    }
}

/// Sorts `items` by the keys that stand beside them: `keys[i]` is the key of
/// `items[i]`. Keys and items are moved together, so that afterwards each
/// key still stands beside its item. The keys end up in order throughout,
/// and items whose keys tie keep the order in which they were given.
pub fn sort_by_keys<T>(keys: &mut Vec<SortKey>, items: &mut Vec<T>)
    requires
        old(keys)@.len() == old(items)@.len(),
    ensures
        lists(listing_order(key_views(old(keys)@)), key_views(old(keys)@)),
        final(items)@ == arranged(old(items)@, listing_order(key_views(old(keys)@))),
        final(keys)@ == arranged(old(keys)@, listing_order(key_views(old(keys)@))),
        in_order(key_views(final(keys)@)),
{
    let ghost given_keys = keys@;
    let ghost given_items = items@;
    let ghost views = key_views(keys@);
    let ghost mut order: Seq<int> = Seq::empty();
    let n = keys.len();
    let mut i: usize = 0;
    while i < n
        invariant
            i <= n,
            n == given_keys.len(),
            n == given_items.len(),
            keys@.len() == n,
            items@.len() == n,
            views == key_views(given_keys),
            order == insertion_order(views.take(i as int)),
            keys@.take(i as int) == arranged(given_keys, order),
            items@.take(i as int) == arranged(given_items, order),
            keys@.skip(i as int) == given_keys.skip(i as int),
            items@.skip(i as int) == given_items.skip(i as int),
        decreases n - i,
    {
        let ghost listed = arranged(views.take(i as int), order);
        let ghost key = views[i as int];
        proof {
            lemma_insertion_order_lists(views.take(i as int));
            assert(keys@[i as int] == given_keys.skip(i as int)[0]);
            assert forall|k: int| 0 <= k < i implies listed[k] == (#[trigger] keys@[k])@ by {
                assert(keys@[k] == keys@.take(i as int)[k]);
                assert(views.take(i as int)[order[k]] == given_keys[order[k]]@);
            }
        }
        let mut j: usize = i;
        while j > 0 && keys[i].comes_before(&keys[j - 1])
            invariant
                j <= i < n,
                keys@.len() == n,
                key == keys@[i as int]@,
                listed.len() == i,
                forall|k: int| 0 <= k < i ==> listed[k] == (#[trigger] keys@[k])@,
                forall|k: int| j <= k < i ==> precedes(key, #[trigger] listed[k]),
            decreases j,
        {
            j -= 1;
        }
        proof {
            lemma_insertion_point_unique(listed, key, j as int);
            assert(views.take(i + 1).drop_last() =~= views.take(i as int));
        }
        let ghost keys_before = keys@;
        let ghost items_before = items@;
        let moved_key = keys.remove(i);
        keys.insert(j, moved_key);
        let moved_item = items.remove(i);
        items.insert(j, moved_item);
        proof {
            let front = order;
            order = front.insert(j as int, i as int);
            assert(items_before[i as int] == given_items.skip(i as int)[0]);
            assert(keys@.skip(i + 1) =~= keys_before.skip(i as int).skip(1));
            assert(items@.skip(i + 1) =~= items_before.skip(i as int).skip(1));
        }
        i += 1;
    }
    proof {
        assert(views.take(n as int) =~= views);
        lemma_insertion_order_lists(views);
        lemma_listing_order(views);
        lemma_listing_in_order(views);
        assert(keys@ =~= keys@.take(n as int));
        assert forall|place: int| 0 <= place < n implies key_views(keys@)[place] == arranged(
            views,
            order,
        )[place] by {
            assert(0 <= order[place] < n);
        }
        assert(key_views(keys@) =~= arranged(views, order));
    }
}

/// Sorts a listing in place.
///
/// The result keeps every entry and is in order throughout: no entry stands
/// anywhere behind one that it is listed before, so the directories come
/// first and within the directories and within the files the hidden entries
/// come first. Entries that tie keep the order in which they were given.
pub fn sort_entries(entries: &mut Vec<FileEntry>)
    ensures
        final(entries)@ == sorted(old(entries)@),
        final(entries)@.len() == old(entries)@.len(),
        final(entries)@.to_multiset() == old(entries)@.to_multiset(),
        in_order(keys_of(final(entries)@)),
        directories_first(final(entries)@),
        hidden_first(final(entries)@),
        neighbours_in_order(final(entries)@),
{
    let ghost given = entries@;
    let mut keys: Vec<SortKey> = Vec::new();
    let mut i: usize = 0;
    while i < entries.len()
        invariant
            i <= entries@.len(),
            entries@ == given,
            keys@.len() == i,
            forall|k: int| 0 <= k < i ==> (#[trigger] keys@[k])@ == given[k].key(),
        decreases entries@.len() - i,
    {
        let key = entries[i].sort_key();
        keys.push(key);
        i += 1;
    }
    assert(key_views(keys@) =~= keys_of(given));
    sort_by_keys(&mut keys, entries);
    proof {
        lemma_sorted(given);
    }
}

} // verus!
