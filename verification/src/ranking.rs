//! Newest first: where a clip goes among clips, one at a time or in a batch.
//!
//! A clip goes before the first one that is no newer than it, so of two clips of
//! the same age the one that came later stands first. Everything here is about
//! sequences of clips; `index` keeps its list by it.

use vstd::prelude::*;

use crate::item::{ClipItem, ClipView};

verus! {

/// How many clips at the front are strictly newer than `at`.
pub open spec fn position(items: Seq<ClipView>, at: i64) -> int
    decreases items.len(),
{
    if items.len() > 0 && items[0].at > at {
        1 + position(items.drop_first(), at)
    } else {
        0
    }
}

/// The list with one clip put where it belongs.
pub open spec fn inserted(items: Seq<ClipView>, item: ClipView) -> Seq<ClipView> {
    items.insert(position(items, item.at), item)
}

/// The list with a batch put in, one clip after the other.
pub open spec fn inserted_all(items: Seq<ClipView>, batch: Seq<ClipView>) -> Seq<ClipView>
    decreases batch.len(),
{
    if batch.len() == 0 {
        items
    } else {
        inserted(inserted_all(items, batch.drop_last()), batch.last())
    }
}

/// Two lists run together, newest first; on a tie the incoming one goes first.
pub open spec fn merged(incoming: Seq<ClipView>, existing: Seq<ClipView>) -> Seq<ClipView>
    decreases incoming.len() + existing.len(),
{
    if incoming.len() == 0 {
        existing
    } else if existing.len() == 0 {
        incoming
    } else if incoming[0].at >= existing[0].at {
        seq![incoming[0]] + merged(incoming.drop_first(), existing)
    } else {
        seq![existing[0]] + merged(incoming, existing.drop_first())
    }
}

pub open spec fn newest_first(items: Seq<ClipView>) -> bool {
    forall|i: int, j: int| 0 <= i < j < items.len() ==> items[i].at >= items[j].at
}

pub proof fn lemma_position(items: Seq<ClipView>, at: i64)
    ensures
        0 <= position(items, at) <= items.len(),
        forall|i: int| 0 <= i < position(items, at) ==> items[i].at > at,
        position(items, at) < items.len() ==> items[position(items, at)].at <= at,
    decreases items.len(),
{
    if items.len() > 0 && items[0].at > at {
        let rest = items.drop_first();
        lemma_position(rest, at);
        assert forall|i: int| 0 <= i < position(items, at) implies items[i].at > at by {
            if i > 0 {
                assert(items[i] == rest[i - 1]);
            }
        }
    }
}

/// The one place with only newer clips before it and none newer after it.
pub proof fn lemma_position_is(items: Seq<ClipView>, at: i64, k: int)
    requires
        0 <= k <= items.len(),
        forall|i: int| 0 <= i < k ==> items[i].at > at,
        k < items.len() ==> items[k].at <= at,
    ensures
        position(items, at) == k,
{
    lemma_position(items, at);
}

pub proof fn lemma_inserted_sorted(items: Seq<ClipView>, item: ClipView)
    requires
        newest_first(items),
    ensures
        newest_first(inserted(items, item)),
        inserted(items, item).len() == items.len() + 1,
{
    lemma_position(items, item.at);
}

/// A clip in front of another list.
proof fn lemma_inserted_cons(first: ClipView, rest: Seq<ClipView>, item: ClipView)
    ensures
        first.at > item.at ==> inserted(seq![first] + rest, item) == seq![first] + inserted(
            rest,
            item,
        ),
        first.at <= item.at ==> inserted(seq![first] + rest, item) == seq![item] + (seq![first]
            + rest),
{
    let items = seq![first] + rest;
    assert(items.drop_first() =~= rest);
    lemma_position(rest, item.at);
    if first.at > item.at {
        assert(inserted(items, item) =~= seq![first] + inserted(rest, item));
    } else {
        assert(inserted(items, item) =~= seq![item] + items);
    }
}

/// Putting a clip into the incoming list and then running the lists together is
/// running them together and then putting the clip in.
pub proof fn lemma_merge_inserted(incoming: Seq<ClipView>, existing: Seq<ClipView>, item: ClipView)
    ensures
        merged(inserted(incoming, item), existing) == inserted(merged(incoming, existing), item),
    decreases incoming.len() + existing.len(),
{
    lemma_position(incoming, item.at);
    if existing.len() == 0 {
    } else if incoming.len() == 0 {
        let b0 = existing[0];
        let b_rest = existing.drop_first();
        let one = seq![item];
        assert(existing =~= seq![b0] + b_rest);
        assert(inserted(incoming, item) =~= one);
        assert(merged(one.drop_first(), existing) == existing);
        lemma_inserted_cons(b0, b_rest, item);
        if item.at < b0.at {
            lemma_merge_inserted(incoming, b_rest, item);
            assert(merged(incoming, b_rest) == b_rest);
        }
    } else {
        let b0 = existing[0];
        let b_rest = existing.drop_first();
        let a0 = incoming[0];
        let a_rest = incoming.drop_first();
        let more = inserted(incoming, item);
        assert(existing =~= seq![b0] + b_rest);
        assert(incoming =~= seq![a0] + a_rest);
        lemma_inserted_cons(a0, a_rest, item);
        if a0.at > item.at {
            assert(more[0] == a0);
            assert(more.drop_first() =~= inserted(a_rest, item));
            if a0.at >= b0.at {
                lemma_merge_inserted(a_rest, existing, item);
                lemma_inserted_cons(a0, merged(a_rest, existing), item);
            } else {
                lemma_merge_inserted(incoming, b_rest, item);
                lemma_inserted_cons(b0, merged(incoming, b_rest), item);
            }
        } else {
            assert(more[0] == item);
            assert(more.drop_first() =~= incoming);
            if item.at >= b0.at {
                if a0.at >= b0.at {
                    lemma_inserted_cons(a0, merged(a_rest, existing), item);
                } else {
                    lemma_inserted_cons(b0, merged(incoming, b_rest), item);
                }
            } else {
                lemma_merge_inserted(incoming, b_rest, item);
                lemma_inserted_cons(b0, merged(incoming, b_rest), item);
            }
        }
    }
}

/// A batch put in one by one is the batch put in order by itself and then run
/// together with what was there.
pub proof fn lemma_inserted_all_is_merge(items: Seq<ClipView>, batch: Seq<ClipView>)
    ensures
        inserted_all(items, batch) == merged(inserted_all(Seq::empty(), batch), items),
    decreases batch.len(),
{
    if batch.len() > 0 {
        let before = batch.drop_last();
        lemma_inserted_all_is_merge(items, before);
        lemma_merge_inserted(inserted_all(Seq::empty(), before), items, batch.last());
    }
}

/// Two batches after each other are the two batches put together.
pub proof fn lemma_inserted_all_add(items: Seq<ClipView>, first: Seq<ClipView>, second: Seq<
    ClipView,
>)
    ensures
        inserted_all(items, first + second) == inserted_all(inserted_all(items, first), second),
    decreases second.len(),
{
    if second.len() == 0 {
        assert(first + second =~= first);
    } else {
        assert((first + second).drop_last() =~= first + second.drop_last());
        lemma_inserted_all_add(items, first, second.drop_last());
    }
}

pub proof fn lemma_inserted_all_sorted(items: Seq<ClipView>, batch: Seq<ClipView>)
    requires
        newest_first(items),
    ensures
        newest_first(inserted_all(items, batch)),
        inserted_all(items, batch).len() == items.len() + batch.len(),
    decreases batch.len(),
{
    if batch.len() > 0 {
        lemma_inserted_all_sorted(items, batch.drop_last());
        lemma_inserted_sorted(inserted_all(items, batch.drop_last()), batch.last());
    }
}

// ------------------------------------------------------------------ executable

pub open spec fn item_views(items: Seq<ClipItem>) -> Seq<ClipView> {
    Seq::new(items.len(), |i: int| items[i]@)
}

/// The same items, last first.
pub fn reversed<T>(items: Vec<T>) -> (r: Vec<T>)
    ensures
        r@ == items@.reverse(),
{
    let mut items = items;
    let ghost all = items@;
    let mut r: Vec<T> = Vec::new();
    while items.len() > 0
        invariant
            r@.len() + items@.len() == all.len(),
            items@ == all.take(items@.len() as int),
            forall|i: int| 0 <= i < r@.len() ==> r@[i] == all[all.len() - 1 - i],
        decreases items@.len(),
    {
        let ghost n = items@.len();
        if let Some(item) = items.pop() {
            r.push(item);
        }
        assert(items@ =~= all.take(n - 1));
    }
    assert(r@ =~= all.reverse());
    r
}

/// Where a clip of this age goes, found by halving.
pub fn place_for(items: &Vec<ClipItem>, at: i64) -> (k: usize)
    requires
        newest_first(item_views(items@)),
    ensures
        k == position(item_views(items@), at),
        k <= items@.len(),
{
    let ghost views = item_views(items@);
    let mut low: usize = 0;
    let mut high: usize = items.len();
    while low < high
        invariant
            low <= high <= items@.len(),
            views == item_views(items@),
            newest_first(views),
            forall|i: int| 0 <= i < low ==> views[i].at > at,
            forall|i: int| high <= i < views.len() ==> views[i].at <= at,
        decreases high - low,
    {
        let middle: usize = low + (high - low) / 2;
        assert(views[middle as int] == items@[middle as int]@);
        if items[middle].at > at {
            low = middle + 1;
        } else {
            high = middle;
        }
    }
    proof {
        lemma_position_is(views, at, low as int);
    }
    low
}

/// Runs two lists together; on a tie the incoming item goes first.
pub fn merge(incoming: Vec<ClipItem>, existing: Vec<ClipItem>) -> (out: Vec<ClipItem>)
    ensures
        item_views(out@) == merged(item_views(incoming@), item_views(existing@)),
{
    let ghost a = item_views(incoming@);
    let ghost b = item_views(existing@);
    let mut left = reversed(incoming);
    let mut right = reversed(existing);
    let mut out: Vec<ClipItem> = Vec::new();
    let ghost mut rest_a = a;
    let ghost mut rest_b = b;
    assert(item_views(left@).reverse() =~= a);
    assert(item_views(right@).reverse() =~= b);
    assert(item_views(out@) =~= Seq::<ClipView>::empty());
    while left.len() > 0 || right.len() > 0
        invariant
            rest_a == item_views(left@).reverse(),
            rest_b == item_views(right@).reverse(),
            item_views(out@) + merged(rest_a, rest_b) =~= merged(a, b),
        decreases left@.len() + right@.len(),
    {
        let ghost before = out@;
        let ghost n = left@.len();
        let ghost m = right@.len();
        let take_incoming = if left.len() == 0 {
            false
        } else if right.len() == 0 {
            true
        } else {
            assert(rest_a[0] == left@[n - 1]@);
            assert(rest_b[0] == right@[m - 1]@);
            left[left.len() - 1].at >= right[right.len() - 1].at
        };
        if take_incoming {
            assert(rest_a[0] == left@[n - 1]@);
            if let Some(item) = left.pop() {
                out.push(item);
            }
            proof {
                assert(item_views(out@) =~= item_views(before).push(rest_a[0]));
                if m == 0 {
                    assert(rest_a =~= seq![rest_a[0]] + rest_a.drop_first());
                }
                assert(item_views(left@).reverse() =~= rest_a.drop_first());
                rest_a = rest_a.drop_first();
            }
        } else {
            assert(rest_b[0] == right@[m - 1]@);
            if let Some(item) = right.pop() {
                out.push(item);
            }
            proof {
                assert(item_views(out@) =~= item_views(before).push(rest_b[0]));
                if n == 0 {
                    assert(rest_b =~= seq![rest_b[0]] + rest_b.drop_first());
                }
                assert(item_views(right@).reverse() =~= rest_b.drop_first());
                rest_b = rest_b.drop_first();
            }
        }
    }
    assert(item_views(out@) =~= merged(a, b));
    out
}

/// A batch by itself, put in order by halves.
pub fn ranked(batch: Vec<ClipItem>) -> (out: Vec<ClipItem>)
    ensures
        item_views(out@) == inserted_all(Seq::empty(), item_views(batch@)),
    decreases batch@.len(),
{
    let ghost all = item_views(batch@);
    let mut batch = batch;
    let n = batch.len();
    if n == 0 {
        assert(item_views(batch@) =~= Seq::<ClipView>::empty());
        return batch;
    }
    if n == 1 {
        proof {
            assert(inserted_all(Seq::empty(), all.drop_last()) == Seq::<ClipView>::empty());
            assert(inserted_all(Seq::empty(), all) =~= all);
        }
        return batch;
    }
    let tail = batch.split_off(n / 2);
    let ghost first = item_views(batch@);
    let ghost second = item_views(tail@);
    assert(all =~= first + second);
    let later = ranked(tail);
    let earlier = ranked(batch);
    proof {
        lemma_inserted_all_add(Seq::empty(), first, second);
        lemma_inserted_all_is_merge(inserted_all(Seq::empty(), first), second);
    }
    merge(later, earlier)
}

} // verus!
