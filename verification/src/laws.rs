//! What holds of the history as a whole: of two calls after each other, of every
//! list, of what is written and read again.

use vstd::prelude::*;

use crate::clip;
use crate::clip::{ClipKind, PayloadView};
use crate::deletion;
use crate::deletion::BinScope;
use crate::filter;
use crate::filter::Field;
use crate::index;
use crate::index::IndexView;
use crate::item;
use crate::item::{ClipView, SummaryView};
use crate::paths;
use crate::ranking;
use crate::search;
use crate::settings::SettingsView;
use crate::store;
use crate::store::{ContextView, FileKindView, StepView};
use crate::text;
use crate::win::SYSTEMTIME;

verus! {

// --------------------------------------------------------------------- the index

/// A batch is put in the way its clips would be put in one at a time.
pub proof fn law_batch_is_one_at_a_time(items: Seq<ClipView>, batch: Seq<ClipView>, clip: ClipView)
    ensures
        index::added_all(items, batch.push(clip)) == index::added(
            index::added_all(items, batch),
            clip,
        ),
        index::added_all(items, Seq::empty()) == items,
{
    assert(batch.push(clip).drop_last() =~= batch);
}

proof fn lemma_added_knows(items: Seq<ClipView>, batch: Seq<ClipView>)
    ensures
        forall|s: Seq<char>|
            index::knows(items, s) ==> #[trigger] index::knows(index::added_all(items, batch), s),
        forall|i: int|
            0 <= i < batch.len() ==> index::knows(
                index::added_all(items, batch),
                (#[trigger] batch[i]).stem,
            ),
        forall|clip: ClipView|
            items.contains(clip) ==> #[trigger] index::added_all(items, batch).contains(clip),
    decreases batch.len(),
{
    if batch.len() > 0 {
        let head = batch.drop_last();
        let before = index::added_all(items, head);
        let last = batch.last();
        let after = index::added_all(items, batch);
        lemma_added_knows(items, head);
        index::lemma_inserted_members(before, last);
        assert forall|s: Seq<char>| index::knows(items, s) implies #[trigger] index::knows(
            after,
            s,
        ) by {
            assert(index::knows(before, s));
            if !index::knows(before, last.stem) {
                assert(index::knows(ranking::inserted(before, last), s));
            }
        }
        assert forall|i: int| 0 <= i < batch.len() implies index::knows(
            after,
            (#[trigger] batch[i]).stem,
        ) by {
            if i < head.len() {
                assert(head[i] == batch[i]);
            }
        }
        assert forall|clip: ClipView| items.contains(clip) implies #[trigger] after.contains(
            clip,
        ) by {
            assert(before.contains(clip));
            if !index::knows(before, last.stem) {
                ranking::lemma_position(before, last.at);
                let k = ranking::position(before, last.at);
                let i = choose|i: int| 0 <= i < before.len() && before[i] == clip;
                assert(after[if i < k {
                    i
                } else {
                    i + 1
                }] == clip);
            }
        }
    }
}

proof fn lemma_nothing_new(items: Seq<ClipView>, batch: Seq<ClipView>)
    requires
        forall|i: int| 0 <= i < batch.len() ==> index::knows(items, (#[trigger] batch[i]).stem),
    ensures
        index::added_all(items, batch) == items,
    decreases batch.len(),
{
    if batch.len() > 0 {
        let head = batch.drop_last();
        assert forall|i: int| 0 <= i < head.len() implies index::knows(
            items,
            (#[trigger] head[i]).stem,
        ) by {
            assert(batch[i] == head[i]);
        }
        lemma_nothing_new(items, head);
        assert(index::knows(items, batch[batch.len() - 1].stem));
    }
}

/// A batch that comes a second time changes nothing: a reload of a machine's own
/// month does not double its rows.
pub proof fn law_reload_does_not_double(items: Seq<ClipView>, batch: Seq<ClipView>)
    ensures
        index::added_all(index::added_all(items, batch), batch) == index::added_all(items, batch),
{
    lemma_added_knows(items, batch);
    lemma_nothing_new(index::added_all(items, batch), batch);
}

/// However clips are put in, the list stays newest first and no stem is in it
/// twice.
pub proof fn law_order_is_kept(items: Seq<ClipView>, batch: Seq<ClipView>)
    requires
        ranking::newest_first(items),
        index::distinct_stems(items),
    ensures
        ranking::newest_first(index::added_all(items, batch)),
        index::distinct_stems(index::added_all(items, batch)),
    decreases batch.len(),
{
    if batch.len() > 0 {
        let before = index::added_all(items, batch.drop_last());
        law_order_is_kept(items, batch.drop_last());
        index::lemma_inserted_members(before, batch.last());
        ranking::lemma_inserted_sorted(before, batch.last());
    }
}

proof fn lemma_filter_all(s: Seq<ClipView>, keep: spec_fn(ClipView) -> bool)
    requires
        forall|i: int| 0 <= i < s.len() ==> keep(#[trigger] s[i]),
    ensures
        s.filter(keep) == s,
    decreases s.len(),
{
    reveal(Seq::filter);
    if s.len() > 0 {
        assert forall|i: int| 0 <= i < s.drop_last().len() implies keep(
            #[trigger] s.drop_last()[i],
        ) by {
            assert(s[i] == s.drop_last()[i]);
        }
        lemma_filter_all(s.drop_last(), keep);
        assert(keep(s[s.len() - 1]));
        assert(s.drop_last().push(s.last()) =~= s);
    } else {
        assert(s.filter(keep) =~= s);
    }
}

/// Forgetting a clip that was just put in gives back the list as it was.
pub proof fn law_forget_undoes_insert(items: Seq<ClipView>, clip: ClipView)
    requires
        !index::knows(items, clip.stem),
    ensures
        index::added(items, clip).filter(index::not_in(set![clip.stem])) == items,
{
    let keep = index::not_in(set![clip.stem]);
    ranking::lemma_position(items, clip.at);
    let k = ranking::position(items, clip.at);
    let a = items.take(k);
    let b = items.skip(k);
    let more = ranking::inserted(items, clip);
    assert(more =~= (a + seq![clip]) + b);
    assert(items =~= a + b);
    Seq::filter_distributes_over_add(a + seq![clip], b, keep);
    Seq::filter_distributes_over_add(a, seq![clip], keep);
    assert forall|i: int| 0 <= i < a.len() implies keep(#[trigger] a[i]) by {
        assert(items[i].stem != clip.stem);
    }
    assert forall|i: int| 0 <= i < b.len() implies keep(#[trigger] b[i]) by {
        assert(items[k + i].stem != clip.stem);
    }
    lemma_filter_all(a, keep);
    lemma_filter_all(b, keep);
    assert(seq![clip].filter(keep) =~= Seq::<ClipView>::empty()) by {
        reveal(Seq::filter);
        assert(seq![clip].drop_last() =~= Seq::<ClipView>::empty());
        assert(Seq::<ClipView>::empty().filter(keep) =~= Seq::<ClipView>::empty());
    }
    assert(a + Seq::<ClipView>::empty() + b =~= items);
}

proof fn lemma_active(items: Seq<ClipView>)
    ensures
        forall|id: Seq<char>|
            #[trigger] index::lists(index::active(items), id) <==> exists|i: int|
                0 <= i < items.len() && #[trigger] items[i].machine == id,
        forall|i: int, j: int|
            0 <= i < j < index::active(items).len() ==> index::active(items)[i].0
                != index::active(items)[j].0,
    decreases items.len(),
{
    let all = index::active(items);
    if items.len() > 0 {
        let head = items.drop_last();
        let before = index::active(head);
        let last = items.last();
        lemma_active(head);
        assert forall|id: Seq<char>| #[trigger] index::lists(all, id) <==> exists|i: int|
            0 <= i < items.len() && #[trigger] items[i].machine == id by {
            if index::lists(all, id) {
                let i = choose|i: int| 0 <= i < all.len() && #[trigger] all[i].0 == id;
                if i < before.len() {
                    assert(before[i].0 == id);
                    assert(index::lists(before, id));
                    let k = choose|k: int| 0 <= k < head.len() && #[trigger] head[k].machine == id;
                    assert(items[k].machine == id);
                } else {
                    assert(items[items.len() - 1].machine == id);
                }
            }
            if exists|i: int| 0 <= i < items.len() && #[trigger] items[i].machine == id {
                let i = choose|i: int| 0 <= i < items.len() && #[trigger] items[i].machine == id;
                if i < head.len() {
                    assert(head[i].machine == id);
                    assert(index::lists(before, id));
                }
                if index::lists(before, id) {
                    let k = choose|k: int| 0 <= k < before.len() && #[trigger] before[k].0 == id;
                    assert(all[k].0 == id);
                } else {
                    assert(all[before.len() as int].0 == id);
                }
            }
        }
        assert forall|i: int, j: int| 0 <= i < j < all.len() implies all[i].0 != all[j].0 by {
            if j == before.len() {
                assert(before[i].0 == all[i].0);
            }
        }
    } else {
        assert forall|id: Seq<char>| !#[trigger] index::lists(all, id) by {}
    }
}

/// The instance strip names every instance that has a clip, once, newest activity
/// first, and with the time of its newest clip.
pub proof fn law_instances_once_newest_first(items: Seq<ClipView>)
    requires
        ranking::newest_first(items),
    ensures
        forall|id: Seq<char>|
            #[trigger] index::lists(index::active(items), id) <==> exists|i: int|
                0 <= i < items.len() && #[trigger] items[i].machine == id,
        forall|i: int, j: int|
            0 <= i < j < index::active(items).len() ==> index::active(items)[i].0
                != index::active(items)[j].0 && index::active(items)[i].1
                >= index::active(items)[j].1,
        forall|i: int, k: int|
            0 <= i < index::active(items).len() && 0 <= k < items.len() && items[k].machine
                == index::active(items)[i].0 ==> items[k].at <= index::active(items)[i].1,
    decreases items.len(),
{
    lemma_active(items);
    lemma_active_times(items);
}

proof fn lemma_active_times(items: Seq<ClipView>)
    requires
        ranking::newest_first(items),
    ensures
        forall|i: int, j: int|
            0 <= i < j < index::active(items).len() ==> index::active(items)[i].1
                >= index::active(items)[j].1,
        forall|i: int|
            0 <= i < index::active(items).len() ==> items.len() > 0 && #[trigger] index::active(
                items,
            )[i].1 >= items.last().at,
        forall|i: int, k: int|
            0 <= i < index::active(items).len() && 0 <= k < items.len() && items[k].machine
                == index::active(items)[i].0 ==> items[k].at <= index::active(items)[i].1,
    decreases items.len(),
{
    let all = index::active(items);
    if items.len() > 0 {
        let head = items.drop_last();
        let before = index::active(head);
        let last = items.last();
        assert(ranking::newest_first(head));
        lemma_active_times(head);
        lemma_active(head);
        assert forall|i: int| 0 <= i < all.len() implies #[trigger] all[i].1 >= last.at by {
            if i < before.len() {
                assert(before[i] == all[i]);
                assert(items[head.len() - 1].at >= items[items.len() - 1].at);
            }
        }
        assert forall|i: int, j: int| 0 <= i < j < all.len() implies all[i].1 >= all[j].1 by {
            if j < before.len() {
                assert(before[i].1 >= before[j].1);
            }
        }
        assert forall|i: int, k: int|
            0 <= i < all.len() && 0 <= k < items.len() && items[k].machine
                == all[i].0 implies items[k].at <= all[i].1 by {
            if i < before.len() {
                if k < head.len() {
                    assert(head[k].machine == before[i].0);
                }
            } else if k < head.len() {
                assert(head[k].machine == last.machine);
                assert(index::lists(before, last.machine));
            }
        }
    }
}

/// When the clip with a stem was captured.
pub open spec fn at_of(items: Seq<ClipView>, stem: Seq<char>) -> i64 {
    index::lookup(items, stem)->0.at
}

proof fn lemma_at_of(items: Seq<ClipView>, clip: ClipView)
    requires
        index::distinct_stems(items),
        items.contains(clip),
    ensures
        index::lookup(items, clip.stem) == Some(clip),
        at_of(items, clip.stem) == clip.at,
{
    let i = choose|i: int| 0 <= i < items.len() && items[i] == clip;
    assert(items[i].stem == clip.stem);
    assert(index::knows(items, clip.stem));
    index::lemma_lookup(items, clip.stem);
    let other = index::lookup(items, clip.stem)->0;
    let j = choose|j: int| 0 <= j < items.len() && items[j] == other;
    if i != j {
        assert(items[i].stem != items[j].stem);
    }
}

/// What the list shows: a row for every clip that is not tombstoned, is of the
/// instance asked for and has what the search asks for, and for no other; pinned
/// rows stand first, and of two rows that are both pinned or both not, the newer
/// clip's.
pub proof fn law_listing(
    view: IndexView,
    machine: Option<Seq<char>>,
    needle: Option<Seq<char>>,
)
    ensures
        forall|row: SummaryView|
            #[trigger] index::listing(view, machine, needle).contains(row) <==> exists|
                clip: ClipView,
            |
                #[trigger] view.items.contains(clip) && item::row_of(clip) == row
                    && !view.hidden.contains(clip.stem) && (machine matches Some(id)
                    ==> clip.machine == id) && (needle matches Some(words) ==> filter::matching(
                    clip,
                    words,
                )),
        forall|i: int, j: int|
            0 <= i < j < index::listing(view, machine, needle).len() && index::listing(
                view,
                machine,
                needle,
            )[j].pinned ==> index::listing(view, machine, needle)[i].pinned,
        ranking::newest_first(view.items) && index::distinct_stems(view.items) ==> forall|
            i: int,
            j: int,
        |
            0 <= i < j < index::listing(view, machine, needle).len() && index::listing(
                view,
                machine,
                needle,
            )[i].pinned == index::listing(view, machine, needle)[j].pinned ==> at_of(
                view.items,
                index::listing(view, machine, needle)[i].stem,
            ) >= at_of(view.items, index::listing(view, machine, needle)[j].stem),
{
    let first = index::wanted(view.hidden, machine, needle, true);
    let rest = index::wanted(view.hidden, machine, needle, false);
    let a = view.items.filter(first);
    let b = view.items.filter(rest);
    let rows = index::listing(view, machine, needle);
    index::lemma_filter_members(view.items, first);
    index::lemma_filter_members(view.items, rest);
    assert forall|row: SummaryView| #[trigger] rows.contains(row) <==> exists|clip: ClipView|
        #[trigger] view.items.contains(clip) && item::row_of(clip) == row && !view.hidden.contains(
            clip.stem,
        ) && (machine matches Some(id) ==> clip.machine == id) && (needle matches Some(words)
            ==> filter::matching(clip, words)) by {
        if rows.contains(row) {
            let i = choose|i: int| 0 <= i < rows.len() && rows[i] == row;
            let clip = (a + b)[i];
            if i < a.len() {
                assert(a.contains(clip)) by {
                    assert(a[i] == clip);
                }
            } else {
                assert(b.contains(clip)) by {
                    assert(b[i - a.len()] == clip);
                }
            }
            assert(view.items.contains(clip));
        }
        if exists|clip: ClipView| #[trigger]
            view.items.contains(clip) && item::row_of(clip) == row && !view.hidden.contains(
                clip.stem,
            ) && (machine matches Some(id) ==> clip.machine == id) && (needle matches Some(words)
                ==> filter::matching(clip, words)) {
            let clip = choose|clip: ClipView| #[trigger]
                view.items.contains(clip) && item::row_of(clip) == row && !view.hidden.contains(
                    clip.stem,
                ) && (machine matches Some(id) ==> clip.machine == id) && (needle matches Some(
                    words,
                ) ==> filter::matching(clip, words));
            if clip.pinned {
                assert(a.contains(clip));
                let i = choose|i: int| 0 <= i < a.len() && a[i] == clip;
                assert((a + b)[i] == clip);
                assert(rows[i] == row);
            } else {
                assert(b.contains(clip));
                let i = choose|i: int| 0 <= i < b.len() && b[i] == clip;
                assert((a + b)[a.len() + i] == clip);
                assert(rows[a.len() + i] == row);
            }
        }
    }
    assert forall|i: int, j: int| 0 <= i < j < rows.len() && rows[j].pinned implies rows[i].pinned by {
        if j >= a.len() {
            let clip = b[j - a.len()];
            assert(b.contains(clip));
            assert((a + b)[j] == clip);
        }
        assert((a + b)[i] == a[i]);
        assert(a.contains(a[i]));
    }
    if ranking::newest_first(view.items) && index::distinct_stems(view.items) {
        assert forall|i: int, j: int|
            0 <= i < j < rows.len() && rows[i].pinned == rows[j].pinned implies at_of(
            view.items,
            rows[i].stem,
        ) >= at_of(view.items, rows[j].stem) by {
            let x = (a + b)[i];
            let y = (a + b)[j];
            if i < a.len() {
                assert(a[i] == x);
                assert(a.contains(x));
            } else {
                assert(b[i - a.len()] == x);
                assert(b.contains(x));
            }
            if j < a.len() {
                assert(a[j] == y);
                assert(a.contains(y));
            } else {
                assert(b[j - a.len()] == y);
                assert(b.contains(y));
            }
            lemma_at_of(view.items, x);
            lemma_at_of(view.items, y);
        }
    }
}

/// Forgetting a database leaves exactly the clips of the others. What it held is
/// unknown again, so a clip of it can be taken in anew; a content is still stored
/// exactly when a clip that is left has it.
pub proof fn law_forgotten_database_is_unknown(items: Seq<ClipView>, db_path: Seq<char>)
    requires
        index::distinct_stems(items),
    ensures
        ({
            let left = items.filter(index::not_from(db_path));
            &&& index::distinct_stems(left)
            &&& ranking::newest_first(items) ==> ranking::newest_first(left)
            &&& forall|clip: ClipView|
                #[trigger] left.contains(clip) <==> items.contains(clip) && paths::model(
                    clip.db_path,
                ) != paths::model(db_path)
            &&& forall|clip: ClipView|
                #[trigger] items.contains(clip) && paths::model(clip.db_path) == paths::model(
                    db_path,
                ) ==> !index::knows(left, clip.stem) && index::added(left, clip)
                    == ranking::inserted(left, clip)
            &&& forall|hash: Seq<char>|
                #[trigger] index::carries(left, hash) <==> exists|i: int|
                    0 <= i < items.len() && (#[trigger] items[i]).hash == hash && paths::model(
                        items[i].db_path,
                    ) != paths::model(db_path)
        }),
{
    let keep = index::not_from(db_path);
    let left = items.filter(keep);
    index::lemma_filter_members(items, keep);
    assert forall|clip: ClipView| #[trigger]
        items.contains(clip) && paths::model(clip.db_path) == paths::model(
            db_path,
        ) implies !index::knows(left, clip.stem) by {
        if index::knows(left, clip.stem) {
            let k = choose|k: int| 0 <= k < left.len() && #[trigger] left[k].stem == clip.stem;
            assert(left.contains(left[k]));
            let i = choose|i: int| 0 <= i < items.len() && items[i] == clip;
            let j = choose|j: int| 0 <= j < items.len() && items[j] == left[k];
            if i != j {
                assert(items[i].stem != items[j].stem);
            }
        }
    }
    assert forall|hash: Seq<char>| #[trigger] index::carries(left, hash) <==> exists|i: int|
        0 <= i < items.len() && (#[trigger] items[i]).hash == hash && paths::model(
            items[i].db_path,
        ) != paths::model(db_path) by {
        if index::carries(left, hash) {
            let k = choose|k: int| 0 <= k < left.len() && #[trigger] left[k].hash == hash;
            assert(left.contains(left[k]));
            let i = choose|i: int| 0 <= i < items.len() && items[i] == left[k];
            assert(items[i].hash == hash);
        }
        if exists|i: int|
            0 <= i < items.len() && (#[trigger] items[i]).hash == hash && paths::model(
                items[i].db_path,
            ) != paths::model(db_path) {
            let i = choose|i: int|
                0 <= i < items.len() && (#[trigger] items[i]).hash == hash && paths::model(
                    items[i].db_path,
                ) != paths::model(db_path);
            assert(items.contains(items[i]));
            assert(left.contains(items[i]));
            let k = choose|k: int| 0 <= k < left.len() && left[k] == items[i];
            assert(left[k].hash == hash);
        }
    }
}

// -------------------------------------------------------------------- the search

proof fn lemma_word_len_is(s: Seq<char>, k: int)
    requires
        0 <= k <= s.len(),
        forall|i: int| 0 <= i < k ==> !text::is_white(s[i]),
        k < s.len() ==> text::is_white(s[k]),
    ensures
        filter::word_len(s) == k,
{
    filter::lemma_word_len(s);
}

proof fn lemma_words_add(a: Seq<char>, b: Seq<char>)
    ensures
        filter::words_of(a + seq![' '] + b) == filter::words_of(a) + filter::words_of(b),
    decreases a.len(),
{
    let s = a + seq![' '] + b;
    filter::lemma_word_len(a);
    if a.len() == 0 {
        lemma_word_len_is(s, 0);
        assert(s.drop_first() =~= b);
        assert(filter::words_of(a) + filter::words_of(b) =~= filter::words_of(b));
    } else if text::is_white(a[0]) {
        assert(s[0] == a[0]);
        lemma_word_len_is(s, 0);
        lemma_word_len_is(a, 0);
        assert(s.drop_first() =~= a.drop_first() + seq![' '] + b);
        lemma_words_add(a.drop_first(), b);
    } else {
        let k = filter::word_len(a);
        assert(k > 0);
        assert forall|i: int| 0 <= i < k implies !text::is_white(s[i]) by {
            assert(s[i] == a[i]);
        }
        assert(s[k] == if k < a.len() {
            a[k]
        } else {
            ' '
        });
        lemma_word_len_is(s, k);
        assert(s.take(k) =~= a.take(k));
        assert(s.skip(k) =~= a.skip(k) + seq![' '] + b);
        lemma_words_add(a.skip(k), b);
        assert(filter::words_of(s) =~= filter::words_of(a) + filter::words_of(b));
    }
}

/// The words of two texts with a space between them are those of the one and then those
/// of the other.
pub proof fn law_words_in_order(a: Seq<char>, b: Seq<char>)
    ensures
        filter::words_of(a + seq![' '] + b) == filter::words_of(a) + filter::words_of(b),
{
    lemma_words_add(a, b);
}

/// Every word has to be found, and nothing else: a search for two groups of words
/// finds what both searches find, whichever comes first.
pub proof fn law_every_word_counts(clip: ClipView, a: Seq<char>, b: Seq<char>)
    ensures
        filter::matching(clip, a + seq![' '] + b) <==> (filter::matching(clip, a)
            && filter::matching(clip, b)),
        filter::matching(clip, a + seq![' '] + b) <==> filter::matching(clip, b + seq![' '] + a),
{
    lemma_both(clip, a, b);
    lemma_both(clip, b, a);
}

proof fn lemma_both(clip: ClipView, a: Seq<char>, b: Seq<char>)
    ensures
        filter::matching(clip, a + seq![' '] + b) <==> (filter::matching(clip, a)
            && filter::matching(clip, b)),
{
    lemma_words_add(a, b);
    let s = a + seq![' '] + b;
    let left = filter::terms_of(a);
    let right = filter::terms_of(b);
    let all = filter::terms_of(s);
    assert(all =~= left + right);
    if filter::matching(clip, s) {
        assert forall|i: int| 0 <= i < left.len() implies filter::hits(
            clip,
            #[trigger] left[i],
        ) by {
            assert(all[i] == left[i]);
        }
        assert forall|i: int| 0 <= i < right.len() implies filter::hits(
            clip,
            #[trigger] right[i],
        ) by {
            assert(all[left.len() + i] == right[i]);
        }
    }
    if filter::matching(clip, a) && filter::matching(clip, b) {
        assert forall|i: int| 0 <= i < all.len() implies filter::hits(clip, #[trigger] all[i]) by {
            if i < left.len() {
                assert(all[i] == left[i]);
            } else {
                assert(all[i] == right[i - left.len()]);
            }
        }
    }
}

/// A word without a colon has no prefix: it is looked for in what was copied.
pub proof fn law_plain_word_searches_content(clip: ClipView, word: Seq<char>)
    requires
        !word.contains(':'),
    ensures
        filter::term_of(word).field == Field::Content,
        filter::hits(clip, filter::term_of(word)) == search::occurs(clip.text, word),
{
    reveal_strlit("app:");
    reveal_strlit("title:");
    reveal_strlit("time:");
    reveal_strlit("machine:");
    reveal_strlit("kind:");
    lemma_no_prefix(word, "app:"@, 3);
    lemma_no_prefix(word, "title:"@, 5);
    lemma_no_prefix(word, "time:"@, 4);
    lemma_no_prefix(word, "machine:"@, 7);
    lemma_no_prefix(word, "kind:"@, 4);
}

proof fn lemma_no_prefix(word: Seq<char>, prefix: Seq<char>, at: int)
    requires
        !word.contains(':'),
        0 <= at < prefix.len(),
        prefix[at] == ':',
    ensures
        !text::starts_with(word, prefix),
{
    if text::starts_with(word, prefix) {
        assert(word.take(prefix.len() as int)[at] == word[at]);
        assert(word.contains(word[at]));
    }
}

/// Case makes no difference: any stretch of a text, however it is capitalised,
/// is found in the text.
pub proof fn law_stretch_is_found(hay: Seq<char>, from: int, to: int)
    requires
        0 <= from <= to <= hay.len(),
    ensures
        search::occurs(hay, text::lowered(hay.subrange(from, to))),
        search::occurs(text::lowered(hay), text::lowered(hay.subrange(from, to))),
{
    let needle = text::lowered(hay.subrange(from, to));
    assert(hay.subrange(from, from + needle.len()) =~= hay.subrange(from, to));
    assert(search::occurs_at(hay, needle, from));
    let low = text::lowered(hay);
    assert(text::lowered(low.subrange(from, from + needle.len())) =~= needle);
    assert(search::occurs_at(low, needle, from));
}

// ------------------------------------------------------------------ what is kept

/// A row that points at a blob is written after that blob, and the blob holds the
/// whole content: a reader never sees a row whose content is not there yet.
pub proof fn law_blob_before_row(
    payload: PayloadView,
    context: ContextView,
    now: i64,
    month: Seq<char>,
    stem: Seq<char>,
    settings: SettingsView,
)
    ensures
        ({
            let steps = store::write_steps(payload, context, now, month, stem, settings);
            let folder = store::month_folder(settings, month);
            forall|i: int|
                0 <= i < steps.len() ==> (#[trigger] steps[i] matches StepView::InsertRow(
                    path,
                    record,
                ) ==> {
                    &&& path == store::db_in(folder)
                    &&& record.blob matches Some(name) ==> exists|j: int|
                        0 <= j < i && #[trigger] steps[j] == StepView::WriteBlob(
                            paths::joined(folder, name),
                            clip::payload_body(payload),
                        )
                })
        }),
        ({
            let steps = store::write_steps(payload, context, now, month, stem, settings);
            steps.len() > 0 && steps.last() == StepView::InsertRow(
                store::db_in(store::month_folder(settings, month)),
                store::new_record(payload, context, now, stem, settings),
            )
        }),
{
    let steps = store::write_steps(payload, context, now, month, stem, settings);
    let folder = store::month_folder(settings, month);
    assert forall|i: int| 0 <= i < steps.len() implies (#[trigger] steps[i] matches
        StepView::InsertRow(path, record) ==> {
        &&& path == store::db_in(folder)
        &&& record.blob matches Some(name) ==> exists|j: int|
            0 <= j < i && #[trigger] steps[j] == StepView::WriteBlob(
                paths::joined(folder, name),
                clip::payload_body(payload),
            )
    }) by {
        if let StepView::InsertRow(path, record) = steps[i] {
            if let Some(name) = record.blob {
                assert(steps[1] == StepView::WriteBlob(
                    paths::joined(folder, name),
                    clip::payload_body(payload),
                ));
            }
        }
    }
}

/// The clip a capture becomes.
pub open spec fn captured(
    payload: PayloadView,
    context: ContextView,
    now: i64,
    month: Seq<char>,
    stem: Seq<char>,
    settings: SettingsView,
    when: SYSTEMTIME,
    now_year: u16,
) -> ClipView {
    item::item_of(
        store::new_record(payload, context, now, stem, settings),
        store::db_in(store::month_folder(settings, month)),
        stem,
        false,
        settings.machine_id,
        when,
        now_year,
    )
}

/// Once a clip is written, its content is known: the same content copied again is
/// not stored a second time.
pub proof fn law_same_content_is_stored_once(
    view: IndexView,
    payload: PayloadView,
    context: ContextView,
    now: i64,
    month: Seq<char>,
    stem: Seq<char>,
    settings: SettingsView,
    when: SYSTEMTIME,
    now_year: u16,
)
    requires
        !index::knows(view.items, stem),
    ensures
        ({
            let clip = captured(payload, context, now, month, stem, settings, when, now_year);
            let after = IndexView { items: index::added(view.items, clip), ..view };
            store::is_stored(payload, after) && index::lookup(after.items, stem) == Some(clip)
        }),
{
    let clip = captured(payload, context, now, month, stem, settings, when, now_year);
    index::lemma_inserted_members(view.items, clip);
    let more = ranking::inserted(view.items, clip);
    ranking::lemma_position(view.items, clip.at);
    let k = ranking::position(view.items, clip.at);
    assert(more[k].hash == clip.hash && more[k].stem == stem);
    index::lemma_lookup(more, stem);
    let hit = index::lookup(more, stem)->0;
    let i = choose|i: int| 0 <= i < more.len() && more[i] == hit;
    if i != k {
        let j = if i < k {
            i
        } else {
            i - 1
        };
        assert(more[i] == view.items[j]);
        assert(view.items[j].stem == stem);
    }
    assert(more[k] == clip);
}

/// Once every clip with a content is deleted, the content is forgotten: copied
/// again, it is stored again.
pub proof fn law_deleted_content_can_come_back(
    view: IndexView,
    gone: Seq<ClipView>,
    hash: Seq<char>,
)
    requires
        forall|i: int|
            0 <= i < view.items.len() && (#[trigger] view.items[i]).hash == hash ==> index::knows(
                gone,
                view.items[i].stem,
            ),
    ensures
        !index::carries(store::without(view, gone).items, hash),
{
    let keep = index::not_in(store::stem_set(gone));
    let left = view.items.filter(keep);
    index::lemma_filter_members(view.items, keep);
    if index::carries(left, hash) {
        let i = choose|i: int| 0 <= i < left.len() && #[trigger] left[i].hash == hash;
        assert(left.contains(left[i]));
        assert(view.items.contains(left[i]));
        let j = choose|j: int| 0 <= j < view.items.len() && view.items[j] == left[i];
        assert(index::knows(gone, view.items[j].stem));
    }
}

/// Retention reaches nothing but this machine's own clips that are old enough and
/// not pinned, and it reaches all of them.
pub proof fn law_retention_is_confined(
    items: Seq<ClipView>,
    cutoff_ms: i64,
    local_machine: Seq<char>,
    clip: ClipView,
)
    ensures
        items.filter(index::stale(cutoff_ms, local_machine)).contains(clip) <==> (items.contains(
            clip,
        ) && clip.machine == local_machine && clip.at < cutoff_ms && !clip.pinned),
{
    index::lemma_filter_members(items, index::stale(cutoff_ms, local_machine));
}

/// A cleanup of heavy clips never touches one that is pinned, hidden or kept in
/// its row, and what it deletes is ours to delete.
pub proof fn law_bin_cleanup_is_confined(
    view: IndexView,
    scope: BinScope,
    now: i64,
    local_machine: Seq<char>,
    month: Seq<char>,
    clip: ClipView,
)
    requires
        deletion::reached(store::visible(view), scope, now).filter(
            deletion::ours(local_machine, month),
        ).contains(clip),
    ensures
        view.items.contains(clip),
        clip.has_blob,
        !clip.pinned,
        !view.hidden.contains(clip.stem),
        deletion::ours(local_machine, month)(clip),
{
    let visible = store::visible(view);
    let heavy = visible.filter(deletion::loose_heavy());
    let within = deletion::reached(visible, scope, now);
    index::lemma_filter_members(view.items, index::not_in(view.hidden));
    index::lemma_filter_members(visible, deletion::loose_heavy());
    index::lemma_filter_members(within, deletion::ours(local_machine, month));
    assert(within.contains(clip));
    match scope {
        BinScope::OlderThanDays(days) => {
            if days > 0 {
                index::lemma_filter_members(
                    heavy,
                    deletion::older_than(now - days * deletion::DAY_MS),
                );
            }
        },
        BinScope::KeepNewest(keep) => {
            let i = choose|i: int| 0 <= i < within.len() && within[i] == clip;
            assert(heavy[keep + i] == clip);
            assert(heavy.contains(clip));
        },
    }
    assert(heavy.contains(clip));
}

/// Both scopes of a cleanup of heavy clips take zero as everything.
pub proof fn law_zero_reaches_everything(visible: Seq<ClipView>, now: i64)
    ensures
        deletion::reached(visible, BinScope::OlderThanDays(0), now) == deletion::reached(
            visible,
            BinScope::KeepNewest(0),
            now,
        ),
        deletion::reached(visible, BinScope::OlderThanDays(0), now) == visible.filter(
            deletion::loose_heavy(),
        ),
{
    let heavy = visible.filter(deletion::loose_heavy());
    assert(heavy.skip(0) =~= heavy);
}

/// A cleanup of heavy clips reaches exactly what its scope says: by days, every
/// visible heavy clip that is not pinned and is old enough; by number, all of them
/// but the newest ones. What it reaches is either deleted or counted as skipped, and
/// what is deleted is listed newest first.
pub proof fn law_bin_scan_reaches_its_scope(
    view: IndexView,
    days: u32,
    keep: u32,
    now: i64,
    local_machine: Seq<char>,
    month: Seq<char>,
)
    requires
        ranking::newest_first(view.items),
    ensures
        forall|clip: ClipView|
            #[trigger] deletion::reached(
                store::visible(view),
                BinScope::OlderThanDays(days),
                now,
            ).contains(clip) <==> view.items.contains(clip) && !view.hidden.contains(clip.stem)
                && clip.has_blob && !clip.pinned && (days == 0 || clip.at < now - days
                * 86_400_000),
        deletion::reached(store::visible(view), BinScope::KeepNewest(keep), now)
            == store::visible(view).filter(deletion::loose_heavy()).skip(
            if keep <= store::visible(view).filter(deletion::loose_heavy()).len() {
                keep as int
            } else {
                store::visible(view).filter(deletion::loose_heavy()).len() as int
            },
        ),
        forall|scope: BinScope|
            {
                let within = #[trigger] deletion::reached(store::visible(view), scope, now);
                let doomed = within.filter(deletion::ours(local_machine, month));
                let skipped = within.filter(deletion::not_ours(local_machine, month));
                ranking::newest_first(doomed) && doomed.len() + skipped.len() == within.len()
            },
{
    let visible = store::visible(view);
    let heavy = visible.filter(deletion::loose_heavy());
    index::lemma_filter_members(view.items, index::not_in(view.hidden));
    index::lemma_filter_members(visible, deletion::loose_heavy());
    let old = deletion::older_than(now - days * deletion::DAY_MS);
    index::lemma_filter_members(heavy, old);
    if keep as nat >= heavy.len() {
        assert(heavy.skip(heavy.len() as int) =~= Seq::<ClipView>::empty());
    }
    let yes = deletion::ours(local_machine, month);
    let no = deletion::not_ours(local_machine, month);
    assert forall|scope: BinScope|
        {
            let within = #[trigger] deletion::reached(visible, scope, now);
            ranking::newest_first(within.filter(yes)) && within.filter(yes).len() + within.filter(
                no,
            ).len() == within.len()
        } by {
        let within = deletion::reached(visible, scope, now);
        if let BinScope::OlderThanDays(d) = scope {
            index::lemma_filter_members(heavy, deletion::older_than(now - d * deletion::DAY_MS));
        }
        assert(ranking::newest_first(within));
        index::lemma_filter_members(within, yes);
        lemma_filter_lengths(within, yes, no);
    }
}

proof fn lemma_superseded(texts: Seq<ClipView>, clip: ClipView) -> (i: int)
    requires
        deletion::superseded(texts).contains(clip),
    ensures
        0 <= i < texts.len(),
        texts[i] == clip,
        !clip.pinned,
        index::carries(texts.take(i), clip.hash),
    decreases texts.len(),
{
    let head = texts.drop_last();
    let before = deletion::superseded(head);
    let all = deletion::superseded(texts);
    let k = choose|k: int| 0 <= k < all.len() && all[k] == clip;
    if k < before.len() {
        assert(before[k] == clip);
        let i = lemma_superseded(head, clip);
        assert(head.take(i) =~= texts.take(i));
        i
    } else {
        assert(texts.take(texts.len() - 1) =~= head);
        texts.len() - 1
    }
}

/// A copy that is neither pinned nor the newest is among those that go.
proof fn lemma_goes(texts: Seq<ClipView>, k: int)
    requires
        0 <= k < texts.len(),
        !texts[k].pinned,
        index::carries(texts.take(k), texts[k].hash),
    ensures
        deletion::superseded(texts).contains(texts[k]),
    decreases texts.len(),
{
    let head = texts.drop_last();
    let before = deletion::superseded(head);
    let all = deletion::superseded(texts);
    if k < head.len() {
        assert(head.take(k) =~= texts.take(k));
        lemma_goes(head, k);
        let j = choose|j: int| 0 <= j < before.len() && before[j] == texts[k];
        assert(all[j] == texts[k]);
    } else {
        assert(texts.take(k) =~= head);
        assert(all[before.len() as int] == texts[k]);
    }
}

/// Where the newest copy of a content stands.
proof fn lemma_newest_copy(texts: Seq<ClipView>, hash: Seq<char>) -> (i: int)
    requires
        index::carries(texts, hash),
    ensures
        0 <= i < texts.len(),
        texts[i].hash == hash,
        !index::carries(texts.take(i), hash),
    decreases texts.len(),
{
    let head = texts.drop_last();
    if index::carries(head, hash) {
        let i = lemma_newest_copy(head, hash);
        assert(head.take(i) =~= texts.take(i));
        i
    } else {
        let k = choose|k: int| 0 <= k < texts.len() && #[trigger] texts[k].hash == hash;
        if k < head.len() {
            assert(head[k].hash == hash);
        }
        assert(texts.take(texts.len() - 1) =~= head);
        texts.len() - 1
    }
}

/// Of the copies of one text, which stand newest first, exactly those go that are
/// neither the newest nor pinned, and so a duplicate cleanup loses no text.
pub proof fn law_duplicates_keep_every_text(texts: Seq<ClipView>, k: int)
    requires
        index::distinct_stems(texts),
        0 <= k < texts.len(),
    ensures
        texts[k].pinned ==> !deletion::superseded(texts).contains(texts[k]),
        !index::carries(texts.take(k), texts[k].hash) ==> !deletion::superseded(texts).contains(
            texts[k],
        ),
        !texts[k].pinned && index::carries(texts.take(k), texts[k].hash)
            ==> deletion::superseded(texts).contains(texts[k]),
        exists|i: int|
            0 <= i < texts.len() && (#[trigger] texts[i]).hash == texts[k].hash
                && !deletion::superseded(texts).contains(texts[i]),
{
    let clip = texts[k];
    if deletion::superseded(texts).contains(clip) {
        let j = lemma_superseded(texts, clip);
        assert(j == k) by {
            if j != k {
                assert(texts[j].stem == texts[k].stem);
            }
        }
    } else if !clip.pinned && index::carries(texts.take(k), clip.hash) {
        lemma_goes(texts, k);
    }
    assert(index::carries(texts, clip.hash));
    let i = lemma_newest_copy(texts, clip.hash);
    if deletion::superseded(texts).contains(texts[i]) {
        let j = lemma_superseded(texts, texts[i]);
        assert(j == i) by {
            if j != i {
                assert(texts[j].stem == texts[i].stem);
            }
        }
    }
    assert(texts[i].hash == clip.hash && !deletion::superseded(texts).contains(texts[i]));
}

/// What goes stands newest first, as the texts do.
proof fn lemma_superseded_order(texts: Seq<ClipView>)
    requires
        ranking::newest_first(texts),
    ensures
        ranking::newest_first(deletion::superseded(texts)),
        forall|i: int|
            0 <= i < deletion::superseded(texts).len() ==> texts.contains(
                #[trigger] deletion::superseded(texts)[i],
            ),
    decreases texts.len(),
{
    let all = deletion::superseded(texts);
    if texts.len() > 0 {
        let head = texts.drop_last();
        let before = deletion::superseded(head);
        let last = texts.last();
        lemma_superseded_order(head);
        assert forall|i: int| 0 <= i < before.len() implies texts.contains(
            #[trigger] before[i],
        ) && before[i].at >= last.at by {
            let k = choose|k: int| 0 <= k < head.len() && head[k] == before[i];
            assert(texts[k] == before[i]);
        }
        assert forall|i: int| 0 <= i < all.len() implies texts.contains(#[trigger] all[i]) by {
            if i < before.len() {
                assert(all[i] == before[i]);
            } else {
                assert(texts[texts.len() - 1] == all[i]);
            }
        }
        assert forall|i: int, j: int| 0 <= i < j < all.len() implies all[i].at >= all[j].at by {
            assert(all[i] == before[i]);
            if j < before.len() {
                assert(all[j] == before[j]);
            }
        }
    }
}

/// Whether a content stands there twice.
pub open spec fn twice(texts: Seq<ClipView>, hash: Seq<char>) -> bool {
    exists|j: int|
        0 <= j < texts.len() && (#[trigger] texts[j]).hash == hash && index::carries(
            texts.take(j),
            hash,
        )
}

proof fn lemma_repeated(texts: Seq<ClipView>)
    ensures
        deletion::repeated(texts).no_duplicates(),
        forall|hash: Seq<char>|
            #[trigger] deletion::repeated(texts).contains(hash) <==> twice(texts, hash),
    decreases texts.len(),
{
    let all = deletion::repeated(texts);
    if texts.len() > 0 {
        let head = texts.drop_last();
        let before = deletion::repeated(head);
        let last = texts.last();
        let n = texts.len() - 1;
        lemma_repeated(head);
        assert(texts.take(n) =~= head);
        assert forall|hash: Seq<char>| #[trigger] all.contains(hash) <==> twice(texts, hash) by {
            if twice(texts, hash) {
                let j = choose|j: int|
                    0 <= j < texts.len() && (#[trigger] texts[j]).hash == hash && index::carries(
                        texts.take(j),
                        hash,
                    );
                if j < n {
                    assert(head[j].hash == hash);
                    assert(head.take(j) =~= texts.take(j));
                    assert(before.contains(hash));
                }
                if before.contains(hash) {
                    let k = choose|k: int| 0 <= k < before.len() && before[k] == hash;
                    assert(all[k] == hash);
                } else {
                    assert(all[before.len() as int] == hash);
                }
            }
            if all.contains(hash) {
                let k = choose|k: int| 0 <= k < all.len() && all[k] == hash;
                if k < before.len() {
                    assert(before[k] == hash);
                    assert(before.contains(hash));
                    let j = choose|j: int|
                        0 <= j < head.len() && (#[trigger] head[j]).hash == hash && index::carries(
                            head.take(j),
                            hash,
                        );
                    assert(texts[j].hash == hash);
                    assert(head.take(j) =~= texts.take(j));
                } else {
                    assert(texts[n].hash == hash);
                }
            }
        }
    } else {
        assert forall|hash: Seq<char>| !twice(texts, hash) by {}
    }
}

/// What a duplicate scan lists: of the visible texts that stand there more than once
/// every copy that is neither the newest nor pinned, newest first over all of them;
/// and the groups it counts are those contents, each once.
pub proof fn law_duplicate_scan(view: IndexView)
    requires
        ranking::newest_first(view.items),
        index::distinct_stems(view.items),
    ensures
        ({
            let texts = store::visible_texts(view);
            let doomed = deletion::superseded(texts);
            let groups = deletion::repeated(texts);
            &&& ranking::newest_first(texts)
            &&& index::distinct_stems(texts)
            &&& forall|clip: ClipView|
                #[trigger] texts.contains(clip) <==> view.items.contains(clip)
                    && !view.hidden.contains(clip.stem) && clip.kind == ClipKind::Text
                    && clip.hash.len() > 0
            &&& ranking::newest_first(doomed)
            &&& forall|clip: ClipView|
                #[trigger] doomed.contains(clip) ==> texts.contains(clip) && !clip.pinned && twice(
                    texts,
                    clip.hash,
                )
            &&& forall|k: int|
                0 <= k < texts.len() ==> (doomed.contains(#[trigger] texts[k])
                    <==> !texts[k].pinned && index::carries(texts.take(k), texts[k].hash))
            &&& groups.no_duplicates()
            &&& forall|hash: Seq<char>|
                #[trigger] groups.contains(hash) <==> twice(texts, hash)
        }),
{
    let texts = store::visible_texts(view);
    let doomed = deletion::superseded(texts);
    index::lemma_filter_members(view.items, index::not_in(view.hidden));
    index::lemma_filter_members(store::visible(view), deletion::comparable());
    lemma_superseded_order(texts);
    lemma_repeated(texts);
    assert forall|clip: ClipView| #[trigger] doomed.contains(clip) implies texts.contains(clip)
        && !clip.pinned && twice(texts, clip.hash) by {
        let j = lemma_superseded(texts, clip);
        assert(texts[j] == clip);
    }
    assert forall|k: int| 0 <= k < texts.len() implies (doomed.contains(#[trigger] texts[k])
        <==> !texts[k].pinned && index::carries(texts.take(k), texts[k].hash)) by {
        law_duplicates_keep_every_text(texts, k);
    }
}

proof fn lemma_filter_lengths(
    s: Seq<ClipView>,
    yes: spec_fn(ClipView) -> bool,
    no: spec_fn(ClipView) -> bool,
)
    requires
        forall|x: ClipView| #[trigger] yes(x) == !no(x),
    ensures
        s.filter(yes).len() + s.filter(no).len() == s.len(),
    decreases s.len(),
{
    reveal(Seq::filter);
    if s.len() > 0 {
        lemma_filter_lengths(s.drop_last(), yes, no);
        assert(yes(s.last()) == !no(s.last()));
    }
}

/// Every clip that is to be deleted is either deleted or marked, and none is both.
pub proof fn law_deleted_or_marked(
    items: Seq<ClipView>,
    local_machine: Seq<char>,
    month: Seq<char>,
)
    ensures
        items.filter(deletion::ours(local_machine, month)).len() + items.filter(
            deletion::not_ours(local_machine, month),
        ).len() == items.len(),
        forall|clip: ClipView|
            items.filter(deletion::ours(local_machine, month)).contains(clip)
                ==> !#[trigger] items.filter(deletion::not_ours(local_machine, month)).contains(
                clip,
            ),
{
    let yes = deletion::ours(local_machine, month);
    let no = deletion::not_ours(local_machine, month);
    lemma_filter_lengths(items, yes, no);
    index::lemma_filter_members(items, yes);
    index::lemma_filter_members(items, no);
}

/// A tombstone hides a clip at once, its owner is asked to take it out, and once
/// that is done neither the clip nor the tombstone is left.
pub proof fn law_tombstone_runs_its_course(
    view: IndexView,
    marked: Seq<ClipView>,
    clip: ClipView,
    owner: Seq<char>,
)
    requires
        view.items.contains(clip),
        marked.contains(clip),
        clip.machine == owner,
    ensures
        ({
            let hidden = store::hiding(view, marked);
            let doomed = hidden.items.filter(index::asked_gone(hidden.hidden, owner));
            let after = store::without(hidden, doomed);
            &&& !store::visible(hidden).contains(clip)
            &&& doomed.contains(clip)
            &&& !index::knows(after.items, clip.stem)
            &&& !after.hidden.contains(clip.stem)
        }),
{
    let hidden = store::hiding(view, marked);
    let ask = index::asked_gone(hidden.hidden, owner);
    let doomed = hidden.items.filter(ask);
    let keep = index::not_in(store::stem_set(doomed));
    let i = choose|i: int| 0 <= i < marked.len() && marked[i] == clip;
    assert(marked[i].stem == clip.stem);
    assert(index::knows(marked, clip.stem));
    index::lemma_filter_members(hidden.items, index::not_in(hidden.hidden));
    index::lemma_filter_members(hidden.items, ask);
    index::lemma_filter_members(hidden.items, keep);
    assert(doomed.contains(clip));
    let j = choose|j: int| 0 <= j < doomed.len() && doomed[j] == clip;
    assert(doomed[j].stem == clip.stem);
    assert(index::knows(doomed, clip.stem));
    let left = hidden.items.filter(keep);
    if index::knows(left, clip.stem) {
        let k = choose|k: int| 0 <= k < left.len() && #[trigger] left[k].stem == clip.stem;
        assert(left.contains(left[k]));
    }
}

/// Where a clip's markers can stand: beside a database, for a stem that can be a
/// file's name.
pub open spec fn markable(db_path: Seq<char>, stem: Seq<char>) -> bool {
    &&& paths::parent_of(db_path) is Some
    &&& stem.len() > 0
    &&& forall|i: int| 0 <= i < stem.len() ==> !paths::is_sep(#[trigger] stem[i])
    &&& !paths::has_drive(stem)
}

proof fn lemma_marker_name(stem: Seq<char>, suffix: Seq<char>)
    requires
        stem.len() > 0,
        forall|i: int| 0 <= i < stem.len() ==> !paths::is_sep(#[trigger] stem[i]),
        !paths::has_drive(stem),
        suffix == item::PIN_SUFFIX@ || suffix == item::HIDDEN_SUFFIX@,
    ensures
        paths::is_file_name(stem + suffix),
        stem + suffix != store::DB_NAME@,
        text::ends_with(stem + suffix, suffix),
        store::before_suffix(stem + suffix, suffix) == stem,
        suffix == item::HIDDEN_SUFFIX@ ==> !text::ends_with(stem + suffix, item::PIN_SUFFIX@),
{
    reveal_strlit(".pin");
    reveal_strlit(".del");
    reveal_strlit("clips.db");
    let name = stem + suffix;
    assert(suffix.len() == 4 && suffix[0] == '.');
    assert forall|i: int| 0 <= i < name.len() implies !paths::is_sep(#[trigger] name[i]) by {
        if i < stem.len() {
            assert(name[i] == stem[i]);
        } else {
            assert(name[i] == suffix[i - stem.len()]);
        }
    }
    assert(!paths::has_drive(name)) by {
        assert(name[0] == stem[0]);
        if stem.len() >= 2 {
            assert(name[1] == stem[1]);
        } else {
            assert(name[1] == suffix[0]);
        }
    }
    assert(name.len() > 4);
    assert(name.skip(name.len() - 4) =~= suffix);
    assert(name.take(name.len() - 4) =~= stem);
    assert(name != store::DB_NAME@) by {
        if name == store::DB_NAME@ {
            assert(name.last() == suffix[3]);
        }
    }
    if suffix == item::HIDDEN_SUFFIX@ && text::ends_with(name, item::PIN_SUFFIX@) {
        assert(name.skip(name.len() - 4)[1] == 'p');
        assert(suffix[1] == 'd');
    }
}

/// A clip's markers stand beside its database, are recognised as that clip's when
/// they are seen again, and no two clips share one.
pub proof fn law_marker_names_its_clip(db_path: Seq<char>, stem: Seq<char>, view: IndexView)
    requires
        markable(db_path, stem),
    ensures
        ({
            let pin = item::marker_path(db_path, stem, item::PIN_SUFFIX@);
            let tombstone = item::marker_path(db_path, stem, item::HIDDEN_SUFFIX@);
            &&& paths::parent_of(pin) == paths::parent_of(db_path)
            &&& paths::parent_of(tombstone) == paths::parent_of(db_path)
            &&& paths::file_name_of(pin) == Some(stem + item::PIN_SUFFIX@)
            &&& paths::file_name_of(tombstone) == Some(stem + item::HIDDEN_SUFFIX@)
            &&& store::kind_of_file(pin) == FileKindView::Pin(stem)
            &&& store::kind_of_file(tombstone) == FileKindView::Tombstone(stem)
            &&& pin != tombstone
            &&& store::marker_seen(view, store::kind_of_file(pin), true).items
                == index::repinned(view.items, stem, true)
            &&& store::marker_seen(view, store::kind_of_file(tombstone), true).hidden
                == view.hidden.insert(stem)
        }),
        forall|other: Seq<char>|
            markable(db_path, other) && other != stem ==> #[trigger] item::marker_path(
                db_path,
                other,
                item::PIN_SUFFIX@,
            ) != item::marker_path(db_path, stem, item::PIN_SUFFIX@),
        forall|other: Seq<char>|
            markable(db_path, other) && other != stem ==> #[trigger] item::marker_path(
                db_path,
                other,
                item::HIDDEN_SUFFIX@,
            ) != item::marker_path(db_path, stem, item::HIDDEN_SUFFIX@),
{
    lemma_marker_kinds(db_path, stem);
    assert forall|other: Seq<char>| markable(db_path, other) && other
        != stem implies #[trigger] item::marker_path(db_path, other, item::PIN_SUFFIX@)
        != item::marker_path(db_path, stem, item::PIN_SUFFIX@) by {
        lemma_marker_kinds(db_path, other);
    }
    assert forall|other: Seq<char>| markable(db_path, other) && other
        != stem implies #[trigger] item::marker_path(db_path, other, item::HIDDEN_SUFFIX@)
        != item::marker_path(db_path, stem, item::HIDDEN_SUFFIX@) by {
        lemma_marker_kinds(db_path, other);
    }
}

pub proof fn lemma_marker_kinds(db_path: Seq<char>, stem: Seq<char>)
    requires
        markable(db_path, stem),
    ensures
        ({
            let pin = item::marker_path(db_path, stem, item::PIN_SUFFIX@);
            let tombstone = item::marker_path(db_path, stem, item::HIDDEN_SUFFIX@);
            &&& paths::parent_of(pin) == paths::parent_of(db_path)
            &&& paths::parent_of(tombstone) == paths::parent_of(db_path)
            &&& paths::file_name_of(pin) == Some(stem + item::PIN_SUFFIX@)
            &&& paths::file_name_of(tombstone) == Some(stem + item::HIDDEN_SUFFIX@)
            &&& store::kind_of_file(pin) == FileKindView::Pin(stem)
            &&& store::kind_of_file(tombstone) == FileKindView::Tombstone(stem)
        }),
{
    lemma_marker_name(stem, item::PIN_SUFFIX@);
    lemma_marker_name(stem, item::HIDDEN_SUFFIX@);
    paths::law_sibling_stands_beside(db_path, stem + item::PIN_SUFFIX@);
    paths::law_sibling_stands_beside(db_path, stem + item::HIDDEN_SUFFIX@);
}

/// Reading a database anew leaves the clips of every other database in place.
pub proof fn law_reload_leaves_the_others(
    items: Seq<ClipView>,
    db_path: Seq<char>,
    fresh: Seq<ClipView>,
    clip: ClipView,
)
    requires
        items.contains(clip),
        paths::model(clip.db_path) != paths::model(db_path),
    ensures
        store::reloaded(items, db_path, fresh).contains(clip),
{
    let kept = items.filter(index::not_from(db_path));
    index::lemma_filter_members(items, index::not_from(db_path));
    assert(kept.contains(clip));
    lemma_added_knows(kept, fresh);
}

/// Taking a pin off again leaves everything as it was before the clip was pinned;
/// pinning moves no clip within the index and changes no other.
pub proof fn law_unpinning_undoes_pinning(items: Seq<ClipView>, stem: Seq<char>)
    requires
        forall|i: int|
            0 <= i < items.len() && #[trigger] items[i].stem == stem ==> !items[i].pinned,
    ensures
        index::repinned(index::repinned(items, stem, true), stem, false) == items,
        index::repinned(items, stem, true).len() == items.len(),
        forall|i: int|
            0 <= i < items.len() ==> (#[trigger] index::repinned(items, stem, true)[i]).stem
                == items[i].stem,
{
    let back = index::repinned(index::repinned(items, stem, true), stem, false);
    assert forall|i: int| 0 <= i < items.len() implies back[i] == items[i] by {
        assert(items[i].stem == stem || items[i].stem != stem);
        assert(back[i] =~= items[i]);
    }
    assert(back =~= items);
}

/// A tombstone that goes away before its clip does brings the clip back as it was.
pub proof fn law_lifted_tombstone_brings_back(view: IndexView, stem: Seq<char>)
    requires
        !view.hidden.contains(stem),
    ensures
        store::marker_seen(
            store::marker_seen(view, FileKindView::Tombstone(stem), true),
            FileKindView::Tombstone(stem),
            false,
        ) == view,
{
    assert(view.hidden.insert(stem).remove(stem) =~= view.hidden);
}

/// A text too long for its row is searched by its first characters, and any other
/// text by the whole of it: what the row keeps is what the index holds.
pub proof fn law_searched_text(
    s: Seq<char>,
    context: ContextView,
    now: i64,
    month: Seq<char>,
    stem: Seq<char>,
    config: SettingsView,
    when: SYSTEMTIME,
    now_year: u16,
)
    ensures
        ({
            let clip = captured(
                PayloadView::Text(s),
                context,
                now,
                month,
                stem,
                config,
                when,
                now_year,
            );
            clip.text == (if s.len() > config.inline_text_limit && s.len() > 512 {
                s.take(512)
            } else {
                s
            })
        }),
{
}

} // verus!
