//! In-memory index of everything found in the synced databases.
//!
//! The databases are the source of truth; this is a projection that a restart
//! rebuilds from scratch. Nothing here is ever persisted, which is exactly why
//! there is no cache to go stale.

use vstd::hash_set::StringHashSet;
use vstd::prelude::*;

pub use crate::item::{pin_path_for, ClipItem, ClipSummary};
use crate::filter;
use crate::filter::Term;
use crate::item;
use crate::item::{ClipView, SummaryView};
use crate::paths;
use crate::ranking;
use crate::stems::StemSet;
use crate::text;

verus! {

pub struct Index {
    /// Newest first, maintained by halving so a query never sorts.
    items: Vec<ClipItem>,
    stems: StringHashSet,
    hashes: StringHashSet,
    /// Stems a tombstone was seen for. Kept apart from the items, so that it
    /// outlives a reload of the database that holds the row.
    hidden: StringHashSet,
}

/// The clips, newest first, and the stems that are tombstoned.
#[verifier::ext_equal]
pub struct IndexView {
    pub items: Seq<ClipView>,
    pub hidden: Set<Seq<char>>,
}

impl View for Index {
    type V = IndexView;

    closed spec fn view(&self) -> IndexView {
        IndexView { items: ranking::item_views(self.items@), hidden: self.hidden@ }
    }
}

// ----------------------------------------------------------------------- model

/// Whether a clip with this stem is there.
pub open spec fn knows(items: Seq<ClipView>, stem: Seq<char>) -> bool {
    exists|i: int| 0 <= i < items.len() && #[trigger] items[i].stem == stem
}

/// Whether a clip with this content is there.
pub open spec fn carries(items: Seq<ClipView>, hash: Seq<char>) -> bool {
    exists|i: int| 0 <= i < items.len() && #[trigger] items[i].hash == hash
}

pub open spec fn distinct_stems(items: Seq<ClipView>) -> bool {
    forall|i: int, j: int| 0 <= i < j < items.len() ==> items[i].stem != items[j].stem
}

/// Whether a set holds exactly the stems of the clips.
pub open spec fn stems_of(stems: Set<Seq<char>>, items: Seq<ClipView>) -> bool {
    forall|s: Seq<char>|
        #![trigger stems.contains(s)]
        #![trigger knows(items, s)]
        stems.contains(s) <==> knows(items, s)
}

/// Whether a set holds exactly the contents of the clips.
pub open spec fn hashes_of(hashes: Set<Seq<char>>, items: Seq<ClipView>) -> bool {
    forall|h: Seq<char>|
        #![trigger hashes.contains(h)]
        #![trigger carries(items, h)]
        hashes.contains(h) <==> (h.len() > 0 && carries(items, h))
}

/// The contents that are left once some are gone, unless a clip still has them.
pub open spec fn spared(
    hashes: Set<Seq<char>>,
    gone: Seq<Seq<char>>,
    items: Seq<ClipView>,
) -> Set<Seq<char>> {
    Set::new(|h: Seq<char>| hashes.contains(h) && (!gone.contains(h) || carries(items, h)))
}

/// The list with a clip put in, unless its stem is already known.
pub open spec fn added(items: Seq<ClipView>, clip: ClipView) -> Seq<ClipView> {
    if knows(items, clip.stem) {
        items
    } else {
        ranking::inserted(items, clip)
    }
}

pub open spec fn added_all(items: Seq<ClipView>, batch: Seq<ClipView>) -> Seq<ClipView>
    decreases batch.len(),
{
    if batch.len() == 0 {
        items
    } else {
        added(added_all(items, batch.drop_last()), batch.last())
    }
}

/// The first clip with this stem.
pub open spec fn lookup(items: Seq<ClipView>, stem: Seq<char>) -> Option<ClipView>
    decreases items.len(),
{
    if items.len() == 0 {
        None
    } else if items[0].stem == stem {
        Some(items[0])
    } else {
        lookup(items.drop_first(), stem)
    }
}

pub open spec fn not_in(stems: Set<Seq<char>>) -> spec_fn(ClipView) -> bool {
    |clip: ClipView| !stems.contains(clip.stem)
}

pub open spec fn not_from(db_path: Seq<char>) -> spec_fn(ClipView) -> bool {
    |clip: ClipView| paths::model(clip.db_path) != paths::model(db_path)
}

/// This machine's own, old enough, not pinned.
pub open spec fn stale(cutoff_ms: i64, local_machine: Seq<char>) -> spec_fn(ClipView) -> bool {
    |clip: ClipView| clip.at < cutoff_ms && !clip.pinned && clip.machine == local_machine
}

/// This machine's own, and tombstoned.
pub open spec fn asked_gone(hidden: Set<Seq<char>>, local_machine: Seq<char>) -> spec_fn(
    ClipView,
) -> bool {
    |clip: ClipView| hidden.contains(clip.stem) && clip.machine == local_machine
}

/// Whether a clip belongs on the list: not tombstoned, of the instance asked
/// for, with what the search asks for, and pinned or not.
pub open spec fn wanted(
    hidden: Set<Seq<char>>,
    machine: Option<Seq<char>>,
    needle: Option<Seq<char>>,
    pinned: bool,
) -> spec_fn(ClipView) -> bool {
    |clip: ClipView|
        {
            &&& clip.pinned == pinned
            &&& !hidden.contains(clip.stem)
            &&& machine matches Some(id) ==> clip.machine == id
            &&& needle matches Some(words) ==> filter::matching(clip, words)
        }
}

pub open spec fn rows_of(items: Seq<ClipView>) -> Seq<SummaryView> {
    Seq::new(items.len(), |i: int| item::row_of(items[i]))
}

pub open spec fn row_views(rows: Seq<ClipSummary>) -> Seq<SummaryView> {
    Seq::new(rows.len(), |i: int| rows[i]@)
}

/// Every row the list could show: pinned ones first, then newest first.
pub open spec fn listing(
    index: IndexView,
    machine: Option<Seq<char>>,
    needle: Option<Seq<char>>,
) -> Seq<SummaryView> {
    rows_of(
        index.items.filter(wanted(index.hidden, machine, needle, true)) + index.items.filter(
            wanted(index.hidden, machine, needle, false),
        ),
    )
}

/// As many of the rows as asked for, and at least one.
pub open spec fn first_rows(rows: Seq<SummaryView>, limit: nat) -> Seq<SummaryView> {
    let most = if limit == 0 {
        1
    } else {
        limit
    };
    if rows.len() <= most {
        rows
    } else {
        rows.take(most as int)
    }
}

/// The instances that have a clip, each with its newest, newest first.
pub open spec fn active(items: Seq<ClipView>) -> Seq<(Seq<char>, i64)>
    decreases items.len(),
{
    if items.len() == 0 {
        Seq::empty()
    } else {
        let before = active(items.drop_last());
        let clip = items.last();
        if lists(before, clip.machine) {
            before
        } else {
            before.push((clip.machine, clip.at))
        }
    }
}

pub open spec fn lists(machines: Seq<(Seq<char>, i64)>, id: Seq<char>) -> bool {
    exists|i: int| 0 <= i < machines.len() && #[trigger] machines[i].0 == id
}

pub open spec fn machine_views(machines: Seq<(String, i64)>) -> Seq<(Seq<char>, i64)> {
    Seq::new(machines.len(), |i: int| (machines[i].0@, machines[i].1))
}

/// Every clip with `pinned` as the pin set says.
pub open spec fn pinned_by(items: Seq<ClipView>, pins: Set<Seq<char>>) -> Seq<ClipView> {
    Seq::new(
        items.len(),
        |i: int| ClipView { pinned: pins.contains(items[i].stem), ..items[i] },
    )
}

/// The clip with this stem pinned or not; the others as they were.
pub open spec fn repinned(items: Seq<ClipView>, stem: Seq<char>, pinned: bool) -> Seq<ClipView> {
    Seq::new(
        items.len(),
        |i: int|
            if items[i].stem == stem {
                ClipView { pinned, ..items[i] }
            } else {
                items[i]
            },
    )
}

// ---------------------------------------------------------------------- lemmas

pub proof fn lemma_inserted_members(items: Seq<ClipView>, clip: ClipView)
    ensures
        forall|s: Seq<char>|
            knows(ranking::inserted(items, clip), s) <==> (knows(items, s) || s == clip.stem),
        forall|h: Seq<char>|
            carries(ranking::inserted(items, clip), h) <==> (carries(items, h) || h == clip.hash),
        distinct_stems(items) && !knows(items, clip.stem) ==> distinct_stems(
            ranking::inserted(items, clip),
        ),
{
    ranking::lemma_position(items, clip.at);
    let k = ranking::position(items, clip.at);
    let more = ranking::inserted(items, clip);
    assert(more[k] == clip);
    assert forall|i: int| 0 <= i < items.len() implies more[if i < k {
        i
    } else {
        i + 1
    }] == #[trigger] items[i] by {}
    assert forall|s: Seq<char>| knows(more, s) <==> (knows(items, s) || s == clip.stem) by {
        if knows(more, s) {
            let j = choose|j: int| 0 <= j < more.len() && #[trigger] more[j].stem == s;
            if j < k {
                assert(items[j].stem == s);
            } else if j > k {
                assert(items[j - 1].stem == s);
            }
        }
        if knows(items, s) {
            let i = choose|i: int| 0 <= i < items.len() && #[trigger] items[i].stem == s;
            assert(more[if i < k {
                i
            } else {
                i + 1
            }].stem == s);
        }
    }
    assert forall|h: Seq<char>| carries(more, h) <==> (carries(items, h) || h == clip.hash) by {
        if carries(more, h) {
            let j = choose|j: int| 0 <= j < more.len() && #[trigger] more[j].hash == h;
            if j < k {
                assert(items[j].hash == h);
            } else if j > k {
                assert(items[j - 1].hash == h);
            }
        }
        if carries(items, h) {
            let i = choose|i: int| 0 <= i < items.len() && #[trigger] items[i].hash == h;
            assert(more[if i < k {
                i
            } else {
                i + 1
            }].hash == h);
        }
    }
    if distinct_stems(items) && !knows(items, clip.stem) {
        assert forall|i: int, j: int| 0 <= i < j < more.len() implies more[i].stem
            != more[j].stem by {
            if i == k {
                assert(more[j] == items[j - 1]);
            } else if j == k {
                assert(more[i] == items[i]);
            } else {
                let a = if i < k {
                    i
                } else {
                    i - 1
                };
                let b = if j < k {
                    j
                } else {
                    j - 1
                };
                assert(more[i] == items[a] && more[j] == items[b]);
            }
        }
    }
}

pub proof fn lemma_filter_push(s: Seq<ClipView>, i: int, keep: spec_fn(ClipView) -> bool)
    requires
        0 <= i < s.len(),
    ensures
        s.take(i + 1).filter(keep) == if keep(s[i]) {
            s.take(i).filter(keep).push(s[i])
        } else {
            s.take(i).filter(keep)
        },
{
    reveal(Seq::filter);
    assert(s.take(i + 1).drop_last() =~= s.take(i));
}

/// What a filter finds in a prefix is a prefix of what it finds in all.
proof fn lemma_filter_prefix(s: Seq<ClipView>, i: int, keep: spec_fn(ClipView) -> bool)
    requires
        0 <= i <= s.len(),
    ensures
        s.take(i).filter(keep).len() <= s.filter(keep).len(),
        s.filter(keep).take(s.take(i).filter(keep).len() as int) == s.take(i).filter(keep),
{
    assert(s =~= s.take(i) + s.skip(i));
    Seq::filter_distributes_over_add(s.take(i), s.skip(i), keep);
    assert(s.filter(keep).take(s.take(i).filter(keep).len() as int) =~= s.take(i).filter(keep));
}

/// Filtering keeps the order and finds exactly the members that pass.
pub proof fn lemma_filter_members(s: Seq<ClipView>, keep: spec_fn(ClipView) -> bool)
    ensures
        ranking::newest_first(s) ==> ranking::newest_first(s.filter(keep)),
        distinct_stems(s) ==> distinct_stems(s.filter(keep)),
        forall|x: ClipView|
            #[trigger] s.filter(keep).contains(x) <==> (s.contains(x) && keep(x)),
    decreases s.len(),
{
    reveal(Seq::filter);
    let out = s.filter(keep);
    if s.len() > 0 {
        let head = s.drop_last();
        let before = head.filter(keep);
        lemma_filter_members(head, keep);
        let x = s.last();
        assert forall|y: ClipView| #[trigger] out.contains(y) <==> (s.contains(y) && keep(y)) by {
            if s.contains(y) {
                let i = choose|i: int| 0 <= i < s.len() && s[i] == y;
                if i < head.len() {
                    assert(head[i] == y);
                    assert(head.contains(y));
                    if keep(y) {
                        assert(before.contains(y));
                        let k = choose|k: int| 0 <= k < before.len() && before[k] == y;
                        assert(out[k] == y);
                    }
                } else if keep(y) {
                    assert(out[before.len() as int] == y);
                }
            }
            if out.contains(y) {
                let k = choose|k: int| 0 <= k < out.len() && out[k] == y;
                if k < before.len() {
                    assert(before[k] == y);
                    assert(before.contains(y));
                    let i = choose|i: int| 0 <= i < head.len() && head[i] == y;
                    assert(s[i] == y);
                } else {
                    assert(s[s.len() - 1] == y);
                }
            }
        }
        if ranking::newest_first(s) {
            assert(ranking::newest_first(head));
            assert forall|i: int, j: int| 0 <= i < j < out.len() implies out[i].at >= out[j].at by {
                if j == before.len() {
                    assert(before.contains(before[i]));
                    let k = choose|k: int| 0 <= k < head.len() && head[k] == before[i];
                    assert(s[k].at >= s[s.len() - 1].at);
                }
            }
        }
        if distinct_stems(s) {
            assert(distinct_stems(head));
            assert forall|i: int, j: int| 0 <= i < j < out.len() implies out[i].stem
                != out[j].stem by {
                if j == before.len() {
                    assert(before.contains(before[i]));
                    let k = choose|k: int| 0 <= k < head.len() && head[k] == before[i];
                    assert(s[k].stem != s[s.len() - 1].stem);
                }
            }
        }
    }
}

/// In a list without repeated stems a stem finds its clip.
pub proof fn lemma_lookup(items: Seq<ClipView>, stem: Seq<char>)
    ensures
        lookup(items, stem) is Some <==> knows(items, stem),
        lookup(items, stem) matches Some(clip) ==> clip.stem == stem && items.contains(clip),
    decreases items.len(),
{
    if items.len() > 0 {
        if items[0].stem == stem {
            assert(items.contains(items[0]));
        } else {
            let rest = items.drop_first();
            lemma_lookup(rest, stem);
            if knows(items, stem) {
                let i = choose|i: int| 0 <= i < items.len() && #[trigger] items[i].stem == stem;
                assert(rest[i - 1].stem == stem);
            }
            if knows(rest, stem) {
                let i = choose|i: int| 0 <= i < rest.len() && #[trigger] rest[i].stem == stem;
                assert(items[i + 1].stem == stem);
                let clip = lookup(rest, stem)->0;
                let k = choose|k: int| 0 <= k < rest.len() && rest[k] == clip;
                assert(items[k + 1] == clip);
            }
        }
    }
}

// ------------------------------------------------------------------- the index

impl Default for Index {
    fn default() -> (r: Index)
        ensures
            r.wf(),
            r@.items == Seq::<ClipView>::empty(),
            r@.hidden == Set::<Seq<char>>::empty(),
    {
        let r = Index {
            items: Vec::new(),
            stems: StringHashSet::new(),
            hashes: StringHashSet::new(),
            hidden: StringHashSet::new(),
        };
        assert(r@.items =~= Seq::<ClipView>::empty());
        r
    }
}

impl Index {
    /// Newest first, no stem twice, and the two sets hold what the clips hold.
    pub closed spec fn wf(&self) -> bool {
        let items = ranking::item_views(self.items@);
        &&& ranking::newest_first(items)
        &&& distinct_stems(items)
        &&& stems_of(self.stems@, items)
        &&& hashes_of(self.hashes@, items)
    }

    /// What a well formed index says of its clips.
    pub proof fn lemma_wf(&self)
        requires
            self.wf(),
        ensures
            ranking::newest_first(self@.items),
            distinct_stems(self@.items),
    {
    }

    pub fn len(&self) -> (n: usize)
        ensures
            n == self@.items.len(),
    {
        self.items.len()
    }

    /// Whether this content is stored. An empty hash is no content.
    pub fn has_hash(&self, hash: &str) -> (r: bool)
        requires
            self.wf(),
        ensures
            r == (hash@.len() > 0 && carries(self@.items, hash@)),
    {
        self.hashes.contains(hash)
    }

    pub fn find(&self, stem: &str) -> (r: Option<&ClipItem>)
        ensures
            r is Some <==> lookup(self@.items, stem@) is Some,
            r matches Some(found) ==> lookup(self@.items, stem@) == Some(found@),
    {
        let ghost items = self@.items;
        let mut i: usize = 0;
        assert(items.skip(0) =~= items);
        while i < self.items.len()
            invariant
                i <= self.items@.len(),
                items == ranking::item_views(self.items@),
                lookup(items.skip(i as int), stem@) == lookup(items, stem@),
            decreases self.items@.len() - i,
        {
            assert(items.skip(i as int)[0] == self.items@[i as int]@);
            assert(items.skip(i as int).drop_first() =~= items.skip(i as int + 1));
            if text::same_text(&self.items[i].stem, stem) {
                return Some(&self.items[i]);
            }
            i += 1;
        }
        None
    }

    /// Returns false when the stem was already known.
    pub fn insert(&mut self, clip: ClipItem) -> (fresh: bool)
        requires
            old(self).wf(),
        ensures
            final(self).wf(),
            final(self)@.items == added(old(self)@.items, clip@),
            final(self)@.hidden == old(self)@.hidden,
            fresh == !knows(old(self)@.items, clip@.stem),
    {
        let ghost before = self@.items;
        proof {
            lemma_inserted_members(before, clip@);
            ranking::lemma_inserted_sorted(before, clip@);
        }
        if !self.stems.insert(clip.stem.clone()) {
            assert(self.stems@ =~= old(self).stems@);
            return false;
        }
        if !clip.hash.as_str().is_empty() {
            self.hashes.insert(clip.hash.clone());
        }
        let k = ranking::place_for(&self.items, clip.at);
        self.items.insert(k, clip);
        assert(ranking::item_views(self.items@) =~= ranking::inserted(before, clip@));
        true
    }

    /// Adds a batch the way `insert` adds one item, in a single merge rather than
    /// one shift per row. This is the load path: a month of history is thousands
    /// of rows, and each `insert` moves everything after its position.
    ///
    /// The batch does not have to be sorted; stems already known are skipped.
    pub fn insert_many(&mut self, items: Vec<ClipItem>)
        requires
            old(self).wf(),
        ensures
            final(self).wf(),
            final(self)@.items == added_all(old(self)@.items, ranking::item_views(items@)),
            final(self)@.hidden == old(self)@.hidden,
    {
        let ghost known = self@.items;
        let ghost all = ranking::item_views(items@);
        let n = items.len();
        let mut rest = ranking::reversed(items);
        let mut batch: Vec<ClipItem> = Vec::new();
        let mut i: usize = 0;
        let ghost fresh = Seq::<ClipView>::empty();
        assert(ranking::item_views(batch@) =~= fresh);
        assert(all.take(0) =~= Seq::<ClipView>::empty());
        while rest.len() > 0
            invariant
                i + rest@.len() == all.len() == n,
                forall|j: int| 0 <= j < rest@.len() ==> #[trigger] rest@[j]@ == all[all.len() - 1 - j],
                known == ranking::item_views(self.items@),
                self.items@ == old(self).items@,
                self.hidden@ == old(self).hidden@,
                ranking::newest_first(known),
                fresh == ranking::item_views(batch@),
                added_all(known, all.take(i as int)) == ranking::inserted_all(known, fresh),
                distinct_stems(ranking::inserted_all(known, fresh)),
                stems_of(self.stems@, ranking::inserted_all(known, fresh)),
                hashes_of(self.hashes@, ranking::inserted_all(known, fresh)),
            decreases rest@.len(),
        {
            let ghost so_far = ranking::inserted_all(known, fresh);
            let ghost last = rest@.len() - 1;
            assert(rest@[last]@ == all[i as int]);
            let ghost upto = all.take(i as int + 1);
            assert(upto.drop_last() =~= all.take(i as int));
            assert(upto.last() == all[i as int]);
            i += 1;
            if let Some(clip) = rest.pop() {
                proof {
                    lemma_inserted_members(so_far, clip@);
                }
                if self.stems.insert(clip.stem.clone()) {
                    if !clip.hash.as_str().is_empty() {
                        self.hashes.insert(clip.hash.clone());
                    }
                    batch.push(clip);
                    proof {
                        let more = fresh.push(clip@);
                        assert(more.drop_last() =~= fresh);
                        fresh = more;
                        assert(ranking::item_views(batch@) =~= fresh);
                    }
                }
            }
        }
        assert(all.take(i as int) =~= all);
        if batch.len() == 0 {
            assert(fresh =~= Seq::<ClipView>::empty());
            return ;
        }
        let mut existing: Vec<ClipItem> = Vec::new();
        std::mem::swap(&mut existing, &mut self.items);
        proof {
            ranking::lemma_inserted_all_is_merge(known, fresh);
            ranking::lemma_inserted_all_sorted(known, fresh);
        }
        self.items = ranking::merge(ranking::ranked(batch), existing);
    }

    /// Takes the clips out that are not marked to stay, and with them their stems
    /// and the content no other clip still has.
    fn retain(&mut self, keep: Vec<bool>, Ghost(stays): Ghost<spec_fn(ClipView) -> bool>)
        requires
            old(self).wf(),
            keep@.len() == old(self)@.items.len(),
            forall|i: int| 0 <= i < keep@.len() ==> keep@[i] == stays(old(self)@.items[i]),
        ensures
            final(self).wf(),
            final(self)@.items == old(self)@.items.filter(stays),
            final(self)@.hidden == old(self)@.hidden,
    {
        let ghost all = self@.items;
        let mut taken: Vec<ClipItem> = Vec::new();
        std::mem::swap(&mut taken, &mut self.items);
        let mut rest = ranking::reversed(taken);
        let mut kept: Vec<ClipItem> = Vec::new();
        let mut dropped: Vec<String> = Vec::new();
        let mut i: usize = 0;
        proof {
            reveal(Seq::filter);
            assert(all.take(0) =~= Seq::<ClipView>::empty());
            assert(ranking::item_views(kept@) =~= all.take(0).filter(stays));
        }
        while rest.len() > 0
            invariant
                i + rest@.len() == all.len() == keep.len(),
                distinct_stems(all),
                forall|j: int| 0 <= j < rest@.len() ==> #[trigger] rest@[j]@ == all[all.len() - 1 - j],
                forall|j: int| 0 <= j < keep@.len() ==> keep@[j] == stays(all[j]),
                ranking::item_views(kept@) == all.take(i as int).filter(stays),
                forall|s: Seq<char>|
                    self.stems@.contains(s) <==> exists|j: int|
                        0 <= j < all.len() && #[trigger] all[j].stem == s && (j >= i || keep@[j]),
                forall|j: int|
                    0 <= j < i && !keep@[j] && (#[trigger] all[j]).hash.len() > 0 ==> text::views(
                        dropped@,
                    ).contains(all[j].hash),
                self.hashes@ == old(self).hashes@,
                self.hidden@ == old(self).hidden@,
            decreases rest@.len(),
        {
            let ghost last = rest@.len() - 1;
            assert(rest@[last]@ == all[i as int]);
            proof {
                lemma_filter_push(all, i as int, stays);
            }
            let ghost before = self.stems@;
            let ghost dropped_before = dropped@;
            if let Some(clip) = rest.pop() {
                if keep[i] {
                    let ghost kept_before = kept@;
                    kept.push(clip);
                    assert(ranking::item_views(kept@) =~= ranking::item_views(kept_before).push(
                        all[i as int],
                    ));
                } else {
                    self.stems.remove(&clip.stem);
                    if !clip.hash.as_str().is_empty() {
                        dropped.push(clip.hash);
                    }
                    proof {
                        assert forall|h: Seq<char>| text::views(dropped_before).contains(
                            h,
                        ) implies text::views(dropped@).contains(h) by {
                            let k = choose|k: int|
                                0 <= k < text::views(dropped_before).len() && text::views(
                                    dropped_before,
                                )[k] == h;
                            assert(text::views(dropped@)[k] == h);
                        }
                        if all[i as int].hash.len() > 0 {
                            assert(text::views(dropped@)[dropped_before.len() as int]
                                == all[i as int].hash);
                        }
                    }
                }
            }
            proof {
                assert forall|s: Seq<char>| self.stems@.contains(s) <==> exists|j: int|
                    0 <= j < all.len() && #[trigger] all[j].stem == s && (j >= i + 1 || keep@[j]) by {
                    if self.stems@.contains(s) {
                        let j = choose|j: int|
                            0 <= j < all.len() && #[trigger] all[j].stem == s && (j >= i
                                || keep@[j]);
                        assert(all[j].stem == s && (j >= i + 1 || keep@[j]));
                    }
                    if exists|j: int|
                        0 <= j < all.len() && #[trigger] all[j].stem == s && (j >= i + 1
                            || keep@[j]) {
                        let j = choose|j: int|
                            0 <= j < all.len() && #[trigger] all[j].stem == s && (j >= i + 1
                                || keep@[j]);
                        assert(j >= i || keep@[j]);
                        assert(before.contains(s));
                        if !keep@[i as int] {
                            assert(j != i);
                            assert(all[j].stem != all[i as int].stem);
                        }
                    }
                }
            }
            i += 1;
        }
        assert(all.take(i as int) =~= all);
        self.items = kept;
        let ghost stay = all.filter(stays);
        proof {
            lemma_filter_members(all, stays);
            assert(ranking::item_views(self.items@) == stay);
            assert forall|s: Seq<char>| self.stems@.contains(s) <==> knows(stay, s) by {
                if self.stems@.contains(s) {
                    let j = choose|j: int|
                        0 <= j < all.len() && #[trigger] all[j].stem == s && (j >= i || keep@[j]);
                    assert(all.contains(all[j]));
                    assert(stay.contains(all[j]));
                    let k = choose|k: int| 0 <= k < stay.len() && stay[k] == all[j];
                    assert(stay[k].stem == s);
                }
                if knows(stay, s) {
                    let k = choose|k: int| 0 <= k < stay.len() && #[trigger] stay[k].stem == s;
                    assert(stay.contains(stay[k]));
                    let j = choose|j: int| 0 <= j < all.len() && all[j] == stay[k];
                    assert(all[j].stem == s && keep@[j]);
                }
            }
        }
        self.forget_hashes(&dropped);
        proof {
            assert forall|h: Seq<char>| self.hashes@.contains(h) <==> (h.len() > 0 && carries(
                stay,
                h,
            )) by {
                if old(self).hashes@.contains(h) && !carries(stay, h) {
                    let j = choose|j: int| 0 <= j < all.len() && #[trigger] all[j].hash == h;
                    if keep@[j] {
                        assert(all.contains(all[j]));
                        assert(stay.contains(all[j]));
                        let k = choose|k: int| 0 <= k < stay.len() && stay[k] == all[j];
                        assert(stay[k].hash == h);
                    }
                    assert(text::views(dropped@).contains(h));
                }
                if carries(stay, h) {
                    let k = choose|k: int| 0 <= k < stay.len() && #[trigger] stay[k].hash == h;
                    assert(stay.contains(stay[k]));
                    let j = choose|j: int| 0 <= j < all.len() && all[j] == stay[k];
                    assert(all[j].hash == h);
                    assert(carries(all, h));
                }
            }
        }
    }

    /// Takes a batch of hashes out of the set, except the ones another clip still
    /// carries: the same content can legitimately have been stored by two machines.
    fn forget_hashes(&mut self, dropped: &Vec<String>)
        ensures
            final(self).items@ == old(self).items@,
            final(self).stems@ == old(self).stems@,
            final(self).hidden@ == old(self).hidden@,
            final(self).hashes@ == spared(
                old(self).hashes@,
                text::views(dropped@),
                ranking::item_views(old(self).items@),
            ),
    {
        let ghost items = ranking::item_views(self.items@);
        let ghost gone = text::views(dropped@);
        let mut k: usize = 0;
        assert(self.hashes@ =~= spared(self.hashes@, gone.take(0), items));
        while k < dropped.len()
            invariant
                k <= dropped@.len(),
                gone == text::views(dropped@),
                items == ranking::item_views(self.items@),
                self.items@ == old(self).items@,
                self.stems@ == old(self).stems@,
                self.hidden@ == old(self).hidden@,
                self.hashes@ == spared(old(self).hashes@, gone.take(k as int), items),
            decreases dropped@.len() - k,
        {
            let ghost here = gone[k as int];
            let ghost before = self.hashes@;
            let mut carried = false;
            let mut i: usize = 0;
            while i < self.items.len() && !carried
                invariant
                    i <= self.items@.len(),
                    k < dropped@.len(),
                    here == dropped@[k as int]@,
                    items == ranking::item_views(self.items@),
                    carried ==> carries(items, here),
                    !carried ==> forall|j: int| 0 <= j < i ==> items[j].hash != here,
                decreases self.items@.len() - i,
            {
                if text::same_text(&self.items[i].hash, &dropped[k]) {
                    carried = true;
                    assert(items[i as int].hash == here);
                } else {
                    assert(items[i as int].hash != here);
                }
                i += 1;
            }
            if !carried {
                self.hashes.remove(&dropped[k]);
            }
            proof {
                text::lemma_take_contains(gone, k as int);
                assert(self.hashes@ =~= spared(
                    old(self).hashes@,
                    gone.take(k as int + 1),
                    items,
                ));
            }
            k += 1;
        }
        assert(gone.take(k as int) =~= gone);
    }

    /// Drops a batch by stem. Retention removes its clips in a burst, and one scan
    /// of the whole index per stem is quadratic.
    pub fn forget_many(&mut self, stems: &StemSet)
        requires
            old(self).wf(),
            stems.wf(),
        ensures
            final(self).wf(),
            final(self)@.items == old(self)@.items.filter(not_in(stems@)),
            final(self)@.hidden == old(self)@.hidden.difference(stems@),
    {
        let mut keep: Vec<bool> = Vec::new();
        let mut i: usize = 0;
        while i < self.items.len()
            invariant
                i <= self.items@.len(),
                keep@.len() == i,
                *self == *old(self),
                forall|j: int|
                    0 <= j < i ==> #[trigger] keep@[j] == not_in(stems@)(
                        ranking::item_views(self.items@)[j],
                    ),
            decreases self.items@.len() - i,
        {
            assert(ranking::item_views(self.items@)[i as int] == self.items@[i as int]@);
            keep.push(!stems.contains(&self.items[i].stem));
            i += 1;
        }
        self.retain(keep, Ghost(not_in(stems@)));
        let mut k: usize = 0;
        let ghost before = self.hidden@;
        let ghost gone = stems.order();
        assert(self.hidden@ =~= before.difference(gone.take(0).to_set()));
        while k < stems.len()
            invariant
                k <= gone.len(),
                gone == stems.order(),
                self.wf(),
                self@.items == old(self)@.items.filter(not_in(stems@)),
                self.hidden@ == before.difference(gone.take(k as int).to_set()),
            decreases gone.len() - k,
        {
            self.hidden.remove(stems.get(k));
            proof {
                text::lemma_take_contains(gone, k as int);
                assert(self.hidden@ =~= before.difference(gone.take(k as int + 1).to_set()));
            }
            k += 1;
        }
        proof {
            stems.lemma_order();
            assert(gone.take(k as int) =~= gone);
            assert(self.hidden@ =~= before.difference(stems@));
        }
    }

    /// Drops every entry that came out of one container. Used when a database
    /// changed (its rows are re-read from scratch) or disappeared.
    ///
    /// One pass over the index: this runs again for every change to a database.
    pub fn forget_db(&mut self, db_path: &str)
        requires
            old(self).wf(),
        ensures
            final(self).wf(),
            final(self)@.items == old(self)@.items.filter(not_from(db_path@)),
            final(self)@.hidden == old(self)@.hidden,
    {
        let mut keep: Vec<bool> = Vec::new();
        let mut i: usize = 0;
        while i < self.items.len()
            invariant
                i <= self.items@.len(),
                keep@.len() == i,
                *self == *old(self),
                forall|j: int|
                    0 <= j < i ==> #[trigger] keep@[j] == not_from(db_path@)(
                        ranking::item_views(self.items@)[j],
                    ),
            decreases self.items@.len() - i,
        {
            assert(ranking::item_views(self.items@)[i as int] == self.items@[i as int]@);
            keep.push(!paths::same_path(&self.items[i].db_path, db_path));
            i += 1;
        }
        self.retain(keep, Ghost(not_from(db_path@)));
    }

    pub fn set_pinned(&mut self, stem: &str, pinned: bool) -> (r: bool)
        requires
            old(self).wf(),
        ensures
            final(self).wf(),
            final(self)@.items == repinned(old(self)@.items, stem@, pinned),
            final(self)@.hidden == old(self)@.hidden,
            r == knows(old(self)@.items, stem@),
    {
        let ghost before = self@.items;
        let mut i: usize = 0;
        while i < self.items.len()
            invariant
                i <= self.items@.len(),
                *self == *old(self),
                before == self@.items,
                self.wf(),
                forall|j: int| 0 <= j < i ==> before[j].stem != stem@,
            decreases self.items@.len() - i,
        {
            if text::same_text(&self.items[i].stem, stem) {
                assert(before[i as int].stem == stem@);
                self.items[i].pinned = pinned;
                proof {
                    let after = ranking::item_views(self.items@);
                    assert(after =~= repinned(before, stem@, pinned));
                    lemma_same_clips(before, after);
                }
                return true;
            }
            assert(before[i as int].stem != stem@);
            i += 1;
        }
        assert(repinned(before, stem@, pinned) =~= before);
        false
    }

    /// Re-applies the authoritative pin set gathered by a full folder walk.
    pub fn apply_pin_state(&mut self, pins: &StemSet)
        requires
            old(self).wf(),
        ensures
            final(self).wf(),
            final(self)@.items == pinned_by(old(self)@.items, pins@),
            final(self)@.hidden == old(self)@.hidden,
    {
        let ghost before = self@.items;
        let mut i: usize = 0;
        while i < self.items.len()
            invariant
                i <= self.items@.len(),
                self.items@.len() == before.len(),
                self.stems@ == old(self).stems@,
                self.hashes@ == old(self).hashes@,
                self.hidden@ == old(self).hidden@,
                forall|j: int|
                    0 <= j < i ==> #[trigger] self.items@[j]@ == pinned_by(before, pins@)[j],
                forall|j: int| i <= j < before.len() ==> #[trigger] self.items@[j]@ == before[j],
            decreases self.items@.len() - i,
        {
            let ghost clip = self.items@[i as int]@;
            assert(clip == before[i as int]);
            let pinned = pins.contains(&self.items[i].stem);
            self.items[i].pinned = pinned;
            assert(self.items@[i as int]@ =~= pinned_by(before, pins@)[i as int]);
            i += 1;
        }
        proof {
            let after = ranking::item_views(self.items@);
            assert(after =~= pinned_by(before, pins@));
            lemma_same_clips(before, after);
        }
    }

    /// Re-applies the authoritative tombstone set gathered by a full folder walk.
    pub fn apply_hidden_state(&mut self, hidden: &StemSet)
        requires
            old(self).wf(),
            hidden.wf(),
        ensures
            final(self).wf(),
            final(self)@.items == old(self)@.items,
            final(self)@.hidden == hidden@,
    {
        self.hidden = StringHashSet::new();
        assert(self.hidden@.union(hidden@) =~= hidden@);
        self.hide_many(hidden);
    }

    /// Hides a batch at once, after its tombstones were written.
    pub fn hide_many(&mut self, stems: &StemSet)
        requires
            old(self).wf(),
            stems.wf(),
        ensures
            final(self).wf(),
            final(self)@.items == old(self)@.items,
            final(self)@.hidden == old(self)@.hidden.union(stems@),
    {
        let ghost before = self.hidden@;
        let ghost more = stems.order();
        let mut k: usize = 0;
        assert(self.hidden@ =~= before.union(more.take(0).to_set()));
        while k < stems.len()
            invariant
                k <= more.len(),
                more == stems.order(),
                self.wf(),
                self@.items == old(self)@.items,
                self.hidden@ == before.union(more.take(k as int).to_set()),
            decreases more.len() - k,
        {
            self.hidden.insert(stems.get(k).clone());
            proof {
                text::lemma_take_contains(more, k as int);
                assert(self.hidden@ =~= before.union(more.take(k as int + 1).to_set()));
            }
            k += 1;
        }
        proof {
            stems.lemma_order();
            assert(more.take(k as int) =~= more);
            assert(self.hidden@ =~= before.union(stems@));
        }
    }

    /// A tombstone appeared or went away.
    pub fn set_hidden(&mut self, stem: &str, hidden: bool)
        requires
            old(self).wf(),
        ensures
            final(self).wf(),
            final(self)@.items == old(self)@.items,
            final(self)@.hidden == if hidden {
                old(self)@.hidden.insert(stem@)
            } else {
                old(self)@.hidden.remove(stem@)
            },
    {
        if hidden {
            self.hidden.insert(stem.to_owned());
        } else {
            self.hidden.remove(stem);
        }
    }

    /// Every instance that has a clip here, newest activity first. One pass: the
    /// items are already sorted by time, so the first clip seen for an instance
    /// is its newest.
    pub fn machines(&self) -> (out: Vec<(String, i64)>)
        ensures
            machine_views(out@) == active(self@.items),
    {
        let ghost items = self@.items;
        let mut out: Vec<(String, i64)> = Vec::new();
        let mut i: usize = 0;
        assert(machine_views(out@) =~= active(items.take(0)));
        while i < self.items.len()
            invariant
                i <= self.items@.len(),
                items == ranking::item_views(self.items@),
                machine_views(out@) == active(items.take(i as int)),
            decreases self.items@.len() - i,
        {
            let ghost upto = items.take(i as int + 1);
            let ghost before = out@;
            proof {
                assert(upto.drop_last() =~= items.take(i as int));
                assert(upto.last() == self.items@[i as int]@);
            }
            let mut k: usize = 0;
            let mut seen = false;
            while k < out.len() && !seen
                invariant
                    k <= out@.len(),
                    i < self.items@.len(),
                    seen ==> lists(machine_views(out@), self.items@[i as int]@.machine),
                    !seen ==> forall|j: int|
                        0 <= j < k ==> machine_views(out@)[j].0 != self.items@[i as int]@.machine,
                decreases out@.len() - k,
            {
                assert(machine_views(out@)[k as int].0 == out@[k as int].0@);
                if text::same_text(&out[k].0, &self.items[i].machine) {
                    seen = true;
                }
                k += 1;
            }
            if !seen {
                out.push((self.items[i].machine.clone(), self.items[i].at));
                assert(machine_views(out@) =~= machine_views(before).push(
                    (upto.last().machine, upto.last().at),
                ));
            }
            i += 1;
        }
        assert(items.take(i as int) =~= items);
        out
    }

    /// Clips eligible for retention: this machine's own, old enough, not pinned.
    pub fn stale_clips(&self, cutoff_ms: i64, local_machine: &str) -> (out: Vec<ClipItem>)
        ensures
            ranking::item_views(out@) == self@.items.filter(stale(cutoff_ms, local_machine@)),
    {
        let ghost items = self@.items;
        let ghost keep = stale(cutoff_ms, local_machine@);
        let mut out: Vec<ClipItem> = Vec::new();
        let mut i: usize = 0;
        proof {
            reveal(Seq::filter);
            assert(ranking::item_views(out@) =~= items.take(0).filter(keep));
        }
        while i < self.items.len()
            invariant
                i <= self.items@.len(),
                items == ranking::item_views(self.items@),
                keep == stale(cutoff_ms, local_machine@),
                ranking::item_views(out@) == items.take(i as int).filter(keep),
            decreases self.items@.len() - i,
        {
            proof {
                lemma_filter_push(items, i as int, keep);
            }
            let ghost before = out@;
            let clip = &self.items[i];
            if clip.at < cutoff_ms && !clip.pinned && text::same_text(
                &clip.machine,
                local_machine,
            ) {
                out.push(clip.clone());
                assert(ranking::item_views(out@) =~= ranking::item_views(before).push(
                    items[i as int],
                ));
            }
            i += 1;
        }
        assert(items.take(i as int) =~= items);
        out
    }

    /// Tombstoned clips that are this machine's own to take out.
    pub fn hidden_clips(&self, local_machine: &str) -> (out: Vec<ClipItem>)
        ensures
            ranking::item_views(out@) == self@.items.filter(
                asked_gone(self@.hidden, local_machine@),
            ),
    {
        let ghost items = self@.items;
        let ghost keep = asked_gone(self@.hidden, local_machine@);
        let mut out: Vec<ClipItem> = Vec::new();
        let mut i: usize = 0;
        proof {
            reveal(Seq::filter);
            assert(ranking::item_views(out@) =~= items.take(0).filter(keep));
        }
        while i < self.items.len()
            invariant
                i <= self.items@.len(),
                items == ranking::item_views(self.items@),
                keep == asked_gone(self.hidden@, local_machine@),
                ranking::item_views(out@) == items.take(i as int).filter(keep),
            decreases self.items@.len() - i,
        {
            proof {
                lemma_filter_push(items, i as int, keep);
            }
            let ghost before = out@;
            let clip = &self.items[i];
            if self.hidden.contains(&clip.stem) && text::same_text(&clip.machine, local_machine) {
                out.push(clip.clone());
                assert(ranking::item_views(out@) =~= ranking::item_views(before).push(
                    items[i as int],
                ));
            }
            i += 1;
        }
        assert(items.take(i as int) =~= items);
        out
    }

    /// Every clip without a tombstone, newest first.
    pub fn visible_items(&self) -> (out: Vec<ClipItem>)
        ensures
            ranking::item_views(out@) == self@.items.filter(not_in(self@.hidden)),
    {
        let ghost items = self@.items;
        let ghost keep = not_in(self@.hidden);
        let mut out: Vec<ClipItem> = Vec::new();
        let mut i: usize = 0;
        proof {
            reveal(Seq::filter);
            assert(ranking::item_views(out@) =~= items.take(0).filter(keep));
        }
        while i < self.items.len()
            invariant
                i <= self.items@.len(),
                items == ranking::item_views(self.items@),
                keep == not_in(self.hidden@),
                ranking::item_views(out@) == items.take(i as int).filter(keep),
            decreases self.items@.len() - i,
        {
            proof {
                lemma_filter_push(items, i as int, keep);
            }
            let ghost before = out@;
            let clip = &self.items[i];
            if !self.hidden.contains(&clip.stem) {
                out.push(clip.clone());
                assert(ranking::item_views(out@) =~= ranking::item_views(before).push(
                    items[i as int],
                ));
            }
            i += 1;
        }
        assert(items.take(i as int) =~= items);
        out
    }

    /// Whether one clip belongs on the list.
    fn shown(
        &self,
        i: usize,
        machine: Option<&str>,
        terms: &Option<Vec<Term>>,
        pinned: bool,
        Ghost(needle): Ghost<Option<Seq<char>>>,
    ) -> (r: bool)
        requires
            i < self@.items.len(),
            terms is Some <==> needle is Some,
            terms matches Some(list) ==> filter::term_views(list@) == filter::terms_of(needle->0),
        ensures
            r == wanted(
                self@.hidden,
                match machine {
                    Some(id) => Some(id@),
                    None => None,
                },
                needle,
                pinned,
            )(self@.items[i as int]),
    {
        let clip = &self.items[i];
        if clip.pinned != pinned || self.hidden.contains(&clip.stem) {
            return false;
        }
        if let Some(id) = machine {
            if !text::same_text(&clip.machine, id) {
                return false;
            }
        }
        match terms {
            Some(list) => filter::matches(clip, list),
            None => true,
        }
    }

    /// Pinned rows first, then newest first. Two passes rather than a sort. The
    /// needle is already in lower case.
    pub fn query(&self, machine: Option<&str>, needle: Option<&str>, limit: usize) -> (out: Vec<
        ClipSummary,
    >)
        ensures
            row_views(out@) == first_rows(
                listing(
                    self@,
                    match machine {
                        Some(id) => Some(id@),
                        None => None,
                    },
                    match needle {
                        Some(words) => Some(words@),
                        None => None,
                    },
                ),
                limit as nat,
            ),
    {
        let ghost id = match machine {
            Some(id) => Some(id@),
            None => None,
        };
        let ghost asked = match needle {
            Some(words) => Some(words@),
            None => None,
        };
        let ghost items = self@.items;
        let ghost pinned = items.filter(wanted(self@.hidden, id, asked, true));
        let ghost loose = items.filter(wanted(self@.hidden, id, asked, false));
        let terms: Option<Vec<Term>> = match needle {
            Some(words) => Some(filter::terms(words)),
            None => None,
        };
        let mut out: Vec<ClipSummary> = Vec::new();
        let mut i: usize = 0;
        proof {
            reveal(Seq::filter);
            assert(row_views(out@) =~= rows_of(
                items.take(0).filter(wanted(self@.hidden, id, asked, true)),
            ));
        }
        while i < self.items.len()
            invariant
                i <= items.len(),
                items == ranking::item_views(self.items@),
                items == self@.items,
                asked is Some <==> terms is Some,
                terms matches Some(list) ==> filter::term_views(list@) == filter::terms_of(
                    asked->0,
                ),
                id == (match machine {
                    Some(id) => Some(id@),
                    None => None,
                }),
                pinned == items.filter(wanted(self@.hidden, id, asked, true)),
                loose == items.filter(wanted(self@.hidden, id, asked, false)),
                row_views(out@) == rows_of(
                    items.take(i as int).filter(wanted(self@.hidden, id, asked, true)),
                ),
                out@.len() == 0 || out@.len() < limit,
                needle is Some <==> asked is Some,
                needle matches Some(words) ==> asked == Some(words@),
            decreases items.len() - i,
        {
            let ghost keep = wanted(self@.hidden, id, asked, true);
            let ghost before = out@;
            proof {
                lemma_filter_push(items, i as int, keep);
                lemma_filter_prefix(items, i as int + 1, keep);
            }
            if self.shown(i, machine, &terms, true, Ghost(asked)) {
                out.push(self.items[i].summary());
                proof {
                    let found = items.take(i as int + 1).filter(keep);
                    let row = item::row_of(items[i as int]);
                    assert(row_views(out@) =~= row_views(before).push(row));
                    assert(rows_of(found) =~= rows_of(items.take(i as int).filter(keep)).push(row));
                    assert(row_views(out@) =~= rows_of(found));
                    if out@.len() >= limit {
                        assert(listing(self@, id, asked).take(out@.len() as int) =~= rows_of(
                            found,
                        )) by {
                            assert(pinned.take(found.len() as int) == found);
                            assert forall|j: int| 0 <= j < found.len() implies (pinned
                                + loose)[j] == found[j] by {
                                assert(pinned.take(found.len() as int)[j] == pinned[j]);
                            }
                        }
                        assert(listing(self@, id, asked).len() == pinned.len() + loose.len());
                        if listing(self@, id, asked).len() == out@.len() {
                            assert(listing(self@, id, asked).take(out@.len() as int)
                                =~= listing(self@, id, asked));
                        }
                    }
                }
                if out.len() >= limit {
                    return out;
                }
            }
            i += 1;
        }
        assert(items.take(i as int) =~= items);
        let ghost first = row_views(out@);
        i = 0;
        proof {
            reveal(Seq::filter);
            assert(row_views(out@) =~= first + rows_of(
                items.take(0).filter(wanted(self@.hidden, id, asked, false)),
            ));
        }
        while i < self.items.len()
            invariant
                i <= items.len(),
                items == ranking::item_views(self.items@),
                items == self@.items,
                asked is Some <==> terms is Some,
                terms matches Some(list) ==> filter::term_views(list@) == filter::terms_of(
                    asked->0,
                ),
                id == (match machine {
                    Some(id) => Some(id@),
                    None => None,
                }),
                pinned == items.filter(wanted(self@.hidden, id, asked, true)),
                loose == items.filter(wanted(self@.hidden, id, asked, false)),
                first == rows_of(pinned),
                row_views(out@) == first + rows_of(
                    items.take(i as int).filter(wanted(self@.hidden, id, asked, false)),
                ),
                out@.len() == 0 || out@.len() < limit,
                needle is Some <==> asked is Some,
                needle matches Some(words) ==> asked == Some(words@),
            decreases items.len() - i,
        {
            let ghost keep = wanted(self@.hidden, id, asked, false);
            let ghost before = out@;
            proof {
                lemma_filter_push(items, i as int, keep);
                lemma_filter_prefix(items, i as int + 1, keep);
            }
            if self.shown(i, machine, &terms, false, Ghost(asked)) {
                out.push(self.items[i].summary());
                proof {
                    let found = items.take(i as int + 1).filter(keep);
                    let row = item::row_of(items[i as int]);
                    assert(row_views(out@) =~= row_views(before).push(row));
                    assert(rows_of(found) =~= rows_of(items.take(i as int).filter(keep)).push(row));
                    assert(row_views(out@) =~= first + rows_of(found));
                    if out@.len() >= limit {
                        assert(listing(self@, id, asked).take(out@.len() as int) =~= first
                            + rows_of(found)) by {
                            assert(loose.take(found.len() as int) == found);
                            assert forall|j: int| 0 <= j < found.len() implies loose[j]
                                == found[j] by {
                                assert(loose.take(found.len() as int)[j] == loose[j]);
                            }
                        }
                        assert(listing(self@, id, asked).len() == pinned.len() + loose.len());
                        if listing(self@, id, asked).len() == out@.len() {
                            assert(listing(self@, id, asked).take(out@.len() as int)
                                =~= listing(self@, id, asked));
                        }
                    }
                }
                if out.len() >= limit {
                    return out;
                }
            }
            i += 1;
        }
        proof {
            assert(items.take(i as int) =~= items);
            assert(row_views(out@) =~= listing(self@, id, asked));
        }
        out
    }
}

/// Two lists whose clips differ in their pins at most.
proof fn lemma_same_clips(a: Seq<ClipView>, b: Seq<ClipView>)
    requires
        a.len() == b.len(),
        forall|i: int|
            0 <= i < a.len() ==> (#[trigger] a[i]).stem == b[i].stem && a[i].hash == b[i].hash
                && a[i].at == b[i].at,
    ensures
        ranking::newest_first(a) ==> ranking::newest_first(b),
        distinct_stems(a) ==> distinct_stems(b),
        forall|s: Seq<char>| knows(a, s) <==> knows(b, s),
        forall|h: Seq<char>| carries(a, h) <==> carries(b, h),
{
    assert forall|s: Seq<char>| knows(a, s) <==> knows(b, s) by {
        if knows(a, s) {
            let i = choose|i: int| 0 <= i < a.len() && #[trigger] a[i].stem == s;
            assert(b[i].stem == s);
        }
        if knows(b, s) {
            let i = choose|i: int| 0 <= i < b.len() && #[trigger] b[i].stem == s;
            assert(a[i].stem == s);
        }
    }
    assert forall|h: Seq<char>| carries(a, h) <==> carries(b, h) by {
        if carries(a, h) {
            let i = choose|i: int| 0 <= i < a.len() && #[trigger] a[i].hash == h;
            assert(b[i].hash == h);
        }
        if carries(b, h) {
            let i = choose|i: int| 0 <= i < b.len() && #[trigger] b[i].hash == h;
            assert(a[i].hash == h);
        }
    }
    if ranking::newest_first(a) {
        assert forall|i: int, j: int| 0 <= i < j < b.len() implies b[i].at >= b[j].at by {
            assert(a[i].at >= a[j].at);
        }
    }
    if distinct_stems(a) {
        assert forall|i: int, j: int| 0 <= i < j < b.len() implies b[i].stem != b[j].stem by {
            assert(a[i].stem != a[j].stem);
        }
    }
}

} // verus!
