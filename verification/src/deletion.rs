//! What may be deleted, what a cleanup would delete, and what deleting a clip
//! takes with it.

use vstd::hash_set::StringHashSet;
use vstd::prelude::*;

use crate::clip::ClipKind;
use crate::index;
use crate::item;
use crate::item::{ClipItem, ClipView};
use crate::paths;
use crate::ranking;
use crate::text;

verus! {

pub const DAY_MS: i64 = 86_400_000;

// -------------------------------------------------------------- whose row it is

/// The name of the folder a database is in, which is its month.
pub open spec fn month_in(db_path: Seq<char>) -> Option<Seq<char>> {
    match paths::parent_of(db_path) {
        Some(folder) => paths::file_name_of(folder),
        None => None,
    }
}

pub fn month_of(db_path: &str) -> (r: Option<String>)
    ensures
        text::opt_view(r) == month_in(db_path@),
{
    match paths::parent(db_path) {
        Some(folder) => paths::file_name(&folder),
        None => None,
    }
}

/// Whether a row is ours to delete: this machine's own, or one sitting in a month
/// that is over. Months are named `yyyy-MM`, so comparing two of them as strings
/// is comparing them as dates, and a month that has not started yet belongs to
/// that other machine just as much as the current one does.
pub open spec fn ours(local_machine: Seq<char>, current_month: Seq<char>) -> spec_fn(
    ClipView,
) -> bool {
    |clip: ClipView|
        clip.machine == local_machine || (month_in(clip.db_path) matches Some(month)
            && text::text_less(month, current_month))
}

pub open spec fn not_ours(local_machine: Seq<char>, current_month: Seq<char>) -> spec_fn(
    ClipView,
) -> bool {
    |clip: ClipView| !ours(local_machine, current_month)(clip)
}

/// A row whose database has no month folder to read is left alone rather than
/// guessed at; the layout does not produce one.
pub fn deletable(clip: &ClipItem, local_machine: &str, current_month: &str) -> (r: bool)
    ensures
        r == ours(local_machine@, current_month@)(clip@),
{
    if text::same_text(&clip.machine, local_machine) {
        return true;
    }
    match month_of(&clip.db_path) {
        Some(month) => text::less(&month, current_month),
        None => false,
    }
}

/// Parts a list by flags that say what a predicate says.
fn part(items: Vec<ClipItem>, flags: Vec<bool>, Ghost(yes): Ghost<spec_fn(ClipView) -> bool>, Ghost(
    no,
): Ghost<spec_fn(ClipView) -> bool>) -> (r: (Vec<ClipItem>, Vec<ClipItem>))
    requires
        flags@.len() == items@.len(),
        forall|i: int| 0 <= i < items@.len() ==> #[trigger] flags@[i] == yes(items@[i]@),
        forall|i: int| 0 <= i < items@.len() ==> #[trigger] flags@[i] == !no(items@[i]@),
    ensures
        ranking::item_views(r.0@) == ranking::item_views(items@).filter(yes),
        ranking::item_views(r.1@) == ranking::item_views(items@).filter(no),
{
    let ghost all = ranking::item_views(items@);
    let mut rest = ranking::reversed(items);
    let mut kept: Vec<ClipItem> = Vec::new();
    let mut others: Vec<ClipItem> = Vec::new();
    let mut i: usize = 0;
    proof {
        reveal(Seq::filter);
        assert(ranking::item_views(kept@) =~= all.take(0).filter(yes));
        assert(ranking::item_views(others@) =~= all.take(0).filter(no));
    }
    while rest.len() > 0
        invariant
            i + rest@.len() == all.len() == flags.len(),
            forall|j: int| 0 <= j < rest@.len() ==> #[trigger] rest@[j]@ == all[all.len() - 1 - j],
            forall|j: int| 0 <= j < all.len() ==> #[trigger] flags@[j] == yes(all[j]),
            forall|j: int| 0 <= j < all.len() ==> #[trigger] flags@[j] == !no(all[j]),
            ranking::item_views(kept@) == all.take(i as int).filter(yes),
            ranking::item_views(others@) == all.take(i as int).filter(no),
        decreases rest@.len(),
    {
        assert(rest@[rest@.len() - 1]@ == all[i as int]);
        proof {
            index::lemma_filter_push(all, i as int, yes);
            index::lemma_filter_push(all, i as int, no);
        }
        let ghost kept_before = kept@;
        let ghost others_before = others@;
        if let Some(clip) = rest.pop() {
            if flags[i] {
                kept.push(clip);
                assert(ranking::item_views(kept@) =~= ranking::item_views(kept_before).push(
                    all[i as int],
                ));
            } else {
                others.push(clip);
                assert(ranking::item_views(others@) =~= ranking::item_views(others_before).push(
                    all[i as int],
                ));
            }
        }
        i += 1;
    }
    assert(all.take(i as int) =~= all);
    (kept, others)
}

/// Parts clips into those to take out at once and those that can only be marked.
pub fn split(items: Vec<ClipItem>, local_machine: &str, current_month: &str) -> (r: (
    Vec<ClipItem>,
    Vec<ClipItem>,
))
    ensures
        ranking::item_views(r.0@) == ranking::item_views(items@).filter(
            ours(local_machine@, current_month@),
        ),
        ranking::item_views(r.1@) == ranking::item_views(items@).filter(
            not_ours(local_machine@, current_month@),
        ),
{
    let mut flags: Vec<bool> = Vec::new();
    let mut i: usize = 0;
    while i < items.len()
        invariant
            i <= items@.len(),
            flags@.len() == i,
            forall|j: int|
                0 <= j < i ==> #[trigger] flags@[j] == ours(local_machine@, current_month@)(
                    items@[j]@,
                ),
        decreases items@.len() - i,
    {
        flags.push(deletable(&items[i], local_machine, current_month));
        i += 1;
    }
    part(
        items,
        flags,
        Ghost(ours(local_machine@, current_month@)),
        Ghost(not_ours(local_machine@, current_month@)),
    )
}

// ------------------------------------------------------------- what a row takes

/// Everything that goes with a batch of clips: the rows of every database
/// involved, and then the files beside them.
#[derive(Debug)]
pub struct Deletion {
    /// Each database with the stems to delete from it, in one transaction.
    pub rows: Vec<(String, Vec<String>)>,
    /// The files go even when the row could not: an orphaned blob costs disk, a
    /// row pointing at a missing blob is a broken entry, so rows first.
    pub files: Vec<String>,
}

pub type Group = (Seq<char>, Seq<Seq<char>>);

pub open spec fn group_views(rows: Seq<(String, Vec<String>)>) -> Seq<Group> {
    Seq::new(rows.len(), |i: int| (rows[i].0@, text::views(rows[i].1@)))
}

/// The groups with one more stem, in the group of its database.
pub open spec fn grouped(groups: Seq<Group>, db_path: Seq<char>, stem: Seq<char>) -> Seq<Group>
    decreases groups.len(),
{
    if groups.len() == 0 {
        seq![(db_path, seq![stem])]
    } else if paths::model(groups[0].0) == paths::model(db_path) {
        seq![(groups[0].0, groups[0].1.push(stem))] + groups.drop_first()
    } else {
        seq![groups[0]] + grouped(groups.drop_first(), db_path, stem)
    }
}

/// The stems of a batch by database, each database once.
pub open spec fn rows_by_db(items: Seq<ClipView>) -> Seq<Group>
    decreases items.len(),
{
    if items.len() == 0 {
        Seq::empty()
    } else {
        grouped(rows_by_db(items.drop_last()), items.last().db_path, items.last().stem)
    }
}

/// The blob if there is one, the pin and the tombstone: a tombstone has done its
/// job the moment the row is gone.
pub open spec fn files_beside(clip: ClipView) -> Seq<Seq<char>> {
    (if clip.has_blob && clip.blob_path.len() > 0 {
        seq![clip.blob_path]
    } else {
        Seq::empty()
    }) + seq![
        item::marker_path(clip.db_path, clip.stem, item::PIN_SUFFIX@),
        item::marker_path(clip.db_path, clip.stem, item::HIDDEN_SUFFIX@),
    ]
}

pub open spec fn files_of(items: Seq<ClipView>) -> Seq<Seq<char>>
    decreases items.len(),
{
    if items.len() == 0 {
        Seq::empty()
    } else {
        files_of(items.drop_last()) + files_beside(items.last())
    }
}

fn add_to_group(rows: &mut Vec<(String, Vec<String>)>, db_path: &str, stem: &str)
    ensures
        group_views(final(rows)@) == grouped(group_views(old(rows)@), db_path@, stem@),
{
    let ghost all = group_views(rows@);
    let mut i: usize = 0;
    assert(all.skip(0) =~= all);
    assert(all.take(0) + grouped(all.skip(0), db_path@, stem@) =~= grouped(all, db_path@, stem@));
    while i < rows.len()
        invariant
            i <= rows@.len(),
            *rows == *old(rows),
            all == group_views(rows@),
            all.take(i as int) + grouped(all.skip(i as int), db_path@, stem@) == grouped(
                all,
                db_path@,
                stem@,
            ),
        decreases rows@.len() - i,
    {
        let ghost rest = all.skip(i as int);
        assert(rest[0] == all[i as int]);
        assert(rest.drop_first() =~= all.skip(i as int + 1));
        if paths::same_path(&rows[i].0, db_path) {
            let key = rows[i].0.clone();
            let mut list = crate::clip::copy_list(&rows[i].1);
            let ghost before = text::views(list@);
            list.push(stem.to_owned());
            assert(text::views(list@) =~= before.push(stem@));
            rows.set(i, (key, list));
            proof {
                assert(group_views(rows@) =~= all.take(i as int) + grouped(rest, db_path@, stem@));
            }
            return ;
        }
        proof {
            let a = all.take(i as int);
            let b = grouped(rest.drop_first(), db_path@, stem@);
            assert(all.take(i as int + 1) =~= a.push(all[i as int]));
            assert(a + (seq![all[i as int]] + b) =~= a.push(all[i as int]) + b);
        }
        i += 1;
    }
    proof {
        assert(all.skip(i as int) =~= Seq::empty());
        assert(all.take(i as int) =~= all);
    }
    let mut list: Vec<String> = Vec::new();
    list.push(stem.to_owned());
    assert(text::views(list@) =~= seq![stem@]);
    rows.push((db_path.to_owned(), list));
    assert(group_views(rows@) =~= grouped(all, db_path@, stem@));
}

/// Works out what deleting a batch of clips means on disk: one transaction per
/// database instead of a commit per row, and one file open instead of one per
/// clip.
pub fn delete_clips(items: &Vec<ClipItem>) -> (r: Deletion)
    ensures
        group_views(r.rows@) == rows_by_db(ranking::item_views(items@)),
        text::views(r.files@) == files_of(ranking::item_views(items@)),
{
    let ghost all = ranking::item_views(items@);
    let mut rows: Vec<(String, Vec<String>)> = Vec::new();
    let mut files: Vec<String> = Vec::new();
    let mut i: usize = 0;
    assert(group_views(rows@) =~= rows_by_db(all.take(0)));
    assert(text::views(files@) =~= files_of(all.take(0)));
    while i < items.len()
        invariant
            i <= items@.len(),
            all == ranking::item_views(items@),
            group_views(rows@) == rows_by_db(all.take(i as int)),
            text::views(files@) == files_of(all.take(i as int)),
        decreases items@.len() - i,
    {
        let ghost upto = all.take(i as int + 1);
        let ghost before = text::views(files@);
        proof {
            assert(upto.drop_last() =~= all.take(i as int));
            assert(upto.last() == items@[i as int]@);
        }
        let clip = &items[i];
        add_to_group(&mut rows, &clip.db_path, &clip.stem);
        if clip.has_blob && !clip.blob_path.as_str().is_empty() {
            files.push(clip.blob_path.clone());
        }
        files.push(clip.pin_path());
        files.push(clip.hidden_path());
        assert(text::views(files@) =~= before + files_beside(upto.last()));
        i += 1;
    }
    assert(all.take(i as int) =~= all);
    Deletion { rows, files }
}

// ----------------------------------------------------------------- heavy clips

/// Which heavy clips the `.bin` cleanup targets. "Heavy" means the payload has a
/// `.bin` sibling (every image and every text over the inline limit), which is
/// where the disk space actually goes. Short text and file lists never have
/// one, so a cleanup can never touch them.
///
/// Both scopes treat `0` as "everything".
#[derive(Clone, Copy, Debug, PartialEq, Eq, Structural)]
pub enum BinScope {
    /// Heavy clips captured before the last N days.
    OlderThanDays(u32),
    /// The N newest heavy clips stay; everything older goes.
    KeepNewest(u32),
}

/// What a `.bin` scan found. `doomed` holds only rows this machine may delete,
/// newest first; the skipped ones are counted, not listed.
#[derive(Debug)]
pub struct BinScan {
    pub doomed: Vec<ClipItem>,
    /// In range, but sitting in another instance's live month. A bulk cleanup
    /// does not reach into a folder another machine is writing, so these are
    /// left for their owner.
    pub skipped_live_month: usize,
    pub images: usize,
    pub overlong_texts: usize,
    /// The `.bin` bytes still on disk that deleting `doomed` would free.
    pub blob_bytes: u64,
}

/// A `.bin` scan together with the words its scope was asked under, so the
/// confirm dialog repeats what the user chose even if the radios moved while
/// the background scan ran.
#[derive(Debug)]
pub struct BinPreview {
    pub scan: BinScan,
    pub scope_line: String,
}

pub open spec fn loose_heavy() -> spec_fn(ClipView) -> bool {
    |clip: ClipView| clip.has_blob && !clip.pinned
}

pub open spec fn not_loose_heavy() -> spec_fn(ClipView) -> bool {
    |clip: ClipView| !loose_heavy()(clip)
}

pub open spec fn older_than(cutoff: int) -> spec_fn(ClipView) -> bool {
    |clip: ClipView| clip.at < cutoff
}

pub open spec fn not_older_than(cutoff: int) -> spec_fn(ClipView) -> bool {
    |clip: ClipView| !older_than(cutoff)(clip)
}

/// The heavy clips a scope reaches, of a list that is newest first.
pub open spec fn in_range(heavy: Seq<ClipView>, scope: BinScope, now: i64) -> Seq<ClipView> {
    match scope {
        BinScope::OlderThanDays(days) => if days == 0 {
            heavy
        } else {
            heavy.filter(older_than(now - days * DAY_MS))
        },
        BinScope::KeepNewest(keep) => if keep >= heavy.len() {
            Seq::empty()
        } else {
            heavy.skip(keep as int)
        },
    }
}

pub open spec fn is_image() -> spec_fn(ClipView) -> bool {
    |clip: ClipView| clip.kind == ClipKind::Image
}

/// What a scan of the visible clips reaches: everything heavy and not pinned that
/// the scope asks for.
pub open spec fn reached(visible: Seq<ClipView>, scope: BinScope, now: i64) -> Seq<ClipView> {
    in_range(visible.filter(loose_heavy()), scope, now)
}

/// The time a scope's days count back to can be told.
pub open spec fn tellable(scope: BinScope, now: i64) -> bool {
    scope matches BinScope::OlderThanDays(days) ==> now - days * DAY_MS >= i64::MIN
}

/// Counts up a `.bin` cleanup without deleting anything, from every visible clip
/// newest first. What the blobs take on disk is for `size_up` to add.
pub fn scan_bins(
    visible: Vec<ClipItem>,
    scope: BinScope,
    now: i64,
    local_machine: &str,
    month: &str,
) -> (r: BinScan)
    requires
        tellable(scope, now),
    ensures
        ranking::item_views(r.doomed@) == reached(
            ranking::item_views(visible@),
            scope,
            now,
        ).filter(ours(local_machine@, month@)),
        r.skipped_live_month == reached(
            ranking::item_views(visible@),
            scope,
            now,
        ).filter(not_ours(local_machine@, month@)).len(),
        r.images == ranking::item_views(r.doomed@).filter(is_image()).len(),
        r.overlong_texts == r.doomed@.len() - r.images,
        r.blob_bytes == 0,
{
    let mut flags: Vec<bool> = Vec::new();
    let mut i: usize = 0;
    while i < visible.len()
        invariant
            i <= visible@.len(),
            flags@.len() == i,
            forall|j: int| 0 <= j < i ==> #[trigger] flags@[j] == loose_heavy()(visible@[j]@),
        decreases visible@.len() - i,
    {
        flags.push(visible[i].has_blob && !visible[i].pinned);
        i += 1;
    }
    let (heavy, _rest) = part(visible, flags, Ghost(loose_heavy()), Ghost(not_loose_heavy()));
    let within = bins_in_range(heavy, scope, now);
    let (doomed, skipped) = split(within, local_machine, month);
    let mut images: usize = 0;
    let mut k: usize = 0;
    let ghost all = ranking::item_views(doomed@);
    proof {
        reveal(Seq::filter);
        assert(all.take(0).filter(is_image()).len() == 0);
    }
    while k < doomed.len()
        invariant
            k <= doomed@.len(),
            all == ranking::item_views(doomed@),
            images == all.take(k as int).filter(is_image()).len(),
            images <= k,
        decreases doomed@.len() - k,
    {
        proof {
            index::lemma_filter_push(all, k as int, is_image());
            assert(all[k as int] == doomed@[k as int]@);
        }
        match doomed[k].kind {
            ClipKind::Image => {
                images += 1;
            },
            _ => {},
        }
        k += 1;
    }
    assert(all.take(k as int) =~= all);
    let overlong_texts = doomed.len() - images;
    assert(ranking::item_views(skipped@).len() == skipped@.len());
    BinScan {
        doomed,
        skipped_live_month: skipped.len(),
        images,
        overlong_texts,
        blob_bytes: 0,
    }
}

fn bins_in_range(heavy: Vec<ClipItem>, scope: BinScope, now: i64) -> (r: Vec<ClipItem>)
    requires
        tellable(scope, now),
    ensures
        ranking::item_views(r@) == in_range(ranking::item_views(heavy@), scope, now),
{
    let ghost all = ranking::item_views(heavy@);
    match scope {
        BinScope::OlderThanDays(days) => {
            if days == 0 {
                return heavy;
            }
            let back: i64 = days as i64 * DAY_MS;
            let cutoff: i64 = now - back;
            let mut flags: Vec<bool> = Vec::new();
            let mut i: usize = 0;
            while i < heavy.len()
                invariant
                    i <= heavy@.len(),
                    flags@.len() == i,
                    forall|j: int|
                        0 <= j < i ==> #[trigger] flags@[j] == older_than(cutoff as int)(
                            heavy@[j]@,
                        ),
                decreases heavy@.len() - i,
            {
                flags.push(heavy[i].at < cutoff);
                i += 1;
            }
            let (within, _rest) = part(
                heavy,
                flags,
                Ghost(older_than(cutoff as int)),
                Ghost(not_older_than(cutoff as int)),
            );
            within
        },
        BinScope::KeepNewest(keep) => {
            let mut heavy = heavy;
            if keep as u64 >= heavy.len() as u64 {
                let none: Vec<ClipItem> = Vec::new();
                assert(ranking::item_views(none@) =~= Seq::<ClipView>::empty());
                return none;
            }
            let older = heavy.split_off(keep as usize);
            assert(ranking::item_views(older@) =~= all.skip(keep as int));
            older
        },
    }
}

/// What the files that are there take; one that is not there takes nothing.
pub open spec fn total(sizes: Seq<Option<u64>>) -> int
    decreases sizes.len(),
{
    if sizes.len() == 0 {
        0
    } else {
        total(sizes.drop_last()) + (match sizes.last() {
            Some(n) => n as int,
            None => 0,
        })
    }
}

proof fn lemma_total_grows(sizes: Seq<Option<u64>>, k: int)
    requires
        0 <= k <= sizes.len(),
    ensures
        0 <= total(sizes.take(k)) <= total(sizes),
    decreases sizes.len(),
{
    if k < sizes.len() {
        lemma_total_grows(sizes.drop_last(), k);
        assert(sizes.drop_last().take(k) =~= sizes.take(k));
    } else {
        assert(sizes.take(k) =~= sizes);
        if sizes.len() > 0 {
            lemma_total_grows(sizes.drop_last(), k - 1);
            assert(sizes.drop_last().take(k - 1) =~= sizes.drop_last());
        }
    }
}

/// Adds what is actually on disk to a scan; a blob the sync lost still counts as
/// a cleanup (it takes the broken row with it) but frees nothing.
pub fn size_up(scan: BinScan, sizes: &Vec<Option<u64>>) -> (r: BinScan)
    requires
        total(sizes@) <= u64::MAX,
    ensures
        r.doomed == scan.doomed,
        r.skipped_live_month == scan.skipped_live_month,
        r.images == scan.images,
        r.overlong_texts == scan.overlong_texts,
        r.blob_bytes == total(sizes@),
{
    let mut bytes: u64 = 0;
    let mut i: usize = 0;
    while i < sizes.len()
        invariant
            i <= sizes@.len(),
            total(sizes@) <= u64::MAX,
            bytes == total(sizes@.take(i as int)),
        decreases sizes@.len() - i,
    {
        proof {
            let upto = sizes@.take(i as int + 1);
            assert(upto.drop_last() =~= sizes@.take(i as int));
            lemma_total_grows(sizes@, i as int + 1);
        }
        if let Some(n) = sizes[i] {
            bytes = bytes + n;
        }
        i += 1;
    }
    assert(sizes@.take(i as int) =~= sizes@);
    BinScan {
        doomed: scan.doomed,
        skipped_live_month: scan.skipped_live_month,
        images: scan.images,
        overlong_texts: scan.overlong_texts,
        blob_bytes: bytes,
    }
}

// ------------------------------------------------------------------ duplicates

/// What a duplicate scan found. Only the copies that would go are listed; the
/// kept ones are counted.
#[derive(Debug)]
pub struct DupeScan {
    /// Older copies of texts that exist more than once, newest first.
    pub doomed: Vec<ClipItem>,
    /// Distinct texts that had more than one copy.
    pub groups: usize,
    /// Groups in which a pinned copy exists: those groups keep their pin
    /// beside the newest, so a cleanup can leave two copies of one text.
    pub groups_with_pin: usize,
}

pub open spec fn comparable() -> spec_fn(ClipView) -> bool {
    |clip: ClipView| clip.kind == ClipKind::Text && clip.hash.len() > 0
}

/// Whether a pinned copy is among these.
pub open spec fn has_pinned(texts: Seq<ClipView>, hash: Seq<char>) -> bool {
    exists|i: int| 0 <= i < texts.len() && #[trigger] texts[i].hash == hash && texts[i].pinned
}

/// The copies that go, of texts that stand newest first: those that are neither the
/// newest of their content nor pinned.
pub open spec fn superseded(texts: Seq<ClipView>) -> Seq<ClipView>
    decreases texts.len(),
{
    if texts.len() == 0 {
        Seq::empty()
    } else {
        let before = superseded(texts.drop_last());
        let clip = texts.last();
        if !clip.pinned && index::carries(texts.drop_last(), clip.hash) {
            before.push(clip)
        } else {
            before
        }
    }
}

/// The contents that occur more than once, each once.
pub open spec fn repeated(texts: Seq<ClipView>) -> Seq<Seq<char>>
    decreases texts.len(),
{
    if texts.len() == 0 {
        Seq::empty()
    } else {
        let before = repeated(texts.drop_last());
        let hash = texts.last().hash;
        if index::carries(texts.drop_last(), hash) && !before.contains(hash) {
            before.push(hash)
        } else {
            before
        }
    }
}

/// How many of the contents have a pinned copy.
pub open spec fn pinned_among(hashes: Seq<Seq<char>>, texts: Seq<ClipView>) -> nat
    decreases hashes.len(),
{
    if hashes.len() == 0 {
        0
    } else {
        pinned_among(hashes.drop_last(), texts) + if has_pinned(texts, hashes.last()) {
            1nat
        } else {
            0
        }
    }
}

proof fn lemma_last_member(texts: Seq<ClipView>, k: int)
    requires
        0 <= k < texts.len(),
    ensures
        forall|h: Seq<char>|
            #[trigger] index::carries(texts.take(k + 1), h) <==> (index::carries(texts.take(k), h)
                || texts[k].hash == h),
        forall|h: Seq<char>|
            #[trigger] has_pinned(texts.take(k + 1), h) <==> (has_pinned(texts.take(k), h) || (
            texts[k].hash == h && texts[k].pinned)),
{
    let a = texts.take(k);
    let b = texts.take(k + 1);
    assert(b[k] == texts[k]);
    assert forall|h: Seq<char>| #[trigger] index::carries(b, h) <==> (index::carries(a, h)
        || texts[k].hash == h) by {
        if index::carries(b, h) {
            let i = choose|i: int| 0 <= i < b.len() && #[trigger] b[i].hash == h;
            if i < k {
                assert(a[i].hash == h);
            }
        }
        if index::carries(a, h) {
            let i = choose|i: int| 0 <= i < a.len() && #[trigger] a[i].hash == h;
            assert(b[i].hash == h);
        }
    }
    assert forall|h: Seq<char>| #[trigger] has_pinned(b, h) <==> (has_pinned(a, h) || (texts[k].hash
        == h && texts[k].pinned)) by {
        if has_pinned(b, h) {
            let i = choose|i: int| 0 <= i < b.len() && #[trigger] b[i].hash == h && b[i].pinned;
            if i < k {
                assert(a[i].hash == h && a[i].pinned);
            }
        }
        if has_pinned(a, h) {
            let i = choose|i: int| 0 <= i < a.len() && #[trigger] a[i].hash == h && a[i].pinned;
            assert(b[i].hash == h && b[i].pinned);
        }
    }
}

/// Groups the visible text clips by content and lists every copy except the ones
/// each group keeps: the newest, plus any pinned copy. A pin is a promise that
/// this clip survives cleanup, and it does not get broken here.
///
/// Text only: images have no inline preview worth keeping and file lists dedupe
/// badly by exact path.
pub fn scan_dupes(visible: Vec<ClipItem>) -> (r: DupeScan)
    ensures
        ranking::item_views(r.doomed@) == superseded(
            ranking::item_views(visible@).filter(comparable()),
        ),
        r.groups == repeated(ranking::item_views(visible@).filter(comparable())).len(),
        r.groups_with_pin == pinned_among(
            repeated(ranking::item_views(visible@).filter(comparable())),
            ranking::item_views(visible@).filter(comparable()),
        ),
{
    let ghost all = ranking::item_views(visible@);
    let ghost texts = all.filter(comparable());
    let mut rest = ranking::reversed(visible);
    let mut doomed: Vec<ClipItem> = Vec::new();
    let mut seen = StringHashSet::new();
    let mut pinned = StringHashSet::new();
    let mut twice = StringHashSet::new();
    let mut repeats: Vec<String> = Vec::new();
    let mut i: usize = 0;
    let ghost so_far = all.take(0).filter(comparable());
    proof {
        reveal(Seq::filter);
        assert(so_far =~= Seq::<ClipView>::empty());
        assert(ranking::item_views(doomed@) =~= superseded(so_far));
        assert(text::views(repeats@) =~= repeated(so_far));
    }
    while rest.len() > 0
        invariant
            i + rest@.len() == all.len(),
            rest.len() + i <= usize::MAX,
            forall|j: int| 0 <= j < rest@.len() ==> #[trigger] rest@[j]@ == all[all.len() - 1 - j],
            so_far == all.take(i as int).filter(comparable()),
            ranking::item_views(doomed@) == superseded(so_far),
            text::views(repeats@) == repeated(so_far),
            forall|h: Seq<char>| #[trigger] seen@.contains(h) <==> index::carries(so_far, h),
            forall|h: Seq<char>| #[trigger] pinned@.contains(h) <==> has_pinned(so_far, h),
            forall|h: Seq<char>| #[trigger] twice@.contains(h) <==> repeated(so_far).contains(h),
        decreases rest@.len(),
    {
        let ghost clip_view = all[i as int];
        assert(rest@[rest@.len() - 1]@ == clip_view);
        proof {
            index::lemma_filter_push(all, i as int, comparable());
        }
        if let Some(clip) = rest.pop() {
            if clip.kind == ClipKind::Text && !clip.hash.as_str().is_empty() {
                let ghost before = so_far;
                let ghost doomed_before = doomed@;
                let ghost repeats_before = repeats@;
                proof {
                    so_far = before.push(clip_view);
                    assert(so_far.drop_last() =~= before);
                    assert(so_far.take(before.len() as int) =~= before);
                    assert(so_far.take(before.len() as int + 1) =~= so_far);
                    lemma_last_member(so_far, before.len() as int);
                }
                let again = seen.contains(&clip.hash);
                if again {
                    let first_time = twice.insert(clip.hash.clone());
                    if first_time {
                        repeats.push(clip.hash.clone());
                        assert(text::views(repeats@) =~= text::views(repeats_before).push(
                            clip_view.hash,
                        ));
                    }
                } else {
                    seen.insert(clip.hash.clone());
                }
                proof {
                    assert forall|h: Seq<char>| #[trigger] twice@.contains(h) <==> repeated(
                        so_far,
                    ).contains(h) by {
                        let a = repeated(before);
                        let b = repeated(so_far);
                        if a.contains(h) {
                            let j = choose|j: int| 0 <= j < a.len() && a[j] == h;
                            assert(b[j] == h);
                        }
                        if b.contains(h) {
                            let j = choose|j: int| 0 <= j < b.len() && b[j] == h;
                            if j < a.len() {
                                assert(a[j] == h);
                            }
                        }
                        if again && h == clip_view.hash && !a.contains(h) {
                            assert(b[a.len() as int] == h);
                        }
                    }
                }
                if clip.pinned {
                    pinned.insert(clip.hash.clone());
                } else if again {
                    doomed.push(clip);
                    assert(ranking::item_views(doomed@) =~= ranking::item_views(
                        doomed_before,
                    ).push(clip_view));
                }
            }
        }
        i += 1;
    }
    proof {
        assert(all.take(i as int) =~= all);
        assert(so_far == texts);
    }
    let mut with_pin: usize = 0;
    let mut k: usize = 0;
    let ghost hashes = repeated(texts);
    while k < repeats.len()
        invariant
            k <= repeats@.len(),
            hashes == text::views(repeats@),
            with_pin == pinned_among(hashes.take(k as int), texts),
            with_pin <= k,
            forall|h: Seq<char>| #[trigger] pinned@.contains(h) <==> has_pinned(texts, h),
        decreases repeats@.len() - k,
    {
        proof {
            let upto = hashes.take(k as int + 1);
            assert(upto.drop_last() =~= hashes.take(k as int));
            assert(upto.last() == repeats@[k as int]@);
        }
        if pinned.contains(&repeats[k]) {
            with_pin += 1;
        }
        k += 1;
    }
    assert(hashes.take(k as int) =~= hashes);
    assert(hashes.len() == repeats@.len());
    DupeScan { doomed, groups: repeats.len(), groups_with_pin: with_pin }
}

// --------------------------------------------------------------------- the laws

/// Whether a database has a group, and the stem is in it.
pub open spec fn group_has(groups: Seq<Group>, db_path: Seq<char>, stem: Seq<char>) -> bool {
    exists|g: int|
        0 <= g < groups.len() && paths::model((#[trigger] groups[g]).0) == paths::model(db_path)
            && groups[g].1.contains(stem)
}

/// Whether a batch has a clip with this stem in this database.
pub open spec fn batch_has(items: Seq<ClipView>, db_path: Seq<char>, stem: Seq<char>) -> bool {
    exists|k: int|
        0 <= k < items.len() && (#[trigger] items[k]).stem == stem && paths::model(
            items[k].db_path,
        ) == paths::model(db_path)
}

pub open spec fn one_group_each(groups: Seq<Group>) -> bool {
    forall|g: int, h: int|
        0 <= g < h < groups.len() ==> paths::model((#[trigger] groups[g]).0) != paths::model(
            (#[trigger] groups[h]).0,
        )
}

proof fn lemma_grouped(groups: Seq<Group>, db_path: Seq<char>, stem: Seq<char>)
    ensures
        forall|db: Seq<char>, s: Seq<char>| #[trigger]
            group_has(grouped(groups, db_path, stem), db, s) <==> group_has(groups, db, s) || (s
                == stem && paths::model(db) == paths::model(db_path)),
        forall|h: int|
            0 <= h < grouped(groups, db_path, stem).len() ==> paths::model(
                (#[trigger] grouped(groups, db_path, stem)[h]).0,
            ) == paths::model(db_path) || exists|g: int|
                0 <= g < groups.len() && (#[trigger] groups[g]).0 == grouped(
                    groups,
                    db_path,
                    stem,
                )[h].0,
        one_group_each(groups) ==> one_group_each(grouped(groups, db_path, stem)),
    decreases groups.len(),
{
    let out = grouped(groups, db_path, stem);
    if groups.len() == 0 {
        let list = seq![stem];
        assert(list[0] == stem);
        assert(list.contains(stem));
        assert forall|db: Seq<char>, s: Seq<char>| #[trigger]
            group_has(out, db, s) <==> group_has(groups, db, s) || (s == stem && paths::model(db)
                == paths::model(db_path)) by {
            if group_has(out, db, s) {
                let g = choose|g: int|
                    0 <= g < out.len() && paths::model((#[trigger] out[g]).0) == paths::model(db)
                        && out[g].1.contains(s);
                assert(out[g] == (db_path, list));
                let j = choose|j: int| 0 <= j < list.len() && list[j] == s;
            }
            if s == stem && paths::model(db) == paths::model(db_path) {
                assert(out[0].1.contains(s));
            }
        }
    } else if paths::model(groups[0].0) == paths::model(db_path) {
        let list = groups[0].1.push(stem);
        assert(out[0] == (groups[0].0, list));
        assert forall|g: int| 1 <= g < groups.len() implies out[g] == #[trigger] groups[g] by {}
        assert(list[groups[0].1.len() as int] == stem);
        assert forall|db: Seq<char>, s: Seq<char>| #[trigger]
            group_has(out, db, s) <==> group_has(groups, db, s) || (s == stem && paths::model(db)
                == paths::model(db_path)) by {
            if group_has(out, db, s) {
                let g = choose|g: int|
                    0 <= g < out.len() && paths::model((#[trigger] out[g]).0) == paths::model(db)
                        && out[g].1.contains(s);
                if g == 0 {
                    let j = choose|j: int| 0 <= j < list.len() && list[j] == s;
                    if j < groups[0].1.len() {
                        assert(groups[0].1[j] == s);
                        assert(groups[0].1.contains(s));
                    }
                } else {
                    assert(groups[g].1.contains(s));
                }
            }
            if group_has(groups, db, s) {
                let g = choose|g: int|
                    0 <= g < groups.len() && paths::model((#[trigger] groups[g]).0)
                        == paths::model(db) && groups[g].1.contains(s);
                if g == 0 {
                    let j = choose|j: int| 0 <= j < groups[0].1.len() && groups[0].1[j] == s;
                    assert(list[j] == s);
                    assert(out[0].1.contains(s));
                } else {
                    assert(out[g].1.contains(s));
                }
            }
            if s == stem && paths::model(db) == paths::model(db_path) {
                assert(out[0].1.contains(s));
            }
        }
    } else {
        let rest = groups.drop_first();
        let tail = grouped(rest, db_path, stem);
        lemma_grouped(rest, db_path, stem);
        assert(out =~= seq![groups[0]] + tail);
        assert forall|g: int| 0 <= g < tail.len() implies out[g + 1] == #[trigger] tail[g] by {}
        assert forall|g: int| 0 <= g < rest.len() implies groups[g + 1] == #[trigger] rest[g] by {}
        assert forall|db: Seq<char>, s: Seq<char>| #[trigger]
            group_has(out, db, s) <==> group_has(groups, db, s) || (s == stem && paths::model(db)
                == paths::model(db_path)) by {
            if group_has(out, db, s) {
                let g = choose|g: int|
                    0 <= g < out.len() && paths::model((#[trigger] out[g]).0) == paths::model(db)
                        && out[g].1.contains(s);
                if g == 0 {
                    assert(groups[0].1.contains(s));
                } else {
                    assert(tail[g - 1] == out[g]);
                    assert(group_has(tail, db, s));
                    if group_has(rest, db, s) {
                        let k = choose|k: int|
                            0 <= k < rest.len() && paths::model((#[trigger] rest[k]).0)
                                == paths::model(db) && rest[k].1.contains(s);
                        assert(groups[k + 1] == rest[k]);
                    }
                }
            }
            if group_has(groups, db, s) {
                let g = choose|g: int|
                    0 <= g < groups.len() && paths::model((#[trigger] groups[g]).0)
                        == paths::model(db) && groups[g].1.contains(s);
                if g == 0 {
                    assert(out[0] == groups[0]);
                } else {
                    assert(rest[g - 1] == groups[g]);
                    assert(group_has(rest, db, s));
                    assert(group_has(tail, db, s));
                }
            }
            if group_has(tail, db, s) {
                let k = choose|k: int|
                    0 <= k < tail.len() && paths::model((#[trigger] tail[k]).0) == paths::model(db)
                        && tail[k].1.contains(s);
                assert(out[k + 1] == tail[k]);
            }
        }
        assert forall|h: int| 0 <= h < out.len() implies paths::model((#[trigger] out[h]).0)
            == paths::model(db_path) || exists|g: int|
            0 <= g < groups.len() && (#[trigger] groups[g]).0 == out[h].0 by {
            if h == 0 {
                assert(groups[0].0 == out[0].0);
            } else {
                assert(tail[h - 1] == out[h]);
                if paths::model(out[h].0) != paths::model(db_path) {
                    let k = choose|k: int|
                        0 <= k < rest.len() && (#[trigger] rest[k]).0 == tail[h - 1].0;
                    assert(groups[k + 1] == rest[k]);
                }
            }
        }
        if one_group_each(groups) {
            assert forall|g: int, h: int| 0 <= g < h < rest.len() implies paths::model(
                (#[trigger] rest[g]).0,
            ) != paths::model((#[trigger] rest[h]).0) by {
                assert(groups[g + 1] == rest[g] && groups[h + 1] == rest[h]);
            }
            assert forall|g: int, h: int| 0 <= g < h < out.len() implies paths::model(
                (#[trigger] out[g]).0,
            ) != paths::model((#[trigger] out[h]).0) by {
                assert(tail[h - 1] == out[h]);
                if g == 0 {
                    assert(out[0] == groups[0]);
                    if paths::model(out[h].0) != paths::model(db_path) {
                        let k = choose|k: int|
                            0 <= k < rest.len() && (#[trigger] rest[k]).0 == tail[h - 1].0;
                        assert(groups[k + 1] == rest[k]);
                        assert(paths::model(groups[0].0) != paths::model(groups[k + 1].0));
                    }
                } else {
                    assert(tail[g - 1] == out[g]);
                }
            }
        }
    }
}

/// A batch is deleted row by row from where each row is: every clip has its stem in
/// the group of its own database, no group has a stem that no clip of the batch in
/// that database has, and no database has two groups.
pub proof fn law_every_row_is_deleted_where_it_is(items: Seq<ClipView>)
    ensures
        forall|db: Seq<char>, stem: Seq<char>| #[trigger]
            group_has(rows_by_db(items), db, stem) <==> batch_has(items, db, stem),
        one_group_each(rows_by_db(items)),
    decreases items.len(),
{
    if items.len() > 0 {
        let head = items.drop_last();
        let last = items.last();
        law_every_row_is_deleted_where_it_is(head);
        lemma_grouped(rows_by_db(head), last.db_path, last.stem);
        assert forall|db: Seq<char>, stem: Seq<char>| #[trigger]
            group_has(rows_by_db(items), db, stem) <==> batch_has(items, db, stem) by {
            assert(group_has(rows_by_db(head), db, stem) <==> batch_has(head, db, stem));
            if batch_has(head, db, stem) {
                let k = choose|k: int|
                    0 <= k < head.len() && (#[trigger] head[k]).stem == stem && paths::model(
                        head[k].db_path,
                    ) == paths::model(db);
                assert(items[k] == head[k]);
            }
            if batch_has(items, db, stem) {
                let k = choose|k: int|
                    0 <= k < items.len() && (#[trigger] items[k]).stem == stem && paths::model(
                        items[k].db_path,
                    ) == paths::model(db);
                if k < head.len() {
                    assert(head[k] == items[k]);
                }
            }
            if stem == last.stem && paths::model(db) == paths::model(last.db_path) {
                assert(items[items.len() - 1].stem == stem);
            }
        }
    } else {
        assert forall|db: Seq<char>, stem: Seq<char>| #[trigger]
            group_has(rows_by_db(items), db, stem) <==> batch_has(items, db, stem) by {}
    }
}

/// With a row go the files beside it, and no others: its blob where it has one, its
/// pin and its tombstone.
pub proof fn law_files_go_with_their_rows(items: Seq<ClipView>, file: Seq<char>)
    ensures
        files_of(items).contains(file) <==> exists|k: int|
            0 <= k < items.len() && ((#[trigger] items[k]).has_blob && items[k].blob_path.len() > 0
                && file == items[k].blob_path || file == item::marker_path(
                items[k].db_path,
                items[k].stem,
                ".pin"@,
            ) || file == item::marker_path(items[k].db_path, items[k].stem, ".del"@)),
    decreases items.len(),
{
    let goes = |k: int|
        items[k].has_blob && items[k].blob_path.len() > 0 && file == items[k].blob_path || file
            == item::marker_path(items[k].db_path, items[k].stem, ".pin"@) || file
            == item::marker_path(items[k].db_path, items[k].stem, ".del"@);
    if items.len() > 0 {
        let head = items.drop_last();
        let last = items.last();
        let n = items.len() - 1;
        let before = files_of(head);
        let beside = files_beside(last);
        let all = files_of(items);
        law_files_go_with_their_rows(head, file);
        assert(items[n] == last);
        assert(beside.contains(file) <==> goes(n)) by {
            let pin = item::marker_path(last.db_path, last.stem, ".pin"@);
            let del = item::marker_path(last.db_path, last.stem, ".del"@);
            if last.has_blob && last.blob_path.len() > 0 {
                assert(beside =~= seq![last.blob_path, pin, del]);
                assert(beside[0] == last.blob_path && beside[1] == pin && beside[2] == del);
            } else {
                assert(beside =~= seq![pin, del]);
                assert(beside[0] == pin && beside[1] == del);
            }
        }
        if all.contains(file) {
            let j = choose|j: int| 0 <= j < all.len() && all[j] == file;
            if j < before.len() {
                assert(before[j] == file);
                let k = choose|k: int|
                    0 <= k < head.len() && ((#[trigger] head[k]).has_blob
                        && head[k].blob_path.len() > 0 && file == head[k].blob_path || file
                        == item::marker_path(head[k].db_path, head[k].stem, ".pin"@) || file
                        == item::marker_path(head[k].db_path, head[k].stem, ".del"@));
                assert(items[k] == head[k]);
            } else {
                assert(beside[j - before.len()] == file);
                assert(goes(n));
            }
        }
        if exists|k: int| 0 <= k < items.len() && (#[trigger] items[k]).stem == items[k].stem && goes(k) {
            let k = choose|k: int|
                0 <= k < items.len() && (#[trigger] items[k]).stem == items[k].stem && goes(k);
            if k < n {
                assert(head[k] == items[k]);
                assert(before.contains(file));
                let j = choose|j: int| 0 <= j < before.len() && before[j] == file;
                assert(all[j] == file);
            } else {
                let j = choose|j: int| 0 <= j < beside.len() && beside[j] == file;
                assert(all[before.len() + j] == file);
            }
        }
    }
}

/// What is freed is what each file that is there takes, and a file that is not there
/// takes nothing.
pub proof fn law_sizes_add_up(before: Seq<Option<u64>>, n: u64)
    ensures
        total(Seq::empty()) == 0,
        total(before.push(Some(n))) == total(before) + n,
        total(before.push(None)) == total(before),
{
    assert(before.push(Some(n)).drop_last() =~= before);
    assert(before.push(None).drop_last() =~= before);
}

/// The groups with a pin are counted one by one.
pub proof fn law_groups_with_a_pin(hashes: Seq<Seq<char>>, texts: Seq<ClipView>)
    ensures
        pinned_among(hashes, texts) == hashes.filter(
            |hash: Seq<char>|
                exists|i: int|
                    0 <= i < texts.len() && (#[trigger] texts[i]).hash == hash && texts[i].pinned,
        ).len(),
    decreases hashes.len(),
{
    reveal(Seq::filter);
    if hashes.len() > 0 {
        law_groups_with_a_pin(hashes.drop_last(), texts);
    }
}

/// What the cleanups look at: a clip whose content is in a file and that is not
/// pinned; a text that has a content; and of the first, which are images.
pub proof fn law_what_a_cleanup_looks_at(clip: ClipView)
    ensures
        loose_heavy()(clip) <==> clip.has_blob && !clip.pinned,
        comparable()(clip) <==> clip.kind is Text && clip.hash.len() > 0,
        is_image()(clip) <==> clip.kind is Image,
{
}

/// A row may be deleted here when it is this machine's own, or when the folder of its
/// database is named before the current month; any other may not, and neither may one
/// whose folder has no name.
pub proof fn law_whose_row_it_is(clip: ClipView, local_machine: Seq<char>, month: Seq<char>)
    ensures
        clip.machine == local_machine ==> ours(local_machine, month)(clip),
        clip.machine != local_machine && month_in(clip.db_path) is None ==> !ours(
            local_machine,
            month,
        )(clip),
        clip.machine != local_machine && month_in(clip.db_path) is Some ==> (ours(
            local_machine,
            month,
        )(clip) <==> text::text_less(month_in(clip.db_path)->0, month)),
        month_in(clip.db_path) matches Some(name) ==> paths::parent_of(clip.db_path) is Some
            && paths::file_name_of(paths::parent_of(clip.db_path)->0) == Some(name),
        ours(local_machine, month)(clip) != not_ours(local_machine, month)(clip),
{
}

proof fn lemma_grouped_rows(groups: Seq<Group>, db_path: Seq<char>, stem: Seq<char>, h: int)
    requires
        0 <= h < grouped(groups, db_path, stem).len(),
        one_group_each(groups),
    ensures
        ({
            let g = grouped(groups, db_path, stem)[h];
            if paths::model(g.0) == paths::model(db_path) {
                ||| exists|k: int|
                    0 <= k < groups.len() && paths::model((#[trigger] groups[k]).0) == paths::model(
                        db_path,
                    ) && g == (groups[k].0, groups[k].1.push(stem))
                ||| g == (db_path, seq![stem]) && forall|k: int|
                    0 <= k < groups.len() ==> paths::model((#[trigger] groups[k]).0)
                        != paths::model(db_path)
            } else {
                groups.contains(g)
            }
        }),
    decreases groups.len(),
{
    if groups.len() > 0 {
        let rest = groups.drop_first();
        let all = grouped(groups, db_path, stem);
        assert forall|i: int| 0 <= i < rest.len() implies #[trigger] rest[i] == groups[i + 1] by {}
        assert(one_group_each(rest));
        if paths::model(groups[0].0) == paths::model(db_path) {
            if h == 0 {
                assert(all[0] == (groups[0].0, groups[0].1.push(stem)));
            } else {
                assert(all[h] == groups[h]);
                assert(groups[0].0 == groups[0].0);
                assert(paths::model(groups[0].0) != paths::model(groups[h].0));
            }
        } else {
            if h == 0 {
                assert(all[0] == groups[0]);
            } else {
                let more = grouped(rest, db_path, stem);
                assert(all[h] == more[h - 1]);
                lemma_grouped_rows(rest, db_path, stem, h - 1);
                let g = all[h];
                if paths::model(g.0) == paths::model(db_path) {
                    if exists|k: int|
                        0 <= k < rest.len() && paths::model((#[trigger] rest[k]).0) == paths::model(
                            db_path,
                        ) && g == (rest[k].0, rest[k].1.push(stem)) {
                        let k = choose|k: int|
                            0 <= k < rest.len() && paths::model((#[trigger] rest[k]).0)
                                == paths::model(db_path) && g == (rest[k].0, rest[k].1.push(stem));
                        assert(groups[k + 1] == rest[k]);
                    } else {
                        assert forall|k: int| 0 <= k < groups.len() implies paths::model(
                            (#[trigger] groups[k]).0,
                        ) != paths::model(db_path) by {
                            if k > 0 {
                                assert(rest[k - 1] == groups[k]);
                            }
                        }
                    }
                } else {
                    let k = choose|k: int| 0 <= k < rest.len() && rest[k] == g;
                    assert(groups[k + 1] == g);
                }
            }
        }
    }
}

/// The clips of a batch that are in a database.
pub open spec fn within(db_path: Seq<char>) -> spec_fn(ClipView) -> bool {
    |clip: ClipView| paths::model(clip.db_path) == paths::model(db_path)
}

/// Every group lists the stems of the batch's clips in its database, each once and in
/// the order of the batch, under the path one of them gives.
pub proof fn law_groups_keep_the_order(items: Seq<ClipView>, g: int)
    requires
        0 <= g < rows_by_db(items).len(),
    ensures
        ({
            let group = rows_by_db(items)[g];
            let mine = items.filter(within(group.0));
            &&& group.1.len() == mine.len()
            &&& forall|k: int| 0 <= k < mine.len() ==> #[trigger] group.1[k] == mine[k].stem
            &&& exists|k: int| 0 <= k < items.len() && (#[trigger] items[k]).db_path == group.0
        }),
    decreases items.len(),
{
    reveal(Seq::filter);
    let head = items.drop_last();
    let last = items.last();
    let before = rows_by_db(head);
    let group = rows_by_db(items)[g];
    law_every_row_is_deleted_where_it_is(head);
    lemma_grouped_rows(before, last.db_path, last.stem, g);
    let mine = items.filter(within(group.0));
    let earlier = head.filter(within(group.0));
    if paths::model(group.0) == paths::model(last.db_path) {
        assert(mine == earlier.push(last));
        if exists|k: int|
            0 <= k < before.len() && paths::model((#[trigger] before[k]).0) == paths::model(
                last.db_path,
            ) && group == (before[k].0, before[k].1.push(last.stem)) {
            let k = choose|k: int|
                0 <= k < before.len() && paths::model((#[trigger] before[k]).0) == paths::model(
                    last.db_path,
                ) && group == (before[k].0, before[k].1.push(last.stem));
            law_groups_keep_the_order(head, k);
            let j = choose|j: int|
                0 <= j < head.len() && (#[trigger] head[j]).db_path == before[k].0;
            assert(items[j].db_path == group.0);
        } else {
            assert(items[items.len() - 1].db_path == group.0);
            if earlier.len() > 0 {
                index::lemma_filter_members(head, within(group.0));
                assert(earlier.contains(earlier[0]));
                let j = choose|j: int| 0 <= j < head.len() && head[j] == earlier[0];
                assert(batch_has(head, last.db_path, head[j].stem));
                assert(group_has(before, last.db_path, head[j].stem));
                assert(false);
            }
        }
    } else {
        let k = choose|k: int| 0 <= k < before.len() && before[k] == group;
        assert(mine == earlier);
        law_groups_keep_the_order(head, k);
        let j = choose|j: int| 0 <= j < head.len() && (#[trigger] head[j]).db_path == group.0;
        assert(items[j].db_path == group.0);
    }
}

/// The files of a batch are those of its clips one after the other: of each clip the
/// blob where it has one, then the pin, then the tombstone.
pub proof fn law_files_in_order(items: Seq<ClipView>, more: Seq<ClipView>, clip: ClipView)
    ensures
        files_of(items + more) == files_of(items) + files_of(more),
        files_of(seq![clip]).len() == (if clip.has_blob && clip.blob_path.len() > 0 {
            3int
        } else {
            2
        }),
        files_of(seq![clip])[files_of(seq![clip]).len() - 2] == item::marker_path(
            clip.db_path,
            clip.stem,
            ".pin"@,
        ),
        files_of(seq![clip]).last() == item::marker_path(clip.db_path, clip.stem, ".del"@),
        clip.has_blob && clip.blob_path.len() > 0 ==> files_of(seq![clip])[0] == clip.blob_path,
    decreases more.len(),
{
    let one = seq![clip];
    reveal_with_fuel(files_of, 2);
    assert(files_of(one.drop_last()) == Seq::<Seq<char>>::empty());
    assert(files_of(one) =~= files_beside(clip));
    if more.len() == 0 {
        assert(items + more =~= items);
        assert(files_of(items) + files_of(more) =~= files_of(items));
    } else {
        let head = more.drop_last();
        law_files_in_order(items, head, clip);
        assert((items + more).drop_last() =~= items + head);
        assert((items + more).last() == more.last());
        assert(files_of(items + more) =~= files_of(items) + files_of(more));
    }
}

} // verus!
