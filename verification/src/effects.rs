//! What single operations do to the history, said of what goes in and what comes
//! out: rows and the clips they become, captures and what is written of them, markers,
//! deletions, and the strip of instances.

use vstd::prelude::*;

use crate::clip;
use crate::clip::{ClipKind, PayloadView, RecordView};
use crate::deletion;
use crate::filter;
use crate::index;
use crate::index::IndexView;
use crate::item::{ClipView, SummaryView};
use crate::laws;
use crate::paths;
use crate::ranking;
use crate::settings;
use crate::settings::SettingsView;
use crate::store;
use crate::store::{
    ContextView, FileKindView, LoadedRow, Row, SourceView, Stamp, StepView, TabView,
};
use crate::text;
use crate::win::SYSTEMTIME;

verus! {

// ------------------------------------------------------------------------- rows

/// Whether the columns of a row hold what a record has.
pub open spec fn row_holds(row: Row, record: RecordView) -> bool {
    &&& row.stem@ == record.id
    &&& row.at == record.at
    &&& row.machine@ == record.machine
    &&& row.kind@ == record.kind
    &&& row.hash@ == record.hash
    &&& match record.text {
        Some(s) => row.text is Some && row.text->0@ == s,
        None => row.text is None,
    }
    &&& row.length == record.length
    &&& match record.blob {
        Some(name) => row.blob is Some && row.blob->0@ == name,
        None => row.blob is None,
    }
    &&& row.app is Some && row.app->0@ == record.app
    &&& row.title is Some && row.title->0@ == record.title
}

/// A record that is written as a row and read back from that row is the same record;
/// and a row that leaves the window out reads as one without.
pub proof fn law_row_gives_its_record_back(row: Row, record: RecordView)
    ensures
        row_holds(row, record) ==> store::record_in(row) == record,
        row.app is None ==> store::record_in(row).app.len() == 0,
        row.title is None ==> store::record_in(row).title.len() == 0,
{
    if row_holds(row, record) {
        assert(store::record_in(row) =~= record);
    }
}

/// Every row that is loaded is a clip with what the row's columns say.
pub proof fn law_row_becomes_its_clip(
    rows: Seq<LoadedRow>,
    db_path: Seq<char>,
    local_machine: Seq<char>,
    now_year: u16,
    i: int,
)
    requires
        0 <= i < rows.len(),
    ensures
        store::clips_in(rows, db_path, local_machine, now_year).len() == rows.len(),
        ({
            let c = store::clips_in(rows, db_path, local_machine, now_year)[i];
            let row = rows[i].row;
            &&& c.stem == row.stem@
            &&& c.at == row.at
            &&& c.machine == row.machine@
            &&& c.hash == row.hash@
            &&& c.db_path == db_path
            &&& c.pinned == rows[i].pinned
            &&& c.kind is Image <==> row.kind@ == "image"@
            &&& c.kind is Files <==> row.kind@ == "files"@
            &&& row.text matches Some(s) ==> c.text == s@
            &&& row.text is None ==> c.text.len() == 0
            &&& c.has_blob <==> row.blob is Some
            &&& row.app matches Some(s) ==> c.app == s@
            &&& row.app is None ==> c.app.len() == 0
            &&& row.title matches Some(s) ==> c.title == s@
            &&& row.title is None ==> c.title.len() == 0
        }),
{
    let row = rows[i].row;
    clip::law_kinds_are_frozen(clip::kind_named(row.kind@), row.kind@);
}

/// A database that is read anew holds exactly what its rows say and leaves the others
/// alone: a stem is known when another database has it or a row does, and whatever is
/// there came from one or the other.
pub proof fn law_reload_is_exact(items: Seq<ClipView>, db_path: Seq<char>, fresh: Seq<ClipView>)
    ensures
        forall|stem: Seq<char>| #[trigger]
            index::knows(store::reloaded(items, db_path, fresh), stem) <==> index::knows(
                fresh,
                stem,
            ) || (exists|i: int|
                0 <= i < items.len() && (#[trigger] items[i]).stem == stem && paths::model(
                    items[i].db_path,
                ) != paths::model(db_path)),
        forall|clip: ClipView| #[trigger]
            store::reloaded(items, db_path, fresh).contains(clip) ==> fresh.contains(clip) || (
            items.contains(clip) && paths::model(clip.db_path) != paths::model(db_path)),
{
    let kept = items.filter(index::not_from(db_path));
    index::lemma_filter_members(items, index::not_from(db_path));
    law_batch_is_taken_in(kept, fresh);
    assert forall|stem: Seq<char>| #[trigger] index::knows(kept, stem) <==> (exists|i: int|
        0 <= i < items.len() && (#[trigger] items[i]).stem == stem && paths::model(
            items[i].db_path,
        ) != paths::model(db_path)) by {
        if index::knows(kept, stem) {
            let k = choose|k: int| 0 <= k < kept.len() && #[trigger] kept[k].stem == stem;
            assert(kept.contains(kept[k]));
            let i = choose|i: int| 0 <= i < items.len() && items[i] == kept[k];
            assert(items[i].stem == stem);
        }
        if exists|i: int|
            0 <= i < items.len() && (#[trigger] items[i]).stem == stem && paths::model(
                items[i].db_path,
            ) != paths::model(db_path) {
            let i = choose|i: int|
                0 <= i < items.len() && (#[trigger] items[i]).stem == stem && paths::model(
                    items[i].db_path,
                ) != paths::model(db_path);
            assert(items.contains(items[i]));
            assert(kept.contains(items[i]));
            let k = choose|k: int| 0 <= k < kept.len() && kept[k] == items[i];
            assert(kept[k].stem == stem);
        }
    }
    assert forall|clip: ClipView| #[trigger]
        store::reloaded(items, db_path, fresh).contains(clip) implies fresh.contains(clip) || (
    items.contains(clip) && paths::model(clip.db_path) != paths::model(db_path)) by {
        assert(index::added_all(kept, fresh).contains(clip));
    }
}

/// Taking a batch in adds its stems and takes none away; whatever is there afterwards
/// was there or is of the batch, and what was there stays as it was.
pub proof fn law_batch_is_taken_in(items: Seq<ClipView>, batch: Seq<ClipView>)
    ensures
        forall|stem: Seq<char>| #[trigger]
            index::knows(index::added_all(items, batch), stem) <==> index::knows(items, stem)
                || index::knows(batch, stem),
        forall|clip: ClipView| #[trigger]
            index::added_all(items, batch).contains(clip) ==> items.contains(clip)
                || batch.contains(clip),
        forall|clip: ClipView|
            items.contains(clip) ==> #[trigger] index::added_all(items, batch).contains(clip),
    decreases batch.len(),
{
    let all = index::added_all(items, batch);
    if batch.len() > 0 {
        let head = batch.drop_last();
        let last = batch.last();
        let before = index::added_all(items, head);
        law_batch_is_taken_in(items, head);
        index::lemma_inserted_members(before, last);
        ranking::lemma_position(before, last.at);
        let k = ranking::position(before, last.at);
        let more = ranking::inserted(before, last);
        assert forall|stem: Seq<char>| #[trigger]
            index::knows(batch, stem) <==> index::knows(head, stem) || stem == last.stem by {
            if index::knows(batch, stem) {
                let i = choose|i: int| 0 <= i < batch.len() && #[trigger] batch[i].stem == stem;
                if i < head.len() {
                    assert(head[i].stem == stem);
                }
            }
            if index::knows(head, stem) {
                let i = choose|i: int| 0 <= i < head.len() && #[trigger] head[i].stem == stem;
                assert(batch[i].stem == stem);
            }
            assert(batch[batch.len() - 1].stem == last.stem);
        }
        assert forall|stem: Seq<char>| #[trigger]
            index::knows(all, stem) <==> index::knows(items, stem) || index::knows(batch, stem) by {
            assert(index::knows(before, stem) <==> index::knows(items, stem) || index::knows(
                head,
                stem,
            ));
            assert(index::knows(more, stem) <==> (index::knows(before, stem) || stem
                == last.stem));
        }
        assert forall|clip: ClipView| #[trigger] all.contains(clip) implies items.contains(clip)
            || batch.contains(clip) by {
            let j = choose|j: int| 0 <= j < all.len() && all[j] == clip;
            if index::knows(before, last.stem) {
                assert(before.contains(clip));
            } else if j == k {
                assert(batch[batch.len() - 1] == clip);
            } else {
                assert(before[if j < k {
                    j
                } else {
                    j - 1
                }] == clip);
                assert(before.contains(clip));
            }
            if head.contains(clip) {
                let i = choose|i: int| 0 <= i < head.len() && head[i] == clip;
                assert(batch[i] == clip);
            }
        }
        assert forall|clip: ClipView| items.contains(clip) implies #[trigger] all.contains(clip) by {
            assert(before.contains(clip));
            if !index::knows(before, last.stem) {
                let i = choose|i: int| 0 <= i < before.len() && before[i] == clip;
                assert(more[if i < k {
                    i
                } else {
                    i + 1
                }] == clip);
            }
        }
    } else {
        assert forall|stem: Seq<char>| !#[trigger] index::knows(batch, stem) by {}
    }
}

/// A clip is put right before the first that is not newer: everything newer stays
/// before it, and everything else after.
pub proof fn law_where_a_clip_goes(items: Seq<ClipView>, clip: ClipView)
    requires
        ranking::newest_first(items),
        !index::knows(items, clip.stem),
    ensures
        exists|k: int|
            0 <= k <= items.len() && index::added(items, clip) == #[trigger] items.insert(k, clip)
                && (forall|i: int| 0 <= i < k ==> (#[trigger] items[i]).at > clip.at) && (forall|
                i: int,
            | k <= i < items.len() ==> (#[trigger] items[i]).at <= clip.at),
{
    ranking::lemma_position(items, clip.at);
    let k = ranking::position(items, clip.at);
    assert(index::added(items, clip) == items.insert(k, clip));
    assert forall|i: int| k <= i < items.len() implies (#[trigger] items[i]).at <= clip.at by {
        if i > k {
            assert(items[k].at >= items[i].at);
        }
    }
}

// ---------------------------------------------------------------------- captures

/// A capture is recorded with the machine, the time and the window it came from, with
/// what it is and how large, and as not pinned; an image and a text over the limit
/// have their content in a file named after the stem.
pub proof fn law_capture_is_recorded(
    payload: PayloadView,
    context: ContextView,
    now: i64,
    month: Seq<char>,
    stem: Seq<char>,
    config: SettingsView,
    when: SYSTEMTIME,
    now_year: u16,
)
    ensures
        ({
            let record = store::new_record(payload, context, now, stem, config);
            &&& record.id == stem
            &&& record.at == now
            &&& record.machine == config.machine_id
            &&& record.app == context.app
            &&& record.title == context.title
            &&& payload is Text ==> record.kind == "text"@
            &&& payload is Image ==> record.kind == "image"@
            &&& payload is Files ==> record.kind == "files"@
            &&& payload matches PayloadView::Image(file) ==> record.length == file.len() as i64
            &&& payload matches PayloadView::Text(s) ==> record.length
                == vstd::utf8::encode_utf8(s).len() as i64
            &&& payload matches PayloadView::Files(list) ==> record.length
                == vstd::utf8::encode_utf8(text::joined(list, '\n')).len() as i64
            &&& payload is Image ==> record.text is None
            &&& payload matches PayloadView::Files(list) ==> record.text == Some(
                text::joined(list, '\n'),
            ) && record.blob is None
            &&& record.blob == (if payload is Image || (payload is Text && payload->Text_0.len()
                > config.inline_text_limit) {
                Some(stem + ".bin"@)
            } else {
                None
            })
        }),
        ({
            let c = laws::captured(payload, context, now, month, stem, config, when, now_year);
            &&& c.stem == stem
            &&& c.at == now
            &&& c.machine == config.machine_id
            &&& c.app == context.app
            &&& c.title == context.title
            &&& c.kind == clip::payload_kind(payload)
            &&& !c.pinned
            &&& c.db_path == store::db_in(store::month_folder(config, month))
        }),
{
    clip::law_kind_round_trip(clip::payload_kind(payload));
}

/// A capture writes its folder, its file where there is one, and its row, in this
/// order and nothing else: below the sync folder and the machine, in the month.
pub proof fn law_what_a_capture_writes(
    payload: PayloadView,
    context: ContextView,
    now: i64,
    month: Seq<char>,
    stem: Seq<char>,
    config: SettingsView,
)
    ensures
        ({
            let folder = paths::joined(
                paths::joined(config.sync_root, config.machine_id),
                month,
            );
            let heavy = payload is Image || (payload is Text && payload->Text_0.len()
                > config.inline_text_limit);
            let steps = store::write_steps(payload, context, now, month, stem, config);
            let record = store::new_record(payload, context, now, stem, config);
            &&& steps.len() == (if heavy {
                3int
            } else {
                2
            })
            &&& steps[0] == StepView::CreateFolder(folder)
            &&& heavy ==> steps[1] == StepView::WriteBlob(
                paths::joined(folder, stem + ".bin"@),
                clip::payload_body(payload),
            )
            &&& steps.last() == StepView::InsertRow(paths::joined(folder, "clips.db"@), record)
        }),
{
}

/// What a content is known by is the upper case hexadecimal of the digest of its
/// kind's number, three zeros and its bytes; whether it is stored is whether a clip is
/// known by that.
pub proof fn law_content_is_known_by_its_digest(
    payload: PayloadView,
    body: Seq<u8>,
    view: IndexView,
)
    ensures
        store::content_hash(ClipKind::Text, body) == text::hex_of_bytes(
            store::sha256_of(seq![0u8, 0, 0, 0] + body),
        ),
        store::content_hash(ClipKind::Image, body) == text::hex_of_bytes(
            store::sha256_of(seq![1u8, 0, 0, 0] + body),
        ),
        store::content_hash(ClipKind::Files, body) == text::hex_of_bytes(
            store::sha256_of(seq![2u8, 0, 0, 0] + body),
        ),
        store::is_stored(payload, view) <==> exists|i: int|
            0 <= i < view.items.len() && (#[trigger] view.items[i]).hash == store::content_hash(
                clip::payload_kind(payload),
                clip::payload_body(payload),
            ),
{
}

/// Switching a kind off stops that kind from being recorded and no other; with files
/// beside the database switched off, what would need one is not recorded either.
pub proof fn law_what_is_recorded(payload: PayloadView, config: SettingsView)
    ensures
        payload is Text && !config.capture_text ==> !settings::recorded(payload, config),
        payload is Image && !config.capture_images ==> !settings::recorded(payload, config),
        payload is Files && !config.capture_files ==> !settings::recorded(payload, config),
        payload is Text && config.capture_text && (config.write_blobs || payload->Text_0.len()
            <= config.inline_text_limit) ==> settings::recorded(payload, config),
        payload is Text && !config.write_blobs && payload->Text_0.len() > config.inline_text_limit
            ==> !settings::recorded(payload, config),
        payload is Image && config.capture_images ==> settings::recorded(payload, config)
            == config.write_blobs,
        payload is Files && config.capture_files ==> settings::recorded(payload, config),
{
}

// ------------------------------------------------------------------------ markers

/// A file is what its name says: `clips.db` is a database, a stem and `.pin` is the
/// pin of the clip with that stem, a stem and `.del` its tombstone, and anything else
/// is nothing of ours.
pub proof fn law_file_is_what_its_name_says(path: Seq<char>, stem: Seq<char>)
    ensures
        store::kind_of_file(path) is Database <==> paths::file_name_of(path) == Some("clips.db"@),
        store::kind_of_file(path) == FileKindView::Pin(stem) <==> paths::file_name_of(path) == Some(
            stem + ".pin"@,
        ),
        store::kind_of_file(path) == FileKindView::Tombstone(stem) <==> paths::file_name_of(path)
            == Some(stem + ".del"@),
        paths::file_name_of(path) is None ==> store::kind_of_file(path) is Other,
{
    reveal_strlit(".pin");
    reveal_strlit(".del");
    reveal_strlit("clips.db");
    let pin = stem + ".pin"@;
    let del = stem + ".del"@;
    assert(pin.skip(pin.len() - 4) =~= ".pin"@);
    assert(pin.take(pin.len() - 4) =~= stem);
    assert(del.skip(del.len() - 4) =~= ".del"@);
    assert(del.take(del.len() - 4) =~= stem);
    assert(pin.last() == 'n' && del.last() == 'l' && "clips.db"@.last() == 'b');
    assert(".pin"@[1] == 'p' && ".del"@[1] == 'd');
    assert(!text::ends_with(del, ".pin"@)) by {
        if text::ends_with(del, ".pin"@) {
            assert(del.skip(del.len() - 4)[1] == 'p');
        }
    }
    if let Some(name) = paths::file_name_of(path) {
        if text::ends_with(name, ".pin"@) {
            assert(name =~= store::before_suffix(name, ".pin"@) + ".pin"@) by {
                assert(name.skip(name.len() - 4) == ".pin"@);
                assert(name =~= name.take(name.len() - 4) + name.skip(name.len() - 4));
            }
        }
        if text::ends_with(name, ".del"@) {
            assert(name =~= store::before_suffix(name, ".del"@) + ".del"@) by {
                assert(name.skip(name.len() - 4) == ".del"@);
                assert(name =~= name.take(name.len() - 4) + name.skip(name.len() - 4));
            }
        }
        if text::ends_with(name, ".pin"@) && text::ends_with(name, ".del"@) {
            assert(name.skip(name.len() - 4)[1] == 'p');
        }
    }
}

proof fn lemma_one_file_more(files: Seq<Seq<char>>, kind: FileKindView)
    requires
        files.len() > 0,
    ensures
        (exists|i: int| 0 <= i < files.len() && store::kind_of_file(#[trigger] files[i]) == kind)
            <==> (exists|i: int|
            0 <= i < files.drop_last().len() && store::kind_of_file(
                #[trigger] files.drop_last()[i],
            ) == kind) || store::kind_of_file(files.last()) == kind,
{
    let head = files.drop_last();
    if exists|i: int| 0 <= i < files.len() && store::kind_of_file(#[trigger] files[i]) == kind {
        let i = choose|i: int|
            0 <= i < files.len() && store::kind_of_file(#[trigger] files[i]) == kind;
        if i < head.len() {
            assert(head[i] == files[i]);
        }
    }
    if exists|i: int| 0 <= i < head.len() && store::kind_of_file(#[trigger] head[i]) == kind {
        let i = choose|i: int|
            0 <= i < head.len() && store::kind_of_file(#[trigger] head[i]) == kind;
        assert(files[i] == head[i]);
    }
    assert(files[files.len() - 1] == files.last());
}

/// A walk over the folder finds every database, every pin and every tombstone among
/// the files, and no others.
pub proof fn law_walk_finds_everything(files: Seq<Seq<char>>, path: Seq<char>, stem: Seq<char>)
    ensures
        store::databases_among(files).contains(path) <==> files.contains(path)
            && store::kind_of_file(path) is Database,
        store::pins_among(files).contains(stem) <==> stem.len() > 0 && exists|i: int|
            0 <= i < files.len() && store::kind_of_file(#[trigger] files[i]) == FileKindView::Pin(
                stem,
            ),
        store::tombstones_among(files).contains(stem) <==> stem.len() > 0 && exists|i: int|
            0 <= i < files.len() && store::kind_of_file(#[trigger] files[i])
                == FileKindView::Tombstone(stem),
    decreases files.len(),
{
    if files.len() > 0 {
        let head = files.drop_last();
        let last = files.last();
        let n = files.len() - 1;
        law_walk_finds_everything(head, path, stem);
        assert(files[n] == last);
        assert forall|i: int| 0 <= i < n implies files[i] == #[trigger] head[i] by {}
        let before = store::databases_among(head);
        let after = store::databases_among(files);
        if before.contains(path) {
            let j = choose|j: int| 0 <= j < before.len() && before[j] == path;
            assert(after[j] == path);
        }
        if after.contains(path) {
            let j = choose|j: int| 0 <= j < after.len() && after[j] == path;
            if j < before.len() {
                assert(before[j] == path);
            }
        }
        if store::kind_of_file(last) is Database {
            assert(after[before.len() as int] == last);
        }
        if head.contains(path) {
            let i = choose|i: int| 0 <= i < head.len() && head[i] == path;
            assert(files[i] == path);
        }
        if files.contains(path) {
            let i = choose|i: int| 0 <= i < files.len() && files[i] == path;
            if i < n {
                assert(head[i] == path);
            }
        }
        lemma_one_file_more(files, FileKindView::Pin(stem));
        lemma_one_file_more(files, FileKindView::Tombstone(stem));
    }
}

/// The databases are read in the order the walk comes to them, each as often.
pub proof fn law_databases_in_order(files: Seq<Seq<char>>)
    ensures
        store::databases_among(files) == files.filter(
            |path: Seq<char>| store::kind_of_file(path) is Database,
        ),
    decreases files.len(),
{
    reveal(Seq::filter);
    if files.len() > 0 {
        law_databases_in_order(files.drop_last());
    }
}

/// A pin marker pins the clip it names or takes its pin off, and changes nothing else
/// of it and nothing of the others; a tombstone changes only whether its clip is
/// hidden; a walk pins exactly the clips it found a marker for.
pub proof fn law_markers_are_followed(
    view: IndexView,
    stem: Seq<char>,
    exists: bool,
    pins: Set<Seq<char>>,
    i: int,
)
    requires
        0 <= i < view.items.len(),
    ensures
        ({
            let pinned = store::marker_seen(view, FileKindView::Pin(stem), exists);
            let marked = store::marker_seen(view, FileKindView::Tombstone(stem), exists);
            let walked = index::pinned_by(view.items, pins);
            &&& pinned.hidden == view.hidden
            &&& pinned.items.len() == view.items.len()
            &&& view.items[i].stem == stem ==> pinned.items[i] == (ClipView {
                pinned: exists,
                ..view.items[i]
            })
            &&& view.items[i].stem != stem ==> pinned.items[i] == view.items[i]
            &&& marked.items == view.items
            &&& marked.hidden.contains(stem) == exists
            &&& forall|other: Seq<char>|
                other != stem ==> #[trigger] marked.hidden.contains(other)
                    == view.hidden.contains(other)
            &&& store::marker_seen(view, FileKindView::Other, exists) == view
            &&& store::marker_seen(view, FileKindView::Database, exists) == view
            &&& walked.len() == view.items.len()
            &&& walked[i].pinned == pins.contains(view.items[i].stem)
            &&& walked[i] == (ClipView { pinned: walked[i].pinned, ..view.items[i] })
        }),
{
}

// ---------------------------------------------------------------------- deletion

/// Once clips are deleted neither they nor their tombstones are left, and nothing else
/// changes; once clips are marked they are hidden, and nothing else is.
pub proof fn law_deleting_and_marking(view: IndexView, gone: Seq<ClipView>, clip: ClipView)
    ensures
        store::without(view, gone).items.contains(clip) <==> view.items.contains(clip)
            && !index::knows(gone, clip.stem),
        store::without(view, gone).hidden.contains(clip.stem) <==> view.hidden.contains(clip.stem)
            && !index::knows(gone, clip.stem),
        store::hiding(view, gone).items == view.items,
        store::hiding(view, gone).hidden.contains(clip.stem) <==> view.hidden.contains(clip.stem)
            || index::knows(gone, clip.stem),
        store::visible(view).contains(clip) <==> view.items.contains(clip)
            && !view.hidden.contains(clip.stem),
{
    index::lemma_filter_members(view.items, index::not_in(store::stem_set(gone)));
    index::lemma_filter_members(view.items, index::not_in(view.hidden));
}

proof fn lemma_superseded_members(texts: Seq<ClipView>)
    ensures
        forall|clip: ClipView| #[trigger]
            deletion::superseded(texts).contains(clip) ==> texts.contains(clip),
    decreases texts.len(),
{
    if texts.len() > 0 {
        let head = texts.drop_last();
        let before = deletion::superseded(head);
        let all = deletion::superseded(texts);
        lemma_superseded_members(head);
        assert forall|clip: ClipView| #[trigger] all.contains(clip) implies texts.contains(clip) by {
            let j = choose|j: int| 0 <= j < all.len() && all[j] == clip;
            if j < before.len() {
                assert(before.contains(before[j]));
                let i = choose|i: int| 0 <= i < head.len() && head[i] == clip;
                assert(texts[i] == clip);
            } else {
                assert(texts[texts.len() - 1] == clip);
            }
        }
    }
}

/// A duplicate cleanup takes each copy it takes once.
pub proof fn law_each_copy_goes_once(texts: Seq<ClipView>)
    requires
        index::distinct_stems(texts),
    ensures
        index::distinct_stems(deletion::superseded(texts)),
    decreases texts.len(),
{
    if texts.len() > 0 {
        let head = texts.drop_last();
        let before = deletion::superseded(head);
        let all = deletion::superseded(texts);
        assert(index::distinct_stems(head));
        law_each_copy_goes_once(head);
        lemma_superseded_members(head);
        assert forall|i: int, j: int| 0 <= i < j < all.len() implies all[i].stem != all[j].stem by {
            assert(all[i] == before[i]);
            if j < before.len() {
                assert(all[j] == before[j]);
            } else {
                assert(before.contains(before[i]));
                let k = choose|k: int| 0 <= k < head.len() && head[k] == before[i];
                assert(texts[k].stem != texts[texts.len() - 1].stem);
            }
        }
    }
}

/// What this machine is asked to take out is its own clips that are marked.
pub proof fn law_owner_takes_out_its_own(view: IndexView, owner: Seq<char>, clip: ClipView)
    ensures
        view.items.filter(index::asked_gone(view.hidden, owner)).contains(clip)
            <==> view.items.contains(clip) && view.hidden.contains(clip.stem) && clip.machine
            == owner,
{
    index::lemma_filter_members(view.items, index::asked_gone(view.hidden, owner));
}

/// The selected rows are looked up one by one: each that is still there is found, in
/// the order they were selected, and nothing else is.
pub proof fn law_selected_rows_are_found(
    items: Seq<ClipView>,
    stems: Seq<Seq<char>>,
    stem: Seq<char>,
)
    ensures
        store::found(items, Seq::empty()) == Seq::<ClipView>::empty(),
        index::knows(items, stem) ==> store::found(items, stems.push(stem)).len() == store::found(
            items,
            stems,
        ).len() + 1 && store::found(items, stems.push(stem)).last().stem == stem && items.contains(
            store::found(items, stems.push(stem)).last(),
        ) && store::found(items, stems.push(stem)).drop_last() == store::found(items, stems),
        !index::knows(items, stem) ==> store::found(items, stems.push(stem)) == store::found(
            items,
            stems,
        ),
{
    index::lemma_lookup(items, stem);
    let all = stems.push(stem);
    assert(all.drop_last() =~= stems);
    if index::knows(items, stem) {
        assert(store::found(items, all).drop_last() =~= store::found(items, stems));
    }
}

/// A stem finds the clip that has it, and finds none when no clip has it.
pub proof fn law_stem_finds_its_clip(items: Seq<ClipView>, i: int, stem: Seq<char>)
    requires
        index::distinct_stems(items),
    ensures
        0 <= i < items.len() ==> index::lookup(items, items[i].stem) == Some(items[i]),
        (forall|k: int| 0 <= k < items.len() ==> (#[trigger] items[k]).stem != stem)
            ==> index::lookup(items, stem) is None,
{
    index::lemma_lookup(items, stem);
    if 0 <= i < items.len() {
        index::lemma_lookup(items, items[i].stem);
        assert(index::knows(items, items[i].stem));
        let found = index::lookup(items, items[i].stem)->0;
        let k = choose|k: int| 0 <= k < items.len() && items[k] == found;
        assert(items[k].stem == items[i].stem);
    }
}

// ------------------------------------------------------------------------ the list

/// A search box with nothing but white space in it asks for nothing; anything else is
/// asked for without the white space around it and in lower case.
pub proof fn law_what_a_search_asks_for(filter: Seq<char>)
    ensures
        store::needle_of(filter) is None <==> text::blank(filter),
        !text::blank(filter) ==> store::needle_of(filter) == Some(
            text::lowered(text::trimmed(filter)),
        ),
{
    text::law_trimming(filter);
}

/// Whether a clip is on the list at all, pinned or not.
pub open spec fn listed(
    hidden: Set<Seq<char>>,
    machine: Option<Seq<char>>,
    needle: Option<Seq<char>>,
) -> spec_fn(ClipView) -> bool {
    |clip: ClipView|
        {
            &&& !hidden.contains(clip.stem)
            &&& machine matches Some(id) ==> clip.machine == id
            &&& needle matches Some(words) ==> filter::matching(clip, words)
        }
}

/// The list has one row for every clip that is on it.
pub proof fn law_one_row_for_a_clip(
    view: IndexView,
    machine: Option<Seq<char>>,
    needle: Option<Seq<char>>,
)
    ensures
        index::listing(view, machine, needle).len() == view.items.filter(
            listed(view.hidden, machine, needle),
        ).len(),
    decreases view.items.len(),
{
    reveal(Seq::filter);
    if view.items.len() > 0 {
        let head = IndexView { items: view.items.drop_last(), ..view };
        law_one_row_for_a_clip(head, machine, needle);
    }
}

/// As many rows are shown as were asked for, from the top, and one at least.
pub proof fn law_first_rows(rows: Seq<SummaryView>, limit: nat, i: int)
    ensures
        limit > 0 && rows.len() >= limit ==> index::first_rows(rows, limit).len() == limit,
        rows.len() <= limit ==> index::first_rows(rows, limit) == rows,
        rows.len() > 0 ==> index::first_rows(rows, limit).len() > 0,
        0 <= i < index::first_rows(rows, limit).len() ==> index::first_rows(rows, limit)[i]
            == rows[i],
{
    if rows.len() == limit {
        assert(rows.take(limit as int) =~= rows);
    }
}

/// The time an instance is listed with is that of one of its clips.
pub proof fn law_instance_has_the_time_of_a_clip(items: Seq<ClipView>, k: int)
    requires
        0 <= k < index::active(items).len(),
    ensures
        exists|i: int|
            0 <= i < items.len() && (#[trigger] items[i]).machine == index::active(items)[k].0
                && items[i].at == index::active(items)[k].1,
    decreases items.len(),
{
    let head = items.drop_last();
    let before = index::active(head);
    if k < before.len() {
        assert(index::active(items)[k] == before[k]);
        law_instance_has_the_time_of_a_clip(head, k);
        let i = choose|i: int|
            0 <= i < head.len() && (#[trigger] head[i]).machine == before[k].0 && head[i].at
                == before[k].1;
        assert(items[i] == head[i]);
    } else {
        assert(items[items.len() - 1].machine == index::active(items)[k].0);
    }
}

proof fn lemma_other_tabs(machines: Seq<(Seq<char>, i64)>, own: Seq<char>)
    ensures
        forall|k: int|
            0 <= k < store::other_tabs(machines, own).len() ==> {
                let tab = #[trigger] store::other_tabs(machines, own)[k];
                tab.id == Some(tab.label) && tab.label != own && index::lists(machines, tab.label)
            },
        forall|i: int|
            0 <= i < machines.len() && (#[trigger] machines[i]).0 != own ==> exists|k: int|
                0 <= k < store::other_tabs(machines, own).len() && (#[trigger] store::other_tabs(
                    machines,
                    own,
                )[k]).label == machines[i].0,
    decreases machines.len(),
{
    let all = store::other_tabs(machines, own);
    if machines.len() > 0 {
        let head = machines.drop_last();
        let last = machines.last();
        let before = store::other_tabs(head, own);
        lemma_other_tabs(head, own);
        assert forall|id: Seq<char>| index::lists(head, id) implies #[trigger] index::lists(
            machines,
            id,
        ) by {
            let i = choose|i: int| 0 <= i < head.len() && #[trigger] head[i].0 == id;
            assert(machines[i].0 == id);
        }
        assert forall|k: int| 0 <= k < all.len() implies {
            let tab = #[trigger] all[k];
            tab.id == Some(tab.label) && tab.label != own && index::lists(machines, tab.label)
        } by {
            if k < before.len() {
                assert(all[k] == before[k]);
            } else {
                assert(machines[machines.len() - 1].0 == all[k].label);
            }
        }
        assert forall|i: int| 0 <= i < machines.len() && (#[trigger] machines[i]).0
            != own implies exists|k: int|
            0 <= k < all.len() && (#[trigger] all[k]).label == machines[i].0 by {
            if i < head.len() {
                assert(head[i] == machines[i]);
                let k = choose|k: int|
                    0 <= k < before.len() && (#[trigger] before[k]).label == head[i].0;
                assert(all[k] == before[k]);
            } else {
                assert(all[before.len() as int].label == last.0);
            }
        }
    }
}

proof fn lemma_other_tabs_in_order(machines: Seq<(Seq<char>, i64)>, own: Seq<char>)
    ensures
        store::other_tabs(machines, own).len() == machines.filter(
            |m: (Seq<char>, i64)| m.0 != own,
        ).len(),
        forall|k: int|
            0 <= k < store::other_tabs(machines, own).len() ==> (#[trigger] store::other_tabs(
                machines,
                own,
            )[k]).label == machines.filter(|m: (Seq<char>, i64)| m.0 != own)[k].0,
    decreases machines.len(),
{
    reveal(Seq::filter);
    if machines.len() > 0 {
        lemma_other_tabs_in_order(machines.drop_last(), own);
    }
}

/// The strip begins with everything, then has this machine where it has a clip, and
/// then every other instance, each under its own id and no other, once for every time
/// it is listed and in the order it is listed.
pub proof fn law_strip(machines: Seq<(Seq<char>, i64)>, own: Seq<char>)
    ensures
        ({
            let tabs = store::tabs_of(machines, own);
            let others = if index::lists(machines, own) {
                2int
            } else {
                1
            };
            &&& tabs.len() >= others
            &&& tabs[0] == (TabView { id: None, label: "全部"@ })
            &&& index::lists(machines, own) ==> tabs[1] == (TabView {
                id: Some(own),
                label: "本机"@,
            })
            &&& forall|k: int|
                others <= k < tabs.len() ==> {
                    let tab = #[trigger] tabs[k];
                    tab.id == Some(tab.label) && tab.label != own && index::lists(
                        machines,
                        tab.label,
                    )
                }
            &&& forall|i: int|
                0 <= i < machines.len() && (#[trigger] machines[i]).0 != own ==> exists|k: int|
                    others <= k < tabs.len() && (#[trigger] tabs[k]).label == machines[i].0
            &&& tabs.len() == others + machines.filter(|m: (Seq<char>, i64)| m.0 != own).len()
            &&& forall|k: int|
                others <= k < tabs.len() ==> (#[trigger] tabs[k]).label == machines.filter(
                    |m: (Seq<char>, i64)| m.0 != own,
                )[k - others].0
        }),
{
    let tabs = store::tabs_of(machines, own);
    let rest = store::other_tabs(machines, own);
    let others = if index::lists(machines, own) {
        2int
    } else {
        1
    };
    lemma_other_tabs(machines, own);
    lemma_other_tabs_in_order(machines, own);
    assert forall|k: int| 0 <= k < rest.len() implies tabs[others + k] == #[trigger] rest[k] by {}
    assert forall|k: int| others <= k < tabs.len() implies {
        let tab = #[trigger] tabs[k];
        tab.id == Some(tab.label) && tab.label != own && index::lists(machines, tab.label)
    } by {
        assert(tabs[k] == rest[k - others]);
    }
    assert forall|i: int| 0 <= i < machines.len() && (#[trigger] machines[i]).0
        != own implies exists|k: int|
        others <= k < tabs.len() && (#[trigger] tabs[k]).label == machines[i].0 by {
        let k = choose|k: int| 0 <= k < rest.len() && (#[trigger] rest[k]).label == machines[i].0;
        assert(tabs[others + k] == rest[k]);
    }
}

// ------------------------------------------------------------------- the contents

proof fn lemma_filled_lines(lines: Seq<Seq<char>>, line: Seq<char>)
    ensures
        store::filled_lines(lines).contains(line) <==> lines.contains(line) && line.len() > 0,
        store::filled_lines(lines) == lines.filter(|line: Seq<char>| line.len() > 0),
    decreases lines.len(),
{
    reveal(Seq::filter);
    let kept = store::filled_lines(lines);
    if lines.len() > 0 {
        let head = lines.drop_last();
        let last = lines.last();
        let before = store::filled_lines(head);
        lemma_filled_lines(head, line);
        if kept.contains(line) {
            let j = choose|j: int| 0 <= j < kept.len() && kept[j] == line;
            if j < before.len() {
                assert(before[j] == line);
                assert(head.contains(line));
                let i = choose|i: int| 0 <= i < head.len() && head[i] == line;
                assert(lines[i] == line);
            } else {
                assert(lines[lines.len() - 1] == line);
            }
        }
        if lines.contains(line) && line.len() > 0 {
            let i = choose|i: int| 0 <= i < lines.len() && lines[i] == line;
            if i < head.len() {
                assert(head[i] == line);
                assert(before.contains(line));
                let j = choose|j: int| 0 <= j < before.len() && before[j] == line;
                assert(kept[j] == line);
            } else {
                assert(kept[before.len() as int] == line);
            }
        }
    }
}

/// Where the content of a clip is: an image in its file, a text in its file or else in
/// the clip itself, and a list of files in the clip, a path on every line that has one.
pub proof fn law_where_the_content_is(clip: ClipView, line: Seq<char>)
    ensures
        clip.kind is Image ==> store::source_of(clip) == (if clip.has_blob {
            SourceView::ImageBlob(clip.blob_path)
        } else {
            SourceView::Missing
        }),
        clip.kind is Text && clip.has_blob ==> store::source_of(clip) == SourceView::TextBlob(
            clip.blob_path,
        ),
        clip.kind is Text && !clip.has_blob ==> store::source_of(clip) == SourceView::Ready(
            PayloadView::Text(clip.text),
        ),
        clip.kind is Files ==> (store::source_of(clip) matches SourceView::Ready(
            PayloadView::Files(list),
        ) && (list.contains(line) <==> line.len() > 0 && text::lines_of(clip.text).contains(line))
            && list == text::lines_of(clip.text).filter(|line: Seq<char>| line.len() > 0)),
{
    lemma_filled_lines(text::lines_of(clip.text), line);
}

// ------------------------------------------------------------------------ the clock

/// A database is read once for every change of its file: not again while the file stays
/// as it was, and again when its length or its time is another; one that is not there is
/// not read, nor is one that is to be skipped.
pub proof fn law_database_is_read_once(
    loaded: Seq<(Seq<char>, Stamp)>,
    path: Seq<char>,
    stamp: Stamp,
    other: Stamp,
)
    ensures
        !store::to_be_read(false, store::noted(loaded, path, stamp), path, Some(stamp)),
        other.len != stamp.len || other.mtime != stamp.mtime ==> store::to_be_read(
            false,
            store::noted(loaded, path, stamp),
            path,
            Some(other),
        ),
        store::to_be_read(false, store::unnoted(loaded, path), path, Some(stamp)),
        !store::to_be_read(false, loaded, path, None),
        !store::to_be_read(true, loaded, path, Some(stamp)),
        store::to_be_read(false, Seq::empty(), path, Some(stamp)),
{
    store::law_ledger_note(loaded, path, stamp, path);
    store::law_ledger_forget(loaded, path, path);
}

/// Retention takes out what is older than the days that are set, to the millisecond, of
/// this machine's own and not pinned; with no days set it takes out nothing.
pub proof fn law_retention(
    items: Seq<ClipView>,
    days: u32,
    now: i64,
    local_machine: Seq<char>,
    clip: ClipView,
)
    requires
        now - days * 86_400_000 >= i64::MIN,
    ensures
        store::outdated(items, days, now, local_machine).contains(clip) <==> days > 0
            && items.contains(clip) && clip.machine == local_machine && !clip.pinned && clip.at
            < now - days * 86_400_000,
{
    if days > 0 {
        index::lemma_filter_members(
            items,
            index::stale((now - days * deletion::DAY_MS) as i64, local_machine),
        );
    }
}

/// Two rescans are at least ten seconds apart, and otherwise as far as is set.
pub proof fn law_rescan_period(seconds: u64)
    ensures
        store::period_of(seconds) >= 10,
        seconds >= 10 ==> store::period_of(seconds) == seconds,
        seconds < 10 ==> store::period_of(seconds) == 10,
{
}

} // verus!
