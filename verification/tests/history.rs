use clipplus::clip::{
    join_payloads, source_context, ClipContext, ClipKind, ClipPayload, ClipRecord,
};
use clipplus::deletion::{deletable, delete_clips, month_of, size_up};
use clipplus::filter::{label, terms};
use clipplus::index::{pin_path_for, ClipItem, Index};
use clipplus::item::{build_preview, hidden_path_for, truncate_chars, who};
use clipplus::search::contains_ignore_case;
use clipplus::settings::Settings;
use clipplus::stems::StemSet;
use clipplus::store::{
    file_kind, hash_of, needs_blob, walk, BinScope, Capture, FileKind, LoadedRow, PayloadSource,
    Row, Stamp, Store, WriteStep, DB_NAME,
};
use clipplus::win::SYSTEMTIME;

const DAY: i64 = 24 * 60 * 60 * 1000;
const NOW: i64 = 1_769_000_000_000;
const MONTH: &str = "2026-01";

fn january(day: u16) -> SYSTEMTIME {
    SYSTEMTIME {
        year: 2026,
        month: 1,
        day_of_week: 0,
        day,
        hour: 9,
        minute: 5,
        second: 0,
        milliseconds: 0,
    }
}

fn item(stem: &str, machine: &str, at: i64) -> ClipItem {
    let record = ClipRecord {
        id: stem.to_string(),
        at,
        machine: machine.to_string(),
        kind: "text".to_string(),
        hash: format!("hash-{stem}"),
        text: Some(format!("clip {stem}")),
        length: 8,
        blob: None,
        app: String::new(),
        title: String::new(),
    };
    ClipItem::from_record(
        &record,
        "C:/sync/clips.db".to_string(),
        stem.to_string(),
        false,
        "local",
        &january(2),
        2026,
    )
}

fn order(index: &Index) -> Vec<String> {
    index
        .query(None, None, 10)
        .into_iter()
        .map(|row| row.stem)
        .collect()
}

fn stem_set(stems: &[&str]) -> StemSet {
    let mut set = StemSet::new();
    for stem in stems {
        set.insert(stem.to_string());
    }
    set
}

/// The instance strip and the per-instance filter are what the popup tabs are
/// built on: one entry per machine, newest activity first, and a tab that lists
/// only its own clips.
#[test]
fn machines_are_listed_once_newest_first() {
    let mut index = Index::default();
    index.insert(item("a1", "aaa", 100));
    index.insert(item("b1", "bbb", 300));
    index.insert(item("a2", "aaa", 200));

    let machines: Vec<String> = index.machines().into_iter().map(|(id, _)| id).collect();
    assert_eq!(machines, vec!["bbb".to_string(), "aaa".to_string()]);

    let mine: Vec<String> = index
        .query(Some("aaa"), None, 10)
        .into_iter()
        .map(|summary| summary.stem)
        .collect();
    assert_eq!(mine, vec!["a2".to_string(), "a1".to_string()]);

    assert_eq!(index.query(None, None, 10).len(), 3);
    assert!(index.query(Some("bbb"), Some("clip a"), 10).is_empty());
}

/// `insert_many` is the load path, one merge for a whole month instead of one
/// shift per row, so it has to land the rows exactly where `insert` would,
/// including two clips captured in the same millisecond.
#[test]
fn batch_insert_and_forget_match_one_at_a_time() {
    let batch = || {
        vec![
            item("a", "aaa", 100),
            item("b", "aaa", 300),
            item("c", "aaa", 200),
            item("d", "aaa", 200),
            item("e", "aaa", 400),
        ]
    };

    let mut one_at_a_time = Index::default();
    for entry in batch() {
        assert!(one_at_a_time.insert(entry));
    }

    let mut merged = Index::default();
    merged.insert_many(batch());

    assert_eq!(order(&merged), order(&one_at_a_time));

    // A stem that is already known is skipped here too, which is what keeps a
    // reload of a machine's own month from doubling its rows.
    let mut again = Index::default();
    again.insert(item("a", "aaa", 100));
    again.insert_many(batch());
    assert_eq!(again.query(None, None, 10).len(), 5);

    // And the batch forget takes exactly those rows back out, newest first.
    let stems = stem_set(&["a", "c"]);
    merged.forget_many(&stems);
    assert_eq!(order(&merged), vec!["e", "b", "d"]);
}

fn record(stem: &str, text: Option<&str>, blob: Option<&str>) -> ClipRecord {
    ClipRecord {
        id: stem.to_string(),
        at: 1_769_000_000_000,
        machine: "3f9a2c81".to_string(),
        kind: if blob.is_some() { "image" } else { "text" }.to_string(),
        hash: "AB".repeat(32),
        text: text.map(str::to_string),
        length: 5,
        blob: blob.map(str::to_string),
        app: String::new(),
        title: String::new(),
    }
}

/// Deleting by hand respects the line retention respects, with one exception
/// retention does not have: another instance's finished months are dead files
/// nobody writes, so those are ours to clean up.
#[test]
fn only_a_finished_month_from_another_instance_is_deletable() {
    let item = |machine: &str, path: &str| {
        let mut row = record("stem-1", Some("hello"), None);
        row.machine = machine.to_string();

        ClipItem::from_record(
            &row,
            path.to_string(),
            "stem-1".to_string(),
            false,
            "local",
            &january(21),
            2026,
        )
    };

    // Ours, whenever it is: we are the only writer of our own folders.
    let mine = item("local", "C:/sync/local/2026-02/clips.db");
    assert!(deletable(&mine, "local", "2026-02"));

    // Another instance's month is over: dead on every machine, fair game.
    let old = item("other", "C:/sync/other/2025-12/clips.db");
    assert!(deletable(&old, "local", "2026-02"));

    // Theirs is still open, and one that has not started yet is the same file a
    // moment from now.
    let open = item("other", "C:/sync/other/2026-02/clips.db");
    assert!(!deletable(&open, "local", "2026-02"));
    let next = item("other", "C:/sync/other/2026-03/clips.db");
    assert!(!deletable(&next, "local", "2026-02"));

    // No month folder to read: left alone rather than assumed deletable.
    let flat = item("other", DB_NAME);
    assert!(!deletable(&flat, "local", "2026-02"));
}

/// Turning `WriteBlobs` off drops exactly what this says needs a blob, so the
/// boundary is worth pinning: text of exactly the limit still stays inline.
#[test]
fn needs_blob_follows_the_inline_split() {
    let settings = Settings {
        inline_text_limit: 4,
        ..Settings::default()
    };

    let text = |chars: usize| ClipPayload::Text("x".repeat(chars));
    assert!(!needs_blob(&text(4), &settings));
    assert!(needs_blob(&text(5), &settings));
    assert!(needs_blob(&ClipPayload::Image(vec![1]), &settings));
    assert!(!needs_blob(
        &ClipPayload::Files(vec!["a".to_string()]),
        &settings
    ));
}

/// Multi-select copies become one text block, one clip per line; a single clip
/// keeps its own type so images still paste as images.
#[test]
fn several_clips_join_with_newlines() {
    let payloads = vec![
        ClipPayload::Text("一".to_string()),
        ClipPayload::Files(vec!["C:\\a.txt".to_string(), "C:\\b.txt".to_string()]),
        ClipPayload::Text("二".to_string()),
        ClipPayload::Image(vec![1, 2, 3]),
    ];

    match join_payloads(payloads) {
        Some(ClipPayload::Text(text)) => {
            assert_eq!(text, "一\nC:\\a.txt\nC:\\b.txt\n二")
        }
        other => panic!("expected a text payload, got {other:?}"),
    }

    assert!(matches!(
        join_payloads(vec![ClipPayload::Image(vec![1, 2, 3])]),
        Some(ClipPayload::Image(_))
    ));
    assert!(
        join_payloads(vec![ClipPayload::Image(vec![1]), ClipPayload::Image(vec![2])]).is_none()
    );
    assert!(join_payloads(Vec::new()).is_none());
}

// ----------------------------------------------------------------- the store

fn row(
    stem: &str,
    at: i64,
    machine: &str,
    kind: &str,
    hash: &str,
    blob: Option<&str>,
    pinned: bool,
) -> LoadedRow {
    LoadedRow {
        row: Row {
            stem: stem.to_string(),
            at,
            machine: machine.to_string(),
            kind: kind.to_string(),
            hash: hash.to_string(),
            text: if kind == "image" {
                None
            } else {
                Some(format!("clip {stem}"))
            },
            length: 5,
            blob: blob.map(str::to_string),
            app: None,
            title: None,
        },
        pinned,
        when: january(21),
    }
}

fn stamp(n: u64) -> Stamp {
    Stamp { len: n, mtime: 7 }
}

fn store() -> Store {
    let mut settings = Settings::default();
    settings.sync_root = "C:\\sync".to_string();
    settings.machine_id = "mach1".to_string();
    Store::new(settings)
}

fn listed(store: &Store, filter: &str) -> Vec<String> {
    store
        .query(None, filter, 100)
        .into_iter()
        .map(|row| row.stem)
        .collect()
}

fn stems(items: &[ClipItem]) -> Vec<String> {
    items.iter().map(|item| item.stem.clone()).collect()
}

/// The `.bin` scan finds exactly the heavy clips in range, leaves short text alone,
/// honours pins, and skips another instance's live month.
#[test]
fn bin_cleanup_reaches_whole_heavy_clips() {
    let mut store = store();
    let hour = 3_600_000;
    store.load_db(
        "C:\\sync\\mach1\\2026-01\\clips.db",
        vec![
            row("s1", NOW - 2 * DAY, "mach1", "text", "h1", None, false),
            row("s4", NOW - DAY, "mach1", "image", "h4", Some("s4.bin"), false),
        ],
        2026,
        stamp(1),
    );
    store.load_db(
        "C:\\sync\\mach1\\2025-12\\clips.db",
        vec![
            row("s3", NOW - 40 * DAY - hour, "mach1", "image", "h3", Some("s3.bin"), true),
            row("s2", NOW - 40 * DAY, "mach1", "text", "h2", Some("s2.bin"), false),
            row("s5", NOW - 40 * DAY - 2 * hour, "mach1", "image", "h5", Some("s5.bin"), false),
        ],
        2026,
        stamp(2),
    );
    store.load_db(
        "C:\\sync\\other\\2026-01\\clips.db",
        vec![row("o1", NOW - 2 * hour, "other", "image", "h6", Some("o1.bin"), false)],
        2026,
        stamp(3),
    );

    let by_time = store.scan_bin_cleanup(BinScope::OlderThanDays(30), NOW, MONTH);
    assert_eq!(stems(&by_time.doomed), vec!["s2", "s5"]);
    assert_eq!((by_time.images, by_time.overlong_texts), (1, 1));
    assert_eq!(by_time.skipped_live_month, 0);
    let by_time = size_up(by_time, &vec![Some(10), Some(10)]);
    assert_eq!(by_time.blob_bytes, 20);

    let everything = store.scan_bin_cleanup(BinScope::KeepNewest(0), NOW, MONTH);
    assert_eq!(everything.skipped_live_month, 1);
    assert_eq!(everything.doomed.len(), 3);

    // Both scopes take zero as everything, and list newest first.
    let ageless = store.scan_bin_cleanup(BinScope::OlderThanDays(0), NOW, MONTH);
    assert_eq!(stems(&ageless.doomed), vec!["s4", "s2", "s5"]);
    assert_eq!(stems(&ageless.doomed), stems(&everything.doomed));
    assert_eq!(ageless.skipped_live_month, everything.skipped_live_month);

    // Newest first across machines: o1 and s4 fill the two kept slots, so the older
    // two go, even though o1 itself cannot be deleted from here.
    let keep_two = store.scan_bin_cleanup(BinScope::KeepNewest(2), NOW, MONTH);
    assert_eq!(stems(&keep_two.doomed), vec!["s2", "s5"]);

    let plan = delete_clips(&by_time.doomed);
    assert_eq!(plan.rows.len(), 1);
    assert_eq!(plan.rows[0].0, "C:\\sync\\mach1\\2025-12\\clips.db");
    assert_eq!(plan.rows[0].1, vec!["s2".to_string(), "s5".to_string()]);
    assert_eq!(
        plan.files,
        vec![
            "C:\\sync\\mach1\\2025-12\\s2.bin".to_string(),
            "C:\\sync\\mach1\\2025-12\\s2.pin".to_string(),
            "C:\\sync\\mach1\\2025-12\\s2.del".to_string(),
            "C:\\sync\\mach1\\2025-12\\s5.bin".to_string(),
            "C:\\sync\\mach1\\2025-12\\s5.pin".to_string(),
            "C:\\sync\\mach1\\2025-12\\s5.del".to_string(),
        ]
    );

    assert_eq!(store.run_bin_cleanup(&by_time.doomed), 2);
    // The pinned one comes first because that is how the list orders them.
    assert_eq!(listed(&store, ""), vec!["s3", "o1", "s4", "s1"]);
}

/// Duplicates keep the newest copy of each text, plus any pinned copy, and a copy in
/// another instance's live month goes out as a tombstone rather than a deletion.
#[test]
fn duplicates_keep_the_newest_and_the_pinned() {
    let mut store = store();
    let hour = 3_600_000;
    store.load_db(
        "C:\\sync\\mach1\\2026-01\\clips.db",
        vec![
            row("t1", NOW - 3 * DAY, "mach1", "text", "DUP", None, false),
            row("t3", NOW - DAY, "mach1", "text", "DUP", None, false),
        ],
        2026,
        stamp(1),
    );
    store.load_db(
        "C:\\sync\\other\\2026-01\\clips.db",
        vec![
            row("t2", NOW - 2 * DAY, "other", "text", "DUP", None, true),
            row("t0", NOW - 2 * hour, "other", "text", "DUP", None, false),
            row("t4", NOW - hour, "other", "text", "DUP", None, false),
        ],
        2026,
        stamp(2),
    );

    let scan = store.scan_duplicates();
    assert_eq!(scan.groups, 1);
    assert_eq!(scan.groups_with_pin, 1);
    assert_eq!(stems(&scan.doomed), vec!["t0", "t3", "t1"]);

    let (direct, marked) = store.run_duplicate_cleanup(scan.doomed, MONTH);
    assert_eq!(stems(&direct), vec!["t3", "t1"]);
    assert_eq!(stems(&marked), vec!["t0"]);
    assert_eq!(marked[0].hidden_path(), "C:\\sync\\other\\2026-01\\t0.del");

    assert_eq!(store.remove_clips(&direct, &marked), (2, 1));
    assert_eq!(listed(&store, ""), vec!["t2", "t4"]);

    // The machine that owns the marked row is the one that takes it out.
    assert!(store.reap_hidden().is_empty());
}

/// A pinned newest copy is the one a group keeps: the pin adds no second one.
#[test]
fn a_pinned_newest_copy_is_kept_alone() {
    let mut store = store();
    store.load_db(
        "C:\\sync\\mach1\\2026-01\\clips.db",
        vec![
            row("p0", NOW, "mach1", "text", "DUP", None, true),
            row("p1", NOW - DAY, "mach1", "text", "DUP", None, false),
            row("p2", NOW - 2 * DAY, "mach1", "text", "DUP", None, false),
            row("q0", NOW - 3 * DAY, "mach1", "text", "TWO", None, true),
            row("q1", NOW - 4 * DAY, "mach1", "text", "TWO", None, true),
            row("r0", NOW - 5 * DAY, "mach1", "text", "ONE", None, false),
        ],
        2026,
        stamp(1),
    );

    let scan = store.scan_duplicates();
    assert_eq!(scan.groups, 2);
    assert_eq!(scan.groups_with_pin, 2);
    assert_eq!(stems(&scan.doomed), vec!["p1", "p2"]);
}

/// A tombstone that syncs in hides the row at once, is carried out by its owner, and
/// the row comes back when the marker goes away first.
#[test]
fn tombstones_hide_and_are_reaped() {
    let mut store = store();
    store.load_db(
        "C:\\sync\\mach1\\2026-01\\clips.db",
        vec![row("s1", NOW, "mach1", "text", "h1", None, false)],
        2026,
        stamp(1),
    );
    assert!(!store.on_path_changed("C:\\sync\\mach1\\2026-01\\s1.del", true));
    assert!(listed(&store, "").is_empty());
    assert_eq!(stems(&store.reap_hidden()), vec!["s1"]);

    store.on_path_removed("C:\\sync\\mach1\\2026-01\\s1.del");
    assert_eq!(listed(&store, ""), vec!["s1"]);
    assert!(store.reap_hidden().is_empty());

    let doomed = store.prune_old(NOW + 400 * DAY);
    assert!(doomed.is_empty());
}

/// Retention only reaches this machine's own old rows, and never a pinned one.
#[test]
fn retention_reaches_own_old_unpinned_rows() {
    let mut settings = Settings::default();
    settings.sync_root = "C:\\sync".to_string();
    settings.machine_id = "mach1".to_string();
    settings.retention_days = 30;
    let mut store = Store::new(settings);
    store.load_db(
        "C:\\sync\\mach1\\2025-11\\clips.db",
        vec![
            row("old", NOW - 31 * DAY, "mach1", "text", "h1", None, false),
            row("kept", NOW - 31 * DAY, "mach1", "text", "h2", None, true),
            row("edge", NOW - 30 * DAY, "mach1", "text", "h3", None, false),
        ],
        2026,
        stamp(1),
    );
    store.load_db(
        "C:\\sync\\other\\2025-11\\clips.db",
        vec![row("theirs", NOW - 90 * DAY, "other", "text", "h4", None, false)],
        2026,
        stamp(1),
    );
    let doomed = store.prune_old(NOW);
    assert_eq!(stems(&doomed), vec!["old"]);
    store.forget_deleted(&doomed);
    assert_eq!(listed(&store, ""), vec!["kept", "edge", "theirs"]);
}

fn context() -> ClipContext {
    source_context("C:\\Program Files\\Chrome\\chrome.exe", "GitHub")
}

/// The blob goes before the row, the row says what was copied, and the same content
/// is not written twice.
#[test]
fn a_capture_is_written_once_blob_first() {
    let mut settings = Settings::default();
    settings.sync_root = "C:\\sync".to_string();
    settings.machine_id = "mach1".to_string();
    settings.inline_text_limit = 4;
    settings.max_blob_bytes = 10;
    let mut store = Store::new(settings);

    let long = ClipPayload::Text("hello".to_string());
    let steps = match store.persist(&long, &context(), NOW, MONTH, "stem-1") {
        Capture::Write(steps) => steps,
        other => panic!("{other:?}"),
    };
    assert_eq!(steps.len(), 3);
    assert!(matches!(&steps[0], WriteStep::CreateFolder(f) if f == "C:\\sync\\mach1\\2026-01"));
    assert!(
        matches!(&steps[1], WriteStep::WriteBlob(p, b)
            if p == "C:\\sync\\mach1\\2026-01\\stem-1.bin" && b == b"hello")
    );
    let (db, written) = match &steps[2] {
        WriteStep::InsertRow(db, record) => (db, record),
        other => panic!("{other:?}"),
    };
    assert_eq!(db, "C:\\sync\\mach1\\2026-01\\clips.db");
    assert_eq!(written.kind, "text");
    assert_eq!(written.text.as_deref(), Some("hello"));
    assert_eq!(written.blob.as_deref(), Some("stem-1.bin"));
    assert_eq!(written.app, "chrome.exe");
    assert_eq!(written.title, "GitHub");
    assert_eq!(written.length, 5);

    store.written(written, db, Some(stamp(9)), &january(21), 2026);
    assert!(matches!(
        store.persist(&long, &context(), NOW, MONTH, "stem-2"),
        Capture::AlreadyStored
    ));
    // The row is known, so its own database does not have to be read again.
    assert!(!store.refresh_db(db, false, Some(stamp(9))));
    assert!(store.refresh_db(db, false, Some(stamp(10))));

    assert!(matches!(
        store.read_payload("stem-1"),
        PayloadSource::TextBlob(path) if path == "C:\\sync\\mach1\\2026-01\\stem-1.bin"
    ));
    assert!(matches!(store.read_payload("stem-9"), PayloadSource::Missing));

    let short = ClipPayload::Text("abc".to_string());
    match store.persist(&short, &context(), NOW, MONTH, "stem-3") {
        Capture::Write(steps) => assert_eq!(steps.len(), 2),
        other => panic!("{other:?}"),
    }
    let large = ClipPayload::Image(vec![0; 11]);
    assert!(matches!(
        store.persist(&large, &context(), NOW, MONTH, "stem-4"),
        Capture::Oversized
    ));
}

/// Four bytes of kind, then the content; upper case hex. Known digests.
#[test]
fn hashes_cover_kind_and_content() {
    // SHA-256 of 00 00 00 00.
    assert_eq!(
        hash_of(ClipKind::Text, &Vec::new()),
        "DF3F619804A92FDB4057192DC43DD748EA778ADC52BC498CE80524C014B81119"
    );
    assert_ne!(
        hash_of(ClipKind::Text, &b"x".to_vec()),
        hash_of(ClipKind::Image, &b"x".to_vec())
    );
}

/// The watcher passes over this machine's own databases, however the folder is
/// spelled, and the rescan does not.
#[test]
fn own_databases_are_not_reread_by_the_watcher() {
    let store = store();
    let own = "c:\\SYNC\\Mach1\\2026-01\\clips.db";
    assert!(!store.refresh_db(own, true, Some(stamp(1))));
    assert!(store.refresh_db(own, false, Some(stamp(1))));
    assert!(store.refresh_db("C:\\sync\\other\\2026-01\\clips.db", true, Some(stamp(1))));
    assert!(!store.refresh_db("C:\\sync\\other\\2026-01\\clips.db", true, None));
}

/// The strip is everything, this machine, then the others by their last capture.
#[test]
fn the_strip_puts_this_machine_first() {
    let mut store = store();
    for (machine, at) in [("zeta", 5), ("mach1", 1), ("alpha", 9)] {
        store.load_db(
            &format!("C:\\sync\\{machine}\\2026-01\\clips.db"),
            vec![row(machine, at, machine, "text", machine, None, false)],
            2026,
            stamp(1),
        );
    }
    let tabs = store.machines();
    let shown: Vec<(Option<&str>, &str)> = tabs
        .iter()
        .map(|tab| (tab.id.as_deref(), tab.label.as_str()))
        .collect();
    assert_eq!(
        shown,
        vec![
            (None, "全部"),
            (Some("mach1"), "本机"),
            (Some("alpha"), "alpha"),
            (Some("zeta"), "zeta"),
        ]
    );
}

/// A file list comes back as the files, empty lines left out.
#[test]
fn a_file_list_is_read_back() {
    let mut store = store();
    let mut loaded = row("f", NOW, "mach1", "files", "h", None, false);
    loaded.row.text = Some("C:\\a.txt\n\nC:\\b.txt".to_string());
    store.load_db("C:\\sync\\mach1\\2026-01\\clips.db", vec![loaded], 2026, stamp(1));
    match store.read_payload("f") {
        PayloadSource::Ready(ClipPayload::Files(paths)) => {
            assert_eq!(paths, vec!["C:\\a.txt", "C:\\b.txt"])
        }
        other => panic!("{other:?}"),
    }
    // An image whose content was never kept has nothing to paste.
    store.load_db(
        "C:\\sync\\mach1\\2026-02\\clips.db",
        vec![row("i", NOW, "mach1", "image", "h2", None, false)],
        2026,
        stamp(1),
    );
    assert!(matches!(store.read_payload("i"), PayloadSource::Missing));
}

#[test]
fn a_reload_replaces_the_rows_of_one_database() {
    let mut store = store();
    let db = "C:\\sync\\mach1\\2026-01\\clips.db";
    store.load_db(
        db,
        vec![
            row("a", 1, "mach1", "text", "h1", None, false),
            row("b", 2, "mach1", "text", "h2", None, false),
        ],
        2026,
        stamp(1),
    );
    store.load_db(
        "C:\\sync\\other\\2026-01\\clips.db",
        vec![row("o", 3, "other", "text", "h3", None, false)],
        2026,
        stamp(1),
    );
    assert_eq!(store.load_db(db, vec![row("b", 2, "mach1", "text", "h2", None, false)], 2026, stamp(2)), 1);
    assert_eq!(listed(&store, ""), vec!["o", "b"]);

    store.on_path_removed("C:\\sync\\other\\2026-01\\clips.db");
    assert_eq!(listed(&store, ""), vec!["b"]);
    assert_eq!(store.len(), 1);
}

#[test]
fn pins_are_markers_beside_the_database() {
    let mut store = store();
    store.load_db(
        "C:\\sync\\mach1\\2026-01\\clips.db",
        vec![
            row("a", 1, "mach1", "text", "h1", None, false),
            row("b", 2, "mach1", "text", "h2", None, false),
        ],
        2026,
        stamp(1),
    );
    assert_eq!(store.pin_path("a").as_deref(), Some("C:\\sync\\mach1\\2026-01\\a.pin"));
    assert_eq!(store.pin_path("x"), None);
    assert!(store.set_pinned("a", true));
    assert!(!store.set_pinned("x", true));
    assert_eq!(listed(&store, ""), vec!["a", "b"]);
    assert!(!store.on_path_changed("C:\\sync\\mach1\\2026-01\\b.pin", true));
    assert_eq!(listed(&store, ""), vec!["b", "a"]);
    store.on_path_removed("C:\\sync\\mach1\\2026-01\\b.pin");
    assert_eq!(listed(&store, ""), vec!["a", "b"]);
    store.rescan(&stem_set(&["b"]), &stem_set(&["a"]));
    assert_eq!(listed(&store, ""), vec!["b"]);
    assert_eq!(pin_path_for("C:\\s\\clips.db", "x"), "C:\\s\\x.pin");
    assert_eq!(hidden_path_for("C:\\s\\clips.db", "x"), "C:\\s\\x.del");
}

#[test]
fn a_marker_names_the_clip_it_was_written_for() {
    for db in [
        "C:\\sync\\m\\2026-01\\clips.db",
        "C:clips.db",
        "\\\\server\\share\\clips.db",
        "clips.db",
        "C:/sync/./clips.db",
    ] {
        for stem in ["a", "1769000000000-00ff", "odd.name", "clips.db"] {
            let pin = pin_path_for(db, stem);
            assert!(matches!(file_kind(&pin), FileKind::Pin(found) if found == stem));
            let tombstone = hidden_path_for(db, stem);
            assert!(matches!(file_kind(&tombstone), FileKind::Tombstone(found) if found == stem));
            assert_eq!(clipplus::paths::parent(&pin), clipplus::paths::parent(db));
            assert_ne!(pin, tombstone);
        }
    }
}

#[test]
fn what_a_forgotten_database_held_is_unknown_again() {
    let mut index = Index::default();
    assert!(index.insert(item("a", "m1", 100)));
    assert!(!index.insert(item("a", "m1", 100)));
    assert!(index.has_hash("hash-a"));
    index.forget_db("C:\\sync\\clips.db");
    assert_eq!(index.len(), 0);
    assert!(!index.has_hash("hash-a"));
    assert!(index.insert(item("a", "m1", 100)));
}

#[test]
fn a_walk_sorts_the_files_it_finds() {
    assert!(matches!(file_kind("C:\\s\\clips.db"), FileKind::Database));
    assert!(matches!(file_kind("C:\\s\\x.pin"), FileKind::Pin(stem) if stem == "x"));
    assert!(matches!(file_kind("C:\\s\\x.del"), FileKind::Tombstone(stem) if stem == "x"));
    assert!(matches!(file_kind("C:\\s\\x.bin"), FileKind::Other));

    let found = walk(&vec![
        "C:\\s\\m\\2026-01\\clips.db".to_string(),
        "C:\\s\\m\\2026-01\\a.pin".to_string(),
        "C:\\s\\m\\2026-01\\b.del".to_string(),
        "C:\\s\\m\\2026-01\\a.bin".to_string(),
        "C:\\s\\m\\2026-01\\.pin".to_string(),
    ]);
    assert_eq!(found.databases, vec!["C:\\s\\m\\2026-01\\clips.db"]);
    assert!(found.pinned.contains("a"));
    assert_eq!(found.pinned.len(), 1);
    assert!(found.hidden.contains("b"));
}

#[test]
fn the_queue_keeps_order_and_drops_the_empty() {
    let mut store = store();
    store.enqueue(ClipPayload::Text("a".to_string()), context());
    store.enqueue(ClipPayload::Text(String::new()), context());
    store.enqueue(ClipPayload::Image(vec![1]), context());
    let drained = store.drain();
    assert_eq!(drained.len(), 2);
    assert!(matches!(&drained[0].0, ClipPayload::Text(text) if text == "a"));
    assert!(matches!(&drained[1].0, ClipPayload::Image(_)));
    assert!(store.drain().is_empty());
}

#[test]
fn hand_deletes_split_by_who_may_write() {
    let mut store = store();
    store.load_db(
        "C:\\sync\\mach1\\2026-01\\clips.db",
        vec![row("mine", 1, "mach1", "text", "h1", None, false)],
        2026,
        stamp(1),
    );
    store.load_db(
        "C:\\sync\\other\\2026-01\\clips.db",
        vec![row("live", 2, "other", "text", "h2", None, false)],
        2026,
        stamp(1),
    );
    store.load_db(
        "C:\\sync\\other\\2025-12\\clips.db",
        vec![row("over", 3, "other", "text", "h3", None, false)],
        2026,
        stamp(1),
    );
    let picked = ["live", "gone", "mine", "over"].map(str::to_string).to_vec();
    let (doomed, marked) = store.delete_selected(&picked, MONTH);
    assert_eq!(stems(&doomed), vec!["mine", "over"]);
    assert_eq!(stems(&marked), vec!["live"]);
    assert_eq!(month_of("C:\\sync\\other\\2025-12\\clips.db").as_deref(), Some("2025-12"));
}

/// Content that was deleted by hand is stored again when it is copied again.
#[test]
fn deleted_content_can_come_back() {
    let mut store = store();
    let payload = ClipPayload::Text("hello".to_string());
    let steps = match store.persist(&payload, &context(), NOW, MONTH, "first") {
        Capture::Write(steps) => steps,
        other => panic!("{other:?}"),
    };
    match &steps[1] {
        WriteStep::InsertRow(db, record) => {
            assert_eq!(
                record.hash,
                "44C0A0D0DDC9808A27834E778F82623F9C8970726BC935014F376CC1C7823673"
            );
            store.written(record, db, None, &january(21), 2026);
        }
        other => panic!("{other:?}"),
    }
    assert!(matches!(
        store.persist(&payload, &context(), NOW, MONTH, "again"),
        Capture::AlreadyStored
    ));
    let (doomed, marked) = store.delete_selected(&vec!["first".to_string()], MONTH);
    assert_eq!(store.remove_clips(&doomed, &marked), (1, 0));
    assert!(matches!(
        store.persist(&payload, &context(), NOW, MONTH, "again"),
        Capture::Write(_)
    ));
}

#[test]
fn the_rescan_period_has_a_floor() {
    let mut settings = Settings::default();
    settings.rescan_seconds = 3;
    assert_eq!(Store::new(settings).rescan_period(), 10);
    assert_eq!(store().rescan_period(), 60);
}

// ------------------------------------------------------------------- searching

#[test]
fn searching_ignores_ascii_case_only() {
    assert!(contains_ignore_case("Hello World", "o w"));
    assert!(contains_ignore_case("复制粘贴", "制粘"));
    assert!(!contains_ignore_case("Hello", "hellox"));
    assert!(contains_ignore_case("anything", ""));
    assert!(!contains_ignore_case("É", "é"));
}

#[test]
fn every_word_has_to_be_found() {
    let mut sourced = record("s", Some("Quarterly report at 12:30"), None);
    sourced.machine = "local".to_string();
    sourced.app = "chrome.exe".to_string();
    sourced.title = "GitHub".to_string();
    let clip = ClipItem::from_record(
        &sourced,
        "C:/sync/clips.db".to_string(),
        "s".to_string(),
        false,
        "local",
        &january(2),
        2026,
    );
    let finds = |query: &str| clipplus::filter::matches(&clip, &terms(query));
    assert!(finds("report quarterly"));
    assert!(!finds("report missing"));
    assert!(finds("app:chrome title:git"));
    assert!(!finds("app:firefox report"));
    assert!(finds("time:01-02"));
    assert!(finds("time:2026-01"));
    assert!(finds("machine:本机"));
    assert!(!finds("machine:other"));
    assert!(finds("kind:text"));
    assert!(finds("kind:文本"));
    assert!(!finds("kind:image"));
    // Not a prefix that is known, so it is content like any other.
    assert!(finds("12:30"));
    assert!(!finds("chrome"));
    assert_eq!(label(ClipKind::Files), "文件");
}

#[test]
fn previews_are_one_short_line() {
    assert_eq!(truncate_chars("abcdef", 3).chars().count(), 4);
    assert!(truncate_chars("abcdef", 3).starts_with("abc"));
    assert_eq!(truncate_chars("abc", 3), "abc");
    assert_eq!(build_preview(ClipKind::Image, ""), "[图片]");
    assert_eq!(build_preview(ClipKind::Text, "one"), "one");
    assert_eq!(who("local", "local"), "本机");
    assert_eq!(who("other", "local"), "other");
}

#[test]
fn a_source_is_an_exe_name_and_a_short_title() {
    let context = source_context("C:/tools\\edit.exe", &"标".repeat(130));
    assert_eq!(context.app, "edit.exe");
    assert_eq!(context.title.chars().count(), 120);
    assert_eq!(source_context("plain", "").app, "plain");
    assert_eq!(source_context("", "t").title, "t");
}

fn written_paths(machine: &str, payload: &ClipPayload) -> Vec<String> {
    let mut settings = Settings::default();
    settings.sync_root = "C:\\sync".to_string();
    settings.machine_id = machine.to_string();
    match Store::new(settings).persist(payload, &context(), NOW, MONTH, "stem") {
        Capture::Write(steps) => steps
            .into_iter()
            .map(|step| match step {
                WriteStep::CreateFolder(path) => path,
                WriteStep::WriteBlob(path, _) => path,
                WriteStep::InsertRow(path, _) => path,
            })
            .collect(),
        other => panic!("{other:?}"),
    }
}

#[test]
fn two_machines_never_write_one_file() {
    let image = ClipPayload::Image(vec![1]);
    let ours = written_paths("3f9a2c81", &image);
    let theirs = written_paths("3f9a2c8", &image);
    assert_eq!(ours.len(), 3);
    assert!(ours.iter().all(|path| path.starts_with("C:\\sync\\3f9a2c81\\")));
    assert!(theirs.iter().all(|path| !ours.contains(path)));
}

#[test]
fn unpinning_undoes_pinning() {
    let mut index = Index::default();
    index.insert_many(vec![item("a", "aaa", 1), item("b", "aaa", 2), item("c", "aaa", 3)]);
    let before = order(&index);
    assert!(index.set_pinned("a", true));
    assert_eq!(order(&index), vec!["a", "c", "b"]);
    assert!(index.set_pinned("a", false));
    assert_eq!(order(&index), before);
}

#[test]
fn a_long_text_is_searched_by_its_start() {
    let mut settings = Settings::default();
    settings.sync_root = "C:\\sync".to_string();
    settings.machine_id = "mach1".to_string();
    settings.inline_text_limit = 600;
    let mut store = Store::new(settings);
    let mut long = "x".repeat(512);
    long.push_str(&"needle ".repeat(20));
    match store.persist(&ClipPayload::Text(long), &context(), NOW, MONTH, "long") {
        Capture::Write(steps) => match &steps[2] {
            WriteStep::InsertRow(db, record) => {
                store.written(record, db, None, &january(21), 2026)
            }
            other => panic!("{other:?}"),
        },
        other => panic!("{other:?}"),
    }
    assert_eq!(listed(&store, "xxx"), vec!["long"]);
    assert!(listed(&store, "needle").is_empty());
}
