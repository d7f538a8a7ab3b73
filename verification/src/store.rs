//! Storage: capture queue, disk layout, index, pinning and retention.
//!
//! * One database per machine per month: `<machine>/<yyyy-MM>/clips.db`, written
//!   only by the machine it is named after. A sync client resolves the same file
//!   changed twice as last-writer-wins, so one writer per file makes a conflict
//!   physically impossible: no lock, no protocol, no server.
//! * Only the month in progress is ever written. Once a month rolls over its
//!   database is frozen and already uploaded.
//! * Heavy payloads stay out of the database, as `<stem>.bin` siblings.
//! * Pins are empty `<stem>.pin` markers in the folder that owns the clip.
//!   An empty file has identical content on every machine, so two machines
//!   creating the same marker cannot be seen as a conflict.
//! * The row is the commit point: a reader sees the previous or the new state,
//!   never half a clip. Blobs are written before the row that points at them.
//!
//! Everything that touches a disk or a clock is the caller's: it asks what to do,
//! does it, and says what came of it.

use vstd::prelude::*;

pub use crate::deletion::{BinPreview, BinScan, BinScope, Deletion, DupeScan};
pub use crate::settings::needs_blob;
use crate::clip;
use crate::clip::{ClipContext, ClipKind, ClipPayload, ClipRecord, PayloadView, RecordView};
use crate::deletion;
use crate::deletion::DAY_MS;
use crate::index;
use crate::index::{Index, IndexView};
use crate::item;
use crate::item::{ClipItem, ClipSummary, ClipView};
use crate::paths;
use crate::ranking;
use crate::settings;
use crate::settings::{Settings, SettingsView};
use crate::stems::StemSet;
use crate::text;
use crate::win::SYSTEMTIME;

verus! {

pub const BIN_SUFFIX: &'static str = ".bin";

/// Matched exactly rather than by extension, so an unrelated `.db` that happens
/// to sit in the synced folder is never opened as a clip store.
pub const DB_NAME: &'static str = "clips.db";

/// How much of an over-long text is kept inline for searching. The tail exists
/// only in the `.bin` sibling, which a search never opens.
pub const RETAINED_CHARS: usize = 512;

// --------------------------------------------------------------------- contents

/// The SHA-256 digest of a message.
pub uninterp spec fn sha256_of(message: Seq<u8>) -> Seq<u8>;

/// Calls `sha2::Sha256`: a new hasher, `update` with each part in turn, and
/// `finalize`. Updating with two parts digests them put together; the digest of
/// a message depends on its bytes alone and is 32 bytes long.
#[verifier::external_body]
fn sha256(head: &Vec<u8>, body: &Vec<u8>) -> (digest: Vec<u8>)
    ensures
        digest@ == sha256_of(head@ + body@),
        digest@.len() == 32,
{
    let mut hasher = <sha2::Sha256 as sha2::Digest>::new();
    sha2::Digest::update(&mut hasher, head);
    sha2::Digest::update(&mut hasher, body);
    sha2::Digest::finalize(hasher).to_vec()
}

/// The lower case form of a text in all of Unicode.
pub uninterp spec fn lowercase_of(s: Seq<char>) -> Seq<char>;

/// Calls `str::to_lowercase`. The contract only gives the result a name.
#[verifier::external_body]
fn lowercase(s: &str) -> (r: String)
    ensures
        r@ == lowercase_of(s@),
{
    s.to_lowercase()
}

/// What a content is known by: the digest of its kind, in four bytes, and its
/// body. The kind is mixed in so identical bytes stored as text and as an image
/// are different clips. Upper case hex, and frozen: a hash already in a database
/// has to keep matching.
pub open spec fn content_hash(kind: ClipKind, body: Seq<u8>) -> Seq<char> {
    text::hex_of_bytes(sha256_of(seq![clip::kind_number(kind), 0u8, 0u8, 0u8] + body))
}

pub fn hash_of(kind: ClipKind, body: &Vec<u8>) -> (r: String)
    ensures
        r@ == content_hash(kind, body@),
        r@.len() == 64,
{
    let mut head: Vec<u8> = Vec::new();
    head.push(kind.number());
    head.push(0);
    head.push(0);
    head.push(0);
    assert(head@ =~= seq![clip::kind_number(kind), 0u8, 0u8, 0u8]);
    let digest = sha256(&head, body);
    text::hex_text(&digest)
}

/// What stays in the row: the text or its first characters, nothing of an image,
/// the paths one per line.
pub open spec fn inline_text(payload: PayloadView, settings: SettingsView) -> Option<Seq<char>> {
    match payload {
        PayloadView::Text(s) => if settings::heavy(payload, settings) && s.len()
            > RETAINED_CHARS {
            Some(s.take(RETAINED_CHARS as int))
        } else {
            Some(s)
        },
        PayloadView::Image(_) => None,
        PayloadView::Files(list) => Some(text::joined(list, '\n')),
    }
}

/// The sibling file a heavy payload goes to.
pub open spec fn blob_name(payload: PayloadView, stem: Seq<char>, settings: SettingsView) -> Option<
    Seq<char>,
> {
    if settings::heavy(payload, settings) {
        Some(stem + BIN_SUFFIX@)
    } else {
        None
    }
}

/// Decides what stays inline and whether a `.bin` sibling is needed.
/// Inline text is what a search can see, so the split trades coverage against size.
pub fn plan_payload(payload: &ClipPayload, stem: &str, settings: &Settings) -> (r: (
    Option<String>,
    Option<String>,
))
    ensures
        text::opt_view(r.0) == inline_text(payload@, settings@),
        text::opt_view(r.1) == blob_name(payload@, stem@, settings@),
{
    let blob = if settings::needs_blob(payload, settings) {
        let mut name = stem.to_owned();
        name.append(BIN_SUFFIX);
        Some(name)
    } else {
        None
    };
    let inline = match payload {
        ClipPayload::Text(s) => {
            let chars = text::chars_of(s);
            if blob.is_some() && chars.len() > RETAINED_CHARS {
                let kept = text::string_of(&chars, 0, RETAINED_CHARS);
                assert(kept@ =~= s@.take(RETAINED_CHARS as int));
                Some(kept)
            } else {
                Some(s.clone())
            }
        },
        // Images always go to a blob, so listing the history never has to touch
        // a multi-megabyte file.
        ClipPayload::Image(_) => None,
        // A path list is short by construction, so it always stays inline.
        ClipPayload::Files(list) => Some(text::join(list, '\n')),
    };
    (inline, blob)
}

// ------------------------------------------------------------------------- tabs

/// One tab of the instance strip: which machine's clips the list shows, and
/// what to call it. `id` is `None` for the tab that shows everything.
#[derive(Debug)]
pub struct MachineTab {
    pub id: Option<String>,
    pub label: String,
}

#[verifier::ext_equal]
pub struct TabView {
    pub id: Option<Seq<char>>,
    pub label: Seq<char>,
}

impl View for MachineTab {
    type V = TabView;

    open spec fn view(&self) -> TabView {
        TabView { id: text::opt_view(self.id), label: self.label@ }
    }
}

impl Clone for MachineTab {
    fn clone(&self) -> (r: MachineTab)
        ensures
            r@ == self@,
    {
        MachineTab { id: text::copy_opt(&self.id), label: self.label.clone() }
    }
}

pub open spec fn tab_views(tabs: Seq<MachineTab>) -> Seq<TabView> {
    Seq::new(tabs.len(), |i: int| tabs[i]@)
}

pub open spec fn everything_tab() -> TabView {
    TabView { id: None, label: "全部"@ }
}

pub open spec fn own_tab(own: Seq<char>) -> TabView {
    TabView { id: Some(own), label: "本机"@ }
}

pub open spec fn other_tab(id: Seq<char>) -> TabView {
    TabView { id: Some(id), label: id }
}

/// The instances other than this one, in the order they come.
pub open spec fn other_tabs(machines: Seq<(Seq<char>, i64)>, own: Seq<char>) -> Seq<TabView>
    decreases machines.len(),
{
    if machines.len() == 0 {
        Seq::empty()
    } else if machines.last().0 == own {
        other_tabs(machines.drop_last(), own)
    } else {
        other_tabs(machines.drop_last(), own).push(other_tab(machines.last().0))
    }
}

/// Everything, then this machine, then the others.
pub open spec fn tabs_of(machines: Seq<(Seq<char>, i64)>, own: Seq<char>) -> Seq<TabView> {
    seq![everything_tab()] + (if index::lists(machines, own) {
        seq![own_tab(own)]
    } else {
        Seq::empty()
    }) + other_tabs(machines, own)
}

// ---------------------------------------------------------------------- ledger

/// Length and modification time of a file. A sync client that rewrites a file
/// without changing its length still moves the time, so the pair is enough to
/// skip an unchanged one.
#[derive(Clone, Copy, Debug, PartialEq, Eq, Structural)]
pub struct Stamp {
    pub len: u64,
    pub mtime: i64,
}

pub open spec fn ledger_views(loaded: Seq<(String, Stamp)>) -> Seq<(Seq<char>, Stamp)> {
    Seq::new(loaded.len(), |i: int| (loaded[i].0@, loaded[i].1))
}

/// The stamp a database was last read at.
pub open spec fn stamp_in(loaded: Seq<(Seq<char>, Stamp)>, path: Seq<char>) -> Option<Stamp>
    decreases loaded.len(),
{
    if loaded.len() == 0 {
        None
    } else if paths::model(loaded[0].0) == paths::model(path) {
        Some(loaded[0].1)
    } else {
        stamp_in(loaded.drop_first(), path)
    }
}

/// Whether a database has to be read, unless it is to be skipped: it is there, and not
/// as it was when it was read last.
pub open spec fn to_be_read(
    skipped: bool,
    loaded: Seq<(Seq<char>, Stamp)>,
    path: Seq<char>,
    stamp: Option<Stamp>,
) -> bool {
    !skipped && stamp is Some && stamp_in(loaded, path) != stamp
}

/// The ledger with a stamp noted for a database.
pub open spec fn noted(loaded: Seq<(Seq<char>, Stamp)>, path: Seq<char>, stamp: Stamp) -> Seq<
    (Seq<char>, Stamp),
>
    decreases loaded.len(),
{
    if loaded.len() == 0 {
        seq![(path, stamp)]
    } else if paths::model(loaded[0].0) == paths::model(path) {
        seq![(loaded[0].0, stamp)] + loaded.drop_first()
    } else {
        seq![loaded[0]] + noted(loaded.drop_first(), path, stamp)
    }
}

/// The ledger without a database.
pub open spec fn unnoted(loaded: Seq<(Seq<char>, Stamp)>, path: Seq<char>) -> Seq<
    (Seq<char>, Stamp),
>
    decreases loaded.len(),
{
    if loaded.len() == 0 {
        Seq::empty()
    } else if paths::model(loaded[0].0) == paths::model(path) {
        unnoted(loaded.drop_first(), path)
    } else {
        seq![loaded[0]] + unnoted(loaded.drop_first(), path)
    }
}

/// A noted stamp is what is found for that database, and what is found for the
/// others stays.
pub proof fn law_ledger_note(
    loaded: Seq<(Seq<char>, Stamp)>,
    path: Seq<char>,
    stamp: Stamp,
    other: Seq<char>,
)
    ensures
        stamp_in(noted(loaded, path, stamp), other) == if paths::model(other) == paths::model(
            path,
        ) {
            Some(stamp)
        } else {
            stamp_in(loaded, other)
        },
    decreases loaded.len(),
{
    let after = noted(loaded, path, stamp);
    if loaded.len() == 0 {
        assert(stamp_in(after.drop_first(), other) is None);
    } else if paths::model(loaded[0].0) == paths::model(path) {
        assert(after.drop_first() =~= loaded.drop_first());
    } else {
        assert(after.drop_first() =~= noted(loaded.drop_first(), path, stamp));
        law_ledger_note(loaded.drop_first(), path, stamp, other);
    }
}

/// A database that is taken out of the ledger is read again when it comes back,
/// and what is found for the others stays.
pub proof fn law_ledger_forget(loaded: Seq<(Seq<char>, Stamp)>, path: Seq<char>, other: Seq<char>)
    ensures
        stamp_in(unnoted(loaded, path), other) == if paths::model(other) == paths::model(path) {
            None
        } else {
            stamp_in(loaded, other)
        },
    decreases loaded.len(),
{
    let after = unnoted(loaded, path);
    if loaded.len() > 0 {
        law_ledger_forget(loaded.drop_first(), path, other);
        if paths::model(loaded[0].0) != paths::model(path) {
            assert(after.drop_first() =~= unnoted(loaded.drop_first(), path));
        }
    }
}

// -------------------------------------------------------------------- the store

pub struct Store {
    settings: Settings,
    index: Index,
    queue: Vec<(ClipPayload, ClipContext)>,
    /// Every database already read and its stamp then, so the periodic rescan
    /// re-reads what changed instead of every row of every month every minute.
    loaded: Vec<(String, Stamp)>,
    /// This machine's own folder, lowercased and with a trailing separator.
    own_root: String,
}

#[verifier::ext_equal]
pub struct ContextView {
    pub app: Seq<char>,
    pub title: Seq<char>,
}

pub open spec fn context_view(context: ClipContext) -> ContextView {
    ContextView { app: context.app@, title: context.title@ }
}

/// A store as plain values.
#[verifier::ext_equal]
pub struct StoreView {
    pub settings: SettingsView,
    pub index: IndexView,
    pub queue: Seq<(PayloadView, ContextView)>,
    pub loaded: Seq<(Seq<char>, Stamp)>,
    pub own_root: Seq<char>,
}

pub open spec fn queue_views(queue: Seq<(ClipPayload, ClipContext)>) -> Seq<
    (PayloadView, ContextView),
> {
    Seq::new(queue.len(), |i: int| (queue[i].0@, context_view(queue[i].1)))
}

impl View for Store {
    type V = StoreView;

    closed spec fn view(&self) -> StoreView {
        StoreView {
            settings: self.settings@,
            index: self.index@,
            queue: queue_views(self.queue@),
            loaded: ledger_views(self.loaded@),
            own_root: self.own_root@,
        }
    }
}

/// A machine's own folder as paths are compared with it.
pub open spec fn own_root_of(settings: SettingsView) -> Seq<char> {
    lowercase_of(paths::joined(settings.sync_root, settings.machine_id)).push('\\')
}

impl Store {
    /// The index is in order, and the own folder is that of the settings.
    pub closed spec fn wf(&self) -> bool {
        self.index.wf() && self.own_root@ == own_root_of(self.settings@)
    }

    /// What a well formed store says of its clips and its own folder.
    pub proof fn lemma_wf(&self)
        requires
            self.wf(),
        ensures
            ranking::newest_first(self@.index.items),
            index::distinct_stems(self@.index.items),
            self@.own_root == own_root_of(self@.settings),
    {
        self.index.lemma_wf();
    }

    /// An empty store. A rescan fills it, and has to before anything is captured:
    /// the index it builds is what stops a restart from re-writing clips that are
    /// already stored.
    pub fn new(settings: Settings) -> (r: Store)
        ensures
            r.wf(),
            r@.settings == settings@,
            r@.index.items.len() == 0,
            r@.index.hidden == Set::<Seq<char>>::empty(),
            r@.queue.len() == 0,
            r@.loaded.len() == 0,
            r@.own_root == own_root_of(settings@),
    {
        let mut own_root = lowercase(&settings.history_root());
        own_root.push('\\');
        Store {
            settings,
            index: Index::default(),
            queue: Vec::new(),
            loaded: Vec::new(),
            own_root,
        }
    }

    pub fn settings(&self) -> (r: &Settings)
        ensures
            r@ == self@.settings,
    {
        &self.settings
    }

    /// How many clips there are, tombstoned ones among them.
    pub fn len(&self) -> (n: usize)
        ensures
            n == self@.index.items.len(),
    {
        self.index.len()
    }

    // -------------------------------------------------------------------- capture

    /// Hands a captured payload to the writer. The context is read at capture
    /// time and travels with the payload, because the window it describes is gone
    /// by the time this is written. An empty payload is not handed on.
    pub fn enqueue(&mut self, payload: ClipPayload, context: ClipContext)
        requires
            old(self).wf(),
        ensures
            final(self).wf(),
            final(self)@ == (StoreView {
                queue: if clip::payload_empty(payload@) {
                    old(self)@.queue
                } else {
                    old(self)@.queue.push((payload@, context_view(context)))
                },
                ..old(self)@
            }),
    {
        if payload.is_empty() {
            return ;
        }
        let ghost before = self.queue@;
        self.queue.push((payload, context));
        assert(queue_views(self.queue@) =~= queue_views(before).push(
            (payload@, context_view(context)),
        ));
    }

    /// Takes everything that is waiting, in the order it came.
    pub fn drain(&mut self) -> (r: Vec<(ClipPayload, ClipContext)>)
        requires
            old(self).wf(),
        ensures
            final(self).wf(),
            queue_views(r@) == old(self)@.queue,
            final(self)@ == (StoreView { queue: Seq::empty(), ..old(self)@ }),
    {
        let mut r: Vec<(ClipPayload, ClipContext)> = Vec::new();
        std::mem::swap(&mut r, &mut self.queue);
        assert(queue_views(self.queue@) =~= Seq::empty());
        r
    }
}

// ---------------------------------------------------------------------- a capture

/// One thing to do, in order, to write a clip down.
#[derive(Debug)]
pub enum WriteStep {
    CreateFolder(String),
    WriteBlob(String, Vec<u8>),
    InsertRow(String, ClipRecord),
}

#[verifier::ext_equal]
pub enum StepView {
    CreateFolder(Seq<char>),
    WriteBlob(Seq<char>, Seq<u8>),
    InsertRow(Seq<char>, RecordView),
}

impl View for WriteStep {
    type V = StepView;

    open spec fn view(&self) -> StepView {
        match self {
            WriteStep::CreateFolder(folder) => StepView::CreateFolder(folder@),
            WriteStep::WriteBlob(path, body) => StepView::WriteBlob(path@, body@),
            WriteStep::InsertRow(path, record) => StepView::InsertRow(path@, record@),
        }
    }
}

pub open spec fn step_views(steps: Seq<WriteStep>) -> Seq<StepView> {
    Seq::new(steps.len(), |i: int| steps[i]@)
}

/// What comes of a captured payload.
#[derive(Debug)]
pub enum Capture {
    /// Larger than the limit: dropped.
    Oversized,
    /// Re-copied from history, pasted back out, or written by another machine.
    /// Rows are never rewritten.
    AlreadyStored,
    Write(Vec<WriteStep>),
}

/// The folder this machine writes in during a month.
pub open spec fn month_folder(settings: SettingsView, month: Seq<char>) -> Seq<char> {
    paths::joined(paths::joined(settings.sync_root, settings.machine_id), month)
}

pub open spec fn db_in(folder: Seq<char>) -> Seq<char> {
    paths::joined(folder, DB_NAME@)
}

/// The row a payload is written as.
pub open spec fn new_record(
    payload: PayloadView,
    context: ContextView,
    now: i64,
    stem: Seq<char>,
    settings: SettingsView,
) -> RecordView {
    RecordView {
        id: stem,
        at: now,
        machine: settings.machine_id,
        kind: clip::kind_name(clip::payload_kind(payload)),
        hash: content_hash(clip::payload_kind(payload), clip::payload_body(payload)),
        text: inline_text(payload, settings),
        length: clip::payload_body(payload).len() as i64,
        blob: blob_name(payload, stem, settings),
        app: context.app,
        title: context.title,
    }
}

/// The folder first, then the blob if there is one, and the row last.
pub open spec fn write_steps(
    payload: PayloadView,
    context: ContextView,
    now: i64,
    month: Seq<char>,
    stem: Seq<char>,
    settings: SettingsView,
) -> Seq<StepView> {
    let folder = month_folder(settings, month);
    let record = new_record(payload, context, now, stem, settings);
    seq![StepView::CreateFolder(folder)] + (match record.blob {
        Some(name) => seq![
            StepView::WriteBlob(paths::joined(folder, name), clip::payload_body(payload)),
        ],
        None => Seq::empty(),
    }) + seq![StepView::InsertRow(db_in(folder), record)]
}

/// Whether this content is in the index.
pub open spec fn is_stored(payload: PayloadView, index: IndexView) -> bool {
    index::carries(
        index.items,
        content_hash(clip::payload_kind(payload), clip::payload_body(payload)),
    )
}

impl Store {
    /// Decides what comes of a captured payload, at `now`, in the month `month`
    /// and under the stem `stem`.
    pub fn persist(
        &self,
        payload: &ClipPayload,
        context: &ClipContext,
        now: i64,
        month: &str,
        stem: &str,
    ) -> (r: Capture)
        requires
            self.wf(),
        ensures
            r is Oversized <==> clip::payload_body(payload@).len() > self@.settings.max_blob_bytes,
            r is AlreadyStored <==> clip::payload_body(payload@).len()
                <= self@.settings.max_blob_bytes && is_stored(payload@, self@.index),
            r matches Capture::Write(steps) ==> step_views(steps@) == write_steps(
                payload@,
                context_view(*context),
                now,
                month@,
                stem@,
                self@.settings,
            ),
    {
        let body = payload.body();
        if body.len() as u64 > self.settings.max_blob_bytes {
            return Capture::Oversized;
        }
        let hash = hash_of(payload.kind(), &body);
        if self.index.has_hash(&hash) {
            return Capture::AlreadyStored;
        }
        let folder = paths::join(&self.settings.history_root(), month);
        let (inline, blob) = plan_payload(payload, stem, &self.settings);
        let record = ClipRecord {
            id: stem.to_owned(),
            at: now,
            machine: self.settings.machine_id.clone(),
            kind: payload.kind().name().to_owned(),
            hash,
            text: inline,
            length: body.len() as i64,
            blob: text::copy_opt(&blob),
            app: context.app.clone(),
            title: context.title.clone(),
        };
        assert(record@ =~= new_record(
            payload@,
            context_view(*context),
            now,
            stem@,
            self@.settings,
        ));
        let mut steps: Vec<WriteStep> = Vec::new();
        let db_path = paths::join(&folder, DB_NAME);
        // The blob goes before the row: a reader that sees a blob without a row
        // ignores it, whereas a row pointing at a missing blob is a broken entry.
        let blob_path = match &blob {
            Some(name) => Some(paths::join(&folder, name)),
            None => None,
        };
        steps.push(WriteStep::CreateFolder(folder));
        if let Some(path) = blob_path {
            steps.push(WriteStep::WriteBlob(path, body));
        }
        steps.push(WriteStep::InsertRow(db_path, record));
        assert(step_views(steps@) =~= write_steps(
            payload@,
            context_view(*context),
            now,
            month@,
            stem@,
            self@.settings,
        ));
        Capture::Write(steps)
    }

    /// Takes a clip that was just written into the index. `stamp` is that of the
    /// database now, so that the rescan does not read this machine's own month
    /// again: it changes on every capture and its rows are already here. `when`
    /// is the local time of the clip.
    pub fn written(
        &mut self,
        record: &ClipRecord,
        db_path: &str,
        stamp: Option<Stamp>,
        when: &SYSTEMTIME,
        now_year: u16,
    )
        requires
            old(self).wf(),
        ensures
            final(self).wf(),
            final(self)@ == (StoreView {
                index: IndexView {
                    items: index::added(
                        old(self)@.index.items,
                        item::item_of(
                            record@,
                            db_path@,
                            record@.id,
                            false,
                            old(self)@.settings.machine_id,
                            *when,
                            now_year,
                        ),
                    ),
                    hidden: old(self)@.index.hidden,
                },
                loaded: match stamp {
                    Some(stamp) => noted(old(self)@.loaded, db_path@, stamp),
                    None => old(self)@.loaded,
                },
                ..old(self)@
            }),
    {
        if let Some(stamp) = stamp {
            self.remember_db(db_path, stamp);
        }
        let clip = ClipItem::from_record(
            record,
            db_path.to_owned(),
            record.id.clone(),
            false,
            &self.settings.machine_id,
            when,
            now_year,
        );
        self.index.insert(clip);
    }

    /// Records a database as seen.
    fn remember_db(&mut self, path: &str, stamp: Stamp)
        requires
            old(self).wf(),
        ensures
            final(self).wf(),
            final(self)@ == (StoreView {
                loaded: noted(old(self)@.loaded, path@, stamp),
                ..old(self)@
            }),
    {
        let ghost all = ledger_views(self.loaded@);
        let mut i: usize = 0;
        assert(all.skip(0) =~= all);
        assert(all.take(0) + noted(all.skip(0), path@, stamp) =~= noted(all, path@, stamp));
        while i < self.loaded.len()
            invariant
                i <= self.loaded@.len(),
                *self == *old(self),
                self.wf(),
                all == ledger_views(self.loaded@),
                all.take(i as int) + noted(all.skip(i as int), path@, stamp) == noted(
                    all,
                    path@,
                    stamp,
                ),
            decreases self.loaded@.len() - i,
        {
            let ghost rest = all.skip(i as int);
            assert(rest[0] == all[i as int]);
            assert(rest.drop_first() =~= all.skip(i as int + 1));
            if paths::same_path(&self.loaded[i].0, path) {
                let key = self.loaded[i].0.clone();
                self.loaded.set(i, (key, stamp));
                proof {
                    assert(ledger_views(self.loaded@) =~= all.take(i as int) + noted(
                        rest,
                        path@,
                        stamp,
                    ));
                }
                return ;
            }
            proof {
                let a = all.take(i as int);
                let b = noted(rest.drop_first(), path@, stamp);
                assert(all.take(i as int + 1) =~= a.push(all[i as int]));
                assert(a + (seq![all[i as int]] + b) =~= a.push(all[i as int]) + b);
            }
            i += 1;
        }
        proof {
            assert(all.skip(i as int) =~= Seq::empty());
            assert(all.take(i as int) =~= all);
        }
        self.loaded.push((path.to_owned(), stamp));
        assert(ledger_views(self.loaded@) =~= noted(all, path@, stamp));
    }

    // -------------------------------------------------------------------- reading

    /// One instance's clips, or every instance's when `machine` is `None`.
    /// `filter` is the search box, lowercased here and taken apart in the index.
    pub fn query(&self, machine: Option<&str>, filter: &str, limit: usize) -> (out: Vec<
        ClipSummary,
    >)
        ensures
            index::row_views(out@) == index::first_rows(
                index::listing(
                    self@.index,
                    match machine {
                        Some(id) => Some(id@),
                        None => None,
                    },
                    needle_of(filter@),
                ),
                limit as nat,
            ),
    {
        let needle = text::to_ascii_lowercase(&text::trim(filter));
        if needle.as_str().is_empty() {
            self.index.query(machine, None, limit)
        } else {
            self.index.query(machine, Some(needle.as_str()), limit)
        }
    }

    /// The instance strip: everything, then this machine, then the others in the
    /// order they last captured something.
    pub fn machines(&self) -> (tabs: Vec<MachineTab>)
        ensures
            tab_views(tabs@) == tabs_of(
                index::active(self@.index.items),
                self@.settings.machine_id,
            ),
    {
        let ids = self.index.machines();
        let ghost all = index::machine_views(ids@);
        let ghost own = self@.settings.machine_id;
        let mut tabs: Vec<MachineTab> = Vec::new();
        tabs.push(MachineTab { id: None, label: "全部".to_owned() });
        let mut here = false;
        let mut i: usize = 0;
        while i < ids.len() && !here
            invariant
                i <= ids@.len(),
                all == index::machine_views(ids@),
                own == self.settings@.machine_id,
                here ==> index::lists(all, own),
                !here ==> forall|j: int| 0 <= j < i ==> all[j].0 != own,
            decreases ids@.len() - i,
        {
            assert(all[i as int].0 == ids@[i as int].0@);
            if text::same_text(&ids[i].0, &self.settings.machine_id) {
                here = true;
            }
            i += 1;
        }
        if here {
            tabs.push(
                MachineTab {
                    id: Some(self.settings.machine_id.clone()),
                    label: "本机".to_owned(),
                },
            );
        }
        let ghost head = tab_views(tabs@);
        assert(head =~= seq![everything_tab()] + (if index::lists(all, own) {
            seq![own_tab(own)]
        } else {
            Seq::empty()
        }));
        i = 0;
        assert(tab_views(tabs@) =~= head + other_tabs(all.take(0), own));
        while i < ids.len()
            invariant
                i <= ids@.len(),
                all == index::machine_views(ids@),
                own == self.settings@.machine_id,
                tab_views(tabs@) == head + other_tabs(all.take(i as int), own),
            decreases ids@.len() - i,
        {
            let ghost upto = all.take(i as int + 1);
            let ghost before = tabs@;
            assert(upto.drop_last() =~= all.take(i as int));
            assert(upto.last().0 == ids@[i as int].0@);
            if !text::same_text(&ids[i].0, &self.settings.machine_id) {
                let id = ids[i].0.clone();
                let label = ids[i].0.clone();
                tabs.push(MachineTab { id: Some(id), label });
                assert(tab_views(tabs@) =~= tab_views(before).push(other_tab(upto.last().0)));
                assert(tab_views(tabs@) =~= head + other_tabs(upto, own));
            }
            i += 1;
        }
        assert(all.take(i as int) =~= all);
        tabs
    }
}

/// What a search box asks for: nothing when there is only white space in it.
pub open spec fn needle_of(filter: Seq<char>) -> Option<Seq<char>> {
    let needle = text::lowered(text::trimmed(filter));
    if needle.len() == 0 {
        None
    } else {
        Some(needle)
    }
}

// ----------------------------------------------------------------- paste-back

/// Where the content of a clip is to be had.
#[derive(Debug)]
pub enum PayloadSource {
    /// No such clip, or one whose content was never kept.
    Missing,
    Ready(ClipPayload),
    /// The content is the whole of this file.
    ImageBlob(String),
    /// The content is the text in this file.
    TextBlob(String),
}

#[verifier::ext_equal]
pub enum SourceView {
    Missing,
    Ready(PayloadView),
    ImageBlob(Seq<char>),
    TextBlob(Seq<char>),
}

impl View for PayloadSource {
    type V = SourceView;

    open spec fn view(&self) -> SourceView {
        match self {
            PayloadSource::Missing => SourceView::Missing,
            PayloadSource::Ready(payload) => SourceView::Ready(payload@),
            PayloadSource::ImageBlob(path) => SourceView::ImageBlob(path@),
            PayloadSource::TextBlob(path) => SourceView::TextBlob(path@),
        }
    }
}

pub open spec fn filled(line: Seq<char>) -> bool {
    line.len() > 0
}

/// The lines that are not empty.
pub open spec fn filled_lines(lines: Seq<Seq<char>>) -> Seq<Seq<char>>
    decreases lines.len(),
{
    if lines.len() == 0 {
        Seq::empty()
    } else if filled(lines.last()) {
        filled_lines(lines.drop_last()).push(lines.last())
    } else {
        filled_lines(lines.drop_last())
    }
}

pub open spec fn source_of(clip: ClipView) -> SourceView {
    match clip.kind {
        ClipKind::Image => if clip.has_blob {
            SourceView::ImageBlob(clip.blob_path)
        } else {
            SourceView::Missing
        },
        ClipKind::Text => if clip.has_blob {
            SourceView::TextBlob(clip.blob_path)
        } else {
            SourceView::Ready(PayloadView::Text(clip.text))
        },
        ClipKind::Files => SourceView::Ready(
            PayloadView::Files(filled_lines(text::lines_of(clip.text))),
        ),
    }
}

impl Store {
    /// Says where a clip's content is, for paste-back. Only a clip with a blob
    /// asks for a file to be read.
    pub fn read_payload(&self, stem: &str) -> (r: PayloadSource)
        ensures
            r@ == (match index::lookup(self@.index.items, stem@) {
                Some(clip) => source_of(clip),
                None => SourceView::Missing,
            }),
    {
        let clip = match self.index.find(stem) {
            Some(clip) => clip,
            None => return PayloadSource::Missing,
        };
        match clip.kind {
            ClipKind::Image => if clip.has_blob {
                PayloadSource::ImageBlob(clip.blob_path.clone())
            } else {
                PayloadSource::Missing
            },
            ClipKind::Text => if clip.has_blob {
                PayloadSource::TextBlob(clip.blob_path.clone())
            } else {
                PayloadSource::Ready(ClipPayload::Text(clip.text.clone()))
            },
            ClipKind::Files => {
                let lines = text::lines(&clip.text);
                let ghost all = text::views(lines@);
                let mut list: Vec<String> = Vec::new();
                let mut i: usize = 0;
                assert(text::views(list@) =~= filled_lines(all.take(0)));
                while i < lines.len()
                    invariant
                        i <= lines@.len(),
                        all == text::views(lines@),
                        text::views(list@) == filled_lines(all.take(i as int)),
                    decreases lines@.len() - i,
                {
                    let ghost upto = all.take(i as int + 1);
                    let ghost before = list@;
                    assert(upto.drop_last() =~= all.take(i as int));
                    assert(upto.last() == lines@[i as int]@);
                    if !lines[i].as_str().is_empty() {
                        list.push(lines[i].clone());
                        assert(text::views(list@) =~= text::views(before).push(upto.last()));
                    }
                    i += 1;
                }
                assert(all.take(i as int) =~= all);
                PayloadSource::Ready(ClipPayload::Files(list))
            },
        }
    }
}

// --------------------------------------------------------------------- the folder

/// What a file in the synced folder is to us.
#[derive(Debug)]
pub enum FileKind {
    Database,
    Pin(String),
    Tombstone(String),
    Other,
}

#[verifier::ext_equal]
pub enum FileKindView {
    Database,
    Pin(Seq<char>),
    Tombstone(Seq<char>),
    Other,
}

impl View for FileKind {
    type V = FileKindView;

    open spec fn view(&self) -> FileKindView {
        match self {
            FileKind::Database => FileKindView::Database,
            FileKind::Pin(stem) => FileKindView::Pin(stem@),
            FileKind::Tombstone(stem) => FileKindView::Tombstone(stem@),
            FileKind::Other => FileKindView::Other,
        }
    }
}

pub open spec fn before_suffix(name: Seq<char>, suffix: Seq<char>) -> Seq<char> {
    name.take(name.len() - suffix.len())
}

/// A file by its name: a database, a marker for the stem before its suffix, or
/// nothing of ours.
pub open spec fn kind_of_file(path: Seq<char>) -> FileKindView {
    match paths::file_name_of(path) {
        None => FileKindView::Other,
        Some(name) => if name == DB_NAME@ {
            FileKindView::Database
        } else if text::ends_with(name, item::PIN_SUFFIX@) {
            FileKindView::Pin(before_suffix(name, item::PIN_SUFFIX@))
        } else if text::ends_with(name, item::HIDDEN_SUFFIX@) {
            FileKindView::Tombstone(before_suffix(name, item::HIDDEN_SUFFIX@))
        } else {
            FileKindView::Other
        },
    }
}

pub fn file_kind(path: &str) -> (r: FileKind)
    ensures
        r@ == kind_of_file(path@),
{
    let name = match paths::file_name(path) {
        Some(name) => name,
        None => return FileKind::Other,
    };
    if text::same_text(&name, DB_NAME) {
        return FileKind::Database;
    }
    if let Some(stem) = text::strip_suffix(&name, item::PIN_SUFFIX) {
        return FileKind::Pin(stem);
    }
    if let Some(stem) = text::strip_suffix(&name, item::HIDDEN_SUFFIX) {
        return FileKind::Tombstone(stem);
    }
    FileKind::Other
}

/// What a walk over the synced folder found.
pub struct Walk {
    pub databases: Vec<String>,
    pub pinned: StemSet,
    pub hidden: StemSet,
}

pub open spec fn databases_among(files: Seq<Seq<char>>) -> Seq<Seq<char>>
    decreases files.len(),
{
    if files.len() == 0 {
        Seq::empty()
    } else if kind_of_file(files.last()) == FileKindView::Database {
        databases_among(files.drop_last()).push(files.last())
    } else {
        databases_among(files.drop_last())
    }
}

/// The stems with a pin marker among the files. A marker without a stem is none.
pub open spec fn pins_among(files: Seq<Seq<char>>) -> Set<Seq<char>>
    decreases files.len(),
{
    if files.len() == 0 {
        Set::empty()
    } else {
        match kind_of_file(files.last()) {
            FileKindView::Pin(stem) => if stem.len() > 0 {
                pins_among(files.drop_last()).insert(stem)
            } else {
                pins_among(files.drop_last())
            },
            _ => pins_among(files.drop_last()),
        }
    }
}

/// The stems with a tombstone among the files.
pub open spec fn tombstones_among(files: Seq<Seq<char>>) -> Set<Seq<char>>
    decreases files.len(),
{
    if files.len() == 0 {
        Set::empty()
    } else {
        match kind_of_file(files.last()) {
            FileKindView::Tombstone(stem) => if stem.len() > 0 {
                tombstones_among(files.drop_last()).insert(stem)
            } else {
                tombstones_among(files.drop_last())
            },
            _ => tombstones_among(files.drop_last()),
        }
    }
}

/// Sorts out the files under the sync root: every database, plus the pin and
/// tombstone markers beside them.
pub fn walk(files: &Vec<String>) -> (r: Walk)
    ensures
        r.pinned.wf(),
        r.hidden.wf(),
        text::views(r.databases@) == databases_among(text::views(files@)),
        r.pinned@ == pins_among(text::views(files@)),
        r.hidden@ == tombstones_among(text::views(files@)),
{
    let ghost all = text::views(files@);
    let mut databases: Vec<String> = Vec::new();
    let mut pinned = StemSet::new();
    let mut hidden = StemSet::new();
    let mut i: usize = 0;
    assert(text::views(databases@) =~= databases_among(all.take(0)));
    while i < files.len()
        invariant
            i <= files@.len(),
            all == text::views(files@),
            pinned.wf(),
            hidden.wf(),
            text::views(databases@) == databases_among(all.take(i as int)),
            pinned@ == pins_among(all.take(i as int)),
            hidden@ == tombstones_among(all.take(i as int)),
        decreases files@.len() - i,
    {
        let ghost upto = all.take(i as int + 1);
        let ghost before = databases@;
        assert(upto.drop_last() =~= all.take(i as int));
        assert(upto.last() == files@[i as int]@);
        match file_kind(&files[i]) {
            FileKind::Database => {
                databases.push(files[i].clone());
                assert(text::views(databases@) =~= text::views(before).push(upto.last()));
            },
            FileKind::Pin(stem) => {
                if !stem.as_str().is_empty() {
                    pinned.insert(stem);
                }
            },
            FileKind::Tombstone(stem) => {
                if !stem.as_str().is_empty() {
                    hidden.insert(stem);
                }
            },
            FileKind::Other => {},
        }
        i += 1;
    }
    assert(all.take(i as int) =~= all);
    Walk { databases, pinned, hidden }
}

/// One row, straight out of the database.
#[derive(Debug)]
pub struct Row {
    pub stem: String,
    pub at: i64,
    pub machine: String,
    pub kind: String,
    pub hash: String,
    pub text: Option<String>,
    pub length: i64,
    pub blob: Option<String>,
    /// The source window. `None` where the row leaves it out, which reads as
    /// empty rather than failing the whole database.
    pub app: Option<String>,
    pub title: Option<String>,
}

pub open spec fn or_empty(s: Option<String>) -> Seq<char> {
    match s {
        Some(s) => s@,
        None => Seq::empty(),
    }
}

pub open spec fn record_in(row: Row) -> RecordView {
    RecordView {
        id: row.stem@,
        at: row.at,
        machine: row.machine@,
        kind: row.kind@,
        hash: row.hash@,
        text: text::opt_view(row.text),
        length: row.length,
        blob: text::opt_view(row.blob),
        app: or_empty(row.app),
        title: or_empty(row.title),
    }
}

impl Row {
    pub fn into_record(self) -> (r: ClipRecord)
        ensures
            r@ == record_in(self),
            r.id@ == self.stem@,
            r.at == self.at,
            r.machine@ == self.machine@,
            r.kind@ == self.kind@,
            r.hash@ == self.hash@,
            r.text == self.text,
            r.length == self.length,
            r.blob == self.blob,
            self.app is Some ==> r.app == self.app->0,
            self.app is None ==> r.app@.len() == 0,
            self.title is Some ==> r.title == self.title->0,
            self.title is None ==> r.title@.len() == 0,
    {
        let app = match self.app {
            Some(s) => s,
            None => String::new(),
        };
        let title = match self.title {
            Some(s) => s,
            None => String::new(),
        };
        assert(app@ =~= or_empty(self.app));
        assert(title@ =~= or_empty(self.title));
        ClipRecord {
            id: self.stem,
            at: self.at,
            machine: self.machine,
            kind: self.kind,
            hash: self.hash,
            text: self.text,
            length: self.length,
            blob: self.blob,
            app,
            title,
        }
    }
}

/// A row together with what was found out about it: whether its pin marker is
/// there, and the local time of its clip.
#[derive(Debug)]
pub struct LoadedRow {
    pub row: Row,
    pub pinned: bool,
    pub when: SYSTEMTIME,
}

/// The clips the rows of a database stand for.
pub open spec fn clips_in(
    rows: Seq<LoadedRow>,
    db_path: Seq<char>,
    local_machine: Seq<char>,
    now_year: u16,
) -> Seq<ClipView> {
    Seq::new(
        rows.len(),
        |i: int|
            item::item_of(
                record_in(rows[i].row),
                db_path,
                rows[i].row.stem@,
                rows[i].pinned,
                local_machine,
                rows[i].when,
                now_year,
            ),
    )
}

/// The index with one database read anew: what it held is gone, what its rows say
/// is in.
pub open spec fn reloaded(
    items: Seq<ClipView>,
    db_path: Seq<char>,
    fresh: Seq<ClipView>,
) -> Seq<ClipView> {
    index::added_all(items.filter(index::not_from(db_path)), fresh)
}

impl Store {
    /// Whether a path is in this machine's own folder. A comparison of lower case
    /// text, because a sync client may spell the folder in its own way. Getting
    /// this wrong only costs a redundant reload, never correctness.
    fn is_own_db(&self, path: &str) -> (r: bool)
        ensures
            r == text::starts_with(lowercase_of(path@), self@.own_root),
    {
        let spelled = lowercase(path);
        text::strip_prefix(&spelled, &self.own_root).is_some()
    }

    /// Whether a database has to be read. `stamp` is that of the file now, `None`
    /// when there is none. `skip_own` is for the watcher: this machine's own
    /// database changes on every capture and its rows are already in the index.
    pub fn refresh_db(&self, path: &str, skip_own: bool, stamp: Option<Stamp>) -> (r: bool)
        ensures
            r == (!(skip_own && text::starts_with(lowercase_of(path@), self@.own_root))
                && stamp is Some && stamp_in(self@.loaded, path@) != stamp),
            r == to_be_read(
                skip_own && text::starts_with(lowercase_of(path@), self@.own_root),
                self@.loaded,
                path@,
                stamp,
            ),
    {
        if skip_own && self.is_own_db(path) {
            return false;
        }
        let now = match stamp {
            Some(now) => now,
            None => return false,
        };
        let ghost all = self@.loaded;
        let mut i: usize = 0;
        assert(all.skip(0) =~= all);
        while i < self.loaded.len()
            invariant
                i <= self.loaded@.len(),
                all == ledger_views(self.loaded@),
                stamp == Some(now),
                !(skip_own && text::starts_with(lowercase_of(path@), self@.own_root)),
                stamp_in(all.skip(i as int), path@) == stamp_in(all, path@),
            decreases self.loaded@.len() - i,
        {
            let ghost rest = all.skip(i as int);
            assert(rest[0] == all[i as int]);
            assert(rest.drop_first() =~= all.skip(i as int + 1));
            if paths::same_path(&self.loaded[i].0, path) {
                return self.loaded[i].1 != now;
            }
            i += 1;
        }
        true
    }

    /// Swaps the rows of one database into the index, and returns how many there
    /// were.
    ///
    /// Read first, forget second: this is called once the rows are all there, so
    /// a database that cannot be read leaves the previous snapshot in place
    /// instead of emptying part of the history.
    pub fn load_db(
        &mut self,
        path: &str,
        rows: Vec<LoadedRow>,
        now_year: u16,
        stamp: Stamp,
    ) -> (count: usize)
        requires
            old(self).wf(),
        ensures
            final(self).wf(),
            count == rows@.len(),
            final(self)@ == (StoreView {
                index: IndexView {
                    items: reloaded(
                        old(self)@.index.items,
                        path@,
                        clips_in(rows@, path@, old(self)@.settings.machine_id, now_year),
                    ),
                    hidden: old(self)@.index.hidden,
                },
                loaded: noted(old(self)@.loaded, path@, stamp),
                ..old(self)@
            }),
    {
        let ghost machine = self.settings@.machine_id;
        let ghost all = rows@;
        let count = rows.len();
        let mut rest = rows;
        let mut backwards: Vec<ClipItem> = Vec::new();
        while rest.len() > 0
            invariant
                rest@.len() + backwards@.len() == all.len(),
                rest@ == all.take(rest@.len() as int),
                machine == self.settings@.machine_id,
                *self == *old(self),
                forall|j: int|
                    0 <= j < backwards@.len() ==> #[trigger] backwards@[j]@ == clips_in(
                        all,
                        path@,
                        machine,
                        now_year,
                    )[all.len() - 1 - j],
            decreases rest@.len(),
        {
            let ghost n = rest@.len();
            if let Some(loaded) = rest.pop() {
                assert(loaded == all[n - 1]);
                let pinned = loaded.pinned;
                let when = loaded.when;
                let stem = loaded.row.stem.clone();
                let record = loaded.row.into_record();
                let clip = ClipItem::from_record(
                    &record,
                    path.to_owned(),
                    stem,
                    pinned,
                    &self.settings.machine_id,
                    &when,
                    now_year,
                );
                backwards.push(clip);
            }
            assert(rest@ =~= all.take(n - 1));
        }
        let items = ranking::reversed(backwards);
        assert(ranking::item_views(items@) =~= clips_in(all, path@, machine, now_year));
        self.index.forget_db(path);
        // One merge rather than one insert per row: this runs again for every
        // change to a database, and each insert shifts the whole index.
        self.index.insert_many(items);
        self.remember_db(path, stamp);
        count
    }

    /// The end of a full folder walk: the markers that were found are all there
    /// are.
    pub fn rescan(&mut self, pinned: &StemSet, hidden: &StemSet)
        requires
            old(self).wf(),
            pinned.wf(),
            hidden.wf(),
        ensures
            final(self).wf(),
            final(self)@ == (StoreView {
                index: IndexView {
                    items: index::pinned_by(old(self)@.index.items, pinned@),
                    hidden: hidden@,
                },
                ..old(self)@
            }),
    {
        self.index.apply_pin_state(pinned);
        self.index.apply_hidden_state(hidden);
    }

    // ----------------------------------------------------------------------- pins

    /// The marker that says a clip is pinned; `None` when there is no such clip.
    ///
    /// The marker lives in the synced folder on purpose: pinning is most useful
    /// for exactly the snippets you want on every machine, so it has to travel.
    pub fn pin_path(&self, stem: &str) -> (r: Option<String>)
        ensures
            text::opt_view(r) == (match index::lookup(self@.index.items, stem@) {
                Some(clip) => Some(
                    item::marker_path(clip.db_path, clip.stem, item::PIN_SUFFIX@),
                ),
                None => None,
            }),
    {
        match self.index.find(stem) {
            Some(clip) => Some(clip.pin_path()),
            None => None,
        }
    }

    /// Follows the marker: once it was written or removed, the clip is pinned or
    /// not. Returns false when there is no such clip.
    pub fn set_pinned(&mut self, stem: &str, pinned: bool) -> (r: bool)
        requires
            old(self).wf(),
        ensures
            final(self).wf(),
            r == index::knows(old(self)@.index.items, stem@),
            final(self)@ == (StoreView {
                index: IndexView {
                    items: index::repinned(old(self)@.index.items, stem@, pinned),
                    hidden: old(self)@.index.hidden,
                },
                ..old(self)@
            }),
    {
        self.index.set_pinned(stem, pinned)
    }

    // ---------------------------------------------------------------------- watch

    /// A file appeared or changed. `exists` says whether it is there now. Returns
    /// whether it is a database, about which `refresh_db` has to be asked.
    pub fn on_path_changed(&mut self, path: &str, exists: bool) -> (database: bool)
        requires
            old(self).wf(),
        ensures
            final(self).wf(),
            database == (kind_of_file(path@) == FileKindView::Database),
            final(self)@ == (StoreView {
                index: marker_seen(old(self)@.index, kind_of_file(path@), exists),
                ..old(self)@
            }),
    {
        match file_kind(path) {
            FileKind::Database => true,
            FileKind::Pin(stem) => {
                self.index.set_pinned(&stem, exists);
                false
            },
            FileKind::Tombstone(stem) => {
                self.index.set_hidden(&stem, exists);
                false
            },
            FileKind::Other => false,
        }
    }

    /// A file went away.
    pub fn on_path_removed(&mut self, path: &str)
        requires
            old(self).wf(),
        ensures
            final(self).wf(),
            final(self)@ == (if kind_of_file(path@) == FileKindView::Database {
                StoreView {
                    index: IndexView {
                        items: old(self)@.index.items.filter(index::not_from(path@)),
                        hidden: old(self)@.index.hidden,
                    },
                    loaded: unnoted(old(self)@.loaded, path@),
                    ..old(self)@
                }
            } else {
                StoreView {
                    index: marker_seen(old(self)@.index, kind_of_file(path@), false),
                    ..old(self)@
                }
            }),
    {
        match file_kind(path) {
            FileKind::Database => {
                self.index.forget_db(path);
                self.forget_stamp(path);
            },
            FileKind::Pin(stem) => {
                self.index.set_pinned(&stem, false);
            },
            FileKind::Tombstone(stem) => {
                self.index.set_hidden(&stem, false);
            },
            FileKind::Other => {},
        }
    }

    fn forget_stamp(&mut self, path: &str)
        requires
            old(self).wf(),
        ensures
            final(self).wf(),
            final(self)@ == (StoreView {
                loaded: unnoted(old(self)@.loaded, path@),
                ..old(self)@
            }),
    {
        let ghost all = ledger_views(self.loaded@);
        let mut kept: Vec<(String, Stamp)> = Vec::new();
        let mut i: usize = 0;
        assert(all.skip(0) =~= all);
        assert(ledger_views(kept@) + unnoted(all.skip(0), path@) =~= unnoted(all, path@));
        while i < self.loaded.len()
            invariant
                i <= self.loaded@.len(),
                *self == *old(self),
                self.wf(),
                all == ledger_views(self.loaded@),
                ledger_views(kept@) + unnoted(all.skip(i as int), path@) == unnoted(all, path@),
            decreases self.loaded@.len() - i,
        {
            let ghost rest = all.skip(i as int);
            let ghost before = ledger_views(kept@);
            assert(rest[0] == all[i as int]);
            assert(rest.drop_first() =~= all.skip(i as int + 1));
            if !paths::same_path(&self.loaded[i].0, path) {
                kept.push((self.loaded[i].0.clone(), self.loaded[i].1));
                proof {
                    assert(ledger_views(kept@) =~= before.push(all[i as int]));
                    let b = unnoted(rest.drop_first(), path@);
                    assert(before + (seq![all[i as int]] + b) =~= before.push(all[i as int]) + b);
                }
            }
            i += 1;
        }
        proof {
            assert(all.skip(i as int) =~= Seq::empty());
            assert(ledger_views(kept@) =~= unnoted(all, path@));
        }
        self.loaded = kept;
    }
}

/// The index after a marker was seen, or seen to be gone.
pub open spec fn marker_seen(index: IndexView, kind: FileKindView, exists: bool) -> IndexView {
    match kind {
        FileKindView::Pin(stem) => IndexView {
            items: index::repinned(index.items, stem, exists),
            hidden: index.hidden,
        },
        FileKindView::Tombstone(stem) => IndexView {
            items: index.items,
            hidden: if exists {
                index.hidden.insert(stem)
            } else {
                index.hidden.remove(stem)
            },
        },
        _ => index,
    }
}

// ------------------------------------------------------------------- deletion

/// The stems of some clips.
pub open spec fn stem_set(items: Seq<ClipView>) -> Set<Seq<char>> {
    Set::new(|stem: Seq<char>| index::knows(items, stem))
}

/// The index without some clips: neither the clips nor their tombstones.
pub open spec fn without(index: IndexView, items: Seq<ClipView>) -> IndexView {
    IndexView {
        items: index.items.filter(index::not_in(stem_set(items))),
        hidden: index.hidden.difference(stem_set(items)),
    }
}

/// The clips with these stems that are still there, in the order of the stems.
pub open spec fn found(items: Seq<ClipView>, stems: Seq<Seq<char>>) -> Seq<ClipView>
    decreases stems.len(),
{
    if stems.len() == 0 {
        Seq::empty()
    } else {
        match index::lookup(items, stems.last()) {
            Some(clip) => found(items, stems.drop_last()).push(clip),
            None => found(items, stems.drop_last()),
        }
    }
}

/// The stems of some clips, each once.
fn stems_in(items: &Vec<ClipItem>) -> (r: StemSet)
    ensures
        r.wf(),
        r@ == stem_set(ranking::item_views(items@)),
{
    let ghost all = ranking::item_views(items@);
    let mut r = StemSet::new();
    let mut i: usize = 0;
    assert(r@ =~= stem_set(all.take(0)));
    while i < items.len()
        invariant
            i <= items@.len(),
            all == ranking::item_views(items@),
            r.wf(),
            r@ == stem_set(all.take(i as int)),
        decreases items@.len() - i,
    {
        r.insert(items[i].stem.clone());
        proof {
            let a = all.take(i as int);
            let b = all.take(i as int + 1);
            assert(b[i as int].stem == items@[i as int]@.stem);
            assert forall|stem: Seq<char>| stem_set(b).contains(stem) <==> stem_set(a).insert(
                items@[i as int]@.stem,
            ).contains(stem) by {
                if index::knows(b, stem) {
                    let j = choose|j: int| 0 <= j < b.len() && #[trigger] b[j].stem == stem;
                    if j < i {
                        assert(a[j].stem == stem);
                    }
                }
                if index::knows(a, stem) {
                    let j = choose|j: int| 0 <= j < a.len() && #[trigger] a[j].stem == stem;
                    assert(b[j].stem == stem);
                }
            }
            assert(r@ =~= stem_set(b));
        }
        i += 1;
    }
    assert(all.take(i as int) =~= all);
    r
}

impl Store {
    /// This machine's own clips older than the retention allows, at `now`.
    ///
    /// Deliberately confined to this machine's directory: single-writer-per-
    /// directory is what makes the folder conflict free, and it is worth more
    /// than reclaiming a retired machine's disk. Pinned clips are never eligible,
    /// and with no retention set nothing is.
    pub fn prune_old(&self, now: i64) -> (doomed: Vec<ClipItem>)
        requires
            now - self@.settings.retention_days * DAY_MS >= i64::MIN,
        ensures
            ranking::item_views(doomed@) == outdated(
                self@.index.items,
                self@.settings.retention_days,
                now,
                self@.settings.machine_id,
            ),
            ranking::item_views(doomed@) == if self@.settings.retention_days == 0 {
                Seq::empty()
            } else {
                self@.index.items.filter(
                    index::stale(
                        (now - self@.settings.retention_days * DAY_MS) as i64,
                        self@.settings.machine_id,
                    ),
                )
            },
    {
        let days = self.settings.retention_days;
        if days == 0 {
            let none: Vec<ClipItem> = Vec::new();
            assert(ranking::item_views(none@) =~= Seq::<ClipView>::empty());
            return none;
        }
        let back: i64 = days as i64 * DAY_MS;
        self.index.stale_clips(now - back, &self.settings.machine_id)
    }

    /// Parts the clips the user picked in the list into those to delete and those
    /// to mark.
    ///
    /// This machine's own rows are its own to delete, and so is any row in a month
    /// that is over: nothing ever writes a past month, so a stray deletion there
    /// costs nothing. Another instance's live month is the one thing that cannot
    /// be written: it has a writer, and it is not us. So those rows are marked
    /// instead, with an empty `<stem>.del` beside the clip, which every machine
    /// reads as "this one is gone" and which the machine that owns the row acts
    /// on. A stem that is gone already is neither.
    pub fn delete_selected(&self, stems: &Vec<String>, month: &str) -> (r: (
        Vec<ClipItem>,
        Vec<ClipItem>,
    ))
        ensures
            ranking::item_views(r.0@) == found(self@.index.items, text::views(stems@)).filter(
                deletion::ours(self@.settings.machine_id, month@),
            ),
            ranking::item_views(r.1@) == found(self@.index.items, text::views(stems@)).filter(
                deletion::not_ours(self@.settings.machine_id, month@),
            ),
    {
        let ghost all = text::views(stems@);
        let mut picked: Vec<ClipItem> = Vec::new();
        let mut i: usize = 0;
        assert(ranking::item_views(picked@) =~= found(self@.index.items, all.take(0)));
        while i < stems.len()
            invariant
                i <= stems@.len(),
                all == text::views(stems@),
                ranking::item_views(picked@) == found(self@.index.items, all.take(i as int)),
            decreases stems@.len() - i,
        {
            let ghost before = picked@;
            proof {
                let upto = all.take(i as int + 1);
                assert(upto.drop_last() =~= all.take(i as int));
                assert(upto.last() == stems@[i as int]@);
            }
            if let Some(clip) = self.index.find(&stems[i]) {
                picked.push(clip.clone());
                assert(ranking::item_views(picked@) =~= ranking::item_views(before).push(clip@));
            }
            i += 1;
        }
        assert(all.take(i as int) =~= all);
        deletion::split(picked, &self.settings.machine_id, month)
    }

    /// The second half of every deletion: the rows of `doomed` and what was beside
    /// them are gone, and the tombstones of `marked` have landed. A row whose
    /// tombstone could not be written is not among them: it stays visible, which
    /// is the honest report of a delete that did not happen. Reports how many were
    /// deleted and how many marked.
    pub fn remove_clips(&mut self, doomed: &Vec<ClipItem>, marked: &Vec<ClipItem>) -> (r: (
        usize,
        usize,
    ))
        requires
            old(self).wf(),
        ensures
            final(self).wf(),
            r.0 == doomed@.len(),
            r.1 == stem_set(ranking::item_views(marked@)).len(),
            final(self)@ == (StoreView {
                index: hiding(
                    without(old(self)@.index, ranking::item_views(doomed@)),
                    ranking::item_views(marked@),
                ),
                ..old(self)@
            }),
    {
        self.forget_deleted(doomed);
        let hidden = stems_in(marked);
        self.index.hide_many(&hidden);
        proof {
            hidden.lemma_len();
        }
        (doomed.len(), hidden.len())
    }

    /// Drops a batch from the index after its rows were taken out, so that the
    /// same content copied again is stored again instead of vanishing into an
    /// "already stored" no-op.
    pub fn forget_deleted(&mut self, items: &Vec<ClipItem>)
        requires
            old(self).wf(),
        ensures
            final(self).wf(),
            final(self)@ == (StoreView {
                index: without(old(self)@.index, ranking::item_views(items@)),
                ..old(self)@
            }),
    {
        let stems = stems_in(items);
        self.index.forget_many(&stems);
    }

    /// The tombstones another instance left in our folders.
    ///
    /// A tombstone is a request, and this is the only machine that can grant it:
    /// the row belongs to us and the folder it lives in is ours to write.
    pub fn reap_hidden(&self) -> (doomed: Vec<ClipItem>)
        ensures
            ranking::item_views(doomed@) == self@.index.items.filter(
                index::asked_gone(self@.index.hidden, self@.settings.machine_id),
            ),
    {
        self.index.hidden_clips(&self.settings.machine_id)
    }

    // -------------------------------------------------------------- cleanup tools

    /// Counts up a `.bin` cleanup without deleting anything.
    pub fn scan_bin_cleanup(&self, scope: BinScope, now: i64, month: &str) -> (r: BinScan)
        requires
            deletion::tellable(scope, now),
        ensures
            ranking::item_views(r.doomed@) == deletion::reached(
                visible(self@.index),
                scope,
                now,
            ).filter(deletion::ours(self@.settings.machine_id, month@)),
            r.skipped_live_month == deletion::reached(
                visible(self@.index),
                scope,
                now,
            ).filter(deletion::not_ours(self@.settings.machine_id, month@)).len(),
            r.images == ranking::item_views(r.doomed@).filter(deletion::is_image()).len(),
            r.overlong_texts == r.doomed@.len() - r.images,
            r.blob_bytes == 0,
    {
        deletion::scan_bins(
            self.index.visible_items(),
            scope,
            now,
            &self.settings.machine_id,
            month,
        )
    }

    /// The end of a `.bin` cleanup, once rows and files are gone. Whole clips go,
    /// not just the file: an entry whose bytes are gone cannot paste anything, or
    /// would paste a silent truncation, and a history of entries that look alive
    /// but are not is worse than a shorter honest one.
    pub fn run_bin_cleanup(&mut self, doomed: &Vec<ClipItem>) -> (n: usize)
        requires
            old(self).wf(),
        ensures
            final(self).wf(),
            n == doomed@.len(),
            final(self)@ == (StoreView {
                index: without(old(self)@.index, ranking::item_views(doomed@)),
                ..old(self)@
            }),
    {
        self.forget_deleted(doomed);
        doomed.len()
    }

    /// Lists the copies of visible texts that a duplicate cleanup would delete.
    ///
    /// Duplicates mostly come from two machines having captured the same content
    /// before sync could tell either one; within one machine the capture path's
    /// hash set makes them rare.
    pub fn scan_duplicates(&self) -> (r: DupeScan)
        ensures
            ranking::item_views(r.doomed@) == deletion::superseded(visible_texts(self@.index)),
            r.groups == deletion::repeated(visible_texts(self@.index)).len(),
            r.groups_with_pin == deletion::pinned_among(
                deletion::repeated(visible_texts(self@.index)),
                visible_texts(self@.index),
            ),
    {
        deletion::scan_dupes(self.index.visible_items())
    }

    /// The start of a duplicate cleanup: the split is the one a hand-delete
    /// follows. Rows this machine may write go out at once, rows in another
    /// instance's live month are tombstoned and that machine does the taking out.
    pub fn run_duplicate_cleanup(&self, doomed: Vec<ClipItem>, month: &str) -> (r: (
        Vec<ClipItem>,
        Vec<ClipItem>,
    ))
        ensures
            ranking::item_views(r.0@) == ranking::item_views(doomed@).filter(
                deletion::ours(self@.settings.machine_id, month@),
            ),
            ranking::item_views(r.1@) == ranking::item_views(doomed@).filter(
                deletion::not_ours(self@.settings.machine_id, month@),
            ),
    {
        deletion::split(doomed, &self.settings.machine_id, month)
    }

    /// Seconds between two rescans: as set, but never less than ten.
    pub fn rescan_period(&self) -> (seconds: u64)
        ensures
            seconds == period_of(self@.settings.rescan_seconds),
            seconds == if self@.settings.rescan_seconds < 10 {
                10
            } else {
                self@.settings.rescan_seconds
            },
    {
        if self.settings.rescan_seconds < 10 {
            10
        } else {
            self.settings.rescan_seconds
        }
    }
}

/// What is older than some days allow, of this machine's own; nothing where no days are
/// set.
pub open spec fn outdated(
    items: Seq<ClipView>,
    days: u32,
    now: i64,
    local_machine: Seq<char>,
) -> Seq<ClipView> {
    if days == 0 {
        Seq::empty()
    } else {
        items.filter(index::stale((now - days * DAY_MS) as i64, local_machine))
    }
}

/// The seconds between two rescans.
pub open spec fn period_of(seconds: u64) -> u64 {
    if seconds < 10 {
        10
    } else {
        seconds
    }
}

pub open spec fn visible(index: IndexView) -> Seq<ClipView> {
    index.items.filter(index::not_in(index.hidden))
}

pub open spec fn visible_texts(index: IndexView) -> Seq<ClipView> {
    visible(index).filter(deletion::comparable())
}

/// The index with some clips tombstoned.
pub open spec fn hiding(index: IndexView, items: Seq<ClipView>) -> IndexView {
    IndexView { items: index.items, hidden: index.hidden.union(stem_set(items)) }
}

} // verus!
