//! One clip as the index holds it.

use vstd::prelude::*;

use crate::clip;
use crate::clip::{ClipKind, ClipRecord};
use crate::filter;
use crate::paths;
use crate::text;
use crate::win;
use crate::win::SYSTEMTIME;

verus! {

pub const PREVIEW_CHARS: usize = 160;

pub const PIN_SUFFIX: &'static str = ".pin";

/// The tombstone another instance leaves when it wants a clip gone but may not
/// write the database that holds it. Empty, like the pin marker, so that the same
/// file created on two machines is the same file.
pub const HIDDEN_SUFFIX: &'static str = ".del";

#[derive(Debug)]
pub struct ClipItem {
    pub stem: String,
    pub at: i64,
    pub machine: String,
    pub kind: ClipKind,
    pub hash: String,
    /// The database this entry lives in. Its folder is where the `.bin` and
    /// `.pin` siblings go.
    pub db_path: String,
    /// Full text, or the retained prefix when `has_blob` is set.
    pub text: String,
    pub has_blob: bool,
    pub blob_path: String,
    pub pinned: bool,
    /// Precomputed once at index time so a keystroke never formats anything.
    pub preview: String,
    pub meta: String,
    /// The single fields a prefixed search term is matched against.
    pub app: String,
    pub title: String,
    pub time: String,
    pub who: String,
}

/// A clip as plain values.
#[verifier::ext_equal]
pub struct ClipView {
    pub stem: Seq<char>,
    pub at: i64,
    pub machine: Seq<char>,
    pub kind: ClipKind,
    pub hash: Seq<char>,
    pub db_path: Seq<char>,
    pub text: Seq<char>,
    pub has_blob: bool,
    pub blob_path: Seq<char>,
    pub pinned: bool,
    pub preview: Seq<char>,
    pub meta: Seq<char>,
    pub app: Seq<char>,
    pub title: Seq<char>,
    pub time: Seq<char>,
    pub who: Seq<char>,
}

impl View for ClipItem {
    type V = ClipView;

    open spec fn view(&self) -> ClipView {
        ClipView {
            stem: self.stem@,
            at: self.at,
            machine: self.machine@,
            kind: self.kind,
            hash: self.hash@,
            db_path: self.db_path@,
            text: self.text@,
            has_blob: self.has_blob,
            blob_path: self.blob_path@,
            pinned: self.pinned,
            preview: self.preview@,
            meta: self.meta@,
            app: self.app@,
            title: self.title@,
            time: self.time@,
            who: self.who@,
        }
    }
}

impl Clone for ClipItem {
    fn clone(&self) -> (r: ClipItem)
        ensures
            r@ == self@,
    {
        ClipItem {
            stem: self.stem.clone(),
            at: self.at,
            machine: self.machine.clone(),
            kind: self.kind,
            hash: self.hash.clone(),
            db_path: self.db_path.clone(),
            text: self.text.clone(),
            has_blob: self.has_blob,
            blob_path: self.blob_path.clone(),
            pinned: self.pinned,
            preview: self.preview.clone(),
            meta: self.meta.clone(),
            app: self.app.clone(),
            title: self.title.clone(),
            time: self.time.clone(),
            who: self.who.clone(),
        }
    }
}

/// What the list needs to render one row. Deliberately small: the full text can
/// be kilobytes, and this is copied per keystroke.
#[derive(Debug)]
pub struct ClipSummary {
    pub stem: String,
    pub preview: String,
    pub meta: String,
    pub pinned: bool,
}

/// A row as plain values.
#[verifier::ext_equal]
pub struct SummaryView {
    pub stem: Seq<char>,
    pub preview: Seq<char>,
    pub meta: Seq<char>,
    pub pinned: bool,
}

impl View for ClipSummary {
    type V = SummaryView;

    open spec fn view(&self) -> SummaryView {
        SummaryView {
            stem: self.stem@,
            preview: self.preview@,
            meta: self.meta@,
            pinned: self.pinned,
        }
    }
}

impl Clone for ClipSummary {
    fn clone(&self) -> (r: ClipSummary)
        ensures
            r@ == self@,
    {
        ClipSummary {
            stem: self.stem.clone(),
            preview: self.preview.clone(),
            meta: self.meta.clone(),
            pinned: self.pinned,
        }
    }
}

/// The row a clip shows as.
pub open spec fn row_of(item: ClipView) -> SummaryView {
    SummaryView { stem: item.stem, preview: item.preview, meta: item.meta, pinned: item.pinned }
}

// --------------------------------------------------------------------- preview

/// `s` cut to `limit` characters, with an ellipsis where something was cut.
pub open spec fn truncated(s: Seq<char>, limit: nat) -> Seq<char> {
    if s.len() <= limit {
        s
    } else {
        s.take(limit as int).push('…')
    }
}

pub fn truncate_chars(s: &str, limit: usize) -> (r: String)
    ensures
        r@ == truncated(s@, limit as nat),
{
    let chars = text::chars_of(s);
    if chars.len() <= limit {
        return s.to_owned();
    }
    let mut r = text::string_of(&chars, 0, limit);
    r.push('…');
    assert(r@ =~= truncated(s@, limit as nat));
    r
}

/// The first line, without the white space around it.
pub open spec fn first_line(s: Seq<char>) -> Seq<char> {
    let lines = text::lines_of(s);
    if lines.len() == 0 {
        Seq::empty()
    } else {
        text::trimmed(lines[0])
    }
}

/// How many lines hold something other than white space.
pub open spec fn filled_lines(lines: Seq<Seq<char>>) -> nat
    decreases lines.len(),
{
    if lines.len() == 0 {
        0
    } else {
        filled_lines(lines.drop_last()) + if text::trimmed(lines.last()).len() > 0 {
            1nat
        } else {
            0
        }
    }
}

/// What a row says a clip is.
pub open spec fn preview_of(kind: ClipKind, s: Seq<char>) -> Seq<char> {
    match kind {
        ClipKind::Image => "[图片]"@,
        ClipKind::Files => "[文件 x"@ + text::decimal(filled_lines(text::lines_of(s))) + "] "@
            + first_line(s),
        ClipKind::Text => if first_line(s).len() > 0 {
            truncated(first_line(s), PREVIEW_CHARS as nat)
        } else if s.contains('\n') {
            "(多行文本)"@
        } else {
            "(空文本)"@
        },
    }
}

fn holds_newline(s: &str) -> (r: bool)
    ensures
        r == s@.contains('\n'),
{
    let chars = text::chars_of(s);
    let mut i: usize = 0;
    while i < chars.len()
        invariant
            i <= chars@.len(),
            chars@ == s@,
            forall|j: int| 0 <= j < i ==> chars@[j] != '\n',
        decreases chars@.len() - i,
    {
        if chars[i] == '\n' {
            assert(s@[i as int] == '\n');
            return true;
        }
        i += 1;
    }
    false
}

pub fn build_preview(kind: ClipKind, s: &str) -> (r: String)
    ensures
        r@ == preview_of(kind, s@),
{
    if kind == ClipKind::Image {
        return "[图片]".to_owned();
    }
    let lines = text::lines(s);
    let first = if lines.len() > 0 {
        assert(text::views(lines@)[0] == lines@[0]@);
        text::trim(&lines[0])
    } else {
        String::new()
    };
    assert(text::views(lines@).len() == lines@.len());
    assert(first@ =~= first_line(s@));
    if kind == ClipKind::Files {
        let mut count: u64 = 0;
        let mut i: usize = 0;
        let ghost all = text::lines_of(s@);
        while i < lines.len()
            invariant
                i <= lines.len(),
                all == text::views(lines@),
                count == filled_lines(all.take(i as int)),
                count <= i,
            decreases lines.len() - i,
        {
            let line = text::trim(&lines[i]);
            proof {
                let upto = all.take(i as int + 1);
                assert(upto.drop_last() =~= all.take(i as int));
                assert(upto.last() == lines@[i as int]@);
            }
            if !line.as_str().is_empty() {
                count += 1;
            }
            i += 1;
        }
        assert(all.take(i as int) =~= all);
        let mut r = "[文件 x".to_owned();
        text::push_decimal(&mut r, count);
        r.append("] ");
        r.append(first.as_str());
        return r;
    }
    if first.as_str().is_empty() {
        return if holds_newline(s) {
            "(多行文本)".to_owned()
        } else {
            "(空文本)".to_owned()
        };
    }
    truncate_chars(&first, PREVIEW_CHARS)
}

// ------------------------------------------------------------------------ meta

/// Who captured a clip, as a row says it.
pub open spec fn who_of(machine: Seq<char>, local_machine: Seq<char>) -> Seq<char> {
    if machine.len() == 0 {
        "?"@
    } else if machine == local_machine {
        "本机"@
    } else {
        machine
    }
}

pub fn who(machine: &str, local_machine: &str) -> (r: String)
    ensures
        r@ == who_of(machine@, local_machine@),
{
    if machine.is_empty() {
        "?".to_owned()
    } else if text::same_text(machine, local_machine) {
        "本机".to_owned()
    } else {
        machine.to_owned()
    }
}

/// The time on a row: without the year in the year that is running.
pub open spec fn shown_time(when: SYSTEMTIME, now_year: u16) -> Seq<char> {
    if when.year == now_year {
        win::short_time(when)
    } else {
        win::long_time(when)
    }
}

/// The window a clip came out of, when there was one to read.
pub open spec fn source_of(app: Seq<char>, title: Seq<char>) -> Seq<char> {
    (if app.len() > 0 {
        " · "@ + app
    } else {
        Seq::empty()
    }) + (if title.len() > 0 {
        " · "@ + title
    } else {
        Seq::empty()
    })
}

/// The second line of a row: what it is, when, where from, and whether its
/// content is in a file beside the database.
pub open spec fn meta_of(
    record: clip::RecordView,
    local_machine: Seq<char>,
    when: SYSTEMTIME,
    now_year: u16,
) -> Seq<char> {
    filter::kind_label(clip::kind_named(record.kind)) + " · "@ + shown_time(when, now_year)
        + " · "@ + who_of(record.machine, local_machine) + source_of(record.app, record.title)
        + (if record.blob is Some {
        " · 完整内容在 .bin"@
    } else {
        Seq::empty()
    })
}

pub fn build_meta(record: &ClipRecord, local_machine: &str, when: &SYSTEMTIME, now_year: u16) -> (r:
    String)
    ensures
        r@ == meta_of(record@, local_machine@, *when, now_year),
{
    let mut r = filter::label(ClipKind::from_name(&record.kind)).to_owned();
    r.append(" · ");
    if when.year == now_year {
        win::push_short_time(&mut r, when);
    } else {
        win::push_long_time(&mut r, when);
    }
    r.append(" · ");
    r.append(who(&record.machine, local_machine).as_str());
    let ghost before = r@;
    if !record.app.as_str().is_empty() {
        r.append(" · ");
        r.append(record.app.as_str());
    }
    if !record.title.as_str().is_empty() {
        r.append(" · ");
        r.append(record.title.as_str());
    }
    assert(r@ =~= before + source_of(record.app@, record.title@));
    if record.blob.is_some() {
        r.append(" · 完整内容在 .bin");
    }
    assert(r@ =~= meta_of(record@, local_machine@, *when, now_year));
    r
}

// ------------------------------------------------------------------- the record

/// The text of a record, empty where there is none.
pub open spec fn text_of(record: clip::RecordView) -> Seq<char> {
    match record.text {
        Some(s) => s,
        None => Seq::empty(),
    }
}

/// The clip a row of a database stands for.
pub open spec fn item_of(
    record: clip::RecordView,
    db_path: Seq<char>,
    stem: Seq<char>,
    pinned: bool,
    local_machine: Seq<char>,
    when: SYSTEMTIME,
    now_year: u16,
) -> ClipView {
    ClipView {
        stem,
        at: record.at,
        machine: record.machine,
        kind: clip::kind_named(record.kind),
        hash: record.hash,
        db_path,
        text: text_of(record),
        has_blob: record.blob is Some,
        blob_path: match record.blob {
            Some(name) => paths::renamed(db_path, name),
            None => Seq::empty(),
        },
        pinned,
        preview: preview_of(clip::kind_named(record.kind), text_of(record)),
        meta: meta_of(record, local_machine, when, now_year),
        app: record.app,
        title: record.title,
        time: win::long_time(when),
        who: who_of(record.machine, local_machine),
    }
}

impl ClipItem {
    /// `when` is the local wall-clock time of `record.at`, and `now_year` the year
    /// that is running.
    pub fn from_record(
        record: &ClipRecord,
        db_path: String,
        stem: String,
        pinned: bool,
        local_machine: &str,
        when: &SYSTEMTIME,
        now_year: u16,
    ) -> (r: ClipItem)
        ensures
            r@ == item_of(record@, db_path@, stem@, pinned, local_machine@, *when, now_year),
    {
        let kind = ClipKind::from_name(&record.kind);
        let content = match &record.text {
            Some(s) => s.clone(),
            None => String::new(),
        };
        let blob_path = match &record.blob {
            Some(name) => paths::with_file_name(&db_path, name),
            None => String::new(),
        };
        let preview = build_preview(kind, &content);
        let meta = build_meta(record, local_machine, when, now_year);
        let mut time = String::new();
        win::push_long_time(&mut time, when);
        let r = ClipItem {
            stem,
            at: record.at,
            machine: record.machine.clone(),
            kind,
            hash: record.hash.clone(),
            db_path,
            text: content,
            has_blob: record.blob.is_some(),
            blob_path,
            pinned,
            preview,
            meta,
            app: record.app.clone(),
            title: record.title.clone(),
            time,
            who: who(&record.machine, local_machine),
        };
        assert(r@ =~= item_of(record@, db_path@, stem@, pinned, local_machine@, *when, now_year));
        r
    }

    pub fn pin_path(&self) -> (r: String)
        ensures
            r@ == marker_path(self@.db_path, self@.stem, PIN_SUFFIX@),
    {
        pin_path_for(&self.db_path, &self.stem)
    }

    pub fn hidden_path(&self) -> (r: String)
        ensures
            r@ == marker_path(self@.db_path, self@.stem, HIDDEN_SUFFIX@),
    {
        hidden_path_for(&self.db_path, &self.stem)
    }

    pub fn summary(&self) -> (r: ClipSummary)
        ensures
            r@ == row_of(self@),
    {
        ClipSummary {
            stem: self.stem.clone(),
            preview: self.preview.clone(),
            meta: self.meta.clone(),
            pinned: self.pinned,
        }
    }
}

/// A marker beside a clip: its stem and the suffix, in the database's own folder.
pub open spec fn marker_path(db_path: Seq<char>, stem: Seq<char>, suffix: Seq<char>) -> Seq<char> {
    paths::sibling(db_path, stem + suffix)
}

/// `<stem>.pin`, in the database's own folder. Pinning adds a sibling marker
/// rather than rewriting the row, so it costs nothing and cannot conflict.
pub fn pin_path_for(db_path: &str, stem: &str) -> (r: String)
    ensures
        r@ == marker_path(db_path@, stem@, PIN_SUFFIX@),
{
    let mut name = stem.to_owned();
    name.append(PIN_SUFFIX);
    paths::sibling_path(db_path, &name)
}

/// `<stem>.del`, in the database's own folder.
pub fn hidden_path_for(db_path: &str, stem: &str) -> (r: String)
    ensures
        r@ == marker_path(db_path@, stem@, HIDDEN_SUFFIX@),
{
    let mut name = stem.to_owned();
    name.append(HIDDEN_SUFFIX);
    paths::sibling_path(db_path, &name)
}

/// The time a row shows is the end of the time a search looks in, so what can be
/// read on a row can be found.
pub proof fn law_shown_time_is_searched(when: SYSTEMTIME, now_year: u16)
    ensures
        text::ends_with(win::long_time(when), shown_time(when, now_year)),
{
    let long = win::long_time(when);
    let short = win::short_time(when);
    let head = win::four(when.year) + seq!['-'];
    assert(long =~= head + short);
    assert(long.skip(long.len() - short.len()) =~= short);
    assert(long.skip(0) =~= long);
}

// -------------------------------------------------------------------- the laws

/// The clip of a row has what the row has, each in the field of the same name.
pub proof fn law_clip_holds_its_record(
    record: clip::RecordView,
    db_path: Seq<char>,
    stem: Seq<char>,
    pinned: bool,
    local_machine: Seq<char>,
    when: SYSTEMTIME,
    now_year: u16,
)
    ensures
        ({
            let c = item_of(record, db_path, stem, pinned, local_machine, when, now_year);
            &&& c.stem == stem
            &&& c.at == record.at
            &&& c.machine == record.machine
            &&& clip::kind_named(record.kind) == c.kind
            &&& c.hash == record.hash
            &&& c.db_path == db_path
            &&& record.text matches Some(s) ==> c.text == s
            &&& record.text is None ==> c.text.len() == 0
            &&& c.has_blob == record.blob is Some
            &&& record.blob matches Some(name) ==> c.blob_path == paths::renamed(db_path, name)
            &&& c.pinned == pinned
            &&& c.app == record.app
            &&& c.title == record.title
            &&& c.time == win::long_time(when)
            &&& record.machine.len() > 0 && record.machine != local_machine ==> c.who
                == record.machine
            &&& record.machine.len() > 0 && record.machine == local_machine ==> c.who == "本机"@
            &&& record.machine.len() == 0 ==> c.who == "?"@
        }),
{
}

/// A row shows the preview, the details and the pin of the clip it stands for, and
/// is known by its stem.
pub proof fn law_row_shows_its_clip(c: ClipView)
    ensures
        row_of(c).stem == c.stem,
        row_of(c).preview == c.preview,
        row_of(c).meta == c.meta,
        row_of(c).pinned == c.pinned,
{
}

/// A text that is too long is cut at the limit and gets an ellipsis there; any other
/// stays as it is.
pub proof fn law_cut(s: Seq<char>, limit: nat)
    ensures
        s.len() <= limit ==> truncated(s, limit) == s,
        s.len() > limit ==> truncated(s, limit).len() == limit + 1 && truncated(s, limit).last()
            == '…' && text::starts_with(s, truncated(s, limit).take(limit as int)),
{
    if s.len() > limit {
        assert(truncated(s, limit).take(limit as int) =~= s.take(limit as int));
    }
}

proof fn lemma_filled_all(lines: Seq<Seq<char>>)
    requires
        forall|i: int| 0 <= i < lines.len() ==> !text::blank(#[trigger] lines[i]),
    ensures
        filled_lines(lines) == lines.len(),
    decreases lines.len(),
{
    if lines.len() > 0 {
        let head = lines.drop_last();
        assert forall|i: int| 0 <= i < head.len() implies !text::blank(#[trigger] head[i]) by {
            assert(head[i] == lines[i]);
        }
        lemma_filled_all(head);
        text::law_trimming(lines[lines.len() - 1]);
    }
}

/// The preview of a list of paths says how many there are and then the first.
pub proof fn law_preview_counts_the_paths(list: Seq<Seq<char>>)
    requires
        list.len() > 0,
        forall|i: int|
            0 <= i < list.len() ==> (#[trigger] list[i]).len() > 0 && !list[i].contains('\n')
                && list[i].last() != '\r' && !text::blank(list[i]),
    ensures
        preview_of(ClipKind::Files, text::joined(list, '\n')) == "[文件 x"@ + text::decimal(
            list.len(),
        ) + "] "@ + text::trimmed(list[0]),
{
    text::law_joined_lines(list);
    lemma_filled_all(list);
}

proof fn lemma_filled_count(lines: Seq<Seq<char>>)
    ensures
        filled_lines(lines) == lines.filter(|line: Seq<char>| !text::blank(line)).len(),
    decreases lines.len(),
{
    reveal(Seq::filter);
    if lines.len() > 0 {
        lemma_filled_count(lines.drop_last());
        text::law_trimming(lines.last());
    }
}

/// Whatever a list holds, its preview counts the lines with something other than
/// white space in them.
pub proof fn law_preview_counts_filled_lines(s: Seq<char>)
    ensures
        text::starts_with(
            preview_of(ClipKind::Files, s),
            "[文件 x"@ + text::decimal(
                text::lines_of(s).filter(|line: Seq<char>| !text::blank(line)).len(),
            ) + "] "@,
        ),
{
    lemma_filled_count(text::lines_of(s));
    let head = "[文件 x"@ + text::decimal(
        text::lines_of(s).filter(|line: Seq<char>| !text::blank(line)).len(),
    ) + "] "@;
    let all = preview_of(ClipKind::Files, s);
    assert(all =~= head + first_line(s));
    assert(all.take(head.len() as int) =~= head);
}

/// The preview of a text is its first line, trimmed and cut; a first line with
/// nothing in it is said to be one of several or of none. An image has no words.
pub proof fn law_preview_of_a_text(line: Seq<char>, rest: Seq<char>, s: Seq<char>)
    requires
        !line.contains('\n'),
        line.len() == 0 || line.last() != '\r',
    ensures
        !text::blank(line) ==> preview_of(ClipKind::Text, line.push('\n') + rest) == truncated(
            text::trimmed(line),
            160,
        ),
        !text::blank(line) ==> preview_of(ClipKind::Text, line) == truncated(
            text::trimmed(line),
            160,
        ),
        text::blank(line) ==> preview_of(ClipKind::Text, line.push('\n') + rest)
            == "(多行文本)"@,
        text::blank(line) ==> preview_of(ClipKind::Text, line) == "(空文本)"@,
        preview_of(ClipKind::Image, s) == "[图片]"@,
{
    text::law_lines(line, rest);
    text::law_trimming(line);
    let all = line.push('\n') + rest;
    assert(all[line.len() as int] == '\n');
    assert(all.contains('\n'));
    assert(text::lines_of(all)[0] == line);
    if line.len() == 0 {
        assert(line =~= Seq::empty());
    }
}

/// The line of details says, in this order: the kind, the time, who captured it, the
/// program and the title; and last, where it is so, that the content is in a file.
pub proof fn law_details_in_order(
    record: clip::RecordView,
    local_machine: Seq<char>,
    when: SYSTEMTIME,
    now_year: u16,
)
    ensures
        ({
            let meta = meta_of(record, local_machine, when, now_year);
            let time = if when.year == now_year {
                win::short_time(when)
            } else {
                win::long_time(when)
            };
            let who = who_of(record.machine, local_machine);
            &&& text::starts_with(meta, filter::kind_label(clip::kind_named(record.kind)))
            &&& record.app.len() > 0 && record.title.len() > 0 && record.blob is None ==> meta
                == filter::kind_label(clip::kind_named(record.kind)) + " · "@ + time + " · "@ + who
                + " · "@ + record.app + " · "@ + record.title
            &&& record.app.len() == 0 && record.title.len() == 0 && record.blob is None ==> meta
                == filter::kind_label(clip::kind_named(record.kind)) + " · "@ + time + " · "@ + who
            &&& record.app.len() > 0 && record.title.len() == 0 && record.blob is None
                ==> text::ends_with(meta, " · "@ + record.app)
            &&& record.blob is Some ==> text::ends_with(meta, "完整内容在 .bin"@)
            &&& record.blob is None && record.title.len() > 0 ==> text::ends_with(
                meta,
                record.title,
            )
        }),
{
    let meta = meta_of(record, local_machine, when, now_year);
    let label = filter::kind_label(clip::kind_named(record.kind));
    let time = shown_time(when, now_year);
    let who = who_of(record.machine, local_machine);
    let dot = " · "@;
    let head = label + dot + time + dot + who;
    assert(meta.take(label.len() as int) =~= label);
    if record.app.len() == 0 && record.title.len() == 0 && record.blob is None {
        assert(meta =~= head);
    }
    if record.app.len() > 0 && record.title.len() > 0 && record.blob is None {
        assert(meta =~= head + dot + record.app + dot + record.title);
    }
    if record.app.len() > 0 && record.title.len() == 0 && record.blob is None {
        let tail = dot + record.app;
        assert(meta =~= head + tail);
        assert(meta.skip(meta.len() - tail.len()) =~= tail);
    }
    reveal_strlit(" · 完整内容在 .bin");
    reveal_strlit("完整内容在 .bin");
    if record.blob is Some {
        let tail = "完整内容在 .bin"@;
        assert(meta.skip(meta.len() - tail.len()) =~= tail);
    } else if record.title.len() > 0 {
        assert(meta.skip(meta.len() - record.title.len()) =~= record.title);
    }
}

/// The line of details where a part is missing: nothing stands for a program or a title
/// that is not known; and that the content is in a file is said at the end, whatever
/// comes before.
pub proof fn law_details_with_a_part_missing(
    record: clip::RecordView,
    local_machine: Seq<char>,
    when: SYSTEMTIME,
    now_year: u16,
    name: Seq<char>,
)
    ensures
        ({
            let said = |r: clip::RecordView| meta_of(r, local_machine, when, now_year);
            let plain = clip::RecordView {
                app: Seq::empty(),
                title: Seq::empty(),
                blob: None,
                ..record
            };
            let part = clip::RecordView { blob: None, ..record };
            &&& record.app.len() > 0 ==> said(
                clip::RecordView { title: Seq::empty(), ..part },
            ) == said(plain) + " · "@ + record.app
            &&& record.title.len() > 0 ==> said(clip::RecordView { app: Seq::empty(), ..part })
                == said(plain) + " · "@ + record.title
            &&& said(clip::RecordView { blob: Some(name), ..record }) == said(part)
                + " · 完整内容在 .bin"@
        }),
{
    let said = |r: clip::RecordView| meta_of(r, local_machine, when, now_year);
    let plain = clip::RecordView { app: Seq::empty(), title: Seq::empty(), blob: None, ..record };
    let part = clip::RecordView { blob: None, ..record };
    assert(said(clip::RecordView { title: Seq::empty(), ..part }) =~= if record.app.len() > 0 {
        said(plain) + " · "@ + record.app
    } else {
        said(plain)
    });
    assert(said(clip::RecordView { app: Seq::empty(), ..part }) =~= if record.title.len() > 0 {
        said(plain) + " · "@ + record.title
    } else {
        said(plain)
    });
    assert(said(clip::RecordView { blob: Some(name), ..record }) =~= said(part)
        + " · 完整内容在 .bin"@);
}

} // verus!
