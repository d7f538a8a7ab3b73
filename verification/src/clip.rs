//! Clipboard payloads and the row schema.
//!
//! `ClipRecord` is what one clip looks like in a synced database: it is built
//! when a clip is captured and rebuilt when a database is read back. Its field
//! names are the column names.

use vstd::prelude::*;

use crate::paths;
use crate::text;

verus! {

#[derive(Clone, Copy, PartialEq, Eq, Debug, Structural)]
pub enum ClipKind {
    Text,
    Image,
    Files,
}

/// The `kind` column.
pub open spec fn kind_name(kind: ClipKind) -> Seq<char> {
    match kind {
        ClipKind::Text => "text"@,
        ClipKind::Image => "image"@,
        ClipKind::Files => "files"@,
    }
}

/// The kind a `kind` column stands for. Anything unknown reads as text, which is
/// the harmless choice for a hand-edited database.
pub open spec fn kind_named(name: Seq<char>) -> ClipKind {
    if name == "image"@ {
        ClipKind::Image
    } else if name == "files"@ {
        ClipKind::Files
    } else {
        ClipKind::Text
    }
}

/// The number mixed into the content hash. Already in the databases, so frozen.
pub open spec fn kind_number(kind: ClipKind) -> u8 {
    match kind {
        ClipKind::Text => 0,
        ClipKind::Image => 1,
        ClipKind::Files => 2,
    }
}

impl ClipKind {
    pub fn name(self) -> (r: &'static str)
        ensures
            r@ == kind_name(self),
    {
        match self {
            ClipKind::Text => "text",
            ClipKind::Image => "image",
            ClipKind::Files => "files",
        }
    }

    pub fn from_name(name: &str) -> (r: ClipKind)
        ensures
            r == kind_named(name@),
    {
        if text::same_text(name, "image") {
            ClipKind::Image
        } else if text::same_text(name, "files") {
            ClipKind::Files
        } else {
            ClipKind::Text
        }
    }

    pub fn number(self) -> (n: u8)
        ensures
            n == kind_number(self),
    {
        match self {
            ClipKind::Text => 0,
            ClipKind::Image => 1,
            ClipKind::Files => 2,
        }
    }
}

/// What the `kind` column says is what is read back out of it.
pub proof fn law_kind_round_trip(kind: ClipKind)
    ensures
        kind_named(kind_name(kind)) == kind,
{
    reveal_strlit("text");
    reveal_strlit("image");
    reveal_strlit("files");
    assert("text"@.len() == 4);
    assert("image"@[0] != "files"@[0]);
}

/// A captured clipboard payload, before it is assigned an id or written.
#[derive(Debug)]
pub enum ClipPayload {
    Text(String),
    /// Absolute paths.
    Files(Vec<String>),
    /// PNG bytes.
    Image(Vec<u8>),
}

/// A payload as plain values.
#[verifier::ext_equal]
pub enum PayloadView {
    Text(Seq<char>),
    Files(Seq<Seq<char>>),
    Image(Seq<u8>),
}

impl View for ClipPayload {
    type V = PayloadView;

    open spec fn view(&self) -> PayloadView {
        match self {
            ClipPayload::Text(text) => PayloadView::Text(text@),
            ClipPayload::Files(paths) => PayloadView::Files(text::views(paths@)),
            ClipPayload::Image(png) => PayloadView::Image(png@),
        }
    }
}

pub open spec fn payload_kind(payload: PayloadView) -> ClipKind {
    match payload {
        PayloadView::Text(_) => ClipKind::Text,
        PayloadView::Files(_) => ClipKind::Files,
        PayloadView::Image(_) => ClipKind::Image,
    }
}

/// The bytes the content hash is computed over and a blob holds: the text, the
/// paths one per line, or the image file.
pub open spec fn payload_body(payload: PayloadView) -> Seq<u8> {
    match payload {
        PayloadView::Text(text) => vstd::utf8::encode_utf8(text),
        PayloadView::Files(paths) => vstd::utf8::encode_utf8(text::joined(paths, '\n')),
        PayloadView::Image(png) => png,
    }
}

pub open spec fn payload_empty(payload: PayloadView) -> bool {
    match payload {
        PayloadView::Text(text) => text.len() == 0,
        PayloadView::Files(paths) => paths.len() == 0,
        PayloadView::Image(png) => png.len() == 0,
    }
}

impl Clone for ClipPayload {
    fn clone(&self) -> (r: ClipPayload)
        ensures
            r@ == self@,
    {
        match self {
            ClipPayload::Text(text) => ClipPayload::Text(text.clone()),
            ClipPayload::Files(paths) => {
                let copy = copy_list(paths);
                ClipPayload::Files(copy)
            },
            ClipPayload::Image(png) => ClipPayload::Image(copy_bytes(png)),
        }
    }
}

pub fn copy_bytes(bytes: &Vec<u8>) -> (r: Vec<u8>)
    ensures
        r@ == bytes@,
{
    let mut r: Vec<u8> = Vec::new();
    r.extend_from_slice(bytes.as_slice());
    assert(r@ =~= bytes@);
    r
}

pub fn copy_list(list: &Vec<String>) -> (r: Vec<String>)
    ensures
        text::views(r@) == text::views(list@),
{
    let mut r: Vec<String> = Vec::new();
    let mut i: usize = 0;
    while i < list.len()
        invariant
            i <= list@.len(),
            r@.len() == i,
            forall|j: int| 0 <= j < i ==> #[trigger] r@[j]@ == list@[j]@,
        decreases list@.len() - i,
    {
        r.push(list[i].clone());
        i += 1;
    }
    assert(text::views(r@) =~= text::views(list@));
    r
}

impl ClipPayload {
    pub fn kind(&self) -> (r: ClipKind)
        ensures
            r == payload_kind(self@),
    {
        match self {
            ClipPayload::Text(_) => ClipKind::Text,
            ClipPayload::Files(_) => ClipKind::Files,
            ClipPayload::Image(_) => ClipKind::Image,
        }
    }

    /// Every machine has to feed in the same bytes, or the same clip gets stored
    /// once per machine.
    pub fn body(&self) -> (r: Vec<u8>)
        ensures
            r@ == payload_body(self@),
    {
        match self {
            ClipPayload::Text(text) => text.as_str().as_bytes_vec(),
            ClipPayload::Files(paths) => text::join(paths, '\n').as_str().as_bytes_vec(),
            ClipPayload::Image(png) => copy_bytes(png),
        }
    }

    pub fn is_empty(&self) -> (r: bool)
        ensures
            r == payload_empty(self@),
    {
        match self {
            ClipPayload::Text(text) => text.as_str().is_empty(),
            ClipPayload::Files(paths) => paths.len() == 0,
            ClipPayload::Image(png) => png.len() == 0,
        }
    }
}

/// Where a clip came from: the window that had focus while it was copied.
///
/// Best-effort by nature: a window with no title, or one belonging to a process
/// that cannot be opened, yields an empty string.
#[derive(Debug)]
pub struct ClipContext {
    /// Executable name, e.g. `chrome.exe`.
    pub app: String,
    pub title: String,
}

impl Default for ClipContext {
    fn default() -> (r: ClipContext)
        ensures
            r.app@.len() == 0,
            r.title@.len() == 0,
    {
        ClipContext { app: String::new(), title: String::new() }
    }
}

/// How much of a window title is kept.
pub const TITLE_CHARS: usize = 120;

/// The executable name at the end of a process image path; both separators are
/// understood.
pub open spec fn after_last_sep(path: Seq<char>) -> Seq<char>
    decreases path.len(),
{
    if path.len() == 0 {
        path
    } else if paths::is_sep(path.last()) {
        Seq::empty()
    } else {
        after_last_sep(path.drop_last()).push(path.last())
    }
}

/// The first characters of a title.
pub open spec fn kept_title(title: Seq<char>) -> Seq<char> {
    if title.len() <= TITLE_CHARS {
        title
    } else {
        title.take(TITLE_CHARS as int)
    }
}

/// What is kept of the window a clip came from: the executable's own name (the
/// folder it came from says nothing a reader wants) and the start of the title.
pub fn source_context(image_path: &str, title: &str) -> (r: ClipContext)
    ensures
        r.app@ == after_last_sep(image_path@),
        r.title@ == kept_title(title@),
{
    let path = text::chars_of(image_path);
    let ghost whole = path@;
    let mut from: usize = path.len();
    proof {
        assert(whole.take(whole.len() as int) =~= whole);
        assert(whole.subrange(from as int, whole.len() as int) =~= Seq::empty());
    }
    while from > 0 && !paths::sep(path[from - 1])
        invariant
            from <= path@.len(),
            whole == path@,
            after_last_sep(whole) == after_last_sep(whole.take(from as int)) + whole.subrange(
                from as int,
                whole.len() as int,
            ),
        decreases from,
    {
        proof {
            let upto = whole.take(from as int);
            assert(upto.drop_last() =~= whole.take(from as int - 1));
            assert(upto.last() == whole[from as int - 1]);
            assert(after_last_sep(whole.take(from as int - 1)).push(upto.last())
                + whole.subrange(from as int, whole.len() as int) =~= after_last_sep(
                whole.take(from as int - 1),
            ) + whole.subrange(from as int - 1, whole.len() as int));
        }
        from -= 1;
    }
    proof {
        if from > 0 {
            assert(whole.take(from as int).last() == whole[from as int - 1]);
        }
        assert(after_last_sep(whole.take(from as int)) =~= Seq::empty());
        assert(after_last_sep(whole) =~= whole.subrange(from as int, whole.len() as int));
    }
    let app = text::string_of(&path, from, path.len());
    let units = text::chars_of(title);
    let kept: usize = if units.len() <= TITLE_CHARS {
        units.len()
    } else {
        TITLE_CHARS
    };
    let title = text::string_of(&units, 0, kept);
    assert(title@ =~= kept_title(units@));
    ClipContext { app, title }
}

/// One clip: what was copied, when, by which machine, and out of which window.
#[derive(Debug)]
pub struct ClipRecord {
    /// Row key, and the stem of the `.bin` and `.pin` siblings.
    pub id: String,
    pub at: i64,
    pub machine: String,
    pub kind: String,
    pub hash: String,
    /// Full text, or the retained prefix when `blob` is set.
    pub text: Option<String>,
    /// Payload size in bytes, for display only.
    pub length: i64,
    /// Sibling file name holding the heavy payload (image bytes, long text).
    pub blob: Option<String>,
    /// The source window, as read at capture time. Empty when it could not be
    /// read.
    pub app: String,
    pub title: String,
}

/// A record as plain values.
#[verifier::ext_equal]
pub struct RecordView {
    pub id: Seq<char>,
    pub at: i64,
    pub machine: Seq<char>,
    pub kind: Seq<char>,
    pub hash: Seq<char>,
    pub text: Option<Seq<char>>,
    pub length: i64,
    pub blob: Option<Seq<char>>,
    pub app: Seq<char>,
    pub title: Seq<char>,
}

impl View for ClipRecord {
    type V = RecordView;

    open spec fn view(&self) -> RecordView {
        RecordView {
            id: self.id@,
            at: self.at,
            machine: self.machine@,
            kind: self.kind@,
            hash: self.hash@,
            text: text::opt_view(self.text),
            length: self.length,
            blob: text::opt_view(self.blob),
            app: self.app@,
            title: self.title@,
        }
    }
}

impl Clone for ClipRecord {
    fn clone(&self) -> (r: ClipRecord)
        ensures
            r@ == self@,
    {
        ClipRecord {
            id: self.id.clone(),
            at: self.at,
            machine: self.machine.clone(),
            kind: self.kind.clone(),
            hash: self.hash.clone(),
            text: text::copy_opt(&self.text),
            length: self.length,
            blob: text::copy_opt(&self.blob),
            app: self.app.clone(),
            title: self.title.clone(),
        }
    }
}

/// What a payload contributes to a text that holds several: its text, its paths,
/// or nothing for an image.
pub open spec fn text_lines(payload: PayloadView) -> Seq<Seq<char>> {
    match payload {
        PayloadView::Text(text) => seq![text],
        PayloadView::Files(paths) => paths,
        PayloadView::Image(_) => Seq::empty(),
    }
}

pub open spec fn all_lines(payloads: Seq<PayloadView>) -> Seq<Seq<char>>
    decreases payloads.len(),
{
    if payloads.len() == 0 {
        Seq::empty()
    } else {
        all_lines(payloads.drop_last()) + text_lines(payloads.last())
    }
}

pub open spec fn payload_views(payloads: Seq<ClipPayload>) -> Seq<PayloadView> {
    Seq::new(payloads.len(), |i: int| payloads[i]@)
}

/// Several payloads as one: a single one as it is, several as the lines they
/// hold, and nothing when they hold none.
pub open spec fn joined_payload(payloads: Seq<PayloadView>) -> Option<PayloadView> {
    if payloads.len() == 1 {
        Some(payloads[0])
    } else if all_lines(payloads).len() == 0 {
        None
    } else {
        Some(PayloadView::Text(text::joined(all_lines(payloads), '\n')))
    }
}

/// Several clips as one clipboard payload: one per line, in the order they are
/// listed.
///
/// A single clip is handed back untouched, so an image still copies as an image.
/// With several, text is the only representation that can hold all of them: file
/// lists contribute their paths, and images are dropped.
pub fn join_payloads(payloads: Vec<ClipPayload>) -> (r: Option<ClipPayload>)
    ensures
        r is Some <==> joined_payload(payload_views(payloads@)) is Some,
        r matches Some(payload) ==> joined_payload(payload_views(payloads@)) == Some(payload@),
{
    let ghost all = payload_views(payloads@);
    let mut payloads = payloads;
    if payloads.len() == 1 {
        return payloads.pop();
    }
    let mut lines: Vec<String> = Vec::new();
    let mut i: usize = 0;
    assert(text::views(lines@) =~= all_lines(all.take(0)));
    while i < payloads.len()
        invariant
            i <= payloads@.len(),
            all == payload_views(payloads@),
            text::views(lines@) == all_lines(all.take(i as int)),
        decreases payloads@.len() - i,
    {
        let ghost before = lines@;
        let ghost upto = all.take(i as int + 1);
        assert(upto.drop_last() =~= all.take(i as int));
        match &payloads[i] {
            ClipPayload::Text(text) => {
                lines.push(text.clone());
                assert(text::views(lines@) =~= text::views(before) + text_lines(all[i as int]));
            },
            ClipPayload::Files(paths) => {
                let mut copy = copy_list(paths);
                let ghost copied = copy@;
                lines.append(&mut copy);
                assert(text::views(lines@) =~= text::views(before) + text::views(copied));
            },
            ClipPayload::Image(_) => {
                assert(text::views(lines@) =~= text::views(before) + text_lines(all[i as int]));
            },
        }
        assert(text::views(lines@) =~= all_lines(upto));
        i += 1;
    }
    assert(all.take(i as int) =~= all);
    if lines.len() == 0 {
        assert(all_lines(all).len() == 0);
        return None;
    }
    Some(ClipPayload::Text(text::join(&lines, '\n')))
}

// -------------------------------------------------------------------- the laws

/// The words and numbers the kinds are kept under are those already in the
/// databases, and a word that is none of them reads as text.
pub proof fn law_kinds_are_frozen(kind: ClipKind, name: Seq<char>)
    ensures
        kind is Text ==> kind_name(kind) == "text"@ && kind_number(kind) == 0,
        kind is Image ==> kind_name(kind) == "image"@ && kind_number(kind) == 1,
        kind is Files ==> kind_name(kind) == "files"@ && kind_number(kind) == 2,
        kind_named(name) is Image ==> name == "image"@,
        kind_named(name) is Files ==> name == "files"@,
        name == "image"@ ==> kind_named(name) is Image,
        name == "files"@ ==> kind_named(name) is Files,
{
    law_kind_round_trip(kind);
    law_kind_round_trip(ClipKind::Image);
    law_kind_round_trip(ClipKind::Files);
}

/// A payload is of the kind of what it holds, its body holds the whole content, and
/// it is empty when there is nothing in it.
pub proof fn law_body_is_the_content(s: Seq<char>, list: Seq<Seq<char>>, file: Seq<u8>)
    ensures
        payload_kind(PayloadView::Text(s)) is Text,
        payload_kind(PayloadView::Files(list)) is Files,
        payload_kind(PayloadView::Image(file)) is Image,
        payload_body(PayloadView::Image(file)) == file,
        vstd::utf8::decode_utf8(payload_body(PayloadView::Text(s))) == s,
        list.len() > 0 && (forall|i: int|
            0 <= i < list.len() ==> !(#[trigger] list[i]).contains('\n')) ==> text::split_at_marks(
            vstd::utf8::decode_utf8(payload_body(PayloadView::Files(list))),
            '\n',
        ) == list,
        payload_empty(PayloadView::Text(s)) <==> s.len() == 0,
        payload_empty(PayloadView::Files(list)) <==> list.len() == 0,
        payload_empty(PayloadView::Image(file)) <==> file.len() == 0,
{
    vstd::utf8::encode_utf8_decode_utf8(s);
    vstd::utf8::encode_utf8_decode_utf8(text::joined(list, '\n'));
    if list.len() > 0 && (forall|i: int|
        0 <= i < list.len() ==> !(#[trigger] list[i]).contains('\n')) {
        text::law_joined_splits_back(list, '\n');
    }
}

/// Of the path of a program the name after the last separator is kept, all of it and
/// nothing before.
pub proof fn law_program_name(path: Seq<char>)
    ensures
        text::ends_with(path, after_last_sep(path)),
        forall|i: int|
            0 <= i < after_last_sep(path).len() ==> (#[trigger] after_last_sep(path)[i]) != '\\'
                && after_last_sep(path)[i] != '/',
        after_last_sep(path).len() < path.len() ==> ({
            let before = path[path.len() - after_last_sep(path).len() - 1];
            before == '\\' || before == '/'
        }),
    decreases path.len(),
{
    let name = after_last_sep(path);
    if path.len() > 0 && !paths::is_sep(path.last()) {
        let head = path.drop_last();
        let before = after_last_sep(head);
        law_program_name(head);
        assert(head.skip(head.len() - before.len()) == before);
        assert(path.skip(path.len() - name.len()) =~= name) by {
            assert forall|i: int| 0 <= i < name.len() implies path.skip(
                path.len() - name.len(),
            )[i] == name[i] by {
                if i < before.len() {
                    assert(head.skip(head.len() - before.len())[i] == before[i]);
                }
            }
        }
        assert forall|i: int| 0 <= i < name.len() implies (#[trigger] name[i]) != '\\' && name[i]
            != '/' by {
            if i < before.len() {
                assert(before[i] == name[i]);
            }
        }
    } else {
        assert(path.skip(path.len() as int) =~= name);
    }
}

/// A title is kept up to 120 characters from its start.
pub proof fn law_title_is_cut(title: Seq<char>)
    ensures
        text::starts_with(title, kept_title(title)),
        title.len() <= 120 ==> kept_title(title) == title,
        title.len() > 120 ==> kept_title(title).len() == 120,
{
    assert(title.take(title.len() as int) =~= title);
}

/// What several payloads come to: every text and every path in the order they are
/// listed, and nothing of an image; a single one is handed on as it is.
pub proof fn law_several_as_one(
    before: Seq<PayloadView>,
    s: Seq<char>,
    list: Seq<Seq<char>>,
    file: Seq<u8>,
)
    ensures
        all_lines(before.push(PayloadView::Text(s))) == all_lines(before).push(s),
        all_lines(before.push(PayloadView::Files(list))) == all_lines(before) + list,
        all_lines(before.push(PayloadView::Image(file))) == all_lines(before),
        all_lines(Seq::empty()) == Seq::<Seq<char>>::empty(),
        before.len() == 1 ==> joined_payload(before) == Some(before[0]),
        before.len() != 1 ==> (joined_payload(before) is None <==> all_lines(before).len() == 0),
        before.len() != 1 ==> (joined_payload(before) matches Some(payload) ==> payload is Text),
        before.len() != 1 && all_lines(before).len() > 0 && (forall|i: int|
            0 <= i < all_lines(before).len() ==> !(#[trigger] all_lines(before)[i]).contains('\n'))
            ==> text::split_at_marks(joined_payload(before)->0->Text_0, '\n') == all_lines(before),
{
    let a = before.push(PayloadView::Text(s));
    let b = before.push(PayloadView::Files(list));
    let c = before.push(PayloadView::Image(file));
    assert(a.drop_last() =~= before && b.drop_last() =~= before && c.drop_last() =~= before);
    assert(all_lines(a) =~= all_lines(before).push(s));
    assert(all_lines(c) =~= all_lines(before));
    if before.len() != 1 && all_lines(before).len() > 0 && (forall|i: int|
        0 <= i < all_lines(before).len() ==> !(#[trigger] all_lines(before)[i]).contains('\n')) {
        text::law_joined_splits_back(all_lines(before), '\n');
    }
}

} // verus!
