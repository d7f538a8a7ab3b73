//! The settings window: its controls, its form, and what saving the form does.
//!
//! Some of the values take effect without a restart. That is stated in the window
//! itself instead of being hidden, because silently ignoring a saved field is worse
//! than saying so.

use vstd::prelude::*;

use crate::controls;
use crate::controls::Control;
use crate::controls::ControlKind;
use crate::controls::ControlView;
use crate::hotkey;
use crate::hotkey::Hotkey;
use crate::hotkey::Modifiers;
use crate::messages;
use crate::popup_layout;
use crate::settings::Settings;
use crate::settings::SettingsView;
use crate::settings::{DEFAULT_SETTINGS_SCALE, MAX_SETTINGS_SCALE, MIN_SETTINGS_SCALE};
use crate::text;
use crate::win;

verus! {

pub const ID_HOTKEY: usize = 1;

pub const ID_SYNC_ROOT: usize = 2;

pub const ID_RETENTION: usize = 3;

pub const ID_MAX_BLOB_MB: usize = 4;

pub const ID_INLINE_LIMIT: usize = 5;

pub const ID_RESCAN: usize = 6;

pub const ID_CAPTURE_TEXT: usize = 7;

pub const ID_CAPTURE_IMAGES: usize = 8;

pub const ID_CAPTURE_FILES: usize = 9;

pub const ID_SAVE: usize = 10;

pub const ID_CANCEL: usize = 11;

pub const ID_SETTINGS_SCALE: usize = 12;

pub const ID_WRITE_BLOBS: usize = 13;

pub const ID_CLEANUP: usize = 14;

/// The captions are moved with their fields, so they have ids of their own.
pub const LABEL_ID_BASE: usize = 100;

pub const NOTE_ID: usize = 200;

// --------------------------------------------------------------------- the form

/// What the fields hold, as typed.
#[derive(Debug)]
pub struct SettingsForm {
    pub hotkey: String,
    pub sync_root: String,
    pub retention: String,
    pub max_blob_mb: String,
    pub inline_limit: String,
    pub rescan: String,
    pub scale: String,
    pub capture_text: bool,
    pub capture_images: bool,
    pub capture_files: bool,
    pub write_blobs: bool,
}

#[verifier::ext_equal]
pub struct FormView {
    pub hotkey: Seq<char>,
    pub sync_root: Seq<char>,
    pub retention: Seq<char>,
    pub max_blob_mb: Seq<char>,
    pub inline_limit: Seq<char>,
    pub rescan: Seq<char>,
    pub scale: Seq<char>,
    pub capture_text: bool,
    pub capture_images: bool,
    pub capture_files: bool,
    pub write_blobs: bool,
}

impl View for SettingsForm {
    type V = FormView;

    open spec fn view(&self) -> FormView {
        FormView {
            hotkey: self.hotkey@,
            sync_root: self.sync_root@,
            retention: self.retention@,
            max_blob_mb: self.max_blob_mb@,
            inline_limit: self.inline_limit@,
            rescan: self.rescan@,
            scale: self.scale@,
            capture_text: self.capture_text,
            capture_images: self.capture_images,
            capture_files: self.capture_files,
            write_blobs: self.write_blobs,
        }
    }
}

pub const MEGABYTE: u64 = 1_048_576;

/// The form that shows some settings.
pub open spec fn form_of(s: SettingsView) -> FormView {
    FormView {
        hotkey: s.hotkey,
        sync_root: match s.sync_root_override {
            Some(path) => path,
            None => Seq::empty(),
        },
        retention: text::decimal(s.retention_days as nat),
        max_blob_mb: text::decimal((s.max_blob_bytes / MEGABYTE) as nat),
        inline_limit: text::decimal(s.inline_text_limit as nat),
        rescan: text::decimal(s.rescan_seconds as nat),
        scale: text::decimal(s.settings_scale as nat),
        capture_text: s.capture_text,
        capture_images: s.capture_images,
        capture_files: s.capture_files,
        write_blobs: s.write_blobs,
    }
}

pub fn populate(current: &Settings) -> (form: SettingsForm)
    ensures
        form@ == form_of(current@),
{
    let sync_root = match &current.sync_root_override {
        Some(path) => path.clone(),
        None => String::new(),
    };
    SettingsForm {
        hotkey: current.hotkey.clone(),
        sync_root,
        retention: text::decimal_text(current.retention_days as u64),
        max_blob_mb: text::decimal_text(current.max_blob_bytes / MEGABYTE),
        inline_limit: text::decimal_text(current.inline_text_limit as u64),
        rescan: text::decimal_text(current.rescan_seconds),
        scale: text::decimal_text(current.settings_scale as u64),
        capture_text: current.capture_text,
        capture_images: current.capture_images,
        capture_files: current.capture_files,
        write_blobs: current.write_blobs,
    }
}

/// The number in a field: the default when nothing is typed, `None` when what is
/// typed is not a number that fits.
pub open spec fn number_in(default: u32, typed: Seq<char>) -> Option<nat> {
    if text::trimmed(typed).len() == 0 {
        Some(default as nat)
    } else {
        text::parsed_number(text::trimmed(typed), u32::MAX as nat)
    }
}

/// Returns what was typed, without the white space around it, when a field is
/// unusable.
pub fn parse_or(default: u32, typed: &str) -> (r: Result<u32, String>)
    ensures
        match r {
            Ok(n) => number_in(default, typed@) == Some(n as nat),
            Err(shown) => number_in(default, typed@) is None && shown@ == text::trimmed(typed@),
        },
{
    let trimmed = text::trim(typed);
    if trimmed.as_str().is_empty() {
        return Ok(default);
    }
    match text::parse_number(&trimmed, u32::MAX as u64) {
        Some(n) => Ok(n as u32),
        None => Err(trimmed),
    }
}

/// The fields that hold a number.
#[derive(Clone, Copy, Debug, PartialEq, Eq, Structural)]
pub enum NumberField {
    Retention,
    MaxBlob,
    InlineLimit,
    Rescan,
    Scale,
}

/// Why a form was not saved.
#[derive(Debug)]
pub enum Complaint {
    /// What was typed is no combination that can be registered.
    Hotkey(String),
    /// Another program owns the combination.
    Taken(Hotkey),
    /// What was typed into a field is not a number.
    NotANumber(NumberField, String),
    RescanTooShort,
    NothingFits,
    ScaleOutOfRange,
}

#[verifier::ext_equal]
pub enum ComplaintView {
    Hotkey(Seq<char>),
    Taken(Hotkey),
    NotANumber(NumberField, Seq<char>),
    RescanTooShort,
    NothingFits,
    ScaleOutOfRange,
}

impl View for Complaint {
    type V = ComplaintView;

    open spec fn view(&self) -> ComplaintView {
        match *self {
            Complaint::Hotkey(typed) => ComplaintView::Hotkey(typed@),
            Complaint::Taken(hotkey) => ComplaintView::Taken(hotkey),
            Complaint::NotANumber(field, typed) => ComplaintView::NotANumber(field, typed@),
            Complaint::RescanTooShort => ComplaintView::RescanTooShort,
            Complaint::NothingFits => ComplaintView::NothingFits,
            Complaint::ScaleOutOfRange => ComplaintView::ScaleOutOfRange,
        }
    }
}

pub const DEFAULT_RETENTION: u32 = 0;

pub const DEFAULT_MAX_BLOB_MB: u32 = 10;

pub const DEFAULT_INLINE_LIMIT: u32 = 8192;

pub const DEFAULT_RESCAN: u32 = 60;

pub const MIN_RESCAN: u32 = 10;

/// Another combination than the one that is registered.
pub open spec fn is_new(current: SettingsView, wanted: Hotkey) -> bool {
    hotkey::parsed(current.hotkey) != Some(wanted)
}

/// What saving a form makes of the settings, or why it does not. `free` is whether
/// a new combination could be registered.
///
/// The scale is refused rather than clamped: a scale that is silently changed under
/// the cursor is worse than one that is refused. The hotkey is written in its
/// canonical spelling. What the form does not show stays as it is.
pub open spec fn judged(current: SettingsView, form: FormView, free: bool) -> Result<
    SettingsView,
    ComplaintView,
> {
    let typed = text::trimmed(form.hotkey);
    let retention = number_in(DEFAULT_RETENTION, form.retention);
    let max_blob = number_in(DEFAULT_MAX_BLOB_MB, form.max_blob_mb);
    let inline = number_in(DEFAULT_INLINE_LIMIT, form.inline_limit);
    let rescan = number_in(DEFAULT_RESCAN, form.rescan);
    let scale = number_in(DEFAULT_SETTINGS_SCALE, form.scale);
    let root = text::trimmed(form.sync_root);
    if hotkey::parsed(typed) is None {
        Err(ComplaintView::Hotkey(typed))
    } else if is_new(current, hotkey::parsed(typed)->0) && !free {
        Err(ComplaintView::Taken(hotkey::parsed(typed)->0))
    } else if retention is None {
        Err(ComplaintView::NotANumber(NumberField::Retention, text::trimmed(form.retention)))
    } else if max_blob is None {
        Err(ComplaintView::NotANumber(NumberField::MaxBlob, text::trimmed(form.max_blob_mb)))
    } else if inline is None {
        Err(ComplaintView::NotANumber(NumberField::InlineLimit, text::trimmed(form.inline_limit)))
    } else if rescan is None {
        Err(ComplaintView::NotANumber(NumberField::Rescan, text::trimmed(form.rescan)))
    } else if scale is None {
        Err(ComplaintView::NotANumber(NumberField::Scale, text::trimmed(form.scale)))
    } else if rescan->0 < MIN_RESCAN {
        Err(ComplaintView::RescanTooShort)
    } else if max_blob->0 == 0 {
        Err(ComplaintView::NothingFits)
    } else if !(MIN_SETTINGS_SCALE <= scale->0 <= MAX_SETTINGS_SCALE) {
        Err(ComplaintView::ScaleOutOfRange)
    } else {
        Ok(
            SettingsView {
                hotkey: hotkey::spelling(hotkey::parsed(typed)->0),
                sync_root_override: if root.len() == 0 {
                    None
                } else {
                    Some(root)
                },
                retention_days: retention->0 as u32,
                max_blob_bytes: (max_blob->0 * MEGABYTE) as u64,
                inline_text_limit: inline->0 as usize,
                rescan_seconds: rescan->0 as u64,
                settings_scale: scale->0 as u32,
                capture_text: form.capture_text,
                capture_images: form.capture_images,
                capture_files: form.capture_files,
                write_blobs: form.write_blobs,
                ..current
            },
        )
    }
}

pub open spec fn outcome(r: Result<Settings, Complaint>) -> Result<SettingsView, ComplaintView> {
    match r {
        Ok(settings) => Ok(settings@),
        Err(complaint) => Err(complaint@),
    }
}

/// The combination that has to be tried before a form can be saved: one that is not
/// the registered one already, which would be a conflict with ourselves.
pub fn to_probe(current: &Settings, form: &SettingsForm) -> (r: Option<Hotkey>)
    ensures
        r == (match hotkey::parsed(text::trimmed(form@.hotkey)) {
            Some(wanted) if is_new(current@, wanted) => Some(wanted),
            _ => None,
        }),
{
    let typed = text::trim(&form.hotkey);
    match hotkey::parse_hotkey(&typed) {
        Some(wanted) => if differs(&hotkey::parse_hotkey(&current.hotkey), wanted) {
            Some(wanted)
        } else {
            None
        },
        None => None,
    }
}

fn differs(registered: &Option<Hotkey>, wanted: Hotkey) -> (r: bool)
    ensures
        r == (*registered != Some(wanted)),
{
    match registered {
        Some(h) => h.modifiers != wanted.modifiers || h.vk != wanted.vk,
        None => true,
    }
}

/// Turns the form into settings, or says why it cannot.
pub fn save(current: &Settings, form: &SettingsForm, free: bool) -> (r: Result<
    Settings,
    Complaint,
>)
    ensures
        outcome(r) == judged(current@, form@, free),
{
    let typed = text::trim(&form.hotkey);
    let wanted = match hotkey::parse_hotkey(&typed) {
        Some(wanted) => wanted,
        None => {
            return Err(Complaint::Hotkey(typed));
        },
    };
    if differs(&hotkey::parse_hotkey(&current.hotkey), wanted) && !free {
        return Err(Complaint::Taken(wanted));
    }
    let retention = match parse_or(DEFAULT_RETENTION, &form.retention) {
        Ok(n) => n,
        Err(shown) => {
            return Err(Complaint::NotANumber(NumberField::Retention, shown));
        },
    };
    let max_blob_mb = match parse_or(DEFAULT_MAX_BLOB_MB, &form.max_blob_mb) {
        Ok(n) => n,
        Err(shown) => {
            return Err(Complaint::NotANumber(NumberField::MaxBlob, shown));
        },
    };
    let inline_limit = match parse_or(DEFAULT_INLINE_LIMIT, &form.inline_limit) {
        Ok(n) => n,
        Err(shown) => {
            return Err(Complaint::NotANumber(NumberField::InlineLimit, shown));
        },
    };
    let rescan = match parse_or(DEFAULT_RESCAN, &form.rescan) {
        Ok(n) => n,
        Err(shown) => {
            return Err(Complaint::NotANumber(NumberField::Rescan, shown));
        },
    };
    let scale = match parse_or(DEFAULT_SETTINGS_SCALE, &form.scale) {
        Ok(n) => n,
        Err(shown) => {
            return Err(Complaint::NotANumber(NumberField::Scale, shown));
        },
    };
    if rescan < MIN_RESCAN {
        return Err(Complaint::RescanTooShort);
    }
    if max_blob_mb == 0 {
        return Err(Complaint::NothingFits);
    }
    if scale < MIN_SETTINGS_SCALE || scale > MAX_SETTINGS_SCALE {
        return Err(Complaint::ScaleOutOfRange);
    }
    let root = text::trim(&form.sync_root);
    let mut updated = current.clone();
    updated.hotkey = wanted.text();
    updated.sync_root_override = if root.as_str().is_empty() {
        None
    } else {
        Some(root)
    };
    updated.retention_days = retention;
    updated.max_blob_bytes = max_blob_mb as u64 * MEGABYTE;
    updated.inline_text_limit = inline_limit as usize;
    updated.rescan_seconds = rescan as u64;
    updated.settings_scale = scale;
    updated.capture_text = form.capture_text;
    updated.capture_images = form.capture_images;
    updated.capture_files = form.capture_files;
    updated.write_blobs = form.write_blobs;
    Ok(updated)
}

// --------------------------------------------------------------------- messages

pub open spec fn field_caption(field: NumberField) -> Seq<char> {
    match field {
        NumberField::Retention => "保留天数："@,
        NumberField::MaxBlob => "单条上限："@,
        NumberField::InlineLimit => "内联文本上限："@,
        NumberField::Rescan => "重扫间隔："@,
        NumberField::Scale => "设置窗口字号："@,
    }
}

pub const NO_HOTKEY: &'static str =
    "” 不能用。\n\n点进热键框直接按下组合键即可。需要至少一个修饰键（Ctrl/Alt/Shift/Win），\n只有 F1-F24 能单独使用——单独的字母或数字会吃掉全系统的那个键。";

pub const HOTKEY_TAKEN: &'static str = "” 已经被别的程序占用了，换一个组合。";

pub const NO_NUMBER: &'static str = "” 不是有效的非负整数";

pub const RESCAN_TOO_SHORT: &'static str = "重扫间隔不能小于 10 秒。";

pub const NOTHING_FITS: &'static str = "单条上限不能为 0，否则什么都存不下来。";

/// A complaint the way it is said to the user.
pub open spec fn message_of(complaint: ComplaintView) -> Seq<char> {
    match complaint {
        ComplaintView::Hotkey(typed) => "热键 “"@ + typed + NO_HOTKEY@,
        ComplaintView::Taken(wanted) => "“"@ + hotkey::spelling(wanted) + HOTKEY_TAKEN@,
        ComplaintView::NotANumber(field, typed) => field_caption(field) + "“"@ + typed
            + NO_NUMBER@,
        ComplaintView::RescanTooShort => RESCAN_TOO_SHORT@,
        ComplaintView::NothingFits => NOTHING_FITS@,
        ComplaintView::ScaleOutOfRange => "字号要在 "@ + text::decimal(MIN_SETTINGS_SCALE as nat)
            + "% 到 "@ + text::decimal(MAX_SETTINGS_SCALE as nat)
            + "% 之间，100% 就跟系统一样大。"@,
    }
}

impl Complaint {
    pub fn message(&self) -> (r: String)
        ensures
            r@ == message_of(self@),
    {
        match self {
            Complaint::Hotkey(typed) => {
                let mut out = "热键 “".to_owned();
                out.append(typed);
                out.append(NO_HOTKEY);
                out
            },
            Complaint::Taken(wanted) => {
                let mut out = "“".to_owned();
                out.append(&wanted.text());
                out.append(HOTKEY_TAKEN);
                out
            },
            Complaint::NotANumber(field, typed) => {
                let mut out = match field {
                    NumberField::Retention => "保留天数：".to_owned(),
                    NumberField::MaxBlob => "单条上限：".to_owned(),
                    NumberField::InlineLimit => "内联文本上限：".to_owned(),
                    NumberField::Rescan => "重扫间隔：".to_owned(),
                    NumberField::Scale => "设置窗口字号：".to_owned(),
                };
                out.append("“");
                out.append(typed);
                out.append(NO_NUMBER);
                out
            },
            Complaint::RescanTooShort => RESCAN_TOO_SHORT.to_owned(),
            Complaint::NothingFits => NOTHING_FITS.to_owned(),
            Complaint::ScaleOutOfRange => {
                let mut out = "字号要在 ".to_owned();
                text::push_decimal(&mut out, MIN_SETTINGS_SCALE as u64);
                out.append("% 到 ");
                text::push_decimal(&mut out, MAX_SETTINGS_SCALE as u64);
                out.append("% 之间，100% 就跟系统一样大。");
                out
            },
        }
    }
}

// ------------------------------------------------------------------------- laws

/// Settings that the form can show without losing anything.
pub open spec fn showable(s: SettingsView) -> bool {
    &&& hotkey::parsed(s.hotkey) is Some
    &&& s.hotkey == hotkey::spelling(hotkey::parsed(s.hotkey)->0)
    &&& s.sync_root_override matches Some(path) ==> path.len() > 0 && text::trimmed(path) == path
    &&& s.max_blob_bytes % MEGABYTE == 0
    &&& 1 <= s.max_blob_bytes / MEGABYTE <= u32::MAX
    &&& s.inline_text_limit <= u32::MAX
    &&& MIN_RESCAN <= s.rescan_seconds <= u32::MAX
    &&& MIN_SETTINGS_SCALE <= s.settings_scale <= MAX_SETTINGS_SCALE
}

proof fn lemma_decimal_field(default: u32, n: nat)
    requires
        n <= u32::MAX,
    ensures
        number_in(default, text::decimal(n)) == Some(n),
{
    text::lemma_decimal_value(n);
    text::lemma_trimmed_whole(text::decimal(n));
    text::law_number_round_trip(n, u32::MAX as nat);
}

/// Opening the window and saving it untouched changes nothing, whether or not the
/// combination could be registered once more.
pub proof fn law_untouched_form_changes_nothing(s: SettingsView, free: bool)
    requires
        showable(s),
    ensures
        judged(s, form_of(s), free) == Ok::<SettingsView, ComplaintView>(s),
{
    hotkey::lemma_spelling_is_trimmed(hotkey::parsed(s.hotkey)->0);
    lemma_decimal_field(DEFAULT_RETENTION, s.retention_days as nat);
    lemma_decimal_field(DEFAULT_MAX_BLOB_MB, (s.max_blob_bytes / MEGABYTE) as nat);
    lemma_decimal_field(DEFAULT_INLINE_LIMIT, s.inline_text_limit as nat);
    lemma_decimal_field(DEFAULT_RESCAN, s.rescan_seconds as nat);
    lemma_decimal_field(DEFAULT_SETTINGS_SCALE, s.settings_scale as nat);
    assert(text::trimmed(Seq::<char>::empty()) =~= Seq::empty());
    assert(judged(s, form_of(s), free)->Ok_0 =~= s);
}

/// Whatever was saved shows in the form as it is, so that saving once more changes
/// nothing; and a save leaves alone what the form does not show.
pub proof fn law_saved_settings_show(current: SettingsView, form: FormView, free: bool)
    requires
        judged(current, form, free) is Ok,
    ensures
        ({
            let saved = judged(current, form, free)->Ok_0;
            &&& showable(saved)
            &&& saved.popup_position == current.popup_position
            &&& saved.popup_size == current.popup_size
            &&& saved.app_dir == current.app_dir
            &&& saved.sync_root == current.sync_root
            &&& saved.machine_id == current.machine_id
        }),
{
    let typed = text::trimmed(form.hotkey);
    hotkey::law_spelling_settles(typed);
    text::lemma_trimmed_twice(form.sync_root);
    let n = number_in(DEFAULT_MAX_BLOB_MB, form.max_blob_mb)->0;
    assert(n * MEGABYTE <= u64::MAX && (n * MEGABYTE) % MEGABYTE as int == 0 && (n * MEGABYTE)
        / MEGABYTE as int == n) by (nonlinear_arith)
        requires
            n <= u32::MAX,
            MEGABYTE == 1_048_576,
    ;
}

// ------------------------------------------------------------------ the controls

/// Every measure of the window, in physical pixels.
#[derive(Clone, Copy, Debug, PartialEq, Eq, Structural)]
pub struct FormMetrics {
    pub margin: i32,
    pub label_width: i32,
    pub field_width: i32,
    pub row_height: i32,
    pub row_step: i32,
    /// Between a caption and its field.
    pub field_gap: i32,
    pub button_gap: i32,
    pub button_width: i32,
    pub button_height: i32,
    pub check_width: i32,
    pub check_step: i32,
    pub checks_top: i32,
    pub note_top: i32,
    pub button_top: i32,
    pub client_width: i32,
    pub client_height: i32,
}

pub open spec fn usable(m: FormMetrics) -> bool {
    &&& popup_layout::in_limit(m.margin)
    &&& popup_layout::in_limit(m.label_width)
    &&& popup_layout::in_limit(m.field_width)
    &&& popup_layout::in_limit(m.row_height)
    &&& popup_layout::in_limit(m.row_step)
    &&& popup_layout::in_limit(m.field_gap)
    &&& popup_layout::in_limit(m.button_gap)
    &&& popup_layout::in_limit(m.button_width)
    &&& popup_layout::in_limit(m.button_height)
    &&& popup_layout::in_limit(m.check_width)
    &&& popup_layout::in_limit(m.check_step)
    &&& popup_layout::in_limit(m.checks_top)
    &&& popup_layout::in_limit(m.note_top)
    &&& popup_layout::in_limit(m.button_top)
    &&& popup_layout::in_limit(m.client_width)
    &&& popup_layout::in_limit(m.client_height)
}

/// There is room for every row, every band and every column.
pub open spec fn roomy(m: FormMetrics) -> bool {
    &&& m.margin * 2 + m.label_width + m.field_gap + m.field_width <= m.client_width
    &&& m.row_height <= m.row_step
    &&& m.check_width <= m.check_step
    &&& m.margin + 3 * m.check_step + m.check_width <= m.client_width
    &&& m.margin + 7 * m.row_step <= m.checks_top
    &&& m.checks_top + m.row_height <= m.note_top
    &&& m.note_top + m.row_height <= m.button_top
    &&& m.button_top + m.button_height + m.margin <= m.client_height
    &&& m.margin + m.button_width * 3 + m.button_gap * 2 <= m.client_width
}

/// The measures at 96 DPI, with room for everything.
pub fn base_metrics() -> (m: FormMetrics)
    ensures
        usable(m),
        roomy(m),
        m.margin == 16 && m.label_width == 220 && m.field_width == 360,
        m.row_height == 26 && m.row_step == 38 && m.field_gap == 8,
        m.button_gap == 10 && m.button_width == 110 && m.button_height == 26,
        m.check_width == 130 && m.check_step == 140,
        m.checks_top == m.margin + 7 * m.row_step + 6,
        m.note_top == m.checks_top + m.row_step,
        m.button_top == m.checks_top + m.row_step * 2 + 6,
        m.client_width == m.margin * 2 + m.label_width + m.field_gap + m.field_width,
        m.client_height == m.button_top + m.button_height + m.margin,
{
    FormMetrics {
        margin: 16,
        label_width: 220,
        field_width: 360,
        row_height: 26,
        row_step: 38,
        field_gap: 8,
        button_gap: 10,
        button_width: 110,
        button_height: 26,
        check_width: 130,
        check_step: 140,
        checks_top: 288,
        note_top: 326,
        button_top: 370,
        client_width: 620,
        client_height: 412,
    }
}

/// The caption of a row. It shares the top edge of its field: both draw their text
/// from the top of their box.
pub open spec fn caption_of(m: FormMetrics, row: int, caption: Seq<char>) -> ControlView {
    controls::one(
        (LABEL_ID_BASE + row) as usize,
        ControlKind::Label,
        caption,
        controls::placed_at(
            m.margin as int,
            m.margin + row * m.row_step,
            m.label_width as int,
            m.row_height as int,
        ),
    )
}

pub open spec fn field_of(m: FormMetrics, row: int, id: usize, kind: ControlKind) -> ControlView {
    controls::one(
        id,
        kind,
        ""@,
        controls::placed_at(
            m.margin + m.label_width + m.field_gap,
            m.margin + row * m.row_step,
            m.field_width as int,
            m.row_height as int,
        ),
    )
}

pub open spec fn check_of(m: FormMetrics, column: int, id: usize, caption: Seq<char>) -> ControlView {
    controls::one(
        id,
        ControlKind::Check,
        caption,
        controls::placed_at(
            m.margin + column * m.check_step,
            m.checks_top as int,
            m.check_width as int,
            m.row_height as int,
        ),
    )
}

pub const NOTE: &'static str =
    "热键、记录开关和字号立即生效；勾掉「超限写 .bin」= 超长文本和图片直接丢弃。其余项需重启。";

/// Every control of the window, top to bottom.
pub open spec fn window_controls(m: FormMetrics) -> Seq<ControlView> {
    seq![
        caption_of(m, 0, "热键（点这里按组合键）"@),
        field_of(m, 0, ID_HOTKEY, ControlKind::Field),
        caption_of(m, 1, "同步目录（留空 = 自动）"@),
        field_of(m, 1, ID_SYNC_ROOT, ControlKind::Field),
        caption_of(m, 2, "保留天数（0 = 不清理）"@),
        field_of(m, 2, ID_RETENTION, ControlKind::NumberField),
        caption_of(m, 3, "单条上限（MB）"@),
        field_of(m, 3, ID_MAX_BLOB_MB, ControlKind::NumberField),
        caption_of(m, 4, "内联文本上限（字符）"@),
        field_of(m, 4, ID_INLINE_LIMIT, ControlKind::NumberField),
        caption_of(m, 5, "重扫间隔（秒）"@),
        field_of(m, 5, ID_RESCAN, ControlKind::NumberField),
        caption_of(m, 6, "设置窗口字号（%）"@),
        field_of(m, 6, ID_SETTINGS_SCALE, ControlKind::NumberField),
        check_of(m, 0, ID_CAPTURE_TEXT, "记录文本"@),
        check_of(m, 1, ID_CAPTURE_IMAGES, "记录图片"@),
        check_of(m, 2, ID_CAPTURE_FILES, "记录文件"@),
        check_of(m, 3, ID_WRITE_BLOBS, "超限写 .bin"@),
        controls::one(
            NOTE_ID,
            ControlKind::Label,
            NOTE@,
            controls::placed_at(
                m.margin as int,
                m.note_top as int,
                m.client_width - m.margin * 2,
                m.row_height as int,
            ),
        ),
        controls::one(
            ID_SAVE,
            ControlKind::DefaultButton,
            "保存"@,
            controls::placed_at(
                m.margin as int,
                m.button_top as int,
                m.button_width as int,
                m.button_height as int,
            ),
        ),
        controls::one(
            ID_CANCEL,
            ControlKind::Button,
            "取消"@,
            controls::placed_at(
                m.margin + m.button_width + m.button_gap,
                m.button_top as int,
                m.button_width as int,
                m.button_height as int,
            ),
        ),
        controls::one(
            ID_CLEANUP,
            ControlKind::Button,
            "清理…"@,
            controls::placed_at(
                m.margin + (m.button_width + m.button_gap) * 2,
                m.button_top as int,
                m.button_width as int,
                m.button_height as int,
            ),
        ),
    ]
}

fn push_row(
    out: &mut Vec<Control>,
    m: &FormMetrics,
    row: i32,
    id: usize,
    kind: ControlKind,
    caption: &'static str,
)
    requires
        usable(*m),
        0 <= row <= 6,
    ensures
        controls::control_views(final(out)@) == controls::control_views(old(out)@).push(
            caption_of(*m, row as int, caption@),
        ).push(field_of(*m, row as int, id, kind)),
{
    proof {
        assert(0 <= row * m.row_step <= 6 * m.row_step) by (nonlinear_arith)
            requires
                0 <= row <= 6,
                0 <= m.row_step,
        ;
    }
    let y: i32 = m.margin + row * m.row_step;
    let label = controls::control(
        LABEL_ID_BASE + row as usize,
        ControlKind::Label,
        caption,
        m.margin,
        y,
        m.label_width,
        m.row_height,
    );
    let field = controls::control(
        id,
        kind,
        "",
        m.margin + m.label_width + m.field_gap,
        y,
        m.field_width,
        m.row_height,
    );
    out.push(label);
    out.push(field);
    assert(controls::control_views(out@) =~= controls::control_views(old(out)@).push(
        caption_of(*m, row as int, caption@),
    ).push(field_of(*m, row as int, id, kind)));
}

fn push_check(
    out: &mut Vec<Control>,
    m: &FormMetrics,
    column: i32,
    id: usize,
    caption: &'static str,
)
    requires
        usable(*m),
        0 <= column <= 3,
    ensures
        controls::control_views(final(out)@) == controls::control_views(old(out)@).push(
            check_of(*m, column as int, id, caption@),
        ),
{
    proof {
        assert(0 <= column * m.check_step <= 3 * m.check_step) by (nonlinear_arith)
            requires
                0 <= column <= 3,
                0 <= m.check_step,
        ;
    }
    out.push(
        controls::control(
            id,
            ControlKind::Check,
            caption,
            m.margin + column * m.check_step,
            m.checks_top,
            m.check_width,
            m.row_height,
        ),
    );
    assert(controls::control_views(out@) =~= controls::control_views(old(out)@).push(
        check_of(*m, column as int, id, caption@),
    ));
}

/// The controls for these measures: once to make them, and again whenever the
/// window opens on a display with another scale or is dragged to one. A row is
/// described in exactly one place.
pub fn layout(m: &FormMetrics) -> (r: Vec<Control>)
    requires
        usable(*m),
    ensures
        controls::control_views(r@) == window_controls(*m),
{
    let mut r: Vec<Control> = Vec::new();
    push_row(&mut r, m, 0, ID_HOTKEY, ControlKind::Field, "热键（点这里按组合键）");
    push_row(&mut r, m, 1, ID_SYNC_ROOT, ControlKind::Field, "同步目录（留空 = 自动）");
    push_row(&mut r, m, 2, ID_RETENTION, ControlKind::NumberField, "保留天数（0 = 不清理）");
    push_row(&mut r, m, 3, ID_MAX_BLOB_MB, ControlKind::NumberField, "单条上限（MB）");
    push_row(&mut r, m, 4, ID_INLINE_LIMIT, ControlKind::NumberField, "内联文本上限（字符）");
    push_row(&mut r, m, 5, ID_RESCAN, ControlKind::NumberField, "重扫间隔（秒）");
    push_row(&mut r, m, 6, ID_SETTINGS_SCALE, ControlKind::NumberField, "设置窗口字号（%）");
    push_check(&mut r, m, 0, ID_CAPTURE_TEXT, "记录文本");
    push_check(&mut r, m, 1, ID_CAPTURE_IMAGES, "记录图片");
    push_check(&mut r, m, 2, ID_CAPTURE_FILES, "记录文件");
    push_check(&mut r, m, 3, ID_WRITE_BLOBS, "超限写 .bin");
    let ghost above = controls::control_views(r@);
    assert(above =~= window_controls(*m).take(18));
    r.push(
        controls::control(
            NOTE_ID,
            ControlKind::Label,
            NOTE,
            m.margin,
            m.note_top,
            m.client_width - m.margin * 2,
            m.row_height,
        ),
    );
    r.push(
        controls::control(
            ID_SAVE,
            ControlKind::DefaultButton,
            "保存",
            m.margin,
            m.button_top,
            m.button_width,
            m.button_height,
        ),
    );
    r.push(
        controls::control(
            ID_CANCEL,
            ControlKind::Button,
            "取消",
            m.margin + m.button_width + m.button_gap,
            m.button_top,
            m.button_width,
            m.button_height,
        ),
    );
    r.push(
        controls::control(
            ID_CLEANUP,
            ControlKind::Button,
            "清理…",
            m.margin + (m.button_width + m.button_gap) * 2,
            m.button_top,
            m.button_width,
            m.button_height,
        ),
    );
    proof {
        let all = controls::control_views(r@);
        let wanted = window_controls(*m);
        assert(all.take(18) =~= above);
        assert(all[18] == wanted[18]);
        assert(all[19] == wanted[19]);
        assert(all[20] == wanted[20]);
        assert(all[21] == wanted[21]);
        assert forall|i: int| 0 <= i < 18 implies all[i] == wanted[i] by {
            assert(all[i] == all.take(18)[i]);
            assert(wanted[i] == wanted.take(18)[i]);
        }
        assert(all =~= wanted);
    }
    r
}

/// Where there is room for them, every control lies inside the client area: none is
/// pushed below the bottom edge by the rows above it.
pub proof fn law_controls_inside(m: FormMetrics, i: int)
    requires
        usable(m),
        roomy(m),
        0 <= i < window_controls(m).len(),
    ensures
        controls::inside(
            window_controls(m)[i].at,
            m.client_width as int,
            m.client_height as int,
        ),
{
    lemma_row_span(m, 6);
}

proof fn lemma_row_span(m: FormMetrics, rows: int)
    requires
        usable(m),
        0 <= rows,
    ensures
        forall|row: int| 0 <= row <= rows ==> 0 <= #[trigger] (row * m.row_step) <= rows
            * m.row_step,
{
    assert forall|row: int| 0 <= row <= rows implies 0 <= #[trigger] (row * m.row_step) <= rows
        * m.row_step by {
        assert(0 <= row * m.row_step <= rows * m.row_step) by (nonlinear_arith)
            requires
                0 <= row <= rows,
                0 <= m.row_step,
        ;
    }
}

/// Where there is room for them, no two controls overlap.
pub proof fn law_controls_apart(m: FormMetrics, i: int, j: int)
    requires
        usable(m),
        roomy(m),
        0 <= i < j < window_controls(m).len(),
    ensures
        controls::apart(window_controls(m)[i].at, window_controls(m)[j].at),
{
    let all = window_controls(m);
    lemma_row_span(m, 7);
    if j < 14 {
        lemma_rows_apart(m, i, j);
    }
}

proof fn lemma_rows_apart(m: FormMetrics, i: int, j: int)
    requires
        usable(m),
        roomy(m),
        0 <= i < j < 14,
    ensures
        controls::apart(window_controls(m)[i].at, window_controls(m)[j].at),
{
    let all = window_controls(m);
    assert(all[i].at.y == m.margin + i / 2 * m.row_step);
    assert(all[j].at.y == m.margin + j / 2 * m.row_step);
    assert(all[i].at.height == m.row_height);
    if i / 2 < j / 2 {
        let a = i / 2;
        let b = j / 2;
        let step = m.row_step as int;
        assert(b * step >= a * step + step) by (nonlinear_arith)
            requires
                a + 1 <= b,
                step >= 0,
        ;
    }
}

// ------------------------------------------------------------------ hotkey field

pub const VK_SHIFT: u32 = 0x10;

pub const VK_CONTROL: u32 = 0x11;

pub const VK_MENU: u32 = 0x12;

pub const VK_ESCAPE: u32 = 0x1B;

pub const VK_LWIN: u32 = 0x5B;

pub const VK_RWIN: u32 = 0x5C;

pub open spec fn modifier_key(vk: u32) -> bool {
    vk == VK_SHIFT || vk == VK_CONTROL || vk == VK_MENU || vk == VK_LWIN || vk == VK_RWIN
}

pub fn is_modifier(vk: u32) -> (r: bool)
    ensures
        r == modifier_key(vk),
{
    vk == VK_SHIFT || vk == VK_CONTROL || vk == VK_MENU || vk == VK_LWIN || vk == VK_RWIN
}

/// What pressing a key puts into the hotkey field, which records combinations
/// instead of taking text: pressing one is easier than spelling it, and it cannot
/// be misspelled. A lone modifier is not a combination yet, and a key with no name
/// would leave the field holding something that cannot be saved, so both leave it
/// as it is. Escape puts back what is saved, so a mis-press is undoable.
pub fn record(vk: u32, held: Modifiers, saved: Option<&str>) -> (r: Option<String>)
    ensures
        text::opt_view(r) == recorded(
            vk,
            held,
            match saved {
                Some(hotkey) => Some(hotkey@),
                None => None,
            },
        ),
{
    if is_modifier(vk) {
        return None;
    }
    if vk == VK_ESCAPE {
        return match saved {
            Some(hotkey) => Some(hotkey.to_owned()),
            None => None,
        };
    }
    match Hotkey::new(held.flags(), vk) {
        Some(hotkey) => Some(hotkey.text()),
        None => None,
    }
}

pub open spec fn recorded(vk: u32, held: Modifiers, saved: Option<Seq<char>>) -> Option<Seq<char>> {
    if modifier_key(vk) {
        None
    } else if vk == VK_ESCAPE {
        saved
    } else if hotkey::registrable(hotkey::flags(held), vk) {
        Some(hotkey::spelling(Hotkey { modifiers: hotkey::flags(held), vk }))
    } else {
        None
    }
}

/// Whatever pressing a combination puts into the field can be saved, and is read
/// back as that combination.
pub proof fn law_recorded_is_read_back(vk: u32, held: Modifiers)
    requires
        !modifier_key(vk),
        vk != VK_ESCAPE,
    ensures
        recorded(vk, held, None) matches Some(shown) ==> hotkey::parsed(text::trimmed(shown))
            == Some(Hotkey { modifiers: hotkey::flags(held), vk }),
{
    let h = Hotkey { modifiers: hotkey::flags(held), vk };
    if hotkey::registrable(h.modifiers, vk) {
        hotkey::lemma_spelling_is_trimmed(h);
        hotkey::law_hotkey_round_trip(h);
    }
}

// ------------------------------------------------------------------ notifications

#[derive(Clone, Copy, Debug, PartialEq, Eq, Structural)]
pub enum WindowAction {
    Nothing,
    /// The hotkey field has the focus: pressing the registered combination has to
    /// reach it instead of firing the popup.
    SuspendHotkey,
    ApplyHotkey,
    Save,
    Close,
    OpenCleanup,
}

pub const BN_CLICKED: usize = 0;

pub const EN_SETFOCUS: usize = 0x0100;

pub const EN_KILLFOCUS: usize = 0x0200;

/// What a notification of one of the controls does. The low word is the control,
/// the high word what happened to it.
pub open spec fn notified(wparam: usize) -> WindowAction {
    let id = win::low_word(wparam);
    let notification = win::high_word(wparam);
    if id == ID_HOTKEY && notification == EN_SETFOCUS {
        WindowAction::SuspendHotkey
    } else if id == ID_HOTKEY && notification == EN_KILLFOCUS {
        WindowAction::ApplyHotkey
    } else if id == ID_SAVE && notification == BN_CLICKED {
        WindowAction::Save
    } else if id == ID_CANCEL && notification == BN_CLICKED {
        WindowAction::Close
    } else if id == ID_CLEANUP && notification == BN_CLICKED {
        WindowAction::OpenCleanup
    } else {
        WindowAction::Nothing
    }
}

pub fn handle_notification(wparam: usize) -> (r: WindowAction)
    ensures
        r == notified(wparam),
{
    let id: usize = wparam % 0x1_0000;
    let notification: usize = wparam / 0x1_0000 % 0x1_0000;
    if id == ID_HOTKEY && notification == EN_SETFOCUS {
        WindowAction::SuspendHotkey
    } else if id == ID_HOTKEY && notification == EN_KILLFOCUS {
        WindowAction::ApplyHotkey
    } else if id == ID_SAVE && notification == BN_CLICKED {
        WindowAction::Save
    } else if id == ID_CANCEL && notification == BN_CLICKED {
        WindowAction::Close
    } else if id == ID_CLEANUP && notification == BN_CLICKED {
        WindowAction::OpenCleanup
    } else {
        WindowAction::Nothing
    }
}

/// What a message to the window or its hotkey field is about.
#[derive(Clone, Copy, Debug, PartialEq, Eq, Structural)]
pub enum WindowEvent {
    /// Nothing of ours: the system handles it.
    Default,
    Act(WindowAction),
    /// Dragged onto a display with this DPI; zero when it was not told.
    DpiChanged(u32),
    /// A key went down in the hotkey field.
    Record(u32),
    /// A keystroke that became a character: eaten, or it would land in the box.
    Swallow,
}

/// A message to the window. Closing hides rather than destroys, so the window can be
/// reopened without rebuilding every control.
pub fn window_proc(message: u32, wparam: usize) -> (r: WindowEvent)
    ensures
        r == (if message == messages::WM_COMMAND {
            WindowEvent::Act(notified(wparam))
        } else if message == messages::WM_CLOSE {
            WindowEvent::Act(WindowAction::Close)
        } else if message == messages::WM_DPICHANGED {
            WindowEvent::DpiChanged(win::low_word(wparam) as u32)
        } else {
            WindowEvent::Default
        }),
{
    if message == messages::WM_COMMAND {
        WindowEvent::Act(handle_notification(wparam))
    } else if message == messages::WM_CLOSE {
        WindowEvent::Act(WindowAction::Close)
    } else if message == messages::WM_DPICHANGED {
        WindowEvent::DpiChanged((wparam % 0x1_0000) as u32)
    } else {
        WindowEvent::Default
    }
}

/// A message to the hotkey field, which has to see the keystrokes before the control
/// turns them into characters.
pub fn hotkey_proc(message: u32, wparam: usize) -> (r: WindowEvent)
    ensures
        r == (if message == messages::WM_KEYDOWN || message == messages::WM_SYSKEYDOWN {
            WindowEvent::Record(wparam as u32)
        } else if message == messages::WM_CHAR || message == messages::WM_SYSCHAR {
            WindowEvent::Swallow
        } else {
            WindowEvent::Default
        }),
{
    if message == messages::WM_KEYDOWN || message == messages::WM_SYSKEYDOWN {
        WindowEvent::Record(wparam as u32)
    } else if message == messages::WM_CHAR || message == messages::WM_SYSCHAR {
        WindowEvent::Swallow
    } else {
        WindowEvent::Default
    }
}

/// A field with nothing in it stands for its default; one with a number, with or
/// without white space around it, for the number; and anything else for none.
pub proof fn law_number_typed(default: u32, typed: Seq<char>)
    ensures
        text::blank(typed) ==> number_in(default, typed) == Some(default as nat),
        !text::blank(typed) && text::all_digits(text::trimmed(typed)) ==> number_in(default, typed)
            == (if text::read_decimal(text::trimmed(typed)) <= u32::MAX {
            Some(text::read_decimal(text::trimmed(typed)) as nat)
        } else {
            None
        }),
        !text::blank(typed) && text::trimmed(typed)[0] != '+' && !text::all_digits(
            text::trimmed(typed),
        ) ==> number_in(default, typed) is None,
{
    text::law_trimming(typed);
    let s = text::trimmed(typed);
    text::law_typed_number(s, u32::MAX as nat);
}

/// The form shows each setting in its own field, a size in megabytes.
pub proof fn law_form_shows_the_settings(s: SettingsView)
    ensures
        ({
            let form = form_of(s);
            &&& form.hotkey == s.hotkey
            &&& s.sync_root_override matches Some(path) ==> form.sync_root == path
            &&& s.sync_root_override is None ==> form.sync_root.len() == 0
            &&& text::read_decimal(form.retention) == s.retention_days
            &&& text::read_decimal(form.max_blob_mb) == s.max_blob_bytes as nat / 1_048_576
            &&& text::read_decimal(form.inline_limit) == s.inline_text_limit
            &&& text::read_decimal(form.rescan) == s.rescan_seconds
            &&& text::read_decimal(form.scale) == s.settings_scale
            &&& form.capture_text == s.capture_text
            &&& form.capture_images == s.capture_images
            &&& form.capture_files == s.capture_files
            &&& form.write_blobs == s.write_blobs
        }),
{
    text::law_decimal_spells_the_number(s.retention_days as nat);
    text::law_decimal_spells_the_number((s.max_blob_bytes / MEGABYTE) as nat);
    text::law_decimal_spells_the_number(s.inline_text_limit as nat);
    text::law_decimal_spells_the_number(s.rescan_seconds as nat);
    text::law_decimal_spells_the_number(s.settings_scale as nat);
}

/// A save puts each field of the form where it belongs: the numbers, the switches, the
/// folder without the white space around it, and the combination as it is spelled.
pub proof fn law_save_puts_each_field_in_place(current: SettingsView, form: FormView, free: bool)
    requires
        judged(current, form, free) is Ok,
    ensures
        ({
            let saved = judged(current, form, free)->Ok_0;
            &&& hotkey::parsed(text::trimmed(form.hotkey)) matches Some(wanted) && saved.hotkey
                == hotkey::spelling(wanted)
            &&& text::blank(form.sync_root) ==> saved.sync_root_override is None
            &&& !text::blank(form.sync_root) ==> saved.sync_root_override == Some(
                text::trimmed(form.sync_root),
            )
            &&& number_in(0, form.retention) == Some(saved.retention_days as nat)
            &&& number_in(10, form.max_blob_mb) matches Some(mb) && saved.max_blob_bytes == mb
                * 1024 * 1024
            &&& number_in(8192, form.inline_limit) == Some(saved.inline_text_limit as nat)
            &&& number_in(60, form.rescan) == Some(saved.rescan_seconds as nat)
            &&& number_in(100, form.scale) == Some(saved.settings_scale as nat)
            &&& saved.capture_text == form.capture_text
            &&& saved.capture_images == form.capture_images
            &&& saved.capture_files == form.capture_files
            &&& saved.write_blobs == form.write_blobs
        }),
{
    text::law_trimming(form.sync_root);
    text::law_typed_number(text::trimmed(form.inline_limit), u32::MAX as nat);
}

/// A form is saved exactly when its combination can be registered, or is the one that
/// is, and every number is one: at least 10 seconds between two scans, a size that is
/// not zero and a scale of 50 to 300 percent.
pub proof fn law_which_forms_are_saved(current: SettingsView, form: FormView, free: bool)
    ensures
        judged(current, form, free) is Ok <==> {
            &&& hotkey::parsed(text::trimmed(form.hotkey)) is Some
            &&& free || hotkey::parsed(current.hotkey) == hotkey::parsed(text::trimmed(form.hotkey))
            &&& number_in(0, form.retention) is Some
            &&& number_in(10, form.max_blob_mb) matches Some(mb) && mb > 0
            &&& number_in(8192, form.inline_limit) is Some
            &&& number_in(60, form.rescan) matches Some(seconds) && seconds >= 10
            &&& number_in(100, form.scale) matches Some(percent) && 50 <= percent <= 300
        },
{
}

/// What is complained of is what is wrong, with what was typed.
pub proof fn law_complaint_is_what_is_wrong(current: SettingsView, form: FormView, free: bool)
    ensures
        judged(current, form, free) matches Err(complaint) ==> match complaint {
            ComplaintView::Hotkey(typed) => typed == text::trimmed(form.hotkey) && hotkey::parsed(
                typed,
            ) is None,
            ComplaintView::Taken(wanted) => !free && hotkey::parsed(text::trimmed(form.hotkey))
                == Some(wanted) && hotkey::parsed(current.hotkey) != Some(wanted),
            ComplaintView::NotANumber(field, typed) => {
                let shown = match field {
                    NumberField::Retention => form.retention,
                    NumberField::MaxBlob => form.max_blob_mb,
                    NumberField::InlineLimit => form.inline_limit,
                    NumberField::Rescan => form.rescan,
                    NumberField::Scale => form.scale,
                };
                typed == text::trimmed(shown) && number_in(0, shown) is None
            },
            ComplaintView::RescanTooShort => number_in(60, form.rescan) matches Some(seconds)
                && seconds < 10,
            ComplaintView::NothingFits => number_in(10, form.max_blob_mb) == Some(0nat),
            ComplaintView::ScaleOutOfRange => number_in(100, form.scale) matches Some(percent)
                && !(50 <= percent <= 300),
        },
{
}

/// The row of the window that shows a number.
pub open spec fn row_of(field: NumberField) -> int {
    match field {
        NumberField::Retention => 2,
        NumberField::MaxBlob => 3,
        NumberField::InlineLimit => 4,
        NumberField::Rescan => 5,
        NumberField::Scale => 6,
    }
}

/// A complaint about a number begins with the words that stand before its field in the
/// window, and then says what was typed.
pub proof fn law_complaint_names_its_field(m: FormMetrics, field: NumberField, typed: Seq<char>)
    ensures
        ({
            let caption = window_controls(m)[2 * row_of(field)].caption;
            let said = message_of(ComplaintView::NotANumber(field, typed));
            let n = field_caption(field).len() as int;
            &&& n > 1
            &&& n <= caption.len()
            &&& said.take(n - 1) == caption.take(n - 1)
            &&& said[n - 1] == '：'
            &&& said.subrange(n + 1, n + 1 + typed.len()) == typed
        }),
{
    reveal_strlit("保留天数：");
    reveal_strlit("单条上限：");
    reveal_strlit("内联文本上限：");
    reveal_strlit("重扫间隔：");
    reveal_strlit("设置窗口字号：");
    reveal_strlit("保留天数（0 = 不清理）");
    reveal_strlit("单条上限（MB）");
    reveal_strlit("内联文本上限（字符）");
    reveal_strlit("重扫间隔（秒）");
    reveal_strlit("设置窗口字号（%）");
    reveal_strlit("“");
    let caption = window_controls(m)[2 * row_of(field)].caption;
    let said = message_of(ComplaintView::NotANumber(field, typed));
    let n = field_caption(field).len() as int;
    assert(n <= caption.len());
    assert(said.take(n - 1) =~= caption.take(n - 1));
    assert(said.subrange(n + 1, n + 1 + typed.len()) =~= typed);
}

/// Every caption stands before its own field, on the same line; and every switch
/// carries the words for what it switches.
pub proof fn law_captions_stand_before_their_fields(m: FormMetrics, row: int)
    requires
        usable(m),
        0 <= row < 7,
    ensures
        ({
            let all = window_controls(m);
            let caption = all[2 * row];
            let field = all[2 * row + 1];
            &&& caption.at.y == field.at.y
            &&& caption.at.y == m.margin + row * m.row_step
            &&& caption.at.x + caption.at.width + m.field_gap == field.at.x
            &&& row == 0 ==> field.id == ID_HOTKEY
            &&& row == 1 ==> field.id == ID_SYNC_ROOT
            &&& row == row_of(NumberField::Retention) ==> field.id == ID_RETENTION
            &&& row == row_of(NumberField::MaxBlob) ==> field.id == ID_MAX_BLOB_MB
            &&& row == row_of(NumberField::InlineLimit) ==> field.id == ID_INLINE_LIMIT
            &&& row == row_of(NumberField::Rescan) ==> field.id == ID_RESCAN
            &&& row == row_of(NumberField::Scale) ==> field.id == ID_SETTINGS_SCALE
            &&& row >= 2 ==> field.kind == ControlKind::NumberField
            &&& row < 2 ==> field.kind == ControlKind::Field
            &&& all[14].id == ID_CAPTURE_TEXT && all[14].caption == "记录文本"@
            &&& all[15].id == ID_CAPTURE_IMAGES && all[15].caption == "记录图片"@
            &&& all[16].id == ID_CAPTURE_FILES && all[16].caption == "记录文件"@
            &&& all[17].id == ID_WRITE_BLOBS && all[17].caption == "超限写 .bin"@
        }),
{
    assert(row * m.row_step <= 7 * popup_layout::LIMIT) by (nonlinear_arith)
        requires
            0 <= row < 7,
            0 <= m.row_step <= popup_layout::LIMIT,
    ;
    assert(0 <= row * m.row_step) by (nonlinear_arith)
        requires
            0 <= row,
            0 <= m.row_step,
    ;
}

/// A click on a button does what the button says, and a click on nothing else does.
pub proof fn law_buttons_do_what_they_say(m: FormMetrics, wparam: usize, i: int)
    requires
        0 <= i < window_controls(m).len(),
        win::low_word(wparam) == window_controls(m)[i].id,
        win::high_word(wparam) == 0,
    ensures
        ({
            let caption = window_controls(m)[i].caption;
            &&& notified(wparam) is Save <==> caption == "保存"@
            &&& notified(wparam) is Close <==> caption == "取消"@
            &&& notified(wparam) is OpenCleanup <==> caption == "清理…"@
            &&& !(notified(wparam) is SuspendHotkey)
            &&& !(notified(wparam) is ApplyHotkey)
        }),
{
    reveal_strlit("保存");
    reveal_strlit("取消");
    reveal_strlit("清理…");
    assert("保存"@[0] == '保' && "取消"@[0] == '取' && "清理…"@[0] == '清');
    if i < 19 {
        lemma_captions_differ(m, i);
    }
}

proof fn lemma_captions_differ(m: FormMetrics, i: int)
    requires
        0 <= i < 19,
    ensures
        window_controls(m)[i].caption != "保存"@,
        window_controls(m)[i].caption != "取消"@,
        window_controls(m)[i].caption != "清理…"@,
{
    reveal_strlit("保存");
    reveal_strlit("取消");
    reveal_strlit("清理…");
    reveal_strlit("");
    reveal_strlit("热键（点这里按组合键）");
    reveal_strlit("同步目录（留空 = 自动）");
    reveal_strlit("保留天数（0 = 不清理）");
    reveal_strlit("单条上限（MB）");
    reveal_strlit("内联文本上限（字符）");
    reveal_strlit("重扫间隔（秒）");
    reveal_strlit("设置窗口字号（%）");
    reveal_strlit("记录文本");
    reveal_strlit("记录图片");
    reveal_strlit("记录文件");
    reveal_strlit("超限写 .bin");
    reveal_strlit(
        "热键、记录开关和字号立即生效；勾掉「超限写 .bin」= 超长文本和图片直接丢弃。其余项需重启。",
    );
    assert("保存"@.len() == 2 && "取消"@.len() == 2 && "清理…"@.len() == 3);
    let caption = window_controls(m)[i].caption;
    assert(caption.len() != 2 && caption.len() != 3);
}

/// The hotkey field is left alone by the program while it has the focus: its own
/// combination is let go when the field is entered and taken again when it is left.
pub proof fn law_hotkey_field_is_left_alone(wparam: usize)
    ensures
        notified(wparam) is SuspendHotkey <==> win::low_word(wparam) == ID_HOTKEY
            && win::high_word(wparam) == 256,
        notified(wparam) is ApplyHotkey <==> win::low_word(wparam) == ID_HOTKEY
            && win::high_word(wparam) == 512,
{
}

/// Pressing a key fills the field when it makes a combination that can be registered;
/// Escape puts back what was saved; anything else, a modifier alone among it, leaves
/// the field as it is.
pub proof fn law_what_a_press_fills_in(vk: u32, held: Modifiers, saved: Option<Seq<char>>)
    ensures
        vk == 27 ==> recorded(vk, held, saved) == saved,
        vk != 27 ==> (recorded(vk, held, saved) is Some <==> hotkey::registrable(
            hotkey::flags(held),
            vk,
        )),
{
}

/// A complaint says what it is about: the combination that was typed or is taken, and the
/// bounds that were not kept.
pub proof fn law_complaints_say_what_is_wrong(typed: Seq<char>, wanted: Hotkey)
    ensures
        text::holds(message_of(ComplaintView::Hotkey(typed)), "热键 “"@ + typed + "” 不能用"@),
        text::holds(
            message_of(ComplaintView::Taken(wanted)),
            "“"@ + hotkey::spelling(wanted) + "” 已经被别的程序占用"@,
        ),
        text::holds(message_of(ComplaintView::RescanTooShort), "不能小于 10 秒"@),
        text::holds(message_of(ComplaintView::NothingFits), "单条上限不能为 0"@),
        text::holds(
            message_of(ComplaintView::ScaleOutOfRange),
            "字号要在 "@ + text::decimal(50) + "% 到 "@ + text::decimal(300) + "% 之间"@,
        ),
{
    reveal_strlit("” 不能用");
    reveal_strlit(
        "” 不能用。\n\n点进热键框直接按下组合键即可。需要至少一个修饰键（Ctrl/Alt/Shift/Win），\n只有 F1-F24 能单独使用——单独的字母或数字会吃掉全系统的那个键。",
    );
    reveal_strlit("” 已经被别的程序占用");
    reveal_strlit("” 已经被别的程序占用了，换一个组合。");
    reveal_strlit("不能小于 10 秒");
    reveal_strlit("重扫间隔不能小于 10 秒。");
    reveal_strlit("单条上限不能为 0");
    reveal_strlit("单条上限不能为 0，否则什么都存不下来。");
    reveal_strlit("% 之间");
    reveal_strlit("% 之间，100% 就跟系统一样大。");
    let none = Seq::<char>::empty();
    let a = "热键 “"@ + typed + "” 不能用"@;
    let a_rest = NO_HOTKEY@.skip(5);
    assert(message_of(ComplaintView::Hotkey(typed)) =~= none + a + a_rest);
    text::lemma_holds(none, a, a_rest);
    let b = "“"@ + hotkey::spelling(wanted) + "” 已经被别的程序占用"@;
    let b_rest = HOTKEY_TAKEN@.skip(11);
    assert(message_of(ComplaintView::Taken(wanted)) =~= none + b + b_rest);
    text::lemma_holds(none, b, b_rest);
    let c = "不能小于 10 秒"@;
    assert(RESCAN_TOO_SHORT@ =~= RESCAN_TOO_SHORT@.take(4) + c + RESCAN_TOO_SHORT@.skip(13));
    text::lemma_holds(RESCAN_TOO_SHORT@.take(4), c, RESCAN_TOO_SHORT@.skip(13));
    let d = "单条上限不能为 0"@;
    assert(NOTHING_FITS@ =~= none + d + NOTHING_FITS@.skip(9));
    text::lemma_holds(none, d, NOTHING_FITS@.skip(9));
    let e = "字号要在 "@ + text::decimal(50) + "% 到 "@ + text::decimal(300) + "% 之间"@;
    let e_rest = "% 之间，100% 就跟系统一样大。"@.skip(4);
    assert(message_of(ComplaintView::ScaleOutOfRange) =~= none + e + e_rest);
    text::lemma_holds(none, e, e_rest);
}

} // verus!
