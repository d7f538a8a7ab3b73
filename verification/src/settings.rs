//! Persisted configuration, the machine id, and path resolution.
//!
//! The keys in the settings file and `machine.id` are never renamed: both are
//! already on disk, and keeping the id means this machine keeps writing into the
//! shard its history already lives in.

use vstd::prelude::*;

pub use crate::hotkey::{key_name, parse_hotkey, Hotkey};
use crate::clip::ClipPayload;
use crate::clip::PayloadView;
use crate::paths;
use crate::text;
use crate::win;
use crate::win::SYSTEMTIME;

verus! {

pub const SETTINGS_FILE: &'static str = "settings.json";

pub const MACHINE_ID_FILE: &'static str = "machine.id";

/// The folder everything is kept in, below the sync folder or the local one.
pub const FOLDER: &'static str = "ClipPlus";

pub const DEFAULT_SETTINGS_SCALE: u32 = 100;

pub const MIN_SETTINGS_SCALE: u32 = 50;

pub const MAX_SETTINGS_SCALE: u32 = 300;

#[derive(Debug)]
pub struct Settings {
    pub hotkey: String,
    pub max_blob_bytes: u64,
    pub inline_text_limit: usize,
    pub rescan_seconds: u64,
    /// Percent: the user's own multiplier for the settings window's controls, on
    /// top of the display's own scale. The popup deliberately does not follow it.
    pub settings_scale: u32,
    /// Where the popup was last left, in screen coordinates. `None` until it is
    /// dragged somewhere. Written by the popup, not by the settings window.
    pub popup_position: Option<(i32, i32)>,
    /// How big the popup was last left, in logical pixels. `None` until it is
    /// stretched. Written by the popup, not by the settings window.
    pub popup_size: Option<(i32, i32)>,
    pub capture_text: bool,
    pub capture_images: bool,
    pub capture_files: bool,
    /// Whether a clip that needs a `.bin` sibling (text over the inline limit, or
    /// an image) is written at all. Off drops it instead, the same as if the kind
    /// were switched off.
    pub write_blobs: bool,
    pub retention_days: u32,
    pub sync_root_override: Option<String>,
    pub app_dir: String,
    pub sync_root: String,
    pub machine_id: String,
}

/// Settings as plain values.
#[verifier::ext_equal]
pub struct SettingsView {
    pub hotkey: Seq<char>,
    pub max_blob_bytes: u64,
    pub inline_text_limit: usize,
    pub rescan_seconds: u64,
    pub settings_scale: u32,
    pub popup_position: Option<(i32, i32)>,
    pub popup_size: Option<(i32, i32)>,
    pub capture_text: bool,
    pub capture_images: bool,
    pub capture_files: bool,
    pub write_blobs: bool,
    pub retention_days: u32,
    pub sync_root_override: Option<Seq<char>>,
    pub app_dir: Seq<char>,
    pub sync_root: Seq<char>,
    pub machine_id: Seq<char>,
}

impl View for Settings {
    type V = SettingsView;

    open spec fn view(&self) -> SettingsView {
        SettingsView {
            hotkey: self.hotkey@,
            max_blob_bytes: self.max_blob_bytes,
            inline_text_limit: self.inline_text_limit,
            rescan_seconds: self.rescan_seconds,
            settings_scale: self.settings_scale,
            popup_position: self.popup_position,
            popup_size: self.popup_size,
            capture_text: self.capture_text,
            capture_images: self.capture_images,
            capture_files: self.capture_files,
            write_blobs: self.write_blobs,
            retention_days: self.retention_days,
            sync_root_override: text::opt_view(self.sync_root_override),
            app_dir: self.app_dir@,
            sync_root: self.sync_root@,
            machine_id: self.machine_id@,
        }
    }
}

pub open spec fn defaults() -> SettingsView {
    SettingsView {
        hotkey: "Win+Alt+V"@,
        max_blob_bytes: 10_485_760,
        inline_text_limit: 8192,
        rescan_seconds: 60,
        settings_scale: DEFAULT_SETTINGS_SCALE,
        popup_position: None,
        popup_size: None,
        capture_text: true,
        capture_images: true,
        capture_files: true,
        write_blobs: true,
        retention_days: 0,
        sync_root_override: None,
        app_dir: Seq::empty(),
        sync_root: Seq::empty(),
        machine_id: Seq::empty(),
    }
}

impl Default for Settings {
    fn default() -> (r: Settings)
        ensures
            r@ == defaults(),
    {
        let r = Settings {
            hotkey: "Win+Alt+V".to_owned(),
            max_blob_bytes: 10_485_760,
            inline_text_limit: 8192,
            rescan_seconds: 60,
            settings_scale: DEFAULT_SETTINGS_SCALE,
            popup_position: None,
            popup_size: None,
            capture_text: true,
            capture_images: true,
            capture_files: true,
            write_blobs: true,
            retention_days: 0,
            sync_root_override: None,
            app_dir: String::new(),
            sync_root: String::new(),
            machine_id: String::new(),
        };
        assert(r@ =~= defaults());
        r
    }
}

impl Clone for Settings {
    fn clone(&self) -> (r: Settings)
        ensures
            r@ == self@,
    {
        Settings {
            hotkey: self.hotkey.clone(),
            max_blob_bytes: self.max_blob_bytes,
            inline_text_limit: self.inline_text_limit,
            rescan_seconds: self.rescan_seconds,
            settings_scale: self.settings_scale,
            popup_position: self.popup_position,
            popup_size: self.popup_size,
            capture_text: self.capture_text,
            capture_images: self.capture_images,
            capture_files: self.capture_files,
            write_blobs: self.write_blobs,
            retention_days: self.retention_days,
            sync_root_override: text::copy_opt(&self.sync_root_override),
            app_dir: self.app_dir.clone(),
            sync_root: self.sync_root.clone(),
            machine_id: self.machine_id.clone(),
        }
    }
}

/// `n` brought into `low..=high`.
pub open spec fn clamped(n: u32, low: u32, high: u32) -> u32 {
    if n < low {
        low
    } else if n > high {
        high
    } else {
        n
    }
}

impl Settings {
    /// What was read from the settings file, completed with what is not in it.
    ///
    /// Hand-edited values are brought back into range here, so nothing downstream
    /// has to wonder what a scale of 0 or 9000 would do.
    pub fn load(
        stored: Settings,
        app_dir: String,
        machine_id: String,
        sync_folders: &Vec<Option<String>>,
    ) -> (r: Settings)
        ensures
            r@ == (SettingsView {
                app_dir: app_dir@,
                machine_id: machine_id@,
                sync_root: sync_root_of(
                    app_dir@,
                    text::opt_view(stored.sync_root_override),
                    folder_views(sync_folders@),
                ),
                settings_scale: clamped(
                    stored.settings_scale,
                    MIN_SETTINGS_SCALE,
                    MAX_SETTINGS_SCALE,
                ),
                ..stored@
            }),
    {
        let mut r = stored;
        r.sync_root = resolve_sync_root(&app_dir, &r.sync_root_override, sync_folders);
        r.app_dir = app_dir;
        r.machine_id = machine_id;
        if r.settings_scale < MIN_SETTINGS_SCALE {
            r.settings_scale = MIN_SETTINGS_SCALE;
        } else if r.settings_scale > MAX_SETTINGS_SCALE {
            r.settings_scale = MAX_SETTINGS_SCALE;
        }
        r
    }

    /// This machine's private sub-tree. Only this process ever writes here.
    pub fn history_root(&self) -> (r: String)
        ensures
            r@ == paths::joined(self@.sync_root, self@.machine_id),
    {
        paths::join(&self.sync_root, &self.machine_id)
    }

    /// Where the settings file is.
    pub fn file(&self) -> (r: String)
        ensures
            r@ == paths::joined(self@.app_dir, SETTINGS_FILE@),
    {
        paths::join(&self.app_dir, SETTINGS_FILE)
    }
}

// --------------------------------------------------------------------- the clock

/// The local year, which is what a row's timestamp is compared against to decide
/// whether it has to spell the year out.
pub fn current_year(now: &SYSTEMTIME) -> (year: u16)
    ensures
        year == win::year_month(*now).0,
{
    win::local_year_month(now).0
}

/// `yyyy-MM`.
pub open spec fn bucket(year: u16, month: u16) -> Seq<char> {
    win::four(year) + seq!['-'] + win::two(month)
}

/// `<local yyyy-MM>`: local time, because that is how the folders already on disk
/// are named.
pub fn month_bucket(local: &SYSTEMTIME) -> (r: String)
    ensures
        r@ == bucket(win::year_month(*local).0, win::year_month(*local).1),
{
    let (year, month) = win::local_year_month(local);
    let mut r = String::new();
    text::push_padded(&mut r, year as u64, 4);
    r.push('-');
    text::push_padded(&mut r, month as u64, 2);
    assert(r@ =~= bucket(year, month));
    r
}

/// A whole number with its sign.
pub open spec fn signed_decimal(n: i64) -> Seq<char> {
    if n < 0 {
        seq!['-'] + text::decimal((-n) as nat)
    } else {
        text::decimal(n as nat)
    }
}

/// The part of a stem that sets clips of one millisecond apart.
pub open spec fn stem_salt(nanos: u32, counter: u64, process: u32) -> u64 {
    ((nanos as u64) << 32) ^ counter ^ (process as u64)
}

pub open spec fn stem_of(ms: i64, nanos: u32, counter: u64, process: u32) -> Seq<char> {
    signed_decimal(ms) + seq!['-'] + text::zero_padded(
        text::hex(stem_salt(nanos, counter, process) as nat),
        32,
    )
}

/// File stem for a new clip, from the time, a running count and the process.
/// Opaque to every reader, so the exact shape only has to be unique.
pub fn unique_stem(ms: i64, nanos: u32, counter: u64, process: u32) -> (r: String)
    ensures
        r@ == stem_of(ms, nanos, counter, process),
{
    let mut r = String::new();
    if ms < 0 {
        r.push('-');
        let positive: u64 = if ms == i64::MIN {
            0x8000_0000_0000_0000
        } else {
            (0 - ms) as u64
        };
        text::push_decimal(&mut r, positive);
    } else {
        text::push_decimal(&mut r, ms as u64);
    }
    assert(r@ =~= signed_decimal(ms));
    r.push('-');
    let salt: u64 = ((nanos as u64) << 32) ^ counter ^ (process as u64);
    push_padded_hex(&mut r, salt, 32);
    assert(r@ =~= stem_of(ms, nanos, counter, process));
    r
}

/// Appends `n` in lower case hexadecimal, padded with zeros to `width`.
fn push_padded_hex(out: &mut String, n: u64, width: usize)
    ensures
        final(out)@ == old(out)@ + text::zero_padded(text::hex(n as nat), width as nat),
{
    let mut digits = String::new();
    text::push_hex(&mut digits, n);
    assert(digits@ =~= text::hex(n as nat));
    let count = text::chars_of(&digits).len();
    let mut i: usize = count;
    let ghost zeros = Seq::new(0nat, |i: int| '0');
    assert(out@ =~= old(out)@ + zeros);
    while i < width
        invariant
            count == digits@.len(),
            count <= i,
            i <= width || i == count,
            zeros =~= Seq::new((i - count) as nat, |i: int| '0'),
            out@ =~= old(out)@ + zeros,
        decreases width - i,
    {
        out.push('0');
        proof {
            zeros = zeros.push('0');
        }
        i += 1;
    }
    out.append(digits.as_str());
    assert(out@ =~= old(out)@ + text::zero_padded(text::hex(n as nat), width as nat));
}

// ----------------------------------------------------------------- the machine id

/// The id in an existing id file; `None` when it holds none.
pub open spec fn stored_id(content: Option<Seq<char>>) -> Option<Seq<char>> {
    match content {
        Some(s) => if text::trimmed(s).len() > 0 {
            Some(text::trimmed(s))
        } else {
            None
        },
        None => None,
    }
}

pub fn load_machine_id(content: &Option<String>) -> (r: Option<String>)
    ensures
        text::opt_view(r) == stored_id(text::opt_view(*content)),
{
    match content {
        Some(s) => {
            let existing = text::trim(s);
            if existing.as_str().is_empty() {
                None
            } else {
                Some(existing)
            }
        },
        None => None,
    }
}

/// The number a new machine id spells.
pub open spec fn mixed_id(nanos: u64, process: u32) -> u32 {
    let mixed = nanos ^ ((process as u64) << 48);
    (mixed ^ (mixed >> 32)) as u32
}

/// Eight lowercase hex characters, the shape an existing `machine.id` already
/// has.
pub fn fresh_machine_id(nanos: u64, process: u32) -> (r: String)
    ensures
        r@ == text::zero_padded(text::hex(mixed_id(nanos, process) as nat), 8),
        r@.len() == 8,
        forall|i: int| 0 <= i < 8 ==> is_lower_hex(#[trigger] r@[i]),
{
    let mixed: u64 = nanos ^ ((process as u64) << 48);
    let id: u32 = (mixed ^ (mixed >> 32)) as u32;
    let mut r = String::new();
    push_padded_hex(&mut r, id as u64, 8);
    proof {
        assert(r@ =~= text::zero_padded(text::hex(id as nat), 8));
        lemma_hex_shape(id as nat, 8);
    }
    r
}

pub open spec fn is_lower_hex(c: char) -> bool {
    ('0' <= c && c <= '9') || ('a' <= c && c <= 'f')
}

spec fn pow16(k: nat) -> nat
    decreases k,
{
    if k == 0 {
        1
    } else {
        16 * pow16((k - 1) as nat)
    }
}

proof fn lemma_hex_len(n: nat, k: nat)
    requires
        0 < k,
        n < pow16(k),
    ensures
        1 <= text::hex(n).len() <= k,
        forall|i: int| 0 <= i < text::hex(n).len() ==> is_lower_hex(#[trigger] text::hex(n)[i]),
    decreases k,
{
    reveal_with_fuel(pow16, 2);
    if n >= 16 {
        lemma_hex_len(n / 16, (k - 1) as nat);
    }
}

proof fn lemma_hex_shape(n: nat, width: nat)
    requires
        n < 0x1_0000_0000,
        width >= 8,
    ensures
        text::zero_padded(text::hex(n), width).len() == width,
        forall|i: int|
            0 <= i < width ==> is_lower_hex(#[trigger] text::zero_padded(text::hex(n), width)[i]),
{
    assert(pow16(8) == 0x1_0000_0000) by {
        reveal_with_fuel(pow16, 9);
    }
    lemma_hex_len(n, 8);
}

// ------------------------------------------------------------------ the sync root

pub open spec fn folder_views(folders: Seq<Option<String>>) -> Seq<Option<Seq<char>>> {
    Seq::new(folders.len(), |i: int| text::opt_view(folders[i]))
}

/// The first sync provider's folder that is set to something.
pub open spec fn first_folder(folders: Seq<Option<Seq<char>>>) -> Option<Seq<char>>
    decreases folders.len(),
{
    if folders.len() == 0 {
        None
    } else if folders[0] is Some && folders[0]->0.len() > 0 {
        folders[0]
    } else {
        first_folder(folders.drop_first())
    }
}

/// Where the history goes: what the user set, or a folder of ours below the sync
/// provider's, or a local one: with no known provider everything still works,
/// just on the one machine.
pub open spec fn sync_root_of(
    app_dir: Seq<char>,
    over: Option<Seq<char>>,
    folders: Seq<Option<Seq<char>>>,
) -> Seq<char> {
    if over is Some && text::trimmed(over->0).len() > 0 {
        text::trimmed(over->0)
    } else {
        match first_folder(folders) {
            Some(folder) => paths::joined(folder, FOLDER@),
            None => paths::joined(app_dir, "sync"@),
        }
    }
}

/// `folders` are the sync providers' folders in the order they are asked.
pub fn resolve_sync_root(app_dir: &str, over: &Option<String>, folders: &Vec<Option<String>>) -> (r:
    String)
    ensures
        r@ == sync_root_of(app_dir@, text::opt_view(*over), folder_views(folders@)),
{
    if let Some(value) = over {
        let set = text::trim(value);
        if !set.as_str().is_empty() {
            return set;
        }
    }
    let ghost all = folder_views(folders@);
    let mut i: usize = 0;
    assert(all.skip(0) =~= all);
    while i < folders.len()
        invariant
            i <= folders@.len(),
            all == folder_views(folders@),
            first_folder(all.skip(i as int)) == first_folder(all),
            over matches Some(value) ==> text::trimmed(value@).len() == 0,
        decreases folders@.len() - i,
    {
        let ghost rest = all.skip(i as int);
        assert(rest[0] == text::opt_view(folders@[i as int]));
        assert(rest.drop_first() =~= all.skip(i as int + 1));
        if let Some(folder) = &folders[i] {
            if !folder.as_str().is_empty() {
                return paths::join(folder, FOLDER);
            }
        }
        i += 1;
    }
    paths::join(app_dir, "sync")
}

// ------------------------------------------------------------------ what is kept

/// Whether a payload takes a `.bin` sibling.
pub open spec fn heavy(payload: PayloadView, settings: SettingsView) -> bool {
    match payload {
        PayloadView::Text(s) => s.len() > settings.inline_text_limit,
        PayloadView::Image(_) => true,
        PayloadView::Files(_) => false,
    }
}

/// Whether this payload would need a `.bin` sibling, which is the same question
/// as whether `write_blobs` off means dropping it. A path list never does.
pub fn needs_blob(payload: &ClipPayload, settings: &Settings) -> (r: bool)
    ensures
        r == heavy(payload@, settings@),
{
    match payload {
        ClipPayload::Text(s) => text::chars_of(s).len() > settings.inline_text_limit,
        ClipPayload::Image(_) => true,
        ClipPayload::Files(_) => false,
    }
}

/// Whether a copy is recorded: its kind is switched on, and it does not need a
/// `.bin` while those are switched off.
pub open spec fn recorded(payload: PayloadView, settings: SettingsView) -> bool {
    (match payload {
        PayloadView::Text(_) => settings.capture_text,
        PayloadView::Image(_) => settings.capture_images,
        PayloadView::Files(_) => settings.capture_files,
    }) && (settings.write_blobs || !heavy(payload, settings))
}

/// The switches are consulted at capture time rather than at startup, which is
/// what lets the settings window turn them off and have it take effect on the
/// next copy instead of the next launch. Before there are settings everything
/// is recorded.
pub fn capture_enabled(payload: &ClipPayload, settings: &Option<Settings>) -> (r: bool)
    ensures
        r == (settings matches Some(s) ==> recorded(payload@, s@)),
{
    let settings = match settings {
        Some(settings) => settings,
        None => return true,
    };
    let kind = match payload {
        ClipPayload::Text(_) => settings.capture_text,
        ClipPayload::Image(_) => settings.capture_images,
        ClipPayload::Files(_) => settings.capture_files,
    };
    kind && (settings.write_blobs || !needs_blob(payload, settings))
}

/// The settings with the popup's place and size in them; `None` when they are
/// there already and nothing has to be written.
pub open spec fn with_popup_layout(
    settings: SettingsView,
    position: (i32, i32),
    size: (i32, i32),
) -> Option<SettingsView> {
    if settings.popup_position == Some(position) && settings.popup_size == Some(size) {
        None
    } else {
        Some(SettingsView { popup_position: Some(position), popup_size: Some(size), ..settings })
    }
}

/// Remembers where the popup was left and how big, so the next open puts it back
/// there. Everything else stays as it is, so a drag and a settings save cannot
/// lose each other's work.
pub fn remember_popup_layout(settings: &Settings, position: (i32, i32), size: (i32, i32)) -> (r:
    Option<Settings>)
    ensures
        r is Some <==> with_popup_layout(settings@, position, size) is Some,
        r matches Some(updated) ==> with_popup_layout(settings@, position, size) == Some(updated@),
{
    let same_position = match settings.popup_position {
        Some((x, y)) => x == position.0 && y == position.1,
        None => false,
    };
    let same_size = match settings.popup_size {
        Some((w, h)) => w == size.0 && h == size.1,
        None => false,
    };
    if same_position && same_size {
        return None;
    }
    let mut updated = settings.clone();
    updated.popup_position = Some(position);
    updated.popup_size = Some(size);
    Some(updated)
}

/// A place is written down once: when it is there already, nothing is written; and
/// nothing but the place changes.
pub proof fn law_layout_is_remembered_once(
    settings: SettingsView,
    position: (i32, i32),
    size: (i32, i32),
)
    ensures
        with_popup_layout(settings, position, size) matches Some(updated) ==> {
            &&& with_popup_layout(updated, position, size) is None
            &&& updated.popup_position == Some(position)
            &&& updated.popup_size == Some(size)
            &&& updated == (SettingsView {
                popup_position: updated.popup_position,
                popup_size: updated.popup_size,
                ..settings
            })
        },
{
}

/// With nothing set everything that is copied is recorded, a text of up to 8192
/// characters goes into its row, and the rest is what the manual gives.
pub proof fn law_defaults(payload: PayloadView)
    ensures
        recorded(payload, defaults()),
        heavy(payload, defaults()) <==> payload is Image || (payload is Text
            && payload->Text_0.len() > 8192),
        defaults().hotkey == "Win+Alt+V"@,
        defaults().max_blob_bytes == 10 * 1024 * 1024,
        defaults().rescan_seconds == 60,
        defaults().settings_scale == 100,
        defaults().popup_position is None,
        defaults().popup_size is None,
        defaults().retention_days == 0,
        defaults().sync_root_override is None,
{
}

/// A scale below 50 is read as 50, one above 300 as 300, and one between as it is.
pub proof fn law_scale_in_range(n: u32)
    ensures
        ({
            let scale = clamped(n, MIN_SETTINGS_SCALE, MAX_SETTINGS_SCALE);
            &&& 50 <= scale <= 300
            &&& 50 <= n <= 300 ==> scale == n
            &&& n <= 50 ==> scale == 50
            &&& n >= 300 ==> scale == 300
        }),
{
}

/// A month's name has four digits of the year, a dash and two digits of the month.
pub proof fn law_month_name(year: u16, month: u16)
    requires
        year < 10_000,
        month < 100,
    ensures
        bucket(year, month).len() == 7,
        text::read_decimal(bucket(year, month).take(4)) == year,
        bucket(year, month)[4] == '-',
        text::read_decimal(bucket(year, month).skip(5)) == month,
{
    let (y, m) = (year as nat, month as nat);
    reveal_with_fuel(text::decimal, 5);
    assert(text::decimal(y).len() <= 4);
    assert(text::decimal(m).len() <= 2);
    text::law_decimal_spells_the_number(y);
    text::law_decimal_spells_the_number(m);
    text::law_zero_padded(text::decimal(y), 4);
    text::law_zero_padded(text::decimal(m), 2);
    assert(bucket(year, month).take(4) =~= win::four(year));
    assert(bucket(year, month).skip(5) =~= win::two(month));
}

/// A stem begins with its time in milliseconds, and 32 characters follow behind a dash.
pub proof fn law_stem_begins_with_its_time(ms: i64, nanos: u32, counter: u64, process: u32)
    ensures
        ({
            let stem = stem_of(ms, nanos, counter, process);
            let cut = stem.len() - 33;
            &&& cut > 0
            &&& stem[cut] == '-'
            &&& ms >= 0 ==> text::all_digits(stem.take(cut)) && text::read_decimal(stem.take(cut))
                == ms
            &&& ms < 0 ==> stem[0] == '-' && text::read_decimal(stem.subrange(1, cut)) == -ms
            &&& forall|i: int| cut < i < stem.len() ==> is_lower_hex(#[trigger] stem[i])
        }),
{
    let stem = stem_of(ms, nanos, counter, process);
    let salt = stem_salt(nanos, counter, process);
    let tail = text::zero_padded(text::hex(salt as nat), 32);
    assert(pow16(16) == 0x1_0000_0000_0000_0000) by {
        reveal_with_fuel(pow16, 17);
    }
    lemma_hex_len(salt as nat, 16);
    assert(tail.len() == 32);
    let cut = stem.len() - 33;
    assert(stem.take(cut) =~= signed_decimal(ms));
    text::law_decimal_spells_the_number(if ms < 0 {
        (-ms) as nat
    } else {
        ms as nat
    });
    if ms < 0 {
        assert(stem.subrange(1, cut) =~= text::decimal((-ms) as nat));
    }
    assert forall|i: int| cut < i < stem.len() implies is_lower_hex(#[trigger] stem[i]) by {
        assert(stem[i] == tail[i - cut - 1]);
    }
}

/// The id in a file is what stands in it without the white space around; a file with
/// nothing but white space has none.
pub proof fn law_stored_id(content: Seq<char>)
    ensures
        stored_id(None) is None,
        stored_id(Some(content)) is None <==> text::blank(content),
        stored_id(Some(content)) matches Some(id) ==> id == text::trimmed(content),
{
    text::law_trimming(content);
}

/// Two machine ids differ when they are made in one process within the same four
/// seconds, and when they are made at the same time in two processes whose numbers
/// differ in their lower half.
pub proof fn law_fresh_ids_differ(nanos: u64, process: u32, other_nanos: u64, other_process: u32)
    ensures
        nanos != other_nanos && nanos >> 32u64 == other_nanos >> 32u64 ==> mixed_id(nanos, process)
            != mixed_id(other_nanos, process),
        (process as u16) != (other_process as u16) ==> mixed_id(nanos, process) != mixed_id(
            nanos,
            other_process,
        ),
{
    assert(nanos != other_nanos && nanos >> 32u64 == other_nanos >> 32u64 ==> (((nanos ^ ((
    process as u64) << 48u64)) ^ ((nanos ^ ((process as u64) << 48u64)) >> 32u64)) as u32) != (((
    other_nanos ^ ((process as u64) << 48u64)) ^ ((other_nanos ^ ((process as u64) << 48u64))
        >> 32u64)) as u32)) by (bit_vector);
    assert((process as u16) != (other_process as u16) ==> (((nanos ^ ((process as u64) << 48u64))
        ^ ((nanos ^ ((process as u64) << 48u64)) >> 32u64)) as u32) != (((nanos ^ ((
    other_process as u64) << 48u64)) ^ ((nanos ^ ((other_process as u64) << 48u64)) >> 32u64))
        as u32)) by (bit_vector);
}

/// The first folder that is set is the one that is used.
pub proof fn law_first_folder(folders: Seq<Option<Seq<char>>>, i: int)
    requires
        0 <= i < folders.len(),
        folders[i] is Some,
        folders[i]->0.len() > 0,
        forall|j: int| 0 <= j < i ==> (#[trigger] folders[j]) is None || folders[j]->0.len() == 0,
    ensures
        first_folder(folders) == folders[i],
    decreases i,
{
    if i > 0 {
        let rest = folders.drop_first();
        assert forall|j: int| 0 <= j < i - 1 implies (#[trigger] rest[j]) is None
            || rest[j]->0.len() == 0 by {
            assert(rest[j] == folders[j + 1]);
        }
        assert(folders[0] is None || folders[0]->0.len() == 0);
        law_first_folder(rest, i - 1);
    }
}

/// Without a folder that is set there is none to use.
pub proof fn law_no_folder(folders: Seq<Option<Seq<char>>>)
    requires
        forall|j: int|
            0 <= j < folders.len() ==> (#[trigger] folders[j]) is None || folders[j]->0.len() == 0,
    ensures
        first_folder(folders) is None,
    decreases folders.len(),
{
    if folders.len() > 0 {
        let rest = folders.drop_first();
        assert forall|j: int| 0 <= j < rest.len() implies (#[trigger] rest[j]) is None
            || rest[j]->0.len() == 0 by {
            assert(rest[j] == folders[j + 1]);
        }
        assert(folders[0] is None || folders[0]->0.len() == 0);
        law_no_folder(rest);
    }
}

/// The history goes where the user says; without that to `ClipPlus` below the first
/// sync folder there is; and without one to `sync` below the program's own folder.
pub proof fn law_where_the_history_goes(
    app_dir: Seq<char>,
    over: Option<Seq<char>>,
    folders: Seq<Option<Seq<char>>>,
)
    ensures
        over is Some && !text::blank(over->0) ==> sync_root_of(app_dir, over, folders)
            == text::trimmed(over->0),
        over is None || text::blank(over->0) ==> {
            &&& first_folder(folders) matches Some(folder) ==> sync_root_of(app_dir, over, folders)
                == paths::joined(folder, "ClipPlus"@)
            &&& first_folder(folders) is None ==> sync_root_of(app_dir, over, folders)
                == paths::joined(app_dir, "sync"@)
        },
{
    if let Some(s) = over {
        text::law_trimming(s);
    }
}

} // verus!
