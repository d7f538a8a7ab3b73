//! The cleanup window: two one-shot tools over the stored history.
//!
//! Neither tool is a setting. Both are actions whose numbers must be seen before
//! anything is destroyed, so they live here rather than among the fields that are
//! saved. Each runs the same ride: a scan in the background, the numbers in a yes/no
//! question, and after a yes the deleting in the background and a report.

use vstd::prelude::*;

use crate::controls;
use crate::controls::Control;
use crate::controls::ControlKind;
use crate::controls::ControlView;
use crate::deletion::BinPreview;
use crate::deletion::BinScope;
use crate::deletion::DupeScan;
use crate::messages;
use crate::popup_layout;
use crate::settings_window;
use crate::text;
use crate::win;

verus! {

pub const ID_GROUP_BINS: usize = 1;

pub const ID_BINS_TIME: usize = 2;

pub const ID_BINS_DAYS: usize = 3;

pub const ID_BINS_COUNT: usize = 4;

pub const ID_BINS_KEEP: usize = 5;

pub const ID_BINS_NOTE: usize = 6;

pub const ID_BINS_RUN: usize = 7;

pub const ID_GROUP_DUPES: usize = 8;

pub const ID_DUPES_NOTE: usize = 9;

pub const ID_DUPES_RUN: usize = 10;

pub const ID_STATUS: usize = 11;

pub const ID_CLOSE: usize = 12;

/// The two labels beside the numeric fields, one per row.
pub const SUFFIX_ID_BASE: usize = 100;

/// What the fields hold at first. They keep whatever was last typed until the
/// window is closed for good; they are never saved.
pub const DEFAULT_DAYS: u32 = 30;

pub const DEFAULT_KEEP: u32 = 100;

// -------------------------------------------------------------------- the scope

/// What the upper half of the window holds.
#[derive(Debug)]
pub struct ScopeForm {
    /// Which of the two radios is on.
    pub by_time: bool,
    pub days: String,
    pub keep: String,
}

/// The scope the radios name; `None` when the number beside it is none. Only the
/// active row's number is read.
pub open spec fn scope_in(by_time: bool, days: Seq<char>, keep: Seq<char>) -> Option<BinScope> {
    if by_time {
        match settings_window::number_in(DEFAULT_DAYS, days) {
            Some(n) => Some(BinScope::OlderThanDays(n as u32)),
            None => None,
        }
    } else {
        match settings_window::number_in(DEFAULT_KEEP, keep) {
            Some(n) => Some(BinScope::KeepNewest(n as u32)),
            None => None,
        }
    }
}

/// What was typed into the active row.
pub open spec fn typed_number(by_time: bool, days: Seq<char>, keep: Seq<char>) -> Seq<char> {
    text::trimmed(
        if by_time {
            days
        } else {
            keep
        },
    )
}

pub fn read_scope(form: &ScopeForm) -> (r: Result<BinScope, String>)
    ensures
        match r {
            Ok(scope) => scope_in(form.by_time, form.days@, form.keep@) == Some(scope),
            Err(typed) => scope_in(form.by_time, form.days@, form.keep@) is None && typed@
                == typed_number(form.by_time, form.days@, form.keep@),
        },
{
    if form.by_time {
        match settings_window::parse_or(DEFAULT_DAYS, &form.days) {
            Ok(days) => Ok(BinScope::OlderThanDays(days)),
            Err(typed) => Err(typed),
        }
    } else {
        match settings_window::parse_or(DEFAULT_KEEP, &form.keep) {
            Ok(keep) => Ok(BinScope::KeepNewest(keep)),
            Err(typed) => Err(typed),
        }
    }
}

/// The scope, said the way the question says it.
pub open spec fn scope_words(scope: BinScope) -> Seq<char> {
    match scope {
        BinScope::OlderThanDays(days) => if days == 0 {
            "全部 .bin 大条目"@
        } else {
            text::decimal(days as nat) + " 天以前的 .bin 大条目"@
        },
        BinScope::KeepNewest(keep) => if keep == 0 {
            "全部 .bin 大条目"@
        } else {
            "最新 "@ + text::decimal(keep as nat) + " 个以外的 .bin 大条目"@
        },
    }
}

pub fn scope_line(scope: BinScope) -> (r: String)
    ensures
        r@ == scope_words(scope),
{
    match scope {
        BinScope::OlderThanDays(days) => if days == 0 {
            "全部 .bin 大条目".to_owned()
        } else {
            let mut out = text::decimal_text(days as u64);
            out.append(" 天以前的 .bin 大条目");
            out
        },
        BinScope::KeepNewest(keep) => if keep == 0 {
            "全部 .bin 大条目".to_owned()
        } else {
            let mut out = "最新 ".to_owned();
            text::push_decimal(&mut out, keep as u64);
            out.append(" 个以外的 .bin 大条目");
            out
        },
    }
}

// ------------------------------------------------------------------------ texts

pub const BUSY: &'static str = "上一次清理还在进行，等它结束再试。";

pub const SCANNING: &'static str = "正在扫描…";

pub const CANCELLED: &'static str = "已取消，没有改动。";

pub const NO_BINS: &'static str = "没有可清理的 .bin 大条目。";

pub const NO_DUPES: &'static str = "没有发现重复文本。";

pub const ASK_BINS: &'static str = "\n\n整条删除、不可恢复；固定的条目不受影响。确定清理？";

pub const ASK_DUPES: &'static str = "\n\n确定清理？";

/// What is shown when there is nothing to clean up.
pub open spec fn no_bins_words(skipped: nat) -> Seq<char> {
    if skipped > 0 {
        NO_BINS@ + "\n（另跳过 "@ + text::decimal(skipped) + " 条别机当月的）"@
    } else {
        NO_BINS@
    }
}

/// The numbers of a `.bin` scan. `freed` is how the bytes are said.
pub open spec fn bins_words(
    scope: Seq<char>,
    doomed: nat,
    images: nat,
    texts: nat,
    freed: Seq<char>,
    skipped: nat,
) -> Seq<char> {
    let counted = "范围："@ + scope + "\n\n命中 "@ + text::decimal(doomed) + " 条（图片 "@
        + text::decimal(images) + " · 超长文本 "@ + text::decimal(texts) + "），预计释放 "@ + freed
        + "。"@;
    if skipped > 0 {
        counted + "\n另跳过 "@ + text::decimal(skipped) + " 条（别机当月，从这里删不了）。"@
    } else {
        counted
    }
}

/// The numbers of a duplicate scan.
pub open spec fn dupes_words(groups: nat, doomed: nat, with_pin: nat) -> Seq<char> {
    let counted = "发现 "@ + text::decimal(groups) + " 组重复文本，将删除 "@ + text::decimal(doomed)
        + " 条：每组保留最新一份"@;
    (if with_pin > 0 {
        counted + "，其中 "@ + text::decimal(with_pin) + " 组的固定副本也保留"@
    } else {
        counted
    }) + "。"@
}

pub open spec fn bins_report_words(removed: nat, freed: Seq<char>) -> Seq<char> {
    "已清理 "@ + text::decimal(removed) + " 个 .bin 大条目，释放约 "@ + freed + "。"@
}

/// The report of a finished `.bin` cleanup.
pub fn bins_report(removed: usize, freed: &str) -> (r: String)
    ensures
        r@ == bins_report_words(removed as nat, freed@),
{
    let mut out = "已清理 ".to_owned();
    text::push_decimal(&mut out, removed as u64);
    out.append(" 个 .bin 大条目，释放约 ");
    out.append(freed);
    out.append("。");
    out
}

pub open spec fn dupes_report_words(deleted: nat, tombstoned: nat) -> Seq<char> {
    if tombstoned > 0 {
        "已删除 "@ + text::decimal(deleted) + " 条重复文本，另以墓碑提交 "@ + text::decimal(
            tombstoned,
        ) + " 条（别机当月，由所属机器执行）。"@
    } else {
        "已删除 "@ + text::decimal(deleted) + " 条重复文本。"@
    }
}

/// The report of a finished duplicate cleanup.
pub fn dupes_report(deleted: usize, tombstoned: usize) -> (r: String)
    ensures
        r@ == dupes_report_words(deleted as nat, tombstoned as nat),
{
    let mut out = "已删除 ".to_owned();
    text::push_decimal(&mut out, deleted as u64);
    if tombstoned > 0 {
        out.append(" 条重复文本，另以墓碑提交 ");
        text::push_decimal(&mut out, tombstoned as u64);
        out.append(" 条（别机当月，由所属机器执行）。");
    } else {
        out.append(" 条重复文本。");
    }
    out
}

// --------------------------------------------------------------------- the ride

/// Why a cleanup did not start.
#[derive(Debug)]
pub enum Refusal {
    /// What was typed is not a number.
    NotANumber(String),
    /// The one before is still running.
    Busy,
}

impl Refusal {
    pub fn message(&self) -> (r: String)
        ensures
            r@ == (match *self {
                Refusal::NotANumber(typed) => "“"@ + typed@ + settings_window::NO_NUMBER@,
                Refusal::Busy => BUSY@,
            }),
    {
        match self {
            Refusal::NotANumber(typed) => {
                let mut out = "“".to_owned();
                out.append(typed);
                out.append(settings_window::NO_NUMBER);
                out
            },
            Refusal::Busy => BUSY.to_owned(),
        }
    }
}

/// What a finished scan asks of the user.
#[derive(Debug)]
pub enum Prompt {
    /// There is nothing to do; the ride is over.
    Nothing(String),
    /// The numbers, and the question whether to go on.
    Ask { summary: String, question: String },
}

#[verifier::ext_equal]
pub enum PromptView {
    Nothing(Seq<char>),
    Ask { summary: Seq<char>, question: Seq<char> },
}

impl View for Prompt {
    type V = PromptView;

    open spec fn view(&self) -> PromptView {
        match *self {
            Prompt::Nothing(text) => PromptView::Nothing(text@),
            Prompt::Ask { summary, question } => PromptView::Ask {
                summary: summary@,
                question: question@,
            },
        }
    }
}

/// One scan-confirm-run ride at a time, across window closes and reopens: the
/// buttons grey out for the normal path, but a window hidden mid-scan and shown
/// again would otherwise allow a second start while the first result is still in
/// the mail.
#[derive(Debug)]
pub struct Cleanup {
    in_flight: bool,
}

impl View for Cleanup {
    type V = bool;

    /// Whether a ride is on.
    closed spec fn view(&self) -> bool {
        self.in_flight
    }
}

/// What can happen on a ride.
#[derive(Clone, Copy, Debug, PartialEq, Eq, Structural)]
pub enum RideEvent {
    /// Somebody asked for a cleanup.
    Asked,
    /// A scan came back, to a window that is open or not.
    Scanned { window_visible: bool },
    /// The numbers were looked at: there is something to delete or not.
    Counted { anything: bool },
    /// The user answered the question.
    Answered { yes: bool },
    /// The report is in.
    Reported,
}

/// Whether a ride is on after an event.
pub open spec fn riding_after(riding: bool, event: RideEvent) -> bool {
    match event {
        RideEvent::Asked => true,
        RideEvent::Scanned { window_visible } => riding && window_visible,
        RideEvent::Counted { anything } => riding && anything,
        RideEvent::Answered { yes } => riding && yes,
        RideEvent::Reported => false,
    }
}

pub open spec fn riding_after_all(riding: bool, events: Seq<RideEvent>) -> bool
    decreases events.len(),
{
    if events.len() == 0 {
        riding
    } else {
        riding_after(riding_after_all(riding, events.drop_last()), events.last())
    }
}

/// An event that ends a ride.
pub open spec fn ends_ride(event: RideEvent) -> bool {
    match event {
        RideEvent::Asked => false,
        RideEvent::Scanned { window_visible } => !window_visible,
        RideEvent::Counted { anything } => !anything,
        RideEvent::Answered { yes } => !yes,
        RideEvent::Reported => true,
    }
}

/// Two cleanups cannot interleave: from the moment one has started, the ride stays
/// taken until an event that ends it, however often somebody asks for another; and
/// after such an event it is free.
pub proof fn law_one_ride_at_a_time(riding: bool, events: Seq<RideEvent>)
    ensures
        riding && (forall|i: int| 0 <= i < events.len() ==> !ends_ride(#[trigger] events[i]))
            ==> riding_after_all(riding, events),
        events.len() > 0 && ends_ride(events.last()) ==> !riding_after_all(riding, events),
    decreases events.len(),
{
    if events.len() > 0 {
        law_one_ride_at_a_time(riding, events.drop_last());
        assert(events.last() == events[events.len() - 1]);
        assert forall|i: int|
            0 <= i < events.drop_last().len() && !ends_ride(events[i]) implies !ends_ride(
            #[trigger] events.drop_last()[i],
        ) by {
            assert(events.drop_last()[i] == events[i]);
        }
    }
}

impl Cleanup {
    pub fn new() -> (r: Cleanup)
        ensures
            !r@,
    {
        Cleanup { in_flight: false }
    }

    /// Starts a `.bin` cleanup: reads the scope and claims the one ride there is.
    pub fn start_bins(&mut self, form: &ScopeForm) -> (r: Result<BinScope, Refusal>)
        ensures
            match r {
                Ok(scope) => !old(self)@ && final(self)@ && scope_in(
                    form.by_time,
                    form.days@,
                    form.keep@,
                ) == Some(scope),
                Err(Refusal::NotANumber(typed)) => final(self)@ == old(self)@ && scope_in(
                    form.by_time,
                    form.days@,
                    form.keep@,
                ) is None && typed@ == typed_number(form.by_time, form.days@, form.keep@),
                Err(Refusal::Busy) => old(self)@ && final(self)@ && scope_in(
                    form.by_time,
                    form.days@,
                    form.keep@,
                ) is Some,
            },
    {
        match read_scope(form) {
            Ok(scope) => if self.claim() {
                Ok(scope)
            } else {
                Err(Refusal::Busy)
            },
            Err(typed) => Err(Refusal::NotANumber(typed)),
        }
    }

    /// Starts a duplicate cleanup.
    pub fn start_dupes(&mut self) -> (r: Result<(), Refusal>)
        ensures
            final(self)@ == riding_after(old(self)@, RideEvent::Asked),
            r is Ok <==> !old(self)@,
            r matches Err(refusal) ==> refusal is Busy,
    {
        if self.claim() {
            Ok(())
        } else {
            Err(Refusal::Busy)
        }
    }

    /// Claims the ride, or reports that somebody has it. The buttons are usually
    /// grey already; this is the guard behind them.
    fn claim(&mut self) -> (r: bool)
        ensures
            r == !old(self)@,
            final(self)@,
    {
        let free = !self.in_flight;
        self.in_flight = true;
        free
    }

    /// The ride is over: its report is in.
    pub fn release(&mut self)
        ensures
            final(self)@ == riding_after(old(self)@, RideEvent::Reported),
    {
        self.in_flight = false;
    }

    /// What to do with the numbers of a `.bin` scan. `freed` is how the bytes are
    /// said.
    pub fn confirm_bins(&mut self, preview: &BinPreview, freed: &str) -> (r: Prompt)
        ensures
            r@ == (if preview.scan.doomed@.len() == 0 {
                PromptView::Nothing(no_bins_words(preview.scan.skipped_live_month as nat))
            } else {
                let summary = bins_words(
                    preview.scope_line@,
                    preview.scan.doomed@.len(),
                    preview.scan.images as nat,
                    preview.scan.overlong_texts as nat,
                    freed@,
                    preview.scan.skipped_live_month as nat,
                );
                PromptView::Ask { summary, question: summary + ASK_BINS@ }
            }),
            final(self)@ == riding_after(
                old(self)@,
                (RideEvent::Counted { anything: preview.scan.doomed@.len() > 0 }),
            ),
    {
        let scan = &preview.scan;
        if scan.doomed.len() == 0 {
            self.release();
            let mut out = NO_BINS.to_owned();
            if scan.skipped_live_month > 0 {
                out.append("\n（另跳过 ");
                text::push_decimal(&mut out, scan.skipped_live_month as u64);
                out.append(" 条别机当月的）");
            }
            return Prompt::Nothing(out);
        }
        let mut out = "范围：".to_owned();
        out.append(&preview.scope_line);
        out.append("\n\n命中 ");
        text::push_decimal(&mut out, scan.doomed.len() as u64);
        out.append(" 条（图片 ");
        text::push_decimal(&mut out, scan.images as u64);
        out.append(" · 超长文本 ");
        text::push_decimal(&mut out, scan.overlong_texts as u64);
        out.append("），预计释放 ");
        out.append(freed);
        out.append("。");
        if scan.skipped_live_month > 0 {
            out.append("\n另跳过 ");
            text::push_decimal(&mut out, scan.skipped_live_month as u64);
            out.append(" 条（别机当月，从这里删不了）。");
        }
        let mut question = out.clone();
        question.append(ASK_BINS);
        Prompt::Ask { summary: out, question }
    }

    /// What to do with the numbers of a duplicate scan.
    pub fn confirm_dupes(&mut self, scan: &DupeScan) -> (r: Prompt)
        ensures
            r@ == (if scan.doomed@.len() == 0 {
                PromptView::Nothing(NO_DUPES@)
            } else {
                let summary = dupes_words(
                    scan.groups as nat,
                    scan.doomed@.len(),
                    scan.groups_with_pin as nat,
                );
                PromptView::Ask { summary, question: summary + ASK_DUPES@ }
            }),
            final(self)@ == riding_after(
                old(self)@,
                (RideEvent::Counted { anything: scan.doomed@.len() > 0 }),
            ),
    {
        if scan.doomed.len() == 0 {
            self.release();
            return Prompt::Nothing(NO_DUPES.to_owned());
        }
        let mut out = "发现 ".to_owned();
        text::push_decimal(&mut out, scan.groups as u64);
        out.append(" 组重复文本，将删除 ");
        text::push_decimal(&mut out, scan.doomed.len() as u64);
        out.append(" 条：每组保留最新一份");
        if scan.groups_with_pin > 0 {
            out.append("，其中 ");
            text::push_decimal(&mut out, scan.groups_with_pin as u64);
            out.append(" 组的固定副本也保留");
        }
        out.append("。");
        let mut question = out.clone();
        question.append(ASK_DUPES);
        Prompt::Ask { summary: out, question }
    }

    /// A scan came back. When the window was closed while it ran, the numbers are
    /// of no use to anybody now: the result is dropped and the ride is over.
    /// Returns whether to look at it.
    pub fn scanned(&mut self, window_visible: bool) -> (look: bool)
        ensures
            look == window_visible,
            final(self)@ == riding_after(old(self)@, (RideEvent::Scanned { window_visible })),
    {
        if !window_visible {
            self.release();
        }
        window_visible
    }

    /// The user answered the question. Returns whether to go on.
    pub fn answered(&mut self, yes: bool) -> (go_on: bool)
        ensures
            go_on == yes,
            final(self)@ == riding_after(old(self)@, (RideEvent::Answered { yes })),
    {
        if !yes {
            self.release();
        }
        yes
    }
}

// ------------------------------------------------------------------ notifications

#[derive(Clone, Copy, Debug, PartialEq, Eq, Structural)]
pub enum CleanupAction {
    Nothing,
    StartBins,
    StartDupes,
    Close,
}

/// What a notification of one of the controls does. The low word is the control,
/// the high word what happened to it.
pub open spec fn notified(wparam: usize) -> CleanupAction {
    let id = win::low_word(wparam);
    if win::high_word(wparam) != settings_window::BN_CLICKED {
        CleanupAction::Nothing
    } else if id == ID_BINS_RUN {
        CleanupAction::StartBins
    } else if id == ID_DUPES_RUN {
        CleanupAction::StartDupes
    } else if id == ID_CLOSE {
        CleanupAction::Close
    } else {
        CleanupAction::Nothing
    }
}

pub fn handle_notification(wparam: usize) -> (r: CleanupAction)
    ensures
        r == notified(wparam),
{
    let id: usize = wparam % 0x1_0000;
    let notification: usize = wparam / 0x1_0000 % 0x1_0000;
    if notification != settings_window::BN_CLICKED {
        CleanupAction::Nothing
    } else if id == ID_BINS_RUN {
        CleanupAction::StartBins
    } else if id == ID_DUPES_RUN {
        CleanupAction::StartDupes
    } else if id == ID_CLOSE {
        CleanupAction::Close
    } else {
        CleanupAction::Nothing
    }
}

/// A `.bin` scan is back.
pub const WM_BINS_SCANNED: u32 = messages::WM_APP + 1;

/// A `.bin` cleanup is through and its report is here.
pub const WM_BINS_DONE: u32 = messages::WM_APP + 2;

/// A duplicate scan is back.
pub const WM_DUPES_SCANNED: u32 = messages::WM_APP + 3;

/// A duplicate cleanup is through and its report is here.
pub const WM_DUPES_DONE: u32 = messages::WM_APP + 4;

/// What a message to the window is about.
#[derive(Clone, Copy, Debug, PartialEq, Eq, Structural)]
pub enum CleanupEvent {
    /// Nothing of ours: the system handles it.
    Default,
    Act(CleanupAction),
    BinsScanned,
    DupesScanned,
    Reported,
    /// Dragged onto a display with this DPI; zero when it was not told.
    DpiChanged(u32),
}

pub fn window_proc(message: u32, wparam: usize) -> (r: CleanupEvent)
    ensures
        r == (if message == messages::WM_COMMAND {
            CleanupEvent::Act(notified(wparam))
        } else if message == WM_BINS_SCANNED {
            CleanupEvent::BinsScanned
        } else if message == WM_DUPES_SCANNED {
            CleanupEvent::DupesScanned
        } else if message == WM_BINS_DONE || message == WM_DUPES_DONE {
            CleanupEvent::Reported
        } else if message == messages::WM_CLOSE {
            CleanupEvent::Act(CleanupAction::Close)
        } else if message == messages::WM_DPICHANGED {
            CleanupEvent::DpiChanged(win::low_word(wparam) as u32)
        } else {
            CleanupEvent::Default
        }),
{
    if message == messages::WM_COMMAND {
        CleanupEvent::Act(handle_notification(wparam))
    } else if message == WM_BINS_SCANNED {
        CleanupEvent::BinsScanned
    } else if message == WM_DUPES_SCANNED {
        CleanupEvent::DupesScanned
    } else if message == WM_BINS_DONE || message == WM_DUPES_DONE {
        CleanupEvent::Reported
    } else if message == messages::WM_CLOSE {
        CleanupEvent::Act(CleanupAction::Close)
    } else if message == messages::WM_DPICHANGED {
        CleanupEvent::DpiChanged((wparam % 0x1_0000) as u32)
    } else {
        CleanupEvent::Default
    }
}

// ------------------------------------------------------------------ the controls

/// Every measure of the window, in physical pixels.
#[derive(Clone, Copy, Debug, PartialEq, Eq, Structural)]
pub struct CleanupMetrics {
    pub margin: i32,
    pub content_width: i32,
    /// Inset of the controls inside their group box.
    pub group_pad: i32,
    pub row_height: i32,
    pub button_width: i32,
    pub button_height: i32,
    pub radio_width: i32,
    pub field_width: i32,
    /// Between a radio and its field, and between that and its label.
    pub gap: i32,
    pub note1_height: i32,
    pub note2_height: i32,
    pub status_height: i32,
    pub group1_top: i32,
    pub group1_height: i32,
    pub row1_top: i32,
    pub row2_top: i32,
    pub note1_top: i32,
    pub button1_top: i32,
    pub group2_top: i32,
    pub group2_height: i32,
    pub note2_top: i32,
    pub button2_top: i32,
    pub status_top: i32,
    pub button_top: i32,
    pub client_width: i32,
    pub client_height: i32,
}

pub open spec fn usable(m: CleanupMetrics) -> bool {
    &&& popup_layout::in_limit(m.margin)
    &&& popup_layout::in_limit(m.content_width)
    &&& popup_layout::in_limit(m.group_pad)
    &&& popup_layout::in_limit(m.row_height)
    &&& popup_layout::in_limit(m.button_width)
    &&& popup_layout::in_limit(m.button_height)
    &&& popup_layout::in_limit(m.radio_width)
    &&& popup_layout::in_limit(m.field_width)
    &&& popup_layout::in_limit(m.gap)
    &&& popup_layout::in_limit(m.note1_height)
    &&& popup_layout::in_limit(m.note2_height)
    &&& popup_layout::in_limit(m.status_height)
    &&& popup_layout::in_limit(m.group1_top)
    &&& popup_layout::in_limit(m.group1_height)
    &&& popup_layout::in_limit(m.row1_top)
    &&& popup_layout::in_limit(m.row2_top)
    &&& popup_layout::in_limit(m.note1_top)
    &&& popup_layout::in_limit(m.button1_top)
    &&& popup_layout::in_limit(m.group2_top)
    &&& popup_layout::in_limit(m.group2_height)
    &&& popup_layout::in_limit(m.note2_top)
    &&& popup_layout::in_limit(m.button2_top)
    &&& popup_layout::in_limit(m.status_top)
    &&& popup_layout::in_limit(m.button_top)
    &&& popup_layout::in_limit(m.client_width)
    &&& popup_layout::in_limit(m.client_height)
}

pub open spec fn inner_x(m: CleanupMetrics) -> int {
    m.margin + m.group_pad
}

pub open spec fn edit_x(m: CleanupMetrics) -> int {
    inner_x(m) + m.radio_width + m.gap
}

pub open spec fn suffix_x(m: CleanupMetrics) -> int {
    edit_x(m) + m.field_width + m.gap
}

pub open spec fn suffix_width(m: CleanupMetrics) -> int {
    m.margin + m.content_width - suffix_x(m) - m.group_pad
}

pub open spec fn note_width(m: CleanupMetrics) -> int {
    m.content_width - m.group_pad * 2
}

/// There is room for everything: across, and down band by band.
pub open spec fn roomy(m: CleanupMetrics) -> bool {
    &&& m.margin * 2 + m.content_width <= m.client_width
    &&& suffix_width(m) >= 0
    &&& m.group_pad * 2 + m.button_width <= m.content_width
    &&& m.group1_top <= m.row1_top
    &&& m.row1_top + m.row_height <= m.row2_top
    &&& m.row2_top + m.row_height <= m.note1_top
    &&& m.note1_top + m.note1_height <= m.button1_top
    &&& m.button1_top + m.button_height <= m.group1_top + m.group1_height
    &&& m.group1_top + m.group1_height <= m.group2_top
    &&& m.group2_top <= m.note2_top
    &&& m.note2_top + m.note2_height <= m.button2_top
    &&& m.button2_top + m.button_height <= m.group2_top + m.group2_height
    &&& m.group2_top + m.group2_height <= m.status_top
    &&& m.status_top + m.status_height <= m.button_top
    &&& m.button_top + m.button_height + m.margin <= m.client_height
}

/// The measures at 96 DPI, with room for everything.
pub fn base_metrics() -> (m: CleanupMetrics)
    ensures
        usable(m),
        roomy(m),
        m.margin == 16 && m.content_width == 560 && m.group_pad == 14 && m.row_height == 24,
        m.button_width == 120 && m.button_height == 26 && m.radio_width == 84,
        m.field_width == 64 && m.gap == 8,
        m.note1_height == 54 && m.note2_height == 40 && m.status_height == 68,
        m.group1_top == m.margin,
        m.row1_top == m.group1_top + 30,
        m.row2_top == m.row1_top + 32,
        m.note1_top == m.row2_top + 34,
        m.button1_top == m.note1_top + m.note1_height + 8,
        m.group1_top + m.group1_height == m.button1_top + m.button_height + 10,
        m.group2_top == m.group1_top + m.group1_height + 10,
        m.note2_top == m.group2_top + 26,
        m.button2_top == m.note2_top + m.note2_height + 8,
        m.group2_top + m.group2_height == m.button2_top + m.button_height + 10,
        m.status_top == m.group2_top + m.group2_height + 12,
        m.button_top == m.status_top + m.status_height + 12,
        m.client_width == m.margin * 2 + m.content_width,
        m.client_height == m.button_top + m.button_height + m.margin,
{
    CleanupMetrics {
        margin: 16,
        content_width: 560,
        group_pad: 14,
        row_height: 24,
        button_width: 120,
        button_height: 26,
        radio_width: 84,
        field_width: 64,
        gap: 8,
        note1_height: 54,
        note2_height: 40,
        status_height: 68,
        group1_top: 16,
        group1_height: 194,
        row1_top: 46,
        row2_top: 78,
        note1_top: 112,
        button1_top: 174,
        group2_top: 220,
        group2_height: 110,
        note2_top: 246,
        button2_top: 294,
        status_top: 342,
        button_top: 422,
        client_width: 592,
        client_height: 464,
    }
}

pub const GROUP_BINS: &'static str = "清理 .bin 大条目（图片、超长文本）";

pub const NOTE_BINS: &'static str =
    "只删带 .bin 的条目——图片和超长文本，整条删除，短文本和文件列表不受影响。固定的条目永远保留；别机当月的条目删不了，会跳过。";

pub const NOTE_DUPES: &'static str =
    "同一段文本存了多份时（两台机器都复制过最常见），每组保留最新一份，固定的副本也保留，其余删除。";

/// Every control of the window. The two radios come together, so that they make
/// one arrow-key group; the first field starts the next.
pub open spec fn window_controls(m: CleanupMetrics) -> Seq<ControlView> {
    seq![
        controls::one(
            ID_GROUP_BINS,
            ControlKind::Group,
            GROUP_BINS@,
            controls::placed_at(
                m.margin as int,
                m.group1_top as int,
                m.content_width as int,
                m.group1_height as int,
            ),
        ),
        controls::group_start(
            ID_BINS_TIME,
            ControlKind::Radio,
            "按时间"@,
            controls::placed_at(
                inner_x(m),
                m.row1_top as int,
                m.radio_width as int,
                m.row_height as int,
            ),
        ),
        controls::one(
            ID_BINS_COUNT,
            ControlKind::Radio,
            "按条数"@,
            controls::placed_at(
                inner_x(m),
                m.row2_top as int,
                m.radio_width as int,
                m.row_height as int,
            ),
        ),
        controls::group_start(
            ID_BINS_DAYS,
            ControlKind::NumberField,
            ""@,
            controls::placed_at(
                edit_x(m),
                m.row1_top as int,
                m.field_width as int,
                m.row_height as int,
            ),
        ),
        controls::one(
            ID_BINS_KEEP,
            ControlKind::NumberField,
            ""@,
            controls::placed_at(
                edit_x(m),
                m.row2_top as int,
                m.field_width as int,
                m.row_height as int,
            ),
        ),
        controls::one(
            SUFFIX_ID_BASE,
            ControlKind::Label,
            "天以前的（0 = 全部）"@,
            controls::placed_at(
                suffix_x(m),
                m.row1_top as int,
                suffix_width(m),
                m.row_height as int,
            ),
        ),
        controls::one(
            (SUFFIX_ID_BASE + 1) as usize,
            ControlKind::Label,
            "个，其余清理（0 = 全部）"@,
            controls::placed_at(
                suffix_x(m),
                m.row2_top as int,
                suffix_width(m),
                m.row_height as int,
            ),
        ),
        controls::one(
            ID_BINS_NOTE,
            ControlKind::Label,
            NOTE_BINS@,
            controls::placed_at(
                inner_x(m),
                m.note1_top as int,
                note_width(m),
                m.note1_height as int,
            ),
        ),
        controls::one(
            ID_BINS_RUN,
            ControlKind::Button,
            "清理 .bin…"@,
            controls::placed_at(
                inner_x(m),
                m.button1_top as int,
                m.button_width as int,
                m.button_height as int,
            ),
        ),
        controls::one(
            ID_GROUP_DUPES,
            ControlKind::Group,
            "清理重复文本"@,
            controls::placed_at(
                m.margin as int,
                m.group2_top as int,
                m.content_width as int,
                m.group2_height as int,
            ),
        ),
        controls::one(
            ID_DUPES_NOTE,
            ControlKind::Label,
            NOTE_DUPES@,
            controls::placed_at(
                inner_x(m),
                m.note2_top as int,
                note_width(m),
                m.note2_height as int,
            ),
        ),
        controls::one(
            ID_DUPES_RUN,
            ControlKind::Button,
            "去重…"@,
            controls::placed_at(
                inner_x(m),
                m.button2_top as int,
                m.button_width as int,
                m.button_height as int,
            ),
        ),
        controls::one(
            ID_STATUS,
            ControlKind::Label,
            ""@,
            controls::placed_at(
                m.margin as int,
                m.status_top as int,
                m.content_width as int,
                m.status_height as int,
            ),
        ),
        controls::one(
            ID_CLOSE,
            ControlKind::Button,
            "关闭"@,
            controls::placed_at(
                m.margin as int,
                m.button_top as int,
                m.button_width as int,
                m.button_height as int,
            ),
        ),
    ]
}

/// The controls for these measures: once to make them, and again whenever the
/// window opens on a display with another scale or is dragged to one.
pub fn layout(m: &CleanupMetrics) -> (r: Vec<Control>)
    requires
        usable(*m),
    ensures
        controls::control_views(r@) == window_controls(*m),
{
    let inner: i32 = m.margin + m.group_pad;
    let edit: i32 = inner + m.radio_width + m.gap;
    let suffix: i32 = edit + m.field_width + m.gap;
    let suffix_width: i32 = m.margin + m.content_width - suffix - m.group_pad;
    let note_width: i32 = m.content_width - m.group_pad * 2;
    let mut r: Vec<Control> = Vec::new();
    r.push(
        controls::control(
            ID_GROUP_BINS,
            ControlKind::Group,
            GROUP_BINS,
            m.margin,
            m.group1_top,
            m.content_width,
            m.group1_height,
        ),
    );
    r.push(
        controls::first_control(
            ID_BINS_TIME,
            ControlKind::Radio,
            "按时间",
            inner,
            m.row1_top,
            m.radio_width,
            m.row_height,
        ),
    );
    r.push(
        controls::control(
            ID_BINS_COUNT,
            ControlKind::Radio,
            "按条数",
            inner,
            m.row2_top,
            m.radio_width,
            m.row_height,
        ),
    );
    r.push(
        controls::first_control(
            ID_BINS_DAYS,
            ControlKind::NumberField,
            "",
            edit,
            m.row1_top,
            m.field_width,
            m.row_height,
        ),
    );
    r.push(
        controls::control(
            ID_BINS_KEEP,
            ControlKind::NumberField,
            "",
            edit,
            m.row2_top,
            m.field_width,
            m.row_height,
        ),
    );
    r.push(
        controls::control(
            SUFFIX_ID_BASE,
            ControlKind::Label,
            "天以前的（0 = 全部）",
            suffix,
            m.row1_top,
            suffix_width,
            m.row_height,
        ),
    );
    r.push(
        controls::control(
            SUFFIX_ID_BASE + 1,
            ControlKind::Label,
            "个，其余清理（0 = 全部）",
            suffix,
            m.row2_top,
            suffix_width,
            m.row_height,
        ),
    );
    let ghost upper = controls::control_views(r@);
    assert(upper =~= window_controls(*m).take(7));
    r.push(
        controls::control(
            ID_BINS_NOTE,
            ControlKind::Label,
            NOTE_BINS,
            inner,
            m.note1_top,
            note_width,
            m.note1_height,
        ),
    );
    r.push(
        controls::control(
            ID_BINS_RUN,
            ControlKind::Button,
            "清理 .bin…",
            inner,
            m.button1_top,
            m.button_width,
            m.button_height,
        ),
    );
    r.push(
        controls::control(
            ID_GROUP_DUPES,
            ControlKind::Group,
            "清理重复文本",
            m.margin,
            m.group2_top,
            m.content_width,
            m.group2_height,
        ),
    );
    r.push(
        controls::control(
            ID_DUPES_NOTE,
            ControlKind::Label,
            NOTE_DUPES,
            inner,
            m.note2_top,
            note_width,
            m.note2_height,
        ),
    );
    r.push(
        controls::control(
            ID_DUPES_RUN,
            ControlKind::Button,
            "去重…",
            inner,
            m.button2_top,
            m.button_width,
            m.button_height,
        ),
    );
    r.push(
        controls::control(
            ID_STATUS,
            ControlKind::Label,
            "",
            m.margin,
            m.status_top,
            m.content_width,
            m.status_height,
        ),
    );
    r.push(
        controls::control(
            ID_CLOSE,
            ControlKind::Button,
            "关闭",
            m.margin,
            m.button_top,
            m.button_width,
            m.button_height,
        ),
    );
    proof {
        let all = controls::control_views(r@);
        let wanted = window_controls(*m);
        assert(all.take(7) =~= upper);
        assert forall|i: int| 0 <= i < 7 implies all[i] == wanted[i] by {
            assert(all[i] == all.take(7)[i]);
            assert(wanted[i] == wanted.take(7)[i]);
        }
        assert(all[7] == wanted[7]);
        assert(all[8] == wanted[8]);
        assert(all[9] == wanted[9]);
        assert(all[10] == wanted[10]);
        assert(all[11] == wanted[11]);
        assert(all[12] == wanted[12]);
        assert(all[13] == wanted[13]);
        assert(all =~= wanted);
    }
    r
}

/// Where there is room for them, every control lies inside the client area.
pub proof fn law_controls_inside(m: CleanupMetrics, i: int)
    requires
        usable(m),
        roomy(m),
        0 <= i < window_controls(m).len(),
    ensures
        controls::inside(
            window_controls(m)[i].at,
            m.client_width as int,
            m.client_height as int,
        ),
{
}

/// Where there is room for them, no two controls overlap, but for the two frames
/// and what is inside them.
pub proof fn law_controls_apart(m: CleanupMetrics, i: int, j: int)
    requires
        usable(m),
        roomy(m),
        0 <= i < j < window_controls(m).len(),
        window_controls(m)[i].kind != ControlKind::Group,
    ensures
        controls::apart(window_controls(m)[i].at, window_controls(m)[j].at),
{
}

/// Only the row whose radio is set is read: its number is the days that are kept, or
/// the entries; 30 and 100 where nothing is typed.
pub proof fn law_scope_is_the_active_row(days: Seq<char>, keep: Seq<char>)
    ensures
        match settings_window::number_in(30, days) {
            Some(n) => scope_in(true, days, keep) matches Some(BinScope::OlderThanDays(d)) && d
                == n,
            None => scope_in(true, days, keep) is None,
        },
        match settings_window::number_in(100, keep) {
            Some(n) => scope_in(false, days, keep) matches Some(BinScope::KeepNewest(k)) && k == n,
            None => scope_in(false, days, keep) is None,
        },
        typed_number(true, days, keep) == text::trimmed(days),
        typed_number(false, days, keep) == text::trimmed(keep),
{
    text::law_typed_number(text::trimmed(days), u32::MAX as nat);
    text::law_typed_number(text::trimmed(keep), u32::MAX as nat);
}

/// A scope is said with its number, or as everything where that is zero.
pub proof fn law_scope_is_said(n: u32)
    ensures
        scope_words(BinScope::OlderThanDays(0)) == scope_words(BinScope::KeepNewest(0)),
        text::holds(scope_words(BinScope::OlderThanDays(0)), "全部"@),
        n > 0 ==> text::holds(
            scope_words(BinScope::OlderThanDays(n)),
            text::decimal(n as nat) + " 天以前"@,
        ),
        n > 0 ==> text::holds(
            scope_words(BinScope::KeepNewest(n)),
            "最新 "@ + text::decimal(n as nat) + " 个以外"@,
        ),
{
    reveal_strlit("全部 .bin 大条目");
    reveal_strlit("全部");
    reveal_strlit(" 天以前的 .bin 大条目");
    reveal_strlit(" 天以前");
    reveal_strlit(" 个以外的 .bin 大条目");
    reveal_strlit(" 个以外");
    let all = "全部 .bin 大条目"@;
    assert(all =~= Seq::empty() + "全部"@ + all.skip(2));
    text::lemma_holds(Seq::empty(), "全部"@, all.skip(2));
    let d = text::decimal(n as nat);
    let by_days = d + " 天以前"@;
    assert(d + " 天以前的 .bin 大条目"@ =~= Seq::empty() + by_days
        + " 天以前的 .bin 大条目"@.skip(4));
    text::lemma_holds(Seq::empty(), by_days, " 天以前的 .bin 大条目"@.skip(4));
    let by_count = "最新 "@ + d + " 个以外"@;
    assert("最新 "@ + d + " 个以外的 .bin 大条目"@ =~= Seq::empty() + by_count
        + " 个以外的 .bin 大条目"@.skip(4));
    text::lemma_holds(Seq::empty(), by_count, " 个以外的 .bin 大条目"@.skip(4));
}

/// Every count of a `.bin` scan stands behind the words for it.
pub proof fn law_bin_counts_are_said(
    scope: Seq<char>,
    doomed: nat,
    images: nat,
    texts: nat,
    freed: Seq<char>,
    skipped: nat,
)
    ensures
        ({
            let said = bins_words(scope, doomed, images, texts, freed, skipped);
            &&& text::holds(said, "范围："@ + scope)
            &&& text::holds(said, "命中 "@ + text::decimal(doomed) + " 条"@)
            &&& text::holds(said, "图片 "@ + text::decimal(images))
            &&& text::holds(said, "超长文本 "@ + text::decimal(texts))
            &&& text::holds(said, "预计释放 "@ + freed)
            &&& skipped > 0 ==> text::holds(said, "另跳过 "@ + text::decimal(skipped) + " 条"@)
            &&& skipped > 0 ==> text::holds(
                no_bins_words(skipped),
                "另跳过 "@ + text::decimal(skipped) + " 条"@,
            )
        }),
{
    reveal_strlit("范围：");
    reveal_strlit("\n\n命中 ");
    reveal_strlit("命中 ");
    reveal_strlit(" 条");
    reveal_strlit(" 条（图片 ");
    reveal_strlit("图片 ");
    reveal_strlit(" · 超长文本 ");
    reveal_strlit("超长文本 ");
    reveal_strlit("），预计释放 ");
    reveal_strlit("预计释放 ");
    reveal_strlit("。");
    reveal_strlit("\n另跳过 ");
    reveal_strlit("\n（另跳过 ");
    reveal_strlit("另跳过 ");
    reveal_strlit(" 条（别机当月，从这里删不了）。");
    reveal_strlit(" 条别机当月的）");
    let said = bins_words(scope, doomed, images, texts, freed, skipped);
    let d = text::decimal(doomed);
    let i = text::decimal(images);
    let t = text::decimal(texts);
    let k = text::decimal(skipped);
    let p1 = "范围："@ + scope;
    let p2 = p1 + "\n\n命中 "@.take(2) + "命中 "@ + d;
    let p3 = p1 + "\n\n命中 "@ + d + " 条（图片 "@.take(3) + "图片 "@ + i;
    let p4 = p1 + "\n\n命中 "@ + d + " 条（图片 "@ + i + " · 超长文本 "@.take(3) + "超长文本 "@ + t;
    let p5 = p1 + "\n\n命中 "@ + d + " 条（图片 "@ + i + " · 超长文本 "@ + t + "），预计释放 "@.take(
        2,
    ) + "预计释放 "@ + freed;
    assert("\n\n命中 "@ =~= "\n\n命中 "@.take(2) + "命中 "@);
    assert(" 条（图片 "@ =~= " 条（图片 "@.take(3) + "图片 "@);
    assert(" 条（图片 "@ =~= " 条"@ + " 条（图片 "@.skip(2));
    assert(" · 超长文本 "@ =~= " · 超长文本 "@.take(3) + "超长文本 "@);
    assert("），预计释放 "@ =~= "），预计释放 "@.take(2) + "预计释放 "@);
    lemma_starts(said, p1, Seq::empty(), p1);
    lemma_starts(
        said,
        p2 + " 条"@,
        p1 + "\n\n命中 "@.take(2),
        "命中 "@ + d + " 条"@,
    );
    lemma_starts(
        said,
        p3,
        p1 + "\n\n命中 "@ + d + " 条（图片 "@.take(3),
        "图片 "@ + i,
    );
    lemma_starts(
        said,
        p4,
        p1 + "\n\n命中 "@ + d + " 条（图片 "@ + i + " · 超长文本 "@.take(3),
        "超长文本 "@ + t,
    );
    lemma_starts(
        said,
        p5,
        p1 + "\n\n命中 "@ + d + " 条（图片 "@ + i + " · 超长文本 "@ + t + "），预计释放 "@.take(2),
        "预计释放 "@ + freed,
    );
    if skipped > 0 {
        assert("\n另跳过 "@ =~= "\n另跳过 "@.take(1) + "另跳过 "@);
        assert(" 条（别机当月，从这里删不了）。"@ =~= " 条"@ + " 条（别机当月，从这里删不了）。"@.skip(2));
        let counted = bins_words(scope, doomed, images, texts, freed, 0);
        lemma_starts(
            said,
            counted + "\n另跳过 "@ + k + " 条"@,
            counted + "\n另跳过 "@.take(1),
            "另跳过 "@ + k + " 条"@,
        );
        assert("\n（另跳过 "@ =~= "\n（另跳过 "@.take(2) + "另跳过 "@);
        assert(" 条别机当月的）"@ =~= " 条"@ + " 条别机当月的）"@.skip(2));
        lemma_starts(
            no_bins_words(skipped),
            NO_BINS@ + "\n（另跳过 "@ + k + " 条"@,
            NO_BINS@ + "\n（另跳过 "@.take(2),
            "另跳过 "@ + k + " 条"@,
        );
    }
}

proof fn lemma_starts(said: Seq<char>, start: Seq<char>, before: Seq<char>, part: Seq<char>)
    requires
        start.len() <= said.len(),
        said.take(start.len() as int) =~= start,
        start =~= before + part,
    ensures
        text::holds(said, part),
{
    assert(said =~= before + part + said.skip(start.len() as int));
    text::lemma_holds(before, part, said.skip(start.len() as int));
}

/// Every count of a duplicate scan, and of a report, stands beside the words for it.
pub proof fn law_dupe_counts_are_said(groups: nat, doomed: nat, with_pin: nat, freed: Seq<char>)
    ensures
        text::holds(dupes_words(groups, doomed, with_pin), text::decimal(groups) + " 组重复文本"@),
        text::holds(
            dupes_words(groups, doomed, with_pin),
            "将删除 "@ + text::decimal(doomed) + " 条"@,
        ),
        with_pin > 0 ==> text::holds(
            dupes_words(groups, doomed, with_pin),
            text::decimal(with_pin) + " 组的固定副本也保留"@,
        ),
        text::holds(dupes_report_words(doomed, with_pin), "已删除 "@ + text::decimal(doomed)),
        with_pin > 0 ==> text::holds(
            dupes_report_words(doomed, with_pin),
            "以墓碑提交 "@ + text::decimal(with_pin) + " 条"@,
        ),
        text::holds(bins_report_words(doomed, freed), "已清理 "@ + text::decimal(doomed)),
        text::holds(bins_report_words(doomed, freed), "释放约 "@ + freed),
{
    reveal_strlit("发现 ");
    reveal_strlit(" 组重复文本，将删除 ");
    reveal_strlit(" 组重复文本");
    reveal_strlit("将删除 ");
    reveal_strlit(" 条：每组保留最新一份");
    reveal_strlit(" 条");
    reveal_strlit("，其中 ");
    reveal_strlit(" 组的固定副本也保留");
    reveal_strlit("。");
    reveal_strlit("已删除 ");
    reveal_strlit(" 条重复文本，另以墓碑提交 ");
    reveal_strlit(" 条（别机当月，由所属机器执行）。");
    reveal_strlit("以墓碑提交 ");
    reveal_strlit(" 条重复文本。");
    reveal_strlit("已清理 ");
    reveal_strlit(" 个 .bin 大条目，释放约 ");
    reveal_strlit("释放约 ");
    let g = text::decimal(groups);
    let d = text::decimal(doomed);
    let p = text::decimal(with_pin);
    let said = dupes_words(groups, doomed, with_pin);
    let middle = " 组重复文本，将删除 "@;
    assert(middle =~= " 组重复文本"@ + middle.skip(6));
    assert(middle =~= middle.take(7) + "将删除 "@);
    assert(" 条：每组保留最新一份"@ =~= " 条"@ + " 条：每组保留最新一份"@.skip(2));
    lemma_starts(said, "发现 "@ + g + " 组重复文本"@, "发现 "@, g + " 组重复文本"@);
    lemma_starts(
        said,
        "发现 "@ + g + middle + d + " 条"@,
        "发现 "@ + g + middle.take(7),
        "将删除 "@ + d + " 条"@,
    );
    if with_pin > 0 {
        let front = "发现 "@ + g + middle + d + " 条：每组保留最新一份"@ + "，其中 "@;
        lemma_starts(
            said,
            front + p + " 组的固定副本也保留"@,
            front,
            p + " 组的固定副本也保留"@,
        );
    }
    let report = dupes_report_words(doomed, with_pin);
    lemma_starts(report, "已删除 "@ + d, Seq::empty(), "已删除 "@ + d);
    if with_pin > 0 {
        let also = " 条重复文本，另以墓碑提交 "@;
        assert(also =~= also.take(8) + "以墓碑提交 "@);
        assert(" 条（别机当月，由所属机器执行）。"@ =~= " 条"@ + " 条（别机当月，由所属机器执行）。"@.skip(2));
        lemma_starts(
            report,
            "已删除 "@ + d + also + p + " 条"@,
            "已删除 "@ + d + also.take(8),
            "以墓碑提交 "@ + p + " 条"@,
        );
    }
    let done = bins_report_words(doomed, freed);
    let then = " 个 .bin 大条目，释放约 "@;
    assert(then =~= then.take(then.len() - 4) + "释放约 "@);
    lemma_starts(done, "已清理 "@ + d, Seq::empty(), "已清理 "@ + d);
    lemma_starts(
        done,
        "已清理 "@ + d + then + freed,
        "已清理 "@ + d + then.take(then.len() - 4),
        "释放约 "@ + freed,
    );
}

/// The days stand in the row of the one radio and the entries in that of the other,
/// each with its own words behind it.
pub proof fn law_numbers_stand_in_their_rows(m: CleanupMetrics)
    ensures
        ({
            let all = window_controls(m);
            &&& all[1].id == ID_BINS_TIME && all[1].caption == "按时间"@
            &&& all[3].id == ID_BINS_DAYS && all[3].at.y == all[1].at.y
            &&& all[5].caption == "天以前的（0 = 全部）"@ && all[5].at.y == all[1].at.y
            &&& all[2].id == ID_BINS_COUNT && all[2].caption == "按条数"@
            &&& all[4].id == ID_BINS_KEEP && all[4].at.y == all[2].at.y
            &&& all[6].caption == "个，其余清理（0 = 全部）"@ && all[6].at.y == all[2].at.y
        }),
{
}

/// A click on a button does what the button says, and a click on nothing else does.
pub proof fn law_buttons_do_what_they_say(m: CleanupMetrics, wparam: usize, i: int)
    requires
        0 <= i < window_controls(m).len(),
        win::low_word(wparam) == window_controls(m)[i].id,
    ensures
        ({
            let caption = window_controls(m)[i].caption;
            let clicked = win::high_word(wparam) == 0;
            &&& notified(wparam) is StartBins <==> clicked && caption == "清理 .bin…"@
            &&& notified(wparam) is StartDupes <==> clicked && caption == "去重…"@
            &&& notified(wparam) is Close <==> clicked && caption == "关闭"@
        }),
{
    lemma_button_captions(m, i);
}

proof fn lemma_button_captions(m: CleanupMetrics, i: int)
    requires
        0 <= i < window_controls(m).len(),
    ensures
        ({
            let caption = window_controls(m)[i].caption;
            &&& caption == "清理 .bin…"@ <==> i == 8
            &&& caption == "去重…"@ <==> i == 11
            &&& caption == "关闭"@ <==> i == 13
        }),
{
    reveal_strlit("清理 .bin 大条目（图片、超长文本）");
    reveal_strlit("按时间");
    reveal_strlit("按条数");
    reveal_strlit("");
    reveal_strlit("天以前的（0 = 全部）");
    reveal_strlit("个，其余清理（0 = 全部）");
    reveal_strlit(
        "只删带 .bin 的条目——图片和超长文本，整条删除，短文本和文件列表不受影响。固定的条目永远保留；别机当月的条目删不了，会跳过。",
    );
    reveal_strlit("清理 .bin…");
    reveal_strlit("清理重复文本");
    reveal_strlit(
        "同一段文本存了多份时（两台机器都复制过最常见），每组保留最新一份，固定的副本也保留，其余删除。",
    );
    reveal_strlit("去重…");
    reveal_strlit("关闭");
    let caption = window_controls(m)[i].caption;
    assert("清理 .bin…"@.len() == 8 && "去重…"@.len() == 3 && "关闭"@.len() == 2);
    assert("去重…"@[0] == '去' && "按时间"@[0] == '按' && "按条数"@[0] == '按');
}

/// A ride is taken by asking, goes on while the window is there, there is something to
/// clean up and the answer is yes, and ends with any of these failing or with its report.
pub proof fn law_ride(riding: bool)
    ensures
        riding_after(riding, RideEvent::Asked),
        riding_after(riding, (RideEvent::Scanned { window_visible: true })) == riding,
        riding_after(riding, (RideEvent::Counted { anything: true })) == riding,
        riding_after(riding, (RideEvent::Answered { yes: true })) == riding,
        !riding_after(riding, (RideEvent::Scanned { window_visible: false })),
        !riding_after(riding, (RideEvent::Counted { anything: false })),
        !riding_after(riding, (RideEvent::Answered { yes: false })),
        !riding_after(riding, RideEvent::Reported),
{
}

} // verus!
