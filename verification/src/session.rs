//! What the running program remembers between two messages: the live settings, the
//! window the hotkey belongs to, and the last state of the clipboard it has seen.

use vstd::prelude::*;

use crate::clip::ClipPayload;
use crate::clip::PayloadView;
use crate::hotkey;
use crate::hotkey::MOD_NOREPEAT;
use crate::messages;
use crate::settings;
use crate::settings::Settings;
use crate::settings::SettingsView;
use crate::text;
use crate::tray;

verus! {

/// Deliberately the name every build has used: two of them running side by side
/// would capture every clip twice.
pub const INSTANCE_MUTEX: &'static str = "Local\\ClipPlus.SingleInstance";

pub const HOTKEY_ID: usize = 0xC1A0;

pub struct Session {
    /// The settings window can change these at runtime.
    settings: Option<Settings>,
    /// The window the hotkey is registered for; zero before there is one.
    window: isize,
    last_sequence: u32,
}

#[verifier::ext_equal]
pub struct SessionView {
    pub settings: Option<SettingsView>,
    pub window: isize,
    pub last_sequence: u32,
}

pub open spec fn settings_view(settings: Option<Settings>) -> Option<SettingsView> {
    match settings {
        Some(s) => Some(s@),
        None => None,
    }
}

impl View for Session {
    type V = SessionView;

    closed spec fn view(&self) -> SessionView {
        SessionView {
            settings: settings_view(self.settings),
            window: self.window,
            last_sequence: self.last_sequence,
        }
    }
}

/// What putting the hotkey back asks for.
#[derive(Debug)]
pub enum HotkeyStep {
    /// There is no window or there are no settings yet.
    Nothing,
    /// The setting is no combination; this is what to log.
    Unusable(String),
    /// Drop the old registration first (registering the same combination while it
    /// is still held by this process fails against ourselves), then register.
    Register { window: isize, modifiers: u32, vk: u32 },
}

#[verifier::ext_equal]
pub enum HotkeyStepView {
    Nothing,
    Unusable(Seq<char>),
    Register { window: isize, modifiers: u32, vk: u32 },
}

impl View for HotkeyStep {
    type V = HotkeyStepView;

    open spec fn view(&self) -> HotkeyStepView {
        match *self {
            HotkeyStep::Nothing => HotkeyStepView::Nothing,
            HotkeyStep::Unusable(message) => HotkeyStepView::Unusable(message@),
            HotkeyStep::Register { window, modifiers, vk } => HotkeyStepView::Register {
                window,
                modifiers,
                vk,
            },
        }
    }
}

pub open spec fn unusable_words(spelled: Seq<char>) -> Seq<char> {
    "hotkey '"@ + spelled + "' could not be parsed; expected e.g. Win+Alt+V"@
}

pub open spec fn hotkey_step(session: SessionView) -> HotkeyStepView {
    match session.settings {
        Some(settings) => if session.window == 0 {
            HotkeyStepView::Nothing
        } else {
            match hotkey::parsed(settings.hotkey) {
                Some(h) => HotkeyStepView::Register {
                    window: session.window,
                    modifiers: h.modifiers | MOD_NOREPEAT,
                    vk: h.vk,
                },
                None => HotkeyStepView::Unusable(unusable_words(settings.hotkey)),
            }
        },
        None => HotkeyStepView::Nothing,
    }
}

/// The clipboard changed since it was looked at last.
pub open spec fn is_new_copy(session: SessionView, sequence: u32) -> bool {
    session.last_sequence != sequence
}

pub open spec fn seen(session: SessionView, sequence: u32) -> SessionView {
    SessionView { last_sequence: sequence, ..session }
}

/// A payload the way the log says it.
pub open spec fn described(payload: PayloadView) -> Seq<char> {
    match payload {
        PayloadView::Text(s) => "text, "@ + text::decimal(s.len()) + " chars"@,
        PayloadView::Files(paths) => text::decimal(paths.len()) + " file(s)"@,
        PayloadView::Image(png) => "image, "@ + text::decimal(png.len()) + " PNG bytes"@,
    }
}

pub fn describe(payload: &ClipPayload) -> (r: String)
    ensures
        r@ == described(payload@),
{
    match payload {
        ClipPayload::Text(s) => {
            let chars = text::chars_of(s);
            let mut out = "text, ".to_owned();
            text::push_decimal(&mut out, chars.len() as u64);
            out.append(" chars");
            out
        },
        ClipPayload::Files(paths) => {
            let mut out = text::decimal_text(paths.len() as u64);
            out.append(" file(s)");
            out
        },
        ClipPayload::Image(png) => {
            let mut out = "image, ".to_owned();
            text::push_decimal(&mut out, png.len() as u64);
            out.append(" PNG bytes");
            out
        },
    }
}

impl Session {
    pub fn new() -> (r: Session)
        ensures
            r@ == (SessionView { settings: None, window: 0, last_sequence: 0 }),
    {
        Session { settings: None, window: 0, last_sequence: 0 }
    }

    /// Snapshot of the live settings. Copied, because callers outlive the lock.
    pub fn current_settings(&self) -> (r: Option<Settings>)
        ensures
            settings_view(r) == self@.settings,
    {
        match &self.settings {
            Some(s) => Some(s.clone()),
            None => None,
        }
    }

    /// Every settings change arrives here, at startup and again on each save.
    pub fn set_settings(&mut self, updated: Settings)
        ensures
            final(self)@ == (SessionView { settings: Some(updated@), ..old(self)@ }),
    {
        self.settings = Some(updated);
    }

    pub fn set_window(&mut self, window: isize)
        ensures
            final(self)@ == (SessionView { window, ..old(self)@ }),
    {
        self.window = window;
    }

    /// The window to drop the global hotkey of, for as long as the settings window
    /// is recording a new one: pressing the combination that is registered would
    /// otherwise fire the popup instead of reaching the field.
    pub fn suspend_hotkey(&self) -> (r: Option<isize>)
        ensures
            r == (if self@.window == 0 {
                None
            } else {
                Some(self@.window)
            }),
    {
        if self.window == 0 {
            None
        } else {
            Some(self.window)
        }
    }

    /// What (re)registering the hotkey from the current settings asks for. Asked at
    /// startup and again whenever the settings window saves, which is what makes a
    /// hotkey change take effect without a restart.
    pub fn apply_hotkey(&self) -> (r: HotkeyStep)
        ensures
            r@ == hotkey_step(self@),
    {
        if self.window == 0 {
            return HotkeyStep::Nothing;
        }
        match &self.settings {
            Some(s) => match hotkey::parse_hotkey(&s.hotkey) {
                Some(h) => HotkeyStep::Register {
                    window: self.window,
                    modifiers: h.modifiers | MOD_NOREPEAT,
                    vk: h.vk,
                },
                None => {
                    let mut out = "hotkey '".to_owned();
                    out.append(&s.hotkey);
                    out.append("' could not be parsed; expected e.g. Win+Alt+V");
                    HotkeyStep::Unusable(out)
                },
            },
            None => HotkeyStep::Nothing,
        }
    }

    /// Whether a notification is about something new. The system notifies on every
    /// format change and one copy can raise several; the sequence number filters
    /// those for free.
    pub fn clipboard_changed(&mut self, sequence: u32) -> (r: bool)
        ensures
            r == is_new_copy(old(self)@, sequence),
            final(self)@ == seen(old(self)@, sequence),
    {
        let new = self.last_sequence != sequence;
        self.last_sequence = sequence;
        new
    }

    /// Whether what was copied is recorded. The switches are consulted at capture
    /// time rather than at startup, which is what lets the settings window turn
    /// them off and have it take effect on the next copy.
    pub fn captures(&self, payload: &ClipPayload) -> (r: bool)
        ensures
            r == (self@.settings matches Some(s) ==> settings::recorded(payload@, s)),
    {
        settings::capture_enabled(payload, &self.settings)
    }

    /// What a capture writes into the log.
    pub fn capture_line(&self, payload: &ClipPayload) -> (r: String)
        ensures
            r@ == (if self@.settings matches Some(s) ==> settings::recorded(payload@, s) {
                "captured "@ + described(payload@)
            } else {
                "ignored "@ + described(payload@) + " (switched off)"@
            }),
    {
        if self.captures(payload) {
            let mut out = "captured ".to_owned();
            out.append(&describe(payload));
            out
        } else {
            let mut out = "ignored ".to_owned();
            out.append(&describe(payload));
            out.append(" (switched off)");
            out
        }
    }

    /// The popup was moved or stretched: the settings to save, or `None` when there
    /// is nothing new to write down.
    pub fn remember_popup_layout(&self, position: (i32, i32), size: (i32, i32)) -> (r: Option<
        Settings,
    >)
        ensures
            settings_view(r) == (match self@.settings {
                Some(s) => settings::with_popup_layout(s, position, size),
                None => None,
            }),
    {
        match &self.settings {
            Some(s) => settings::remember_popup_layout(s, position, size),
            None => None,
        }
    }
}

/// One copy is captured once: however often its sequence number is reported, only
/// the first report in a row is new, and the report of another copy is new again.
pub proof fn law_one_copy_counts_once(session: SessionView, sequence: u32, other: u32)
    requires
        other != sequence,
    ensures
        !is_new_copy(seen(session, sequence), sequence),
        is_new_copy(seen(session, sequence), other),
        seen(seen(session, sequence), sequence) == seen(session, sequence),
{
}

/// What a message to the hidden window is about.
#[derive(Clone, Copy, Debug, PartialEq, Eq, Structural)]
pub enum SessionEvent {
    /// Nothing of ours: the system handles it.
    Default,
    /// A hotkey that is not ours.
    Ignored,
    ClipboardChanged,
    Tray(tray::TrayAction),
    TogglePopup,
    Quit,
}

/// What a message to the hidden window is about.
pub open spec fn session_event(message: u32, wparam: usize, lparam: usize) -> SessionEvent {
    if message == messages::WM_CLIPBOARDUPDATE {
        SessionEvent::ClipboardChanged
    } else if message == tray::CALLBACK_MESSAGE {
        SessionEvent::Tray(tray::callback_action(lparam))
    } else if message == messages::WM_HOTKEY && wparam == HOTKEY_ID {
        SessionEvent::TogglePopup
    } else if message == messages::WM_HOTKEY {
        SessionEvent::Ignored
    } else if message == messages::WM_DESTROY {
        SessionEvent::Quit
    } else {
        SessionEvent::Default
    }
}

pub fn wnd_proc(message: u32, wparam: usize, lparam: usize) -> (r: SessionEvent)
    ensures
        r == session_event(message, wparam, lparam),
        r == (if message == messages::WM_CLIPBOARDUPDATE {
            SessionEvent::ClipboardChanged
        } else if message == tray::CALLBACK_MESSAGE {
            SessionEvent::Tray(tray::callback_action(lparam))
        } else if message == messages::WM_HOTKEY && wparam == HOTKEY_ID {
            SessionEvent::TogglePopup
        } else if message == messages::WM_HOTKEY {
            SessionEvent::Ignored
        } else if message == messages::WM_DESTROY {
            SessionEvent::Quit
        } else {
            SessionEvent::Default
        }),
{
    if message == messages::WM_CLIPBOARDUPDATE {
        SessionEvent::ClipboardChanged
    } else if message == tray::CALLBACK_MESSAGE {
        SessionEvent::Tray(tray::handle_callback(lparam))
    } else if message == messages::WM_HOTKEY {
        if wparam == HOTKEY_ID {
            SessionEvent::TogglePopup
        } else {
            SessionEvent::Ignored
        }
    } else if message == messages::WM_DESTROY {
        SessionEvent::Quit
    } else {
        SessionEvent::Default
    }
}

/// With settings and a window the combination in the settings is registered for that
/// window, with the flag that keeps a held key from repeating on top of its modifiers;
/// a combination that cannot be read is named; and before both are there nothing is
/// done.
pub proof fn law_which_hotkey_is_registered(session: SessionView)
    ensures
        session.settings is None || session.window == 0 ==> hotkey_step(session) is Nothing,
        session.settings is Some && session.window != 0 ==> match hotkey::parsed(
            session.settings->0.hotkey,
        ) {
            Some(h) => hotkey_step(session) matches HotkeyStepView::Register {
                window,
                modifiers,
                vk,
            } && window == session.window && modifiers == h.modifiers + 0x4000 && vk == h.vk,
            None => hotkey_step(session) matches HotkeyStepView::Unusable(said) && text::holds(
                said,
                "'"@ + session.settings->0.hotkey + "'"@,
            ),
        },
{
    if session.settings is Some && session.window != 0 {
        let spelled = session.settings->0.hotkey;
        match hotkey::parsed(spelled) {
            Some(h) => {
                let m = h.modifiers;
                hotkey::law_modifiers_of_a_text(spelled);
                assert(m | 0x4000 == m + 0x4000) by (bit_vector)
                    requires
                        m < 16,
                ;
            },
            None => {
                reveal_strlit("hotkey '");
                reveal_strlit("'");
                reveal_strlit("' could not be parsed; expected e.g. Win+Alt+V");
                let front = "hotkey '"@;
                let back = "' could not be parsed; expected e.g. Win+Alt+V"@;
                let part = "'"@ + spelled + "'"@;
                assert(unusable_words(spelled) =~= front.take(7) + part + back.skip(1));
                text::lemma_holds(front.take(7), part, back.skip(1));
            },
        }
    }
}

/// The log says of a payload what it is and how much: the characters of a text, the
/// paths of a list, the bytes of an image.
pub proof fn law_payload_is_described(payload: PayloadView)
    ensures
        ({
            let said = described(payload);
            match payload {
                PayloadView::Text(s) => text::holds(said, "text"@) && text::holds(
                    said,
                    text::decimal(s.len()) + " chars"@,
                ),
                PayloadView::Files(paths) => text::holds(
                    said,
                    text::decimal(paths.len()) + " file"@,
                ),
                PayloadView::Image(png) => text::holds(said, "image"@) && text::holds(
                    said,
                    text::decimal(png.len()) + " PNG bytes"@,
                ),
            }
        }),
{
    reveal_strlit("text, ");
    reveal_strlit("text");
    reveal_strlit("image, ");
    reveal_strlit("image");
    reveal_strlit(" file(s)");
    reveal_strlit(" file");
    let said = described(payload);
    match payload {
        PayloadView::Text(s) => {
            assert(said =~= Seq::empty() + "text"@ + said.skip(4));
            text::lemma_holds(Seq::empty(), "text"@, said.skip(4));
            let part = text::decimal(s.len()) + " chars"@;
            assert(said =~= "text, "@ + part + Seq::empty());
            text::lemma_holds("text, "@, part, Seq::empty());
        },
        PayloadView::Files(paths) => {
            let part = text::decimal(paths.len()) + " file"@;
            assert(said =~= Seq::empty() + part + " file(s)"@.skip(5));
            text::lemma_holds(Seq::empty(), part, " file(s)"@.skip(5));
        },
        PayloadView::Image(png) => {
            assert(said =~= Seq::empty() + "image"@ + said.skip(5));
            text::lemma_holds(Seq::empty(), "image"@, said.skip(5));
            let part = text::decimal(png.len()) + " PNG bytes"@;
            assert(said =~= "image, "@ + part + Seq::empty());
            text::lemma_holds("image, "@, part, Seq::empty());
        },
    }
}

/// A change of the clipboard, a click on the icon, the hotkey and the end are told apart
/// by the number of the message; another program's hotkey is let pass by.
pub proof fn law_messages_to_the_hidden_window(message: u32, wparam: usize, lparam: usize)
    ensures
        ({
            let event = session_event(message, wparam, lparam);
            &&& event == SessionEvent::ClipboardChanged <==> message == 0x031D
            &&& event == SessionEvent::Quit <==> message == 0x0002
            &&& message == 0x8001 ==> event == SessionEvent::Tray(tray::callback_action(lparam))
            &&& event is Tray ==> message == 0x8001
            &&& event == SessionEvent::TogglePopup <==> message == 0x0312 && wparam == HOTKEY_ID
            &&& event == SessionEvent::Ignored <==> message == 0x0312 && wparam != HOTKEY_ID
        }),
{
}

} // verus!
