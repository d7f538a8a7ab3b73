//! Global key combinations and how they are spelled.

use vstd::prelude::*;

use crate::text;

verus! {

pub const MOD_ALT: u32 = 0x0001;

pub const MOD_CONTROL: u32 = 0x0002;

pub const MOD_SHIFT: u32 = 0x0004;

pub const MOD_WIN: u32 = 0x0008;

pub const MOD_NOREPEAT: u32 = 0x4000;

#[derive(Clone, Copy, Debug, PartialEq, Eq, Structural)]
pub struct Hotkey {
    pub modifiers: u32,
    pub vk: u32,
}

/// Which modifiers are held.
#[derive(Clone, Copy, Debug, PartialEq, Eq, Structural)]
pub struct Modifiers {
    pub win: bool,
    pub ctrl: bool,
    pub alt: bool,
    pub shift: bool,
}

pub open spec fn no_modifiers() -> Modifiers {
    Modifiers { win: false, ctrl: false, alt: false, shift: false }
}

/// The modifiers as the flags a registration takes.
pub open spec fn flags(m: Modifiers) -> u32 {
    ((if m.win {
        MOD_WIN
    } else {
        0
    }) + (if m.ctrl {
        MOD_CONTROL
    } else {
        0
    }) + (if m.alt {
        MOD_ALT
    } else {
        0
    }) + (if m.shift {
        MOD_SHIFT
    } else {
        0
    })) as u32
}

/// The modifiers that flags stand for.
pub open spec fn held(modifiers: u32) -> Modifiers {
    Modifiers {
        win: modifiers / MOD_WIN % 2 == 1,
        ctrl: modifiers / MOD_CONTROL % 2 == 1,
        alt: modifiers / MOD_ALT % 2 == 1,
        shift: modifiers / MOD_SHIFT % 2 == 1,
    }
}

impl Modifiers {
    pub fn flags(self) -> (n: u32)
        ensures
            n == flags(self),
    {
        let win: u32 = if self.win {
            MOD_WIN
        } else {
            0
        };
        let ctrl: u32 = if self.ctrl {
            MOD_CONTROL
        } else {
            0
        };
        let alt: u32 = if self.alt {
            MOD_ALT
        } else {
            0
        };
        let shift: u32 = if self.shift {
            MOD_SHIFT
        } else {
            0
        };
        win + ctrl + alt + shift
    }
}

// ------------------------------------------------------------------------- keys

/// Letters and digits have the code of their own upper case character.
pub open spec fn is_plain_key(vk: u32) -> bool {
    0x41 <= vk <= 0x5A || 0x30 <= vk <= 0x39
}

pub open spec fn is_function_key(vk: u32) -> bool {
    0x70 <= vk <= 0x87
}

pub fn function_key(vk: u32) -> (r: bool)
    ensures
        r == is_function_key(vk),
{
    0x70 <= vk && vk <= 0x87
}

/// How a key is spelled; `None` for a key with no name.
pub open spec fn key_spelling(vk: u32) -> Option<Seq<char>> {
    if is_plain_key(vk) {
        Some(seq![vk as char])
    } else if is_function_key(vk) {
        Some(seq!['F'] + text::decimal((vk - 0x6F) as nat))
    } else {
        None
    }
}

/// The spelling `virtual_key` accepts for this code, or `None` for a key with
/// no name: the settings window ignores those rather than letting the field
/// hold something that would not survive a round trip.
pub fn key_name(vk: u32) -> (r: Option<String>)
    ensures
        text::opt_view(r) == key_spelling(vk),
{
    if (0x41 <= vk && vk <= 0x5A) || (0x30 <= vk && vk <= 0x39) {
        let mut name = String::new();
        name.push((vk as u8) as char);
        assert(name@ =~= seq![vk as char]);
        return Some(name);
    }
    if function_key(vk) {
        let mut name = String::new();
        name.push('F');
        text::push_decimal(&mut name, (vk - 0x6F) as u64);
        assert(name@ =~= seq!['F'] + text::decimal((vk - 0x6F) as nat));
        return Some(name);
    }
    None
}

/// The key a name stands for, in either case.
pub open spec fn key_code(name: Seq<char>) -> Option<u32> {
    let upper = text::uppered(name);
    if upper.len() == 1 {
        if ('A' <= upper[0] && upper[0] <= 'Z') || ('0' <= upper[0] && upper[0] <= '9') {
            Some(upper[0] as u32)
        } else {
            None
        }
    } else if upper.len() > 0 && upper[0] == 'F' {
        match text::parsed_number(upper.drop_first(), u32::MAX as nat) {
            Some(n) => if 1 <= n <= 24 {
                Some((0x6F + n) as u32)
            } else {
                None
            },
            None => None,
        }
    } else {
        None
    }
}

pub fn virtual_key(name: &str) -> (r: Option<u32>)
    ensures
        r == key_code(name@),
{
    let upper = text::to_ascii_uppercase(name);
    let chars = text::chars_of(&upper);
    if chars.len() == 1 {
        let c = chars[0];
        return if ('A' <= c && c <= 'Z') || ('0' <= c && c <= '9') {
            Some(c as u32)
        } else {
            None
        };
    }
    if chars.len() > 0 && chars[0] == 'F' {
        let digits = text::string_of(&chars, 1, chars.len());
        assert(digits@ =~= upper@.drop_first());
        if let Some(n) = text::parse_number(&digits, u32::MAX as u64) {
            if 1 <= n && n <= 24 {
                return Some(0x6F + n as u32);
            }
        }
    }
    None
}

// ----------------------------------------------------------------- combinations

/// Whether a combination may be registered: a key that has a name, and a
/// modifier unless it is a function key. A bare key would swallow every press of
/// it system-wide.
pub open spec fn registrable(modifiers: u32, vk: u32) -> bool {
    key_spelling(vk) is Some && (modifiers != 0 || is_function_key(vk))
}

/// The canonical spelling: Win first, then Ctrl, Alt, Shift, then the key.
pub open spec fn spelling(h: Hotkey) -> Seq<char> {
    let m = held(h.modifiers);
    (if m.win {
        "Win+"@
    } else {
        Seq::empty()
    }) + ((if m.ctrl {
        "Ctrl+"@
    } else {
        Seq::empty()
    }) + ((if m.alt {
        "Alt+"@
    } else {
        Seq::empty()
    }) + ((if m.shift {
        "Shift+"@
    } else {
        Seq::empty()
    }) + key_text(h.vk))))
}

pub open spec fn key_text(vk: u32) -> Seq<char> {
    match key_spelling(vk) {
        Some(name) => name,
        None => Seq::empty(),
    }
}

impl Hotkey {
    /// Rejects a combination that must not be registered, so neither a
    /// hand-edited settings file nor the settings window's capture field can
    /// produce one.
    pub fn new(modifiers: u32, vk: u32) -> (r: Option<Hotkey>)
        ensures
            r == if registrable(modifiers, vk) {
                Some(Hotkey { modifiers, vk })
            } else {
                None
            },
    {
        if key_name(vk).is_none() {
            return None;
        }
        if modifiers == 0 && !function_key(vk) {
            return None;
        }
        Some(Hotkey { modifiers, vk })
    }

    /// The canonical spelling: the inverse of `parse_hotkey`.
    pub fn text(self) -> (out: String)
        ensures
            out@ == spelling(self),
    {
        let mut out = String::new();
        // Win first: that is how the shipped default (`Win+Alt+V`) reads.
        if self.modifiers / MOD_WIN % 2 == 1 {
            out.append("Win+");
        }
        if self.modifiers / MOD_CONTROL % 2 == 1 {
            out.append("Ctrl+");
        }
        if self.modifiers / MOD_ALT % 2 == 1 {
            out.append("Alt+");
        }
        if self.modifiers / MOD_SHIFT % 2 == 1 {
            out.append("Shift+");
        }
        if let Some(name) = key_name(self.vk) {
            out.append(name.as_str());
        }
        assert(out@ =~= spelling(self));
        out
    }
}

/// What has been read of a combination: the modifiers, and the key or 0.
pub struct Reading {
    pub modifiers: Modifiers,
    pub vk: u32,
}

/// One more part of a combination, as its name in lower case. Two keys that are no
/// modifiers, or a name that is no key, and there is no combination.
pub open spec fn read_name(so_far: Reading, name: Seq<char>) -> Option<Reading> {
    let m = so_far.modifiers;
    if name.len() == 0 {
        Some(so_far)
    } else if name == "win"@ || name == "windows"@ || name == "super"@ {
        Some(Reading { modifiers: Modifiers { win: true, ..m }, vk: so_far.vk })
    } else if name == "ctrl"@ || name == "control"@ {
        Some(Reading { modifiers: Modifiers { ctrl: true, ..m }, vk: so_far.vk })
    } else if name == "alt"@ {
        Some(Reading { modifiers: Modifiers { alt: true, ..m }, vk: so_far.vk })
    } else if name == "shift"@ {
        Some(Reading { modifiers: Modifiers { shift: true, ..m }, vk: so_far.vk })
    } else if so_far.vk != 0 {
        None
    } else {
        match key_code(name) {
            Some(vk) => Some(Reading { modifiers: m, vk }),
            None => None,
        }
    }
}

/// One more part of a combination, in any case and with white space around it.
pub open spec fn read_part(so_far: Reading, part: Seq<char>) -> Option<Reading> {
    read_name(so_far, text::lowered(text::trimmed(part)))
}

pub open spec fn read_parts(so_far: Reading, parts: Seq<Seq<char>>) -> Option<Reading>
    decreases parts.len(),
{
    if parts.len() == 0 {
        Some(so_far)
    } else {
        match read_part(so_far, parts[0]) {
            Some(next) => read_parts(next, parts.drop_first()),
            None => None,
        }
    }
}

/// The combination a text spells, with `+` between its parts.
pub open spec fn parsed(s: Seq<char>) -> Option<Hotkey> {
    let start = Reading { modifiers: no_modifiers(), vk: 0 };
    match read_parts(start, text::split_at_marks(s, '+')) {
        Some(reading) => if registrable(flags(reading.modifiers), reading.vk) {
            Some(Hotkey { modifiers: flags(reading.modifiers), vk: reading.vk })
        } else {
            None
        },
        None => None,
    }
}

/// Returns `None` when the string is unusable, so the caller can report it
/// rather than silently running without a hotkey.
pub fn parse_hotkey(s: &str) -> (r: Option<Hotkey>)
    ensures
        r == parsed(s@),
{
    let parts = text::split(s, '+');
    let ghost all = text::views(parts@);
    let ghost start = Reading { modifiers: no_modifiers(), vk: 0 };
    let mut m = Modifiers { win: false, ctrl: false, alt: false, shift: false };
    let mut vk: u32 = 0;
    let mut i: usize = 0;
    assert(all.skip(0) =~= all);
    while i < parts.len()
        invariant
            i <= parts@.len(),
            all == text::views(parts@),
            all == text::split_at_marks(s@, '+'),
            start == (Reading { modifiers: no_modifiers(), vk: 0 }),
            read_parts(Reading { modifiers: m, vk }, all.skip(i as int)) == read_parts(start, all),
        decreases parts@.len() - i,
    {
        let ghost rest = all.skip(i as int);
        assert(rest[0] == parts@[i as int]@);
        assert(rest.drop_first() =~= all.skip(i as int + 1));
        let part = text::to_ascii_lowercase(&text::trim(&parts[i]));
        if !part.as_str().is_empty() {
            if text::same_text(&part, "win") || text::same_text(&part, "windows")
                || text::same_text(&part, "super") {
                m = Modifiers { win: true, ctrl: m.ctrl, alt: m.alt, shift: m.shift };
            } else if text::same_text(&part, "ctrl") || text::same_text(&part, "control") {
                m = Modifiers { win: m.win, ctrl: true, alt: m.alt, shift: m.shift };
            } else if text::same_text(&part, "alt") {
                m = Modifiers { win: m.win, ctrl: m.ctrl, alt: true, shift: m.shift };
            } else if text::same_text(&part, "shift") {
                m = Modifiers { win: m.win, ctrl: m.ctrl, alt: m.alt, shift: true };
            } else {
                if vk != 0 {
                    return None;
                }
                match virtual_key(&part) {
                    Some(code) => {
                        vk = code;
                    },
                    None => {
                        return None;
                    },
                }
            }
        }
        i += 1;
    }
    Hotkey::new(m.flags(), vk)
}

// --------------------------------------------------------------------- the laws

/// A piece without the mark, the mark, and a rest: the piece is split off.
proof fn lemma_split_piece(piece: Seq<char>, rest: Seq<char>, mark: char)
    requires
        !piece.contains(mark),
    ensures
        text::split_at_marks(piece.push(mark) + rest, mark) == seq![piece] + text::split_at_marks(
            rest,
            mark,
        ),
{
    let s = piece.push(mark) + rest;
    text::lemma_first_at(s, mark);
    let k = piece.len() as int;
    assert(s[k] == mark);
    assert forall|i: int| 0 <= i < k implies s[i] != mark by {
        assert(s[i] == piece[i]);
        assert(piece.contains(piece[i]));
    }
    assert(text::first_at(s, mark) == k);
    assert(s.take(k) =~= piece);
    assert(s.skip(k + 1) =~= rest);
}

/// A name of a modifier, spelled with a capital.
proof fn lemma_modifier_names()
    ensures
        text::lowered(text::trimmed("Win"@)) == "win"@,
        text::lowered(text::trimmed("Ctrl"@)) == "ctrl"@,
        text::lowered(text::trimmed("Alt"@)) == "alt"@,
        text::lowered(text::trimmed("Shift"@)) == "shift"@,
        "Win+"@ == "Win"@.push('+'),
        "Ctrl+"@ == "Ctrl"@.push('+'),
        "Alt+"@ == "Alt"@.push('+'),
        "Shift+"@ == "Shift"@.push('+'),
        !"Win"@.contains('+'),
        !"Ctrl"@.contains('+'),
        !"Alt"@.contains('+'),
        !"Shift"@.contains('+'),
{
    reveal_strlit("Win");
    reveal_strlit("Ctrl");
    reveal_strlit("Alt");
    reveal_strlit("Shift");
    reveal_strlit("win");
    reveal_strlit("ctrl");
    reveal_strlit("alt");
    reveal_strlit("shift");
    reveal_strlit("Win+");
    reveal_strlit("Ctrl+");
    reveal_strlit("Alt+");
    reveal_strlit("Shift+");
    assert("Win+"@ =~= "Win"@.push('+'));
    assert("Ctrl+"@ =~= "Ctrl"@.push('+'));
    assert("Alt+"@ =~= "Alt"@.push('+'));
    assert("Shift+"@ =~= "Shift"@.push('+'));
    assert(text::trimmed("Win"@) == "Win"@);
    assert(text::trimmed("Ctrl"@) == "Ctrl"@);
    assert(text::trimmed("Alt"@) == "Alt"@);
    assert(text::trimmed("Shift"@) == "Shift"@);
    assert(text::lowered("Win"@) =~= "win"@);
    assert(text::lowered("Ctrl"@) =~= "ctrl"@);
    assert(text::lowered("Alt"@) =~= "alt"@);
    assert(text::lowered("Shift"@) =~= "shift"@);
}

/// No two of the modifier words are the same.
proof fn lemma_words_differ()
    ensures
        "win"@.len() == 3,
        "ctrl"@.len() == 4,
        "alt"@.len() == 3,
        "shift"@.len() == 5,
        "windows"@.len() == 7,
        "super"@.len() == 5,
        "control"@.len() == 7,
        "win"@[0] == 'w',
        "alt"@[0] == 'a',
        "shift"@[1] == 'h',
        "super"@[1] == 'u',
{
    reveal_strlit("win");
    reveal_strlit("ctrl");
    reveal_strlit("alt");
    reveal_strlit("shift");
    reveal_strlit("windows");
    reveal_strlit("super");
    reveal_strlit("control");
}

/// Reading goes on after a modifier as if it had been held from the start.
proof fn lemma_after_modifier(so_far: Reading, name: Seq<char>, rest: Seq<char>)
    requires
        name == "Win"@ || name == "Ctrl"@ || name == "Alt"@ || name == "Shift"@,
    ensures
        read_parts(so_far, text::split_at_marks(name.push('+') + rest, '+')) == read_parts(
            Reading {
                modifiers: Modifiers {
                    win: so_far.modifiers.win || name == "Win"@,
                    ctrl: so_far.modifiers.ctrl || name == "Ctrl"@,
                    alt: so_far.modifiers.alt || name == "Alt"@,
                    shift: so_far.modifiers.shift || name == "Shift"@,
                },
                vk: so_far.vk,
            },
            text::split_at_marks(rest, '+'),
        ),
{
    lemma_modifier_names();
    lemma_words_differ();
    lemma_split_piece(name, rest, '+');
    let parts = text::split_at_marks(name.push('+') + rest, '+');
    assert(parts[0] == name);
    assert(parts.drop_first() =~= text::split_at_marks(rest, '+'));
    assert("Win"@.len() == 3 && "Alt"@.len() == 3 && "Ctrl"@.len() == 4 && "Shift"@.len() == 5
        && "Win"@[0] != "Alt"@[0]) by {
        reveal_strlit("Win");
        reveal_strlit("Ctrl");
        reveal_strlit("Alt");
        reveal_strlit("Shift");
    }
}

/// The name of a key is read as that key.
proof fn lemma_key_read(m: Modifiers, vk: u32)
    requires
        key_spelling(vk) is Some,
    ensures
        read_parts(
            Reading { modifiers: m, vk: 0 },
            text::split_at_marks(key_text(vk), '+'),
        ) == Some(Reading { modifiers: m, vk }),
{
    let name = key_text(vk);
    lemma_words_differ();
    if is_function_key(vk) {
        let n = (vk - 0x6F) as nat;
        let digits = text::decimal(n);
        text::lemma_decimal_value(n);
        text::law_number_round_trip(n, u32::MAX as nat);
        assert(digits.len() <= 2) by {
            reveal_with_fuel(text::decimal, 3);
        }
        assert forall|i: int| 0 <= i < name.len() implies name[i] != '+' && !text::is_white(
            name[i],
        ) by {
            if i > 0 {
                assert(name[i] == digits[i - 1]);
            }
        }
        let low = text::lowered(name);
        assert(text::uppered(low) =~= name) by {
            assert forall|i: int| 0 <= i < name.len() implies text::uppered(low)[i] == name[i] by {
                if i > 0 {
                    assert(name[i] == digits[i - 1]);
                }
            }
        }
        assert(name.drop_first() =~= digits);
        assert(low[0] == 'f');
    } else {
        let low = text::lowered(name);
        assert(text::uppered(low) =~= name);
        assert(low.len() == 1);
    }
    text::lemma_first_at(name, '+');
    assert(text::split_at_marks(name, '+') =~= seq![name]);
    let parts = seq![name];
    assert(parts.drop_first() =~= Seq::<Seq<char>>::empty());
    assert(text::trimmed(name) == name);
    let low = text::lowered(name);
    assert(key_code(low) == Some(vk));
    assert(read_part(Reading { modifiers: m, vk: 0 }, name) == Some(Reading { modifiers: m, vk }));
    assert(read_parts(Reading { modifiers: m, vk }, parts.drop_first()) == Some(
        Reading { modifiers: m, vk },
    ));
}

proof fn lemma_flags_held(modifiers: u32)
    requires
        modifiers <= 15,
    ensures
        flags(held(modifiers)) == modifiers,
{
}

/// As `lemma_after_modifier`, for a modifier that may be there or not.
proof fn lemma_after_optional(so_far: Reading, there: bool, name: Seq<char>, rest: Seq<char>)
    requires
        name == "Win"@ || name == "Ctrl"@ || name == "Alt"@ || name == "Shift"@,
    ensures
        read_parts(
            so_far,
            text::split_at_marks(
                (if there {
                    name.push('+')
                } else {
                    Seq::empty()
                }) + rest,
                '+',
            ),
        ) == read_parts(
            Reading {
                modifiers: Modifiers {
                    win: so_far.modifiers.win || (there && name == "Win"@),
                    ctrl: so_far.modifiers.ctrl || (there && name == "Ctrl"@),
                    alt: so_far.modifiers.alt || (there && name == "Alt"@),
                    shift: so_far.modifiers.shift || (there && name == "Shift"@),
                },
                vk: so_far.vk,
            },
            text::split_at_marks(rest, '+'),
        ),
{
    if there {
        lemma_after_modifier(so_far, name, rest);
    } else {
        assert(Seq::<char>::empty() + rest =~= rest);
    }
}

proof fn lemma_capital_names_differ()
    ensures
        "Win"@ != "Ctrl"@,
        "Win"@ != "Alt"@,
        "Win"@ != "Shift"@,
        "Ctrl"@ != "Alt"@,
        "Ctrl"@ != "Shift"@,
        "Alt"@ != "Shift"@,
{
    reveal_strlit("Win");
    reveal_strlit("Ctrl");
    reveal_strlit("Alt");
    reveal_strlit("Shift");
    assert("Win"@[0] != "Alt"@[0]);
    assert("Ctrl"@.len() == 4 && "Shift"@.len() == 5);
}

/// A combination is read back from its own spelling. The settings window writes
/// what `text` produces and the save path reads it back through `parse_hotkey`,
/// so the two have to agree.
pub proof fn law_hotkey_round_trip(h: Hotkey)
    requires
        registrable(h.modifiers, h.vk),
        h.modifiers <= MOD_WIN + MOD_CONTROL + MOD_ALT + MOD_SHIFT,
    ensures
        parsed(spelling(h)) == Some(h),
{
    let m = held(h.modifiers);
    let none = no_modifiers();
    let key = key_text(h.vk);
    lemma_modifier_names();
    lemma_capital_names_differ();
    let t3 = (if m.shift {
        "Shift"@.push('+')
    } else {
        Seq::empty()
    }) + key;
    let t2 = (if m.alt {
        "Alt"@.push('+')
    } else {
        Seq::empty()
    }) + t3;
    let t1 = (if m.ctrl {
        "Ctrl"@.push('+')
    } else {
        Seq::empty()
    }) + t2;
    let t0 = (if m.win {
        "Win"@.push('+')
    } else {
        Seq::empty()
    }) + t1;
    assert(t0 == spelling(h));
    let r0 = Reading { modifiers: none, vk: 0 };
    let r1 = Reading { modifiers: Modifiers { win: m.win, ..none }, vk: 0 };
    let r2 = Reading { modifiers: Modifiers { win: m.win, ctrl: m.ctrl, ..none }, vk: 0 };
    let r3 = Reading { modifiers: Modifiers { shift: false, ..m }, vk: 0 };
    lemma_after_optional(r0, m.win, "Win"@, t1);
    lemma_after_optional(r1, m.ctrl, "Ctrl"@, t2);
    lemma_after_optional(r2, m.alt, "Alt"@, t3);
    lemma_after_optional(r3, m.shift, "Shift"@, key);
    lemma_key_read(m, h.vk);
    lemma_flags_held(h.modifiers);
}

/// A text that spells a combination is the canonical spelling of what it is read
/// as, or another spelling of the same: reading the canonical one changes
/// nothing any more.
pub proof fn law_spelling_settles(s: Seq<char>)
    requires
        parsed(s) is Some,
    ensures
        parsed(spelling(parsed(s)->0)) == parsed(s),
{
    law_hotkey_round_trip(parsed(s)->0);
}

/// The parts of a text as they are understood: without the white space around them
/// and in lower case.
pub open spec fn names_in(s: Seq<char>) -> Seq<Seq<char>> {
    understood(text::split_at_marks(s, '+'))
}

pub open spec fn understood(parts: Seq<Seq<char>>) -> Seq<Seq<char>> {
    Seq::new(parts.len(), |i: int| text::lowered(text::trimmed(parts[i])))
}

/// Reading a name after what was read so far, if anything could be.
spec fn reading_on() -> spec_fn(Seq<char>, Option<Reading>) -> Option<Reading> {
    |name: Seq<char>, so_far: Option<Reading>|
        match so_far {
            Some(reading) => read_name(reading, name),
            None => None,
        }
}

proof fn lemma_reading_commutes()
    ensures
        vstd::seq_lib::commutative_foldr(reading_on()),
{
    let f = reading_on();
    lemma_words_differ();
    assert forall|x: Seq<char>, y: Seq<char>, v: Option<Reading>| #[trigger] f(x, f(y, v)) == f(
        y,
        f(x, v),
    ) by {
        if let Some(reading) = v {
            lemma_key_is_no_zero(x);
            lemma_key_is_no_zero(y);
        }
    }
}

proof fn lemma_key_is_no_zero(name: Seq<char>)
    ensures
        key_code(name) != Some(0u32),
{
    let upper = text::uppered(name);
    if upper.len() == 1 && (('A' <= upper[0] && upper[0] <= 'Z') || ('0' <= upper[0] && upper[0]
        <= '9')) {
        assert(upper[0] as u32 >= 0x30);
    }
}

proof fn lemma_read_as_fold(so_far: Reading, parts: Seq<Seq<char>>)
    ensures
        read_parts(so_far, parts) == understood(parts).fold_right(reading_on(), Some(so_far)),
    decreases parts.len(),
{
    let f = reading_on();
    let names = understood(parts);
    if parts.len() > 0 {
        let rest = parts.drop_first();
        let tail = understood(rest);
        let next = read_part(so_far, parts[0]);
        lemma_reading_commutes();
        tail.lemma_fold_right_commute_one(names[0], f, Some(so_far));
        names.lemma_fold_right_alt(f, Some(so_far));
        tail.lemma_fold_right_alt(f, Some(so_far));
        assert(names.subrange(1, names.len() as int) =~= tail);
        assert(f(names[0], Some(so_far)) == next);
        assert(names.fold_right(f, Some(so_far)) == tail.fold_right(f, next));
        match next {
            Some(reading) => {
                lemma_read_as_fold(reading, rest);
            },
            None => {
                lemma_nothing_stays_nothing(tail);
            },
        }
    }
}

proof fn lemma_nothing_stays_nothing(names: Seq<Seq<char>>)
    ensures
        names.fold_right(reading_on(), None::<Reading>) == None::<Reading>,
    decreases names.len(),
{
    if names.len() > 0 {
        lemma_nothing_stays_nothing(names.drop_last());
    }
}

/// The order of the parts does not matter, nor does the case they are written in or
/// the white space around them: two texts with the same names in them are read as
/// the same combination.
pub proof fn law_same_names_same_hotkey(s: Seq<char>, t: Seq<char>)
    requires
        names_in(s).to_multiset() == names_in(t).to_multiset(),
    ensures
        parsed(s) == parsed(t),
{
    let start = Reading { modifiers: no_modifiers(), vk: 0 };
    lemma_read_as_fold(start, text::split_at_marks(s, '+'));
    lemma_read_as_fold(start, text::split_at_marks(t, '+'));
    lemma_reading_commutes();
    vstd::seq_lib::lemma_fold_right_permutation(names_in(s), names_in(t), reading_on(), Some(start));
}

/// A combination is read back from any text that has the names of its spelling in
/// it.
pub proof fn law_hotkey_is_read_in_any_order(h: Hotkey, s: Seq<char>)
    requires
        registrable(h.modifiers, h.vk),
        h.modifiers <= MOD_WIN + MOD_CONTROL + MOD_ALT + MOD_SHIFT,
        names_in(s).to_multiset() == names_in(spelling(h)).to_multiset(),
    ensures
        parsed(s) == Some(h),
{
    law_hotkey_round_trip(h);
    law_same_names_same_hotkey(s, spelling(h));
}

proof fn lemma_names_lowered(s: Seq<char>)
    ensures
        names_in(text::lowered(s)) == names_in(s),
    decreases s.len(),
{
    let low = text::lowered(s);
    text::lemma_first_at(s, '+');
    text::lemma_first_at(low, '+');
    let k = text::first_at(s, '+');
    let j = text::first_at(low, '+');
    assert forall|i: int| 0 <= i < s.len() implies ((low[i] == '+') <==> (s[i] == '+')) by {}
    assert(j == k) by {
        if j < k {
            assert(low[j] == '+');
        } else if k < j {
            assert(s[k] == '+');
        }
    }
    if k < s.len() {
        let piece = s.take(k);
        let rest = s.skip(k + 1);
        assert(low.take(k) =~= text::lowered(piece));
        assert(low.skip(k + 1) =~= text::lowered(rest));
        text::lemma_trimmed_lowered(piece);
        text::lemma_lowered_twice(text::trimmed(piece));
        lemma_names_lowered(rest);
        let name = text::lowered(text::trimmed(piece));
        assert(text::split_at_marks(s, '+') =~= seq![piece] + text::split_at_marks(rest, '+'));
        assert(text::split_at_marks(low, '+') =~= seq![text::lowered(piece)]
            + text::split_at_marks(text::lowered(rest), '+'));
        assert(names_in(s) =~= seq![name] + names_in(rest));
        assert(names_in(low) =~= seq![name] + names_in(text::lowered(rest)));
    } else {
        text::lemma_trimmed_lowered(s);
        text::lemma_lowered_twice(text::trimmed(s));
        assert(text::split_at_marks(s, '+') =~= seq![s]);
        assert(text::split_at_marks(low, '+') =~= seq![low]);
        assert(names_in(low) =~= names_in(s));
    }
}

/// Two texts that differ in nothing but case are read as the same combination.
pub proof fn law_case_does_not_matter(s: Seq<char>, t: Seq<char>)
    requires
        text::lowered(s) == text::lowered(t),
    ensures
        names_in(s) == names_in(t),
        parsed(s) == parsed(t),
{
    lemma_names_lowered(s);
    lemma_names_lowered(t);
    law_same_names_same_hotkey(s, t);
}

proof fn lemma_names_joined(a: Seq<char>, b: Seq<char>)
    ensures
        names_in(a.push('+') + b) == names_in(a) + names_in(b),
    decreases a.len(),
{
    let s = a.push('+') + b;
    text::lemma_first_at(a, '+');
    let k = text::first_at(a, '+');
    if k < a.len() {
        let piece = a.take(k);
        let rest = a.skip(k + 1);
        assert(!piece.contains('+'));
        assert(s =~= piece.push('+') + (rest.push('+') + b));
        assert(a =~= piece.push('+') + rest);
        lemma_split_piece(piece, rest.push('+') + b, '+');
        lemma_split_piece(piece, rest, '+');
        lemma_names_joined(rest, b);
        let name = text::lowered(text::trimmed(piece));
        assert(names_in(s) =~= seq![name] + names_in(rest.push('+') + b));
        assert(names_in(a) =~= seq![name] + names_in(rest));
        assert(names_in(s) =~= names_in(a) + names_in(b));
    } else {
        assert(!a.contains('+'));
        lemma_split_piece(a, b, '+');
        assert(text::split_at_marks(a, '+') =~= seq![a]);
        assert(names_in(s) =~= names_in(a) + names_in(b));
    }
}

/// Two texts joined into one combination are read the same either way round.
pub proof fn law_order_does_not_matter(a: Seq<char>, b: Seq<char>)
    ensures
        names_in(a.push('+') + b) == names_in(a) + names_in(b),
        parsed(a.push('+') + b) == parsed(b.push('+') + a),
{
    lemma_names_joined(a, b);
    lemma_names_joined(b, a);
    vstd::seq_lib::lemma_multiset_commutative(names_in(a), names_in(b));
    vstd::seq_lib::lemma_multiset_commutative(names_in(b), names_in(a));
    assert((names_in(a) + names_in(b)).to_multiset() =~= (names_in(b) + names_in(
        a,
    )).to_multiset());
    law_same_names_same_hotkey(a.push('+') + b, b.push('+') + a);
}

/// White space around a part, wherever in the text it stands, is not read.
pub proof fn law_spaces_do_not_matter(
    before: Seq<char>,
    left: Seq<char>,
    part: Seq<char>,
    right: Seq<char>,
    after: Seq<char>,
)
    requires
        !part.contains('+'),
        forall|i: int| 0 <= i < left.len() ==> text::is_white(#[trigger] left[i]),
        forall|i: int| 0 <= i < right.len() ==> text::is_white(#[trigger] right[i]),
    ensures
        names_in(left + part + right) == names_in(part),
        parsed(left + part + right) == parsed(part),
        parsed(before.push('+') + (left + part + right)) == parsed(before.push('+') + part),
        parsed((left + part + right).push('+') + after) == parsed(part.push('+') + after),
        parsed(before.push('+') + ((left + part + right).push('+') + after)) == parsed(
            before.push('+') + (part.push('+') + after),
        ),
{
    let padded = left + part + right;
    assert forall|i: int| 0 <= i < padded.len() implies padded[i] != '+' by {
        if i < left.len() {
            assert(padded[i] == left[i]);
        } else if i < left.len() + part.len() {
            assert(padded[i] == part[i - left.len()]);
            assert(part.contains(part[i - left.len()]));
        } else {
            assert(padded[i] == right[i - left.len() - part.len()]);
        }
    }
    text::lemma_first_at(padded, '+');
    text::lemma_first_at(part, '+');
    assert(text::first_at(part, '+') == part.len()) by {
        let k = text::first_at(part, '+');
        if k < part.len() {
            assert(part.contains(part[k]));
        }
    }
    text::lemma_trimmed_padding(left, part, right);
    assert(names_in(padded) =~= names_in(part));
    lemma_names_joined(before, padded);
    lemma_names_joined(before, part);
    lemma_names_joined(padded, after);
    lemma_names_joined(part, after);
    lemma_names_joined(before, padded.push('+') + after);
    lemma_names_joined(before, part.push('+') + after);
    law_same_names_same_hotkey(padded, part);
    law_same_names_same_hotkey(before.push('+') + padded, before.push('+') + part);
    law_same_names_same_hotkey(padded.push('+') + after, part.push('+') + after);
    law_same_names_same_hotkey(
        before.push('+') + (padded.push('+') + after),
        before.push('+') + (part.push('+') + after),
    );
}

/// A spelling has no white space around it.
pub proof fn lemma_spelling_is_trimmed(h: Hotkey)
    requires
        key_spelling(h.vk) is Some,
    ensures
        text::trimmed(spelling(h)) == spelling(h),
        spelling(h).len() > 0,
{
    let m = held(h.modifiers);
    let key = key_text(h.vk);
    if is_function_key(h.vk) {
        text::lemma_decimal_value((h.vk - 0x6F) as nat);
        assert(key.last() == text::decimal((h.vk - 0x6F) as nat).last());
        assert(key[0] == 'F');
    } else {
        assert(key[0] == h.vk as char);
        assert('0' <= key[0] && key[0] <= 'Z');
    }
    assert(key.len() > 0 && !text::is_white(key[0]) && !text::is_white(key.last()));
    let s = spelling(h);
    assert(s.last() == key.last());
    reveal_strlit("Win+");
    reveal_strlit("Ctrl+");
    reveal_strlit("Alt+");
    reveal_strlit("Shift+");
    assert(!text::is_white(s[0])) by {
        if m.win {
            assert(s[0] == "Win+"@[0]);
        } else if m.ctrl {
            assert(s[0] == "Ctrl+"@[0]);
        } else if m.alt {
            assert(s[0] == "Alt+"@[0]);
        } else if m.shift {
            assert(s[0] == "Shift+"@[0]);
        } else {
            assert(s[0] == key[0]);
        }
    }
    text::lemma_trimmed_whole(s);
}

/// A letter or a digit, in either case, is the key with the code of its upper case
/// character; `F1` to `F24` are the 24 codes from 112 on; no other single character is
/// a key, and no other number behind an `F`.
pub proof fn law_key_names(c: char, n: nat)
    ensures
        ({
            let code = c as int;
            &&& 65 <= code <= 90 || 48 <= code <= 57 ==> key_code(seq![c]) == Some(c as u32)
            &&& 97 <= code <= 122 ==> key_code(seq![c]) == Some((code - 32) as u32)
            &&& !(65 <= code <= 90 || 48 <= code <= 57 || 97 <= code <= 122) ==> key_code(
                seq![c],
            ) is None
        }),
        1 <= n <= 24 ==> key_code(seq!['F'] + text::decimal(n)) == Some((111 + n) as u32),
        !(1 <= n <= 24) ==> key_code(seq!['F'] + text::decimal(n)) is None,
{
    let one = seq![c];
    text::law_case(one, 0);
    let name = seq!['F'] + text::decimal(n);
    let digits = text::decimal(n);
    text::law_decimal_spells_the_number(n);
    assert(text::uppered(name) =~= name) by {
        assert forall|i: int| 0 <= i < name.len() implies text::uppered(name)[i] == name[i] by {
            text::law_case(name, i);
            if i > 0 {
                assert(name[i] == digits[i - 1]);
            }
        }
    }
    assert(name.drop_first() =~= digits);
    assert(digits.len() > 0) by {
        reveal_with_fuel(text::decimal, 2);
    }
    assert(digits[0] != '+');
    text::law_typed_number(digits, u32::MAX as nat);
}

/// A combination needs a modifier unless its key is a function key, and its key has to
/// be a letter, a digit or a function key.
pub proof fn law_what_can_be_registered(modifiers: u32, vk: u32)
    ensures
        65 <= vk <= 90 || 48 <= vk <= 57 ==> registrable(modifiers, vk) == (modifiers != 0),
        112 <= vk <= 135 ==> registrable(modifiers, vk),
        !(65 <= vk <= 90 || 48 <= vk <= 57 || 112 <= vk <= 135) ==> !registrable(modifiers, vk),
{
}

/// Alt counts 1, Ctrl 2, Shift 4 and Win 8.
pub proof fn law_modifiers_count(m: Modifiers)
    ensures
        ({
            let bit = |held: bool|
                if held {
                    1int
                } else {
                    0
                };
            flags(m) == bit(m.alt) + 2 * bit(m.ctrl) + 4 * bit(m.shift) + 8 * bit(m.win)
        }),
        held(flags(m)) == m,
{
}

/// A combination is spelled with Win in front of it, then Ctrl, then Alt, then Shift,
/// then the key.
pub proof fn law_spelling_in_order(m: Modifiers, vk: u32)
    ensures
        ({
            let spelled = |m: Modifiers| spelling(Hotkey { modifiers: flags(m), vk });
            &&& m.win ==> spelled(m) == "Win+"@ + spelled(Modifiers { win: false, ..m })
            &&& !m.win && m.ctrl ==> spelled(m) == "Ctrl+"@ + spelled(
                Modifiers { ctrl: false, ..m },
            )
            &&& !m.win && !m.ctrl && m.alt ==> spelled(m) == "Alt+"@ + spelled(
                Modifiers { alt: false, ..m },
            )
            &&& !m.win && !m.ctrl && !m.alt && m.shift ==> spelled(m) == "Shift+"@ + spelled(
                no_modifiers(),
            )
            &&& 65 <= vk <= 90 || 48 <= vk <= 57 ==> spelled(no_modifiers()) == seq![vk as char]
            &&& 112 <= vk <= 135 ==> spelled(no_modifiers()) == seq!['F'] + text::decimal(
                (vk - 111) as nat,
            )
        }),
{
    law_modifiers_count(m);
    law_modifiers_count(Modifiers { win: false, ..m });
    law_modifiers_count(Modifiers { ctrl: false, ..m });
    law_modifiers_count(Modifiers { alt: false, ..m });
    law_modifiers_count(no_modifiers());
    let spelled = |m: Modifiers| spelling(Hotkey { modifiers: flags(m), vk });
    if m.win {
        assert(spelled(m) =~= "Win+"@ + spelled(Modifiers { win: false, ..m }));
    } else if m.ctrl {
        assert(spelled(m) =~= "Ctrl+"@ + spelled(Modifiers { ctrl: false, ..m }));
    } else if m.alt {
        assert(spelled(m) =~= "Alt+"@ + spelled(Modifiers { alt: false, ..m }));
    } else if m.shift {
        assert(spelled(m) =~= "Shift+"@ + spelled(no_modifiers()));
    }
    assert(spelled(no_modifiers()) =~= key_text(vk));
}

/// Each name of a modifier holds that modifier down and changes nothing else; an empty
/// part changes nothing; and a second key ends the reading.
pub proof fn law_parts_are_read(so_far: Reading, name: Seq<char>)
    ensures
        name == "win"@ || name == "windows"@ || name == "super"@ ==> read_name(so_far, name)
            == Some(
            Reading { modifiers: Modifiers { win: true, ..so_far.modifiers }, vk: so_far.vk },
        ),
        name == "ctrl"@ || name == "control"@ ==> read_name(so_far, name) == Some(
            Reading { modifiers: Modifiers { ctrl: true, ..so_far.modifiers }, vk: so_far.vk },
        ),
        name == "alt"@ ==> read_name(so_far, name) == Some(
            Reading { modifiers: Modifiers { alt: true, ..so_far.modifiers }, vk: so_far.vk },
        ),
        name == "shift"@ ==> read_name(so_far, name) == Some(
            Reading { modifiers: Modifiers { shift: true, ..so_far.modifiers }, vk: so_far.vk },
        ),
        name.len() == 0 ==> read_name(so_far, name) == Some(so_far),
        key_code(name) is Some ==> read_name(so_far, name) == (if so_far.vk == 0 {
            Some(Reading { modifiers: so_far.modifiers, vk: key_code(name)->0 })
        } else {
            None
        }),
{
    reveal_strlit("win");
    reveal_strlit("windows");
    reveal_strlit("super");
    reveal_strlit("ctrl");
    reveal_strlit("control");
    reveal_strlit("alt");
    reveal_strlit("shift");
    assert("win"@.len() == 3 && "win"@[0] == 'w');
    assert("windows"@.len() == 7 && "windows"@[0] == 'w');
    assert("super"@.len() == 5 && "super"@[0] == 's' && "super"@[1] == 'u');
    assert("ctrl"@.len() == 4 && "ctrl"@[0] == 'c');
    assert("control"@.len() == 7 && "control"@[0] == 'c');
    assert("alt"@.len() == 3 && "alt"@[0] == 'a');
    assert("shift"@.len() == 5 && "shift"@[0] == 's' && "shift"@[1] == 'h');
    if key_code(name) is Some && name.len() > 1 {
        text::law_case(name, 0);
        assert(text::uppered(name)[0] == 'F');
        assert(name[0] == 'F' || name[0] == 'f');
    }
}

/// Whatever a text spells has no flags but those of its modifiers.
pub proof fn law_modifiers_of_a_text(s: Seq<char>)
    ensures
        parsed(s) matches Some(h) ==> h.modifiers < 16 && registrable(h.modifiers, h.vk),
{
}

} // verus!
