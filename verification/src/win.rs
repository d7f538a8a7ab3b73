//! Plain values in the shapes Windows hands them over in, and what is computed
//! from them.

use vstd::prelude::*;

pub use crate::utf16::wide;
use crate::text;

verus! {

#[derive(Clone, Copy, Debug, PartialEq, Eq, Structural)]
pub struct POINT {
    pub x: i32,
    pub y: i32,
}

#[derive(Clone, Copy, Debug, PartialEq, Eq, Structural)]
pub struct RECT {
    pub left: i32,
    pub top: i32,
    pub right: i32,
    pub bottom: i32,
}

/// A wall-clock time. All zero when a time could not be converted.
#[derive(Clone, Copy, Debug, PartialEq, Eq, Structural)]
pub struct SYSTEMTIME {
    pub year: u16,
    pub month: u16,
    pub day_of_week: u16,
    pub day: u16,
    pub hour: u16,
    pub minute: u16,
    pub second: u16,
    pub milliseconds: u16,
}

#[derive(Clone, Copy, Debug, PartialEq, Eq, Structural)]
pub struct FILETIME {
    pub dw_low_date_time: u32,
    pub dw_high_date_time: u32,
}

impl Default for POINT {
    fn default() -> (r: POINT)
        ensures
            r == (POINT { x: 0, y: 0 }),
    {
        POINT { x: 0, y: 0 }
    }
}

impl Default for RECT {
    fn default() -> (r: RECT)
        ensures
            r == (RECT { left: 0, top: 0, right: 0, bottom: 0 }),
    {
        RECT { left: 0, top: 0, right: 0, bottom: 0 }
    }
}

pub open spec fn zero_time() -> SYSTEMTIME {
    SYSTEMTIME {
        year: 0,
        month: 0,
        day_of_week: 0,
        day: 0,
        hour: 0,
        minute: 0,
        second: 0,
        milliseconds: 0,
    }
}

impl Default for SYSTEMTIME {
    fn default() -> (r: SYSTEMTIME)
        ensures
            r == zero_time(),
    {
        SYSTEMTIME {
            year: 0,
            month: 0,
            day_of_week: 0,
            day: 0,
            hour: 0,
            minute: 0,
            second: 0,
            milliseconds: 0,
        }
    }
}

// ------------------------------------------------------------------------- time

/// Milliseconds from the year 1601 to the year 1970.
pub const EPOCH_DIFFERENCE_MS: i64 = 11_644_473_600_000;

/// The 100-nanosecond ticks since 1601 at `ms` milliseconds since 1970; a time
/// before 1601 counts as 1601.
pub open spec fn file_time_ticks(ms: i64) -> int {
    if ms < -EPOCH_DIFFERENCE_MS {
        0
    } else {
        (ms + EPOCH_DIFFERENCE_MS) * 10_000
    }
}

/// Unix milliseconds to the 100-nanosecond ticks-since-1601 that FILETIME uses.
pub fn unix_ms_to_file_time(ms: i64) -> (r: FILETIME)
    requires
        file_time_ticks(ms) <= u64::MAX,
    ensures
        r.dw_high_date_time * 0x1_0000_0000 + r.dw_low_date_time == file_time_ticks(ms),
{
    let since_1601: i64 = if ms < -EPOCH_DIFFERENCE_MS {
        0
    } else {
        ms + EPOCH_DIFFERENCE_MS
    };
    let ticks: u64 = since_1601 as u64 * 10_000;
    let low: u32 = (ticks % 0x1_0000_0000) as u32;
    let high: u32 = (ticks / 0x1_0000_0000) as u32;
    FILETIME { dw_low_date_time: low, dw_high_date_time: high }
}

/// Year and month of a local wall-clock time; the start of 1970 when there is
/// none.
pub open spec fn year_month(local: SYSTEMTIME) -> (u16, u16) {
    if local.year == 0 {
        (1970, 1)
    } else {
        (local.year, local.month)
    }
}

pub fn local_year_month(local: &SYSTEMTIME) -> (r: (u16, u16))
    ensures
        r == year_month(*local),
{
    if local.year == 0 {
        (1970, 1)
    } else {
        (local.year, local.month)
    }
}

pub open spec fn two(n: u16) -> Seq<char> {
    text::zero_padded(text::decimal(n as nat), 2)
}

pub open spec fn four(n: u16) -> Seq<char> {
    text::zero_padded(text::decimal(n as nat), 4)
}

/// `MM-dd HH:mm`.
pub open spec fn short_time(t: SYSTEMTIME) -> Seq<char> {
    two(t.month) + seq!['-'] + two(t.day) + seq![' '] + two(t.hour) + seq![':'] + two(t.minute)
}

/// `yyyy-MM-dd HH:mm`.
pub open spec fn long_time(t: SYSTEMTIME) -> Seq<char> {
    four(t.year) + seq!['-'] + short_time(t)
}

/// Appends `MM-dd HH:mm`.
pub fn push_short_time(out: &mut String, t: &SYSTEMTIME)
    ensures
        final(out)@ == old(out)@ + short_time(*t),
{
    text::push_padded(out, t.month as u64, 2);
    out.push('-');
    text::push_padded(out, t.day as u64, 2);
    out.push(' ');
    text::push_padded(out, t.hour as u64, 2);
    out.push(':');
    text::push_padded(out, t.minute as u64, 2);
    assert(out@ =~= old(out)@ + short_time(*t));
}

/// Appends `yyyy-MM-dd HH:mm`.
pub fn push_long_time(out: &mut String, t: &SYSTEMTIME)
    ensures
        final(out)@ == old(out)@ + long_time(*t),
{
    text::push_padded(out, t.year as u64, 4);
    out.push('-');
    push_short_time(out, t);
    assert(out@ =~= old(out)@ + long_time(*t));
}

/// A wall-clock time as the log writes it, to the millisecond.
pub open spec fn timestamp(t: SYSTEMTIME) -> Seq<char> {
    four(t.year) + "-"@ + two(t.month) + "-"@ + two(t.day) + " "@ + two(t.hour) + ":"@ + two(
        t.minute,
    ) + ":"@ + two(t.second) + "."@ + text::zero_padded(text::decimal(t.milliseconds as nat), 3)
}

pub fn local_timestamp(t: &SYSTEMTIME) -> (out: String)
    ensures
        out@ == timestamp(*t),
{
    let mut out = String::new();
    text::push_padded(&mut out, t.year as u64, 4);
    out.append("-");
    text::push_padded(&mut out, t.month as u64, 2);
    out.append("-");
    text::push_padded(&mut out, t.day as u64, 2);
    out.append(" ");
    text::push_padded(&mut out, t.hour as u64, 2);
    out.append(":");
    text::push_padded(&mut out, t.minute as u64, 2);
    out.append(":");
    text::push_padded(&mut out, t.second as u64, 2);
    out.append(".");
    text::push_padded(&mut out, t.milliseconds as u64, 3);
    assert(out@ =~= timestamp(*t));
    out
}

// ------------------------------------------------------------------------- keys

pub const VK_CONTROL: u16 = 0x11;

pub const VK_V: u16 = 0x56;

pub const KEYEVENTF_KEYUP: u32 = 0x0002;

/// One key going down or up.
#[derive(Clone, Copy, Debug, PartialEq, Eq, Structural)]
pub struct KEYBDINPUT {
    pub w_vk: u16,
    pub w_scan: u16,
    pub dw_flags: u32,
    pub time: u32,
    pub dw_extra_info: usize,
}

pub open spec fn stroke(vk: u16, up: bool) -> KEYBDINPUT {
    KEYBDINPUT {
        w_vk: vk,
        w_scan: 0,
        dw_flags: if up {
            KEYEVENTF_KEYUP
        } else {
            0
        },
        time: 0,
        dw_extra_info: 0,
    }
}

pub fn key_stroke(vk: u16, up: bool) -> (r: KEYBDINPUT)
    ensures
        r == stroke(vk, up),
{
    KEYBDINPUT {
        w_vk: vk,
        w_scan: 0,
        dw_flags: if up {
            KEYEVENTF_KEYUP
        } else {
            0
        },
        time: 0,
        dw_extra_info: 0,
    }
}

/// The strokes of Ctrl+V: both keys down, then both up again in the other order, so
/// that no key is left held.
pub fn ctrl_v() -> (r: Vec<KEYBDINPUT>)
    ensures
        r@ == seq![
            stroke(VK_CONTROL, false),
            stroke(VK_V, false),
            stroke(VK_V, true),
            stroke(VK_CONTROL, true),
        ],
{
    let mut r: Vec<KEYBDINPUT> = Vec::new();
    r.push(key_stroke(VK_CONTROL, false));
    r.push(key_stroke(VK_V, false));
    r.push(key_stroke(VK_V, true));
    r.push(key_stroke(VK_CONTROL, true));
    assert(r@ =~= seq![
        stroke(VK_CONTROL, false),
        stroke(VK_V, false),
        stroke(VK_V, true),
        stroke(VK_CONTROL, true),
    ]);
    r
}

// --------------------------------------------------------------- message words

/// The low 16 bits of a message parameter.
pub open spec fn low_word(word: usize) -> int {
    word as int % 0x1_0000
}

/// The 16 bits above those.
pub open spec fn high_word(word: usize) -> int {
    word as int / 0x1_0000 % 0x1_0000
}

/// Sixteen bits read as a signed number.
pub open spec fn signed_word(word: int) -> int {
    if word < 0x8000 {
        word
    } else {
        word - 0x1_0000
    }
}

/// Two unsigned numbers packed into one parameter: the sizes a window is told.
pub fn packed_size(word: usize) -> (r: (i32, i32))
    ensures
        r.0 == low_word(word),
        r.1 == high_word(word),
        0 <= r.0 < 0x1_0000,
        0 <= r.1 < 0x1_0000,
{
    ((word % 0x1_0000) as i32, (word / 0x1_0000 % 0x1_0000) as i32)
}

/// Two signed numbers packed into one parameter: a position, which is left of or
/// above the first monitor when it is negative.
pub open spec fn point_in(word: usize) -> POINT {
    POINT {
        x: signed_word(low_word(word)) as i32,
        y: signed_word(high_word(word)) as i32,
    }
}

pub fn packed_point(word: usize) -> (r: POINT)
    ensures
        r == point_in(word),
        r.x == signed_word(low_word(word)),
        r.y == signed_word(high_word(word)),
{
    let (x, y) = packed_size(word);
    POINT {
        x: if x < 0x8000 {
            x
        } else {
            x - 0x1_0000
        },
        y: if y < 0x8000 {
            y
        } else {
            y - 0x1_0000
        },
    }
}

/// Two 16-bit numbers as one parameter.
pub open spec fn packed(low: int, high: int) -> int {
    low + high * 0x1_0000
}

pub fn pack(low: usize, high: usize) -> (word: usize)
    requires
        low < 0x1_0000,
        high < 0x1_0000,
    ensures
        word == packed(low as int, high as int),
{
    low + high * 0x1_0000
}

/// What was packed is what comes out again, in the same order.
pub proof fn law_words_round_trip(low: usize, high: usize, word: usize)
    requires
        low < 0x1_0000,
        high < 0x1_0000,
        word == packed(low as int, high as int),
    ensures
        low_word(word) == low,
        high_word(word) == high,
{
}

// -------------------------------------------------------------------- the laws

proof fn lemma_digits(n: nat, width: nat)
    requires
        1 <= width <= 4,
        n < 10_000,
        width == 1 ==> n < 10,
        width == 2 ==> n < 100,
        width == 3 ==> n < 1000,
    ensures
        text::zero_padded(text::decimal(n), width).len() == width,
        text::read_decimal(text::zero_padded(text::decimal(n), width)) == n,
{
    text::law_decimal_spells_the_number(n);
    reveal_with_fuel(text::decimal, 5);
    assert(text::decimal(n).len() <= width);
    text::law_zero_padded(text::decimal(n), width);
}

/// A time is written as `yyyy-MM-dd HH:mm`, with each number where its name says, and
/// the short form leaves out the year.
pub proof fn law_time_is_written_in_order(t: SYSTEMTIME)
    requires
        t.year < 10_000,
        t.month < 100,
        t.day < 100,
        t.hour < 100,
        t.minute < 100,
    ensures
        ({
            let s = long_time(t);
            &&& s.len() == 16
            &&& text::read_decimal(s.subrange(0, 4)) == t.year
            &&& s[4] == '-'
            &&& text::read_decimal(s.subrange(5, 7)) == t.month
            &&& s[7] == '-'
            &&& text::read_decimal(s.subrange(8, 10)) == t.day
            &&& s[10] == ' '
            &&& text::read_decimal(s.subrange(11, 13)) == t.hour
            &&& s[13] == ':'
            &&& text::read_decimal(s.subrange(14, 16)) == t.minute
            &&& short_time(t) == s.skip(5)
        }),
{
    lemma_digits(t.year as nat, 4);
    lemma_digits(t.month as nat, 2);
    lemma_digits(t.day as nat, 2);
    lemma_digits(t.hour as nat, 2);
    lemma_digits(t.minute as nat, 2);
    let s = long_time(t);
    assert(s.subrange(0, 4) =~= four(t.year));
    assert(s.subrange(5, 7) =~= two(t.month));
    assert(s.subrange(8, 10) =~= two(t.day));
    assert(s.subrange(11, 13) =~= two(t.hour));
    assert(s.subrange(14, 16) =~= two(t.minute));
    assert(s.skip(5) =~= short_time(t));
}

/// The log's times go on to the second and the millisecond.
pub proof fn law_timestamp(t: SYSTEMTIME)
    requires
        t.year < 10_000,
        t.month < 100,
        t.day < 100,
        t.hour < 100,
        t.minute < 100,
        t.second < 100,
        t.milliseconds < 1000,
    ensures
        ({
            let s = timestamp(t);
            &&& s.len() == 23
            &&& s.take(16) == long_time(t)
            &&& s[16] == ':'
            &&& text::read_decimal(s.subrange(17, 19)) == t.second
            &&& s[19] == '.'
            &&& text::read_decimal(s.subrange(20, 23)) == t.milliseconds
        }),
{
    lemma_digits(t.year as nat, 4);
    lemma_digits(t.month as nat, 2);
    lemma_digits(t.day as nat, 2);
    lemma_digits(t.hour as nat, 2);
    lemma_digits(t.minute as nat, 2);
    lemma_digits(t.second as nat, 2);
    lemma_digits(t.milliseconds as nat, 3);
    reveal_strlit("-");
    reveal_strlit(" ");
    reveal_strlit(":");
    reveal_strlit(".");
    let s = timestamp(t);
    assert(s.take(16) =~= long_time(t));
    assert(s.subrange(17, 19) =~= two(t.second));
    assert(s.subrange(20, 23) =~= text::zero_padded(text::decimal(t.milliseconds as nat), 3));
}

/// A millisecond is ten thousand ticks, the year 1970 begins 11 644 473 600 seconds
/// after the year 1601, and no time is before that.
pub proof fn law_file_time(ms: i64)
    ensures
        file_time_ticks(0) == 116_444_736_000_000_000,
        0 <= ms < i64::MAX ==> file_time_ticks((ms + 1) as i64) == file_time_ticks(ms) + 10_000,
        file_time_ticks(ms) >= 0,
        ms >= -11_644_473_600_000 ==> file_time_ticks(ms) - file_time_ticks(0) == ms * 10_000,
        ms < -11_644_473_600_000 ==> file_time_ticks(ms) == 0,
{
}

/// Sixteen bits are the number they spell below 32768 and negative from there on, and
/// a position is the low word across and the high word down.
pub proof fn law_position_in_a_parameter(x: i16, y: i16, word: usize)
    requires
        word == (if x >= 0 {
            x as int
        } else {
            x + 0x1_0000
        }) + 0x1_0000 * (if y >= 0 {
            y as int
        } else {
            y + 0x1_0000
        }),
    ensures
        point_in(word).x == x,
        point_in(word).y == y,
{
}

/// A key that is let go carries the flag for it, one that is pressed carries none.
pub proof fn law_stroke(vk: u16, up: bool)
    ensures
        stroke(vk, up).w_vk == vk,
        stroke(vk, false).dw_flags == 0,
        stroke(vk, true).dw_flags == 2,
{
}

/// The year and the month of a clock that tells none are those 1970 begins with.
pub proof fn law_year_and_month(t: SYSTEMTIME)
    ensures
        t.year > 0 ==> year_month(t) == (t.year, t.month),
        t.year == 0 ==> year_month(t) == (1970u16, 1u16),
{
}

} // verus!
