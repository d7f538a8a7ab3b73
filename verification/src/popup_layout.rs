//! Where everything in the popup goes.
//!
//! The window reads bottom-up: the newest clip is the row just above the search
//! box, and older clips stack up from there. Every measure is in physical pixels
//! by the time it gets here; `base_metrics` has them as logical pixels at 96 DPI,
//! and scaling them is the display's business.

use vstd::prelude::*;

use crate::win::{POINT, RECT};

verus! {

pub const WIDTH: i32 = 620;

/// Chosen so that the list holds exactly eight whole rows.
pub const HEIGHT: i32 = 458;

/// Smallest the window can be dragged down to: three rows of list, the instance
/// strip and the search box.
pub const MIN_WIDTH: i32 = 420;

pub const MIN_HEIGHT: i32 = 228;

/// No measure is larger than this. Display coordinates have 16 bits, and this
/// leaves room for any scale.
pub const LIMIT: i32 = 0x10_0000;

#[derive(Clone, Copy, Debug, PartialEq, Eq, Structural)]
pub struct PopupMetrics {
    pub pad: i32,
    pub search_height: i32,
    /// From the bottom edge up to the top of the search box.
    pub search_from_bottom: i32,
    pub tab_height: i32,
    pub tab_width: i32,
    pub tab_gap: i32,
    /// From the bottom edge up to the top of the instance strip.
    pub tab_from_bottom: i32,
    /// Everything below the list.
    pub bottom_bands: i32,
    pub row_height: i32,
    pub line1_top: i32,
    pub line1_height: i32,
    pub line2_top: i32,
    pub line2_height: i32,
    /// From the edge of a row to its text.
    pub inset: i32,
    /// From the star of a pinned row to its text.
    pub gap: i32,
    pub star_width: i32,
    /// How thick the invisible resize edge is. It comes out of the padding
    /// around the controls, so it stays smaller than `pad`.
    pub grip: i32,
    pub grip_arm: i32,
    /// From the edge of the window to the resize mark, and its thickness.
    pub grip_inset: i32,
    pub help_size: i32,
    pub help_gap: i32,
}

pub open spec fn in_limit(n: i32) -> bool {
    0 <= n <= LIMIT
}

pub open spec fn usable(m: PopupMetrics) -> bool {
    &&& in_limit(m.pad)
    &&& in_limit(m.search_height)
    &&& in_limit(m.search_from_bottom)
    &&& in_limit(m.tab_height)
    &&& in_limit(m.tab_width)
    &&& in_limit(m.tab_gap)
    &&& in_limit(m.tab_from_bottom)
    &&& in_limit(m.bottom_bands)
    &&& in_limit(m.row_height)
    &&& in_limit(m.line1_top)
    &&& in_limit(m.line1_height)
    &&& in_limit(m.line2_top)
    &&& in_limit(m.line2_height)
    &&& in_limit(m.inset)
    &&& in_limit(m.gap)
    &&& in_limit(m.star_width)
    &&& in_limit(m.grip)
    &&& in_limit(m.grip_arm)
    &&& in_limit(m.grip_inset)
    &&& in_limit(m.help_size)
    &&& in_limit(m.help_gap)
}

pub open spec fn base() -> PopupMetrics {
    PopupMetrics {
        pad: 10,
        search_height: 30,
        search_from_bottom: 40,
        tab_height: 26,
        tab_width: 96,
        tab_gap: 6,
        tab_from_bottom: 72,
        bottom_bands: 80,
        row_height: 46,
        line1_top: 4,
        line1_height: 22,
        line2_top: 26,
        line2_height: 17,
        inset: 10,
        gap: 20,
        star_width: 18,
        grip: 5,
        grip_arm: 8,
        grip_inset: 2,
        help_size: 30,
        help_gap: 6,
    }
}

/// The measures at 96 DPI. The list holds eight whole rows at the size it opens
/// with and three at the smallest, the two lines of a row do not collide and stay
/// inside it, the star stays clear of the text, and the resize edge and its mark
/// stay inside the padding.
pub fn base_metrics() -> (m: PopupMetrics)
    ensures
        m == base(),
        usable(m),
        HEIGHT - m.bottom_bands - m.pad == 8 * m.row_height,
        MIN_HEIGHT - m.bottom_bands - m.pad == 3 * m.row_height,
        m.line1_top + m.line1_height <= m.line2_top,
        m.line2_top + m.line2_height <= m.row_height,
        m.star_width <= m.gap,
        m.grip < m.pad,
        m.grip_inset + m.grip_arm <= m.pad,
{
    PopupMetrics {
        pad: 10,
        search_height: 30,
        search_from_bottom: 40,
        tab_height: 26,
        tab_width: 96,
        tab_gap: 6,
        tab_from_bottom: 72,
        bottom_bands: 80,
        row_height: 46,
        line1_top: 4,
        line1_height: 22,
        line2_top: 26,
        line2_height: 17,
        inset: 10,
        gap: 20,
        star_width: 18,
        grip: 5,
        grip_arm: 8,
        grip_inset: 2,
        help_size: 30,
        help_gap: 6,
    }
}

pub open spec fn min(a: int, b: int) -> int {
    if a <= b {
        a
    } else {
        b
    }
}

pub open spec fn max(a: int, b: int) -> int {
    if a >= b {
        a
    } else {
        b
    }
}

// -------------------------------------------------------------------- placement

/// `value`, moved into `low..=high`. Where the bounds cross, `low`.
pub open spec fn held_in(value: int, low: int, high: int) -> int {
    if value <= low || high <= low {
        low
    } else if value >= high {
        high
    } else {
        value
    }
}

fn hold_in(value: i64, low: i64, high: i64) -> (r: i64)
    ensures
        r == held_in(value as int, low as int, high as int),
{
    if value <= low || high <= low {
        low
    } else if value >= high {
        high
    } else {
        value
    }
}

/// Where a window of one extent goes along one axis of the work area: where it
/// was left, or centred; pulled back in when that is off the screen by now.
pub open spec fn placed_along(remembered: Option<i32>, from: i32, to: i32, extent: i32) -> int {
    let wanted = match remembered {
        Some(at) => at as int,
        None => from + (to - from - extent) / 2,
    };
    held_in(wanted, from as int, to - extent)
}

fn place_along(remembered: Option<i32>, from: i32, to: i32, extent: i32) -> (r: i32)
    requires
        to - extent <= i32::MAX,
    ensures
        r == placed_along(remembered, from, to, extent),
{
    let slack: i64 = to as i64 - from as i64 - extent as i64;
    let wanted: i64 = match remembered {
        Some(at) => at as i64,
        None => if slack <= 0 {
            from as i64
        } else {
            from as i64 + slack / 2
        },
    };
    hold_in(wanted, from as i64, to as i64 - extent as i64) as i32
}

pub open spec fn first_of(at: Option<(i32, i32)>) -> Option<i32> {
    match at {
        Some(p) => Some(p.0),
        None => None,
    }
}

pub open spec fn second_of(at: Option<(i32, i32)>) -> Option<i32> {
    match at {
        Some(p) => Some(p.1),
        None => None,
    }
}

/// Where the window goes: where it was left last time, or the middle of the work
/// area when there is nothing to remember.
///
/// A remembered corner can be off-screen by now (that monitor is unplugged, the
/// resolution changed), and a popup that opens somewhere unreachable is worse
/// than one that moved. A window larger than the work area gets its top-left
/// corner.
pub fn placed(remembered: Option<(i32, i32)>, area: &RECT, width: i32, height: i32) -> (r: (
    i32,
    i32,
))
    requires
        area.right - width <= i32::MAX,
        area.bottom - height <= i32::MAX,
    ensures
        r.0 == placed_along(first_of(remembered), area.left, area.right, width),
        r.1 == placed_along(second_of(remembered), area.top, area.bottom, height),
{
    let x: Option<i32> = match remembered {
        Some(p) => Some(p.0),
        None => None,
    };
    let y: Option<i32> = match remembered {
        Some(p) => Some(p.1),
        None => None,
    };
    (
        place_along(x, area.left, area.right, width),
        place_along(y, area.top, area.bottom, height),
    )
}

/// A window that fits into the work area always ends up wholly inside it, and one
/// that was left inside it is not moved.
pub proof fn law_placed_on_screen(remembered: Option<i32>, from: i32, to: i32, extent: i32)
    requires
        0 <= extent <= to - from,
    ensures
        from <= placed_along(remembered, from, to, extent),
        placed_along(remembered, from, to, extent) + extent <= to,
        remembered matches Some(at) && from <= at && at + extent <= to ==> placed_along(
            remembered,
            from,
            to,
            extent,
        ) == remembered->0,
{
}

/// How large the popup wants to be, in logical pixels: as large as it was left,
/// floored by the same minimum a drag enforces.
pub fn wanted_size(saved: Option<(i32, i32)>) -> (r: (i32, i32))
    ensures
        r.0 == (match saved {
            Some(size) => max(size.0 as int, MIN_WIDTH as int),
            None => WIDTH as int,
        }),
        r.1 == (match saved {
            Some(size) => max(size.1 as int, MIN_HEIGHT as int),
            None => HEIGHT as int,
        }),
{
    match saved {
        Some(size) => {
            let width: i32 = if size.0 >= MIN_WIDTH {
                size.0
            } else {
                MIN_WIDTH
            };
            let height: i32 = if size.1 >= MIN_HEIGHT {
                size.1
            } else {
                MIN_HEIGHT
            };
            (width, height)
        },
        None => (WIDTH, HEIGHT),
    }
}

/// Never larger than the work area: a size remembered from a monitor that is gone
/// must not open the popup hanging off the screen this one is on.
pub fn fitted_size(width: i32, height: i32, area: &RECT) -> (r: (i32, i32))
    requires
        i32::MIN <= area.right - area.left <= i32::MAX,
        i32::MIN <= area.bottom - area.top <= i32::MAX,
    ensures
        r.0 == min(width as int, area.right - area.left),
        r.1 == min(height as int, area.bottom - area.top),
{
    let across: i32 = area.right - area.left;
    let down: i32 = area.bottom - area.top;
    (
        if width <= across {
            width
        } else {
            across
        },
        if height <= down {
            height
        } else {
            down
        },
    )
}

/// The point that picks the monitor: where the popup was left, or the cursor
/// before there is anything to remember.
pub fn anchor_point(remembered: Option<(i32, i32)>, cursor: POINT) -> (r: POINT)
    ensures
        r == (match remembered {
            Some(p) => POINT { x: p.0, y: p.1 },
            None => cursor,
        }),
{
    match remembered {
        Some(p) => POINT { x: p.0, y: p.1 },
        None => cursor,
    }
}

// ------------------------------------------------------------------ resize edge

pub const HTCLIENT: usize = 1;

pub const HTLEFT: usize = 10;

pub const HTRIGHT: usize = 11;

pub const HTTOP: usize = 12;

pub const HTTOPLEFT: usize = 13;

pub const HTTOPRIGHT: usize = 14;

pub const HTBOTTOM: usize = 15;

pub const HTBOTTOMLEFT: usize = 16;

pub const HTBOTTOMRIGHT: usize = 17;

/// The code for a point that is on these of the four sides.
pub open spec fn edge_code(left: bool, right: bool, top: bool, bottom: bool) -> Option<usize> {
    if top && left {
        Some(HTTOPLEFT)
    } else if top && right {
        Some(HTTOPRIGHT)
    } else if bottom && left {
        Some(HTBOTTOMLEFT)
    } else if bottom && right {
        Some(HTBOTTOMRIGHT)
    } else if left {
        Some(HTLEFT)
    } else if right {
        Some(HTRIGHT)
    } else if top {
        Some(HTTOP)
    } else if bottom {
        Some(HTBOTTOM)
    } else {
        None
    }
}

/// Which side a point is on, as a hit-test code, or `None` for the inside.
///
/// This is the whole of the resize: a code that is wrong by one is an edge that
/// does nothing when it is dragged, and the diagonal codes only exist for the
/// corners, where two of the four sides are hit at once.
pub fn edge_hit(x: i32, y: i32, width: i32, height: i32, grip: i32) -> (r: Option<usize>)
    ensures
        r == edge_code(x < grip, x >= width - grip, y < grip, y >= height - grip),
        r is None <==> grip <= x < width - grip && grip <= y < height - grip,
{
    let left = x < grip;
    let right = x as i64 >= width as i64 - grip as i64;
    let top = y < grip;
    let bottom = y as i64 >= height as i64 - grip as i64;
    if top && left {
        Some(HTTOPLEFT)
    } else if top && right {
        Some(HTTOPRIGHT)
    } else if bottom && left {
        Some(HTBOTTOMLEFT)
    } else if bottom && right {
        Some(HTBOTTOMRIGHT)
    } else if left {
        Some(HTLEFT)
    } else if right {
        Some(HTRIGHT)
    } else if top {
        Some(HTTOP)
    } else if bottom {
        Some(HTBOTTOM)
    } else {
        None
    }
}

// ------------------------------------------------------------------------- rows

/// How many whole rows fit, and never none of them.
pub open spec fn rows_fitting(available: int, row_height: int) -> int
    recommends
        row_height > 0,
{
    max(available / row_height, 1)
}

/// How many rows a list of `count` gets.
pub open spec fn rows_shown(count: nat, available: int, row_height: int) -> int {
    if count == 0 {
        rows_fitting(available, row_height)
    } else {
        min(count as int, rows_fitting(available, row_height))
    }
}

fn fitting(available: i32, row_height: i32) -> (r: i32)
    requires
        row_height > 0,
    ensures
        r == rows_fitting(available as int, row_height as int),
        1 <= r,
{
    if available < row_height {
        proof {
            assert(available < row_height ==> available as int / row_height as int <= 0)
                by (nonlinear_arith)
                requires
                    row_height > 0,
            ;
        }
        1
    } else {
        let rows: i32 = available / row_height;
        proof {
            assert(available as int / row_height as int >= 1) by (nonlinear_arith)
                requires
                    available >= row_height,
                    row_height > 0,
            ;
        }
        rows
    }
}

/// How many rows the list gets: the rows it holds, or the whole area when it holds
/// none. This is a list with a filter, and a list that collapses to nothing looks
/// broken rather than empty.
///
/// `available` is the space above the bottom bands and `row_height` is one row of
/// it. A window squeezed below the minimum still has to place its children
/// somewhere, and a row count of zero is not one of the answers.
pub fn rows_for(count: usize, available: i32, row_height: i32) -> (rows: i32)
    requires
        row_height > 0,
    ensures
        rows == rows_shown(count as nat, available as int, row_height as int),
        1 <= rows,
{
    let fits = fitting(available, row_height);
    if count == 0 || count as u64 >= fits as u64 {
        fits
    } else {
        count as i32
    }
}

/// One page of the page keys: the rows that fit, less one, so the row the caret
/// left stays on screen instead of the next page landing with no context. Never
/// zero: a window squeezed down to one row still has to move somewhere.
pub fn page_rows(visible: i32) -> (rows: i32)
    ensures
        rows == max(visible - 1, 1),
{
    if visible <= 2 {
        1
    } else {
        visible - 1
    }
}

/// How many whole rows a list is showing right now, from its own height; one
/// when that is not known. The row height is at least a pixel here.
pub fn visible_rows(list_height: Option<i32>, row_height: i32) -> (rows: i32)
    ensures
        rows == (match list_height {
            Some(height) => rows_fitting(height as int, max(row_height as int, 1)),
            None => 1,
        }),
        1 <= rows,
{
    let row: i32 = if row_height >= 1 {
        row_height
    } else {
        1
    };
    match list_height {
        Some(height) => fitting(height, row),
        None => 1,
    }
}

/// The row to scroll to the top so that the last row, the newest clip, is in
/// view. `None` when there is nothing to scroll.
pub fn top_row(count: usize, visible: i32) -> (r: Option<usize>)
    requires
        visible >= 0,
    ensures
        r == (if count == 0 {
            None::<usize>
        } else {
            Some(max(count - visible, 0) as usize)
        }),
        0 < count && count <= visible ==> r == Some(0usize),
        count > visible ==> r is Some && r->0 + visible == count,
{
    if count == 0 {
        None
    } else if count as u64 <= visible as u64 {
        Some(0)
    } else {
        Some(count - visible as usize)
    }
}

// --------------------------------------------------------------------- controls

/// Where a control goes inside its window.
#[derive(Clone, Copy, Debug, PartialEq, Eq, Structural)]
pub struct Placement {
    pub x: i32,
    pub y: i32,
    pub width: i32,
    pub height: i32,
}

#[derive(Clone, Copy, Debug, PartialEq, Eq, Structural)]
pub struct PopupLayout {
    pub search: Placement,
    pub help: Placement,
    pub list: Placement,
}

/// The bottom edge of the list.
pub open spec fn list_bottom(height: int, m: PopupMetrics) -> int {
    max(height - m.bottom_bands, m.pad as int)
}

/// The height of one row, a pixel at least.
pub open spec fn row_pitch(m: PopupMetrics) -> int {
    max(m.row_height as int, 1)
}

pub open spec fn list_rows(count: nat, height: int, m: PopupMetrics) -> int {
    rows_shown(count, list_bottom(height, m) - m.pad, row_pitch(m))
}

/// Places the controls inside a client area. Shared by the first open and by every
/// stretch, so the two can never disagree about where the list ends.
///
/// The list is anchored by its bottom edge and is only as tall as the rows it
/// holds, so with fewer rows than fit the newest clip stays right above the
/// instance strip instead of drifting to the top of the window with a hole under
/// it. The help mark takes its corner out of the search box rather than sitting
/// over it, so a long query is never hidden behind the thing that explains it.
pub fn layout(width: i32, height: i32, count: usize, m: &PopupMetrics) -> (r: PopupLayout)
    requires
        usable(*m),
        -LIMIT <= width <= LIMIT,
        -LIMIT <= height <= LIMIT,
    ensures
        r.search.x == m.pad,
        r.search.y == height - m.search_from_bottom,
        r.search.width == width - m.pad * 2 - m.help_size - m.help_gap,
        r.search.height == m.search_height,
        r.help.x == width - m.pad - m.help_size,
        r.help.y == height - m.search_from_bottom,
        r.help.width == m.help_size,
        r.help.height == m.search_height,
        r.list.x == m.pad,
        r.list.width == width - m.pad * 2,
        r.list.height == list_rows(count as nat, height as int, *m) * row_pitch(*m),
        r.list.y + r.list.height == list_bottom(height as int, *m),
{
    let row_height: i32 = if m.row_height >= 1 {
        m.row_height
    } else {
        1
    };
    let above: i32 = height - m.bottom_bands;
    let bottom: i32 = if above >= m.pad {
        above
    } else {
        m.pad
    };
    let rows = rows_for(count, bottom - m.pad, row_height);
    proof {
        lemma_rows_fit(count as nat, bottom - m.pad, row_height as int);
    }
    let list_height: i32 = rows * row_height;
    PopupLayout {
        search: Placement {
            x: m.pad,
            y: height - m.search_from_bottom,
            width: width - m.pad * 2 - m.help_size - m.help_gap,
            height: m.search_height,
        },
        help: Placement {
            x: width - m.pad - m.help_size,
            y: height - m.search_from_bottom,
            width: m.help_size,
            height: m.search_height,
        },
        list: Placement {
            x: m.pad,
            y: bottom - list_height,
            width: width - m.pad * 2,
            height: list_height,
        },
    }
}

/// The rows that are shown take no more room than there is, but for the one row
/// that is shown in any case.
proof fn lemma_rows_fit(count: nat, available: int, row_height: int)
    requires
        row_height > 0,
        available >= 0,
    ensures
        1 <= rows_shown(count, available, row_height),
        0 <= rows_shown(count, available, row_height) * row_height <= max(available, row_height),
{
    let rows = rows_shown(count, available, row_height);
    let whole = available / row_height;
    assert(whole * row_height <= available) by (nonlinear_arith)
        requires
            row_height > 0,
            whole == available / row_height,
    ;
    if rows == 1 {
        assert(rows * row_height == row_height) by (nonlinear_arith)
            requires
                rows == 1,
        ;
    } else {
        assert(rows <= whole);
        assert(rows * row_height <= whole * row_height) by (nonlinear_arith)
            requires
                rows <= whole,
                row_height > 0,
        ;
        assert(0 <= rows * row_height) by (nonlinear_arith)
            requires
                rows >= 1,
                row_height > 0,
        ;
    }
}

/// The list never grows over what is under it nor past the padding above it, and
/// the search box ends before the help mark starts. With room for one row this
/// holds of every client area.
pub proof fn law_controls_do_not_collide(width: int, height: int, count: nat, m: PopupMetrics)
    requires
        usable(m),
        row_pitch(m) <= list_bottom(height, m) - m.pad,
    ensures
        m.pad <= list_bottom(height, m) - list_rows(count, height, m) * row_pitch(m),
        list_bottom(height, m) <= height - m.bottom_bands,
        m.pad + (width - m.pad * 2 - m.help_size - m.help_gap) + m.help_gap == width - m.pad
            - m.help_size,
{
    lemma_rows_fit(count, list_bottom(height, m) - m.pad, row_pitch(m));
}

/// Where a band anchored to the bottom edge starts, `above_bottom` being the
/// distance from that edge to the top of the band. Zero when the size is not known
/// yet.
pub fn bottom_band_top(client_height: Option<i32>, above_bottom: i32) -> (top: i32)
    requires
        0 <= above_bottom,
    ensures
        top == (match client_height {
            Some(height) => max(height - above_bottom, 0),
            None => 0,
        }),
{
    match client_height {
        Some(height) => if height <= above_bottom {
            0
        } else {
            height - above_bottom
        },
        None => 0,
    }
}

// --------------------------------------------------------------- instance strip

/// From the start of one tab to the start of the next.
pub open spec fn tab_step(m: PopupMetrics) -> int {
    m.tab_width + m.tab_gap
}

pub open spec fn tab_left(i: int, m: PopupMetrics) -> int {
    m.pad + i * tab_step(m)
}

/// A point inside the rectangle that is painted for a tab.
pub open spec fn in_tab(i: int, x: int, y: int, top: int, m: PopupMetrics) -> bool {
    tab_left(i, m) <= x < tab_left(i, m) + m.tab_width && top <= y < top + m.tab_height
}

pub open spec fn tab_rect(i: int, top: int, m: PopupMetrics) -> RECT {
    RECT {
        left: tab_left(i, m) as i32,
        top: top as i32,
        right: (tab_left(i, m) + m.tab_width) as i32,
        bottom: (top + m.tab_height) as i32,
    }
}

proof fn lemma_tab_left(i: int, j: int, m: PopupMetrics)
    requires
        usable(m),
        0 <= i <= j,
    ensures
        m.pad <= tab_left(i, m) <= tab_left(j, m),
        tab_left(i + 1, m) == tab_left(i, m) + tab_step(m),
{
    let step = tab_step(m);
    assert(0 <= i * step <= j * step) by (nonlinear_arith)
        requires
            0 <= i <= j,
            step >= 0,
    ;
    assert((i + 1) * step == i * step + step) by (nonlinear_arith);
}

/// The rectangles of the strip, left to right.
pub fn tab_rects(count: usize, top: i32, m: &PopupMetrics) -> (r: Vec<RECT>)
    requires
        usable(*m),
        tab_left(count as int, *m) <= i32::MAX,
        top + m.tab_height <= i32::MAX,
    ensures
        r@ == Seq::new(count as nat, |i: int| tab_rect(i, top as int, *m)),
{
    let mut rects: Vec<RECT> = Vec::new();
    let mut left: i32 = m.pad;
    let step: i32 = m.tab_width + m.tab_gap;
    let mut i: usize = 0;
    while i < count
        invariant
            i <= count,
            usable(*m),
            step == tab_step(*m),
            left == tab_left(i as int, *m),
            tab_left(count as int, *m) <= i32::MAX,
            top + m.tab_height <= i32::MAX,
            rects@ == Seq::new(i as nat, |k: int| tab_rect(k, top as int, *m)),
        decreases count - i,
    {
        proof {
            lemma_tab_left(i as int, count as int, *m);
            lemma_tab_left(i as int + 1, count as int, *m);
        }
        rects.push(
            RECT { left, top, right: left + m.tab_width, bottom: top + m.tab_height },
        );
        left = left + step;
        i += 1;
        assert(rects@ =~= Seq::new(i as nat, |k: int| tab_rect(k, top as int, *m)));
    }
    rects
}

/// No point is inside two tabs.
pub proof fn law_tabs_are_apart(i: int, j: int, x: int, y: int, top: int, m: PopupMetrics)
    requires
        usable(m),
        in_tab(i, x, y, top, m),
        in_tab(j, x, y, top, m),
    ensures
        i == j,
{
    let step = tab_step(m);
    if i < j {
        assert(j * step >= i * step + step) by (nonlinear_arith)
            requires
                i + 1 <= j,
                step >= 0,
        ;
    } else if j < i {
        assert(i * step >= j * step + step) by (nonlinear_arith)
            requires
                j + 1 <= i,
                step >= 0,
        ;
    }
}

/// The tab under a point, tested against the same rectangles that are painted. A
/// point in the gap between two tabs belongs to neither of them. `None` is how the
/// caller knows that the mouse came down on the popup's own background, which is
/// the only place a drag can start.
pub fn tab_at(x: i32, y: i32, top: i32, m: &PopupMetrics, count: usize) -> (r: Option<usize>)
    requires
        usable(*m),
        tab_step(*m) > 0,
    ensures
        match r {
            Some(i) => i < count && in_tab(i as int, x as int, y as int, top as int, *m),
            None => forall|i: int|
                0 <= i < count ==> !#[trigger] in_tab(i, x as int, y as int, top as int, *m),
        },
{
    let ghost step = tab_step(*m);
    if x < m.pad || y < top || y as i64 >= top as i64 + m.tab_height as i64 {
        proof {
            assert forall|i: int| 0 <= i < count implies !#[trigger] in_tab(
                i,
                x as int,
                y as int,
                top as int,
                *m,
            ) by {
                lemma_tab_left(0, i, *m);
                lemma_tab_left(i, i, *m);
            }
        }
        return None;
    }
    let pitch: u32 = (m.tab_width + m.tab_gap) as u32;
    let offset: u32 = (x - m.pad) as u32;
    let index: u32 = offset / pitch;
    let within: u32 = offset % pitch;
    proof {
        assert(index * pitch + within == offset && 0 <= within < pitch) by (nonlinear_arith)
            requires
                pitch > 0,
                index == offset / pitch,
                within == offset % pitch,
        ;
        assert forall|i: int| in_tab(i, x as int, y as int, top as int, *m) implies i == index
            && within < m.tab_width by {
            let from = i * step;
            if i < index {
                assert(index * step >= from + step) by (nonlinear_arith)
                    requires
                        i + 1 <= index,
                        step > 0,
                        from == i * step,
                ;
            } else if i > index {
                assert(from >= index * step + step) by (nonlinear_arith)
                    requires
                        index + 1 <= i,
                        step > 0,
                        from == i * step,
                ;
            }
        }
    }
    if within < m.tab_width as u32 && (index as u64) < count as u64 {
        assert(in_tab(index as int, x as int, y as int, top as int, *m));
        Some(index as usize)
    } else {
        None
    }
}

// --------------------------------------------------------------------- one row

#[derive(Clone, Copy, Debug, PartialEq, Eq, Structural)]
pub struct RowBoxes {
    /// Only a pinned row has one.
    pub star: Option<RECT>,
    pub preview: RECT,
    pub meta: RECT,
}

pub open spec fn text_left(row: RECT, pinned: bool, m: PopupMetrics) -> int {
    row.left + m.inset + (if pinned {
        m.gap as int
    } else {
        0
    })
}

pub open spec fn on_display(r: RECT) -> bool {
    -LIMIT <= r.left <= LIMIT && -LIMIT <= r.top <= LIMIT && -LIMIT <= r.right <= LIMIT && -LIMIT
        <= r.bottom <= LIMIT
}

/// The boxes a row is drawn in: the star of a pinned one, the preview on the first
/// line, where it came from on the second. Both lines start after the star.
pub fn row_boxes(row: &RECT, pinned: bool, m: &PopupMetrics) -> (r: RowBoxes)
    requires
        usable(*m),
        on_display(*row),
    ensures
        r.preview.left == text_left(*row, pinned, *m),
        r.preview.top == row.top + m.line1_top,
        r.preview.right == row.right - m.inset,
        r.preview.bottom == row.top + m.line1_top + m.line1_height,
        r.meta.left == text_left(*row, pinned, *m),
        r.meta.top == row.top + m.line2_top,
        r.meta.right == row.right - m.inset,
        r.meta.bottom == row.top + m.line2_top + m.line2_height,
        r.star is Some <==> pinned,
        r.star matches Some(star) ==> star.left == row.left + m.inset && star.right == row.left
            + m.inset + m.star_width && star.top == r.preview.top && star.bottom
            == r.preview.bottom,
{
    let left: i32 = row.left + m.inset;
    let after: i32 = if pinned {
        left + m.gap
    } else {
        left
    };
    let top: i32 = row.top + m.line1_top;
    let bottom: i32 = top + m.line1_height;
    RowBoxes {
        star: if pinned {
            Some(RECT { left, top, right: left + m.star_width, bottom })
        } else {
            None
        },
        preview: RECT { left: after, top, right: row.right - m.inset, bottom },
        meta: RECT {
            left: after,
            top: row.top + m.line2_top,
            right: row.right - m.inset,
            bottom: row.top + m.line2_top + m.line2_height,
        },
    }
}

/// The two bars in the top-right corner, the only visible sign that the window can
/// be stretched: one along the top, one down the side.
pub fn grip_bars(client_right: i32, m: &PopupMetrics) -> (r: (RECT, RECT))
    requires
        usable(*m),
        -LIMIT <= client_right <= LIMIT,
    ensures
        r.0.right == client_right - m.grip_inset && r.1.right == r.0.right,
        r.0.top == m.grip_inset && r.1.top == r.0.top,
        r.0.right - r.0.left == m.grip_arm,
        r.0.bottom - r.0.top == max(m.grip_inset as int, 1),
        r.1.right - r.1.left == max(m.grip_inset as int, 1),
        r.1.bottom - r.1.top == m.grip_arm,
{
    let thickness: i32 = if m.grip_inset >= 1 {
        m.grip_inset
    } else {
        1
    };
    let right: i32 = client_right - m.grip_inset;
    let top: i32 = m.grip_inset;
    (
        RECT { left: right - m.grip_arm, top, right, bottom: top + thickness },
        RECT { left: right - thickness, top, right, bottom: top + m.grip_arm },
    )
}

/// A window that was never moved is put in the middle, and one that was left outside
/// the screen is brought to the edge it was left over.
pub proof fn law_where_a_window_goes(at: i32, from: i32, to: i32, extent: i32)
    requires
        0 <= extent <= to - from,
    ensures
        ({
            let middle = placed_along(None, from, to, extent);
            let before = middle - from;
            let behind = to - (middle + extent);
            before == behind || before + 1 == behind
        }),
        at <= from ==> placed_along(Some(at), from, to, extent) == from,
        at + extent >= to ==> placed_along(Some(at), from, to, extent) == to - extent,
        first_of(Some((at, from))) == Some(at),
        second_of(Some((at, from))) == Some(from),
        first_of(None) is None,
        second_of(None) is None,
{
}

/// The eight edges and corners of a window, each with its own code.
pub proof fn law_edges(left: bool, right: bool, top: bool, bottom: bool)
    requires
        !(left && right),
        !(top && bottom),
    ensures
        ({
            let code = edge_code(left, right, top, bottom);
            &&& code is None <==> !left && !right && !top && !bottom
            &&& code == Some(10usize) <==> left && !top && !bottom
            &&& code == Some(11usize) <==> right && !top && !bottom
            &&& code == Some(12usize) <==> top && !left && !right
            &&& code == Some(13usize) <==> top && left
            &&& code == Some(14usize) <==> top && right
            &&& code == Some(15usize) <==> bottom && !left && !right
            &&& code == Some(16usize) <==> bottom && left
            &&& code == Some(17usize) <==> bottom && right
        }),
{
}

/// As many rows are shown as fit whole, but for the one that always is, and no more
/// than there are.
pub proof fn law_whole_rows(count: nat, available: int, row_height: int)
    requires
        row_height > 0,
    ensures
        ({
            let fitting = rows_fitting(available, row_height);
            &&& fitting >= 1
            &&& available >= row_height ==> fitting * row_height <= available
            &&& (fitting + 1) * row_height > available
            &&& count > 0 && count <= fitting ==> rows_shown(count, available, row_height) == count
            &&& count == 0 || count > fitting ==> rows_shown(count, available, row_height)
                == fitting
        }),
{
    let n = available / row_height;
    assert(available == n * row_height + available % row_height && 0 <= available % row_height
        < row_height) by (nonlinear_arith)
        requires
            row_height > 0,
            n == available / row_height,
    ;
    assert((n + 1) * row_height == n * row_height + row_height) by (nonlinear_arith);
    if n < 1 {
        assert(n * row_height <= 0) by (nonlinear_arith)
            requires
                n <= 0,
                row_height > 0,
        ;
        assert(2 * row_height > available) by (nonlinear_arith)
            requires
                row_height > 0,
                available < n * row_height + row_height,
                n * row_height <= 0,
        ;
        assert(available < row_height);
    }
}

/// At its first size the list has room for eight rows, and at its smallest for three.
pub proof fn law_rows_of_a_fresh_window(count: nat)
    requires
        count > 0,
    ensures
        list_rows(count, HEIGHT as int, base()) == min(count as int, 8),
        list_rows(count, MIN_HEIGHT as int, base()) == min(count as int, 3),
        list_bottom(HEIGHT as int, base()) - base().pad == 8 * row_pitch(base()),
{
}

/// A tab is painted over exactly the points that belong to it.
pub proof fn law_tab_is_painted_where_it_is(i: int, x: int, y: int, top: int, m: PopupMetrics)
    requires
        usable(m),
        0 <= i,
        tab_left(i, m) <= LIMIT,
        0 <= top <= LIMIT,
    ensures
        ({
            let r = tab_rect(i, top, m);
            in_tab(i, x, y, top, m) <==> r.left <= x < r.right && r.top <= y < r.bottom
        }),
        tab_left(0, m) == m.pad,
        tab_left(i + 1, m) == tab_left(i, m) + m.tab_width + m.tab_gap,
{
    assert(0 <= i * tab_step(m)) by (nonlinear_arith)
        requires
            0 <= i,
            0 <= tab_step(m),
    ;
    assert((i + 1) * tab_step(m) == i * tab_step(m) + tab_step(m)) by (nonlinear_arith);
}

/// The smaller and the larger of two numbers, and a number brought between two others.
pub proof fn law_smaller_larger_between(a: int, b: int, value: int)
    ensures
        min(a, b) <= a && min(a, b) <= b && (min(a, b) == a || min(a, b) == b),
        max(a, b) >= a && max(a, b) >= b && (max(a, b) == a || max(a, b) == b),
        a <= b ==> a <= held_in(value, a, b) <= b,
        a <= value <= b ==> held_in(value, a, b) == value,
        a <= b && value < a ==> held_in(value, a, b) == a,
        a <= b && value > b ==> held_in(value, a, b) == b,
        a > b ==> held_in(value, a, b) == a,
{
}

} // verus!
