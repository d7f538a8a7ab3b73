//! The controls of a window as plain values: what each is, what it says and where
//! it goes.

use vstd::prelude::*;

use crate::popup_layout;
use crate::popup_layout::Placement;
use crate::win::RECT;

verus! {

#[derive(Clone, Copy, Debug, PartialEq, Eq, Structural)]
pub enum ControlKind {
    /// A frame around others.
    Group,
    Label,
    Field,
    /// Takes digits only.
    NumberField,
    Radio,
    Check,
    Button,
    /// The one Enter presses.
    DefaultButton,
}

#[derive(Clone, Copy, Debug)]
pub struct Control {
    pub id: usize,
    pub kind: ControlKind,
    /// Starts a group of its own: the arrow keys stop at the next one.
    pub starts_group: bool,
    pub caption: &'static str,
    pub at: Placement,
}

#[verifier::ext_equal]
pub struct ControlView {
    pub id: usize,
    pub kind: ControlKind,
    pub starts_group: bool,
    pub caption: Seq<char>,
    pub at: Placement,
}

impl View for Control {
    type V = ControlView;

    open spec fn view(&self) -> ControlView {
        ControlView {
            id: self.id,
            kind: self.kind,
            starts_group: self.starts_group,
            caption: self.caption@,
            at: self.at,
        }
    }
}

pub open spec fn control_views(controls: Seq<Control>) -> Seq<ControlView> {
    Seq::new(controls.len(), |i: int| controls[i]@)
}

pub open spec fn placed_at(x: int, y: int, width: int, height: int) -> Placement {
    Placement { x: x as i32, y: y as i32, width: width as i32, height: height as i32 }
}

pub open spec fn one(id: usize, kind: ControlKind, caption: Seq<char>, at: Placement) -> ControlView {
    ControlView { id, kind, starts_group: false, caption, at }
}

pub open spec fn group_start(
    id: usize,
    kind: ControlKind,
    caption: Seq<char>,
    at: Placement,
) -> ControlView {
    ControlView { id, kind, starts_group: true, caption, at }
}

pub fn control(
    id: usize,
    kind: ControlKind,
    caption: &'static str,
    x: i32,
    y: i32,
    width: i32,
    height: i32,
) -> (r: Control)
    ensures
        r@ == one(id, kind, caption@, (Placement { x, y, width, height })),
{
    Control {
        id,
        kind,
        starts_group: false,
        caption,
        at: Placement { x, y, width, height },
    }
}

pub fn first_control(
    id: usize,
    kind: ControlKind,
    caption: &'static str,
    x: i32,
    y: i32,
    width: i32,
    height: i32,
) -> (r: Control)
    ensures
        r@ == group_start(id, kind, caption@, (Placement { x, y, width, height })),
{
    Control {
        id,
        kind,
        starts_group: true,
        caption,
        at: Placement { x, y, width, height },
    }
}

/// Wholly inside a client area.
pub open spec fn inside(at: Placement, width: int, height: int) -> bool {
    0 <= at.x && 0 <= at.y && 0 <= at.width && 0 <= at.height && at.x + at.width <= width && at.y
        + at.height <= height
}

/// No pixel in common.
pub open spec fn apart(a: Placement, b: Placement) -> bool {
    a.x + a.width <= b.x || b.x + b.width <= a.x || a.y + a.height <= b.y || b.y + b.height <= a.y
}

/// A part of a length that may be negative, cut off toward zero.
pub open spec fn part_of(n: int, parts: int) -> int {
    if n >= 0 {
        n / parts
    } else {
        -((-n) / parts)
    }
}

fn take_part(n: i64, parts: i64) -> (r: i64)
    requires
        parts > 0,
        n > i64::MIN,
    ensures
        r == part_of(n as int, parts as int),
        n >= 0 ==> 0 <= r <= n,
        n < 0 ==> n <= r <= 0,
{
    if n >= 0 {
        proof {
            vstd::arithmetic::div_mod::lemma_div_is_ordered_by_denominator(
                n as int,
                1,
                parts as int,
            );
        }
        n / parts
    } else {
        proof {
            vstd::arithmetic::div_mod::lemma_div_is_ordered_by_denominator(
                -n as int,
                1,
                parts as int,
            );
        }
        -((-n) / parts)
    }
}

/// Where a window with a fixed size opens: centred across, and a third of the
/// spare room down.
pub fn opened_at(area: &RECT, width: i32, height: i32) -> (r: (i32, i32))
    requires
        popup_layout::on_display(*area),
        -popup_layout::LIMIT <= width <= popup_layout::LIMIT,
        -popup_layout::LIMIT <= height <= popup_layout::LIMIT,
    ensures
        r.0 == area.left + part_of(area.right - area.left - width, 2),
        r.1 == area.top + part_of(area.bottom - area.top - height, 3),
{
    let across = take_part((area.right - area.left - width) as i64, 2);
    let down = take_part((area.bottom - area.top - height) as i64, 3);
    (area.left + across as i32, area.top + down as i32)
}

/// A pixel that belongs to a box.
pub open spec fn covers(at: Placement, x: int, y: int) -> bool {
    at.x <= x < at.x + at.width && at.y <= y < at.y + at.height
}

/// A box inside an area has all its pixels there; two boxes that are apart have no pixel
/// in common, and two that are not, and are not empty, have one.
pub proof fn law_boxes_are_their_pixels(a: Placement, b: Placement, x: int, y: int, w: int, h: int)
    ensures
        inside(a, w, h) && covers(a, x, y) ==> 0 <= x < w && 0 <= y < h,
        apart(a, b) ==> !(covers(a, x, y) && covers(b, x, y)),
        !apart(a, b) && a.width > 0 && a.height > 0 && b.width > 0 && b.height > 0 ==> {
            let right = if a.x >= b.x {
                a.x as int
            } else {
                b.x as int
            };
            let down = if a.y >= b.y {
                a.y as int
            } else {
                b.y as int
            };
            covers(a, right, down) && covers(b, right, down)
        },
{
}

/// A part is cut off toward zero: times the parts it is the length but for less than one
/// more of them, and it never has the other sign.
pub proof fn law_part(n: int, parts: int)
    requires
        parts > 0,
    ensures
        n >= 0 ==> part_of(n, parts) * parts <= n < (part_of(n, parts) + 1) * parts,
        part_of(-n, parts) == -part_of(n, parts),
{
    let q = n / parts;
    assert(n >= 0 ==> q * parts <= n < (q + 1) * parts) by (nonlinear_arith)
        requires
            parts > 0,
            q == n / parts,
    ;
    if n == 0 {
        assert(0int / parts == 0) by (nonlinear_arith)
            requires
                parts > 0,
        ;
    }
}

} // verus!
