//! Identifiers and plain geometry shared by the whole engine.

use vstd::prelude::*;

verus! {

/// A native window handle, as a number.
#[derive(Debug, Clone, Copy, PartialEq, Eq, Structural, Hash)]
pub struct WindowId(pub isize);

/// A native display handle, as a number. Means nothing in the next session.
#[derive(Debug, Clone, Copy, PartialEq, Eq, Structural, Hash)]
pub struct DisplayId(pub isize);

/// The identity of one row of the recovery ledger.
#[derive(Debug, Clone, Copy, PartialEq, Eq, Structural, Hash)]
pub struct RecoveryEntryId(pub i64);

/// The identity of one stored undo transaction.
#[derive(Debug, Clone, Copy, PartialEq, Eq, Structural, Hash)]
pub struct UndoTransactionId(pub i64);

/// An axis-aligned rectangle in virtual-desktop pixels.
#[derive(Debug, Clone, Copy, PartialEq, Eq, Structural)]
pub struct Rect {
    pub x: i32,
    pub y: i32,
    pub width: i32,
    pub height: i32,
}

impl Rect {
    pub fn new(x: i32, y: i32, width: i32, height: i32) -> (rect: Rect)
        ensures
            rect == (Rect { x, y, width, height }),
    {
        Rect { x, y, width, height }
    }
}

/// The smallest extent a window accepts.
#[derive(Debug, Clone, Copy, PartialEq, Eq, Structural)]
pub struct Size {
    pub width: i32,
    pub height: i32,
}

/// The space kept free around and between arranged windows.
#[derive(Debug, Clone, Copy, PartialEq, Eq, Structural)]
pub struct Gaps {
    pub outer: i32,
    pub inner: i32,
}

impl Gaps {
    pub fn new(outer: i32, inner: i32) -> (gaps: Gaps)
        ensures
            gaps == (Gaps { outer, inner }),
    {
        Gaps { outer, inner }
    }
}

/// The axis a container lays its children out along.
#[derive(Debug, Clone, Copy, PartialEq, Eq, Structural)]
pub enum SplitAxis {
    Horizontal,
    Vertical,
}

/// Which end of an axis a divider is moved towards.
#[derive(Debug, Clone, Copy, PartialEq, Eq, Structural)]
pub enum Toward {
    Start,
    End,
}

#[derive(Debug, Clone, Copy, PartialEq, Eq, Structural)]
pub enum CardinalDirection {
    Left,
    Right,
    Up,
    Down,
}

#[derive(Debug, Clone, Copy, PartialEq, Eq, Structural)]
pub enum HorizontalDirection {
    Left,
    Right,
}

#[derive(Debug, Clone, Copy, PartialEq, Eq, Structural)]
pub enum DisplayDirection {
    Next,
    Prev,
}

#[derive(Debug, Clone, Copy, PartialEq, Eq, Structural)]
pub enum HalfZone {
    TopHalf,
    BottomHalf,
}

/// How much of the display a repeated horizontal snap currently takes.
#[derive(Debug, Clone, Copy, PartialEq, Eq, Structural)]
pub enum CycleStep {
    Half,
    Third,
    TwoThirds,
}

impl CycleStep {
    pub open spec fn successor(self) -> CycleStep {
        match self {
            CycleStep::Half => CycleStep::Third,
            CycleStep::Third => CycleStep::TwoThirds,
            CycleStep::TwoThirds => CycleStep::Half,
        }
    }

    /// The step a repeated press in the same direction moves to.
    pub fn next(self) -> (step: CycleStep)
        ensures
            step == self.successor(),
    {
        match self {
            CycleStep::Half => CycleStep::Third,
            CycleStep::Third => CycleStep::TwoThirds,
            CycleStep::TwoThirds => CycleStep::Half,
        }
    }
}

/// Splitting "on the longer axis" of a work area: side by side when it is
/// wide, stacked when it is tall.
pub open spec fn longer_axis(area: Rect) -> SplitAxis {
    if area.width >= area.height {
        SplitAxis::Horizontal
    } else {
        SplitAxis::Vertical
    }
}

pub fn longer_axis_of(area: Rect) -> (axis: SplitAxis)
    ensures
        axis == longer_axis(area),
{
    if area.width >= area.height {
        SplitAxis::Horizontal
    } else {
        SplitAxis::Vertical
    }
}

/// The container axis a cardinal direction moves along, and which way.
pub open spec fn divider(direction: CardinalDirection) -> (SplitAxis, Toward) {
    match direction {
        CardinalDirection::Left => (SplitAxis::Horizontal, Toward::Start),
        CardinalDirection::Right => (SplitAxis::Horizontal, Toward::End),
        CardinalDirection::Up => (SplitAxis::Vertical, Toward::Start),
        CardinalDirection::Down => (SplitAxis::Vertical, Toward::End),
    }
}

pub fn divider_for(direction: CardinalDirection) -> (facing: (SplitAxis, Toward))
    ensures
        facing == divider(direction),
{
    match direction {
        CardinalDirection::Left => (SplitAxis::Horizontal, Toward::Start),
        CardinalDirection::Right => (SplitAxis::Horizontal, Toward::End),
        CardinalDirection::Up => (SplitAxis::Vertical, Toward::Start),
        CardinalDirection::Down => (SplitAxis::Vertical, Toward::End),
    }
}

/// Half of an extent, rounded towards zero.
pub open spec fn half(extent: int) -> int {
    if extent >= 0 {
        extent / 2
    } else {
        -((-extent) / 2)
    }
}

pub open spec fn center_x(rect: Rect) -> int {
    rect.x + half(rect.width as int)
}

pub open spec fn center_y(rect: Rect) -> int {
    rect.y + half(rect.height as int)
}

/// The squared distance between the centers of two rectangles.
pub open spec fn center_distance(a: Rect, b: Rect) -> int {
    (center_x(a) - center_x(b)) * (center_x(a) - center_x(b)) + (center_y(a) - center_y(b)) * (
    center_y(a) - center_y(b))
}

fn half_of(extent: i32) -> (h: i64)
    ensures
        h == half(extent as int),
        -0x4000_0000 <= h <= 0x4000_0000,
{
    if extent >= 0 {
        (extent as i64) / 2
    } else {
        let positive: i64 = -(extent as i64);
        -(positive / 2)
    }
}

fn square(n: i64) -> (s: i128)
    requires
        -0x2_0000_0000 <= n <= 0x2_0000_0000,
    ensures
        s == n * n,
        0 <= s <= 0x4_0000_0000_0000_0000,
{
    let wide: i128 = n as i128;
    assert(-0x4_0000_0000_0000_0000 <= wide * wide <= 0x4_0000_0000_0000_0000 && wide * wide >= 0)
        by (nonlinear_arith)
        requires
            -0x2_0000_0000 <= wide <= 0x2_0000_0000,
    ;
    wide * wide
}

/// The squared distance between the centers of two rectangles.
pub fn center_distance_of(a: Rect, b: Rect) -> (distance: i128)
    ensures
        distance == center_distance(a, b),
{
    let ax: i64 = a.x as i64 + half_of(a.width);
    let ay: i64 = a.y as i64 + half_of(a.height);
    let bx: i64 = b.x as i64 + half_of(b.width);
    let by: i64 = b.y as i64 + half_of(b.height);
    square(ax - bx) + square(ay - by)
}

/// The work-area-independent part of a placement: twice the center, so no
/// half pixel is lost.
pub open spec fn doubled_center(rect: Rect) -> (int, int) {
    (rect.x * 2 + rect.width, rect.y * 2 + rect.height)
}

pub fn doubled_center_of(rect: Rect) -> (center: (i64, i64))
    ensures
        center.0 == doubled_center(rect).0,
        center.1 == doubled_center(rect).1,
        -0x2_0000_0000 <= center.0 <= 0x2_0000_0000,
        -0x2_0000_0000 <= center.1 <= 0x2_0000_0000,
{
    (rect.x as i64 * 2 + rect.width as i64, rect.y as i64 * 2 + rect.height as i64)
}

} // verus!
