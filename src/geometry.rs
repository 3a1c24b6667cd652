use vstd::prelude::*;

verus! {

/// An axis-aligned rectangle in desktop pixel coordinates.
#[derive(Clone, Copy, Debug, PartialEq, Eq, Structural)]
pub struct Rect {
    pub left: i32,
    pub top: i32,
    pub right: i32,
    pub bottom: i32,
}

/// A two-dimensional pixel displacement derived from the head orientation.
#[derive(Clone, Copy, Debug, PartialEq, Eq, Structural)]
pub struct Gain {
    pub x: i32,
    pub y: i32,
}

/// Where a tracked window is to be moved: its handle and its new top-left corner.
#[derive(Clone, Copy, Debug, PartialEq, Eq, Structural)]
pub struct Placement {
    pub handle: u64,
    pub x: i32,
    pub y: i32,
}

pub open spec fn fits_i32(v: int) -> bool {
    i32::MIN <= v <= i32::MAX
}

/// The rectangle moved by `-g`: `g.x` off both horizontal edges, `g.y` off
/// both vertical ones.
pub open spec fn shifted_back(r: Rect, g: Gain) -> Rect {
    Rect {
        left: (r.left - g.x) as i32,
        top: (r.top - g.y) as i32,
        right: (r.right - g.x) as i32,
        bottom: (r.bottom - g.y) as i32,
    }
}

/// Whether every edge of `shifted_back(r, g)` is representable.
pub open spec fn can_shift_back(r: Rect, g: Gain) -> bool {
    &&& fits_i32(r.left - g.x)
    &&& fits_i32(r.top - g.y)
    &&& fits_i32(r.right - g.x)
    &&& fits_i32(r.bottom - g.y)
}

fn sub_checked(a: i32, b: i32) -> (r: Option<i32>)
    ensures
        r == (if fits_i32(a - b) {
            Some((a - b) as i32)
        } else {
            None::<i32>
        }),
{
    let d: i64 = a as i64 - b as i64;
    if d < i32::MIN as i64 || d > i32::MAX as i64 {
        None
    } else {
        Some(d as i32)
    }
}

impl Rect {
    pub fn new(left: i32, top: i32, right: i32, bottom: i32) -> (r: Rect)
        ensures
            r == (Rect { left, top, right, bottom }),
    {
        Rect { left, top, right, bottom }
    }

    /// The rectangle moved by `-g`, or `None` where an edge would leave the
    /// `i32` range.
    pub fn shift_back(&self, g: Gain) -> (r: Option<Rect>)
        ensures
            r == (if can_shift_back(*self, g) {
                Some(shifted_back(*self, g))
            } else {
                None::<Rect>
            }),
    {
        let l = sub_checked(self.left, g.x);
        let t = sub_checked(self.top, g.y);
        let rt = sub_checked(self.right, g.x);
        let b = sub_checked(self.bottom, g.y);
        match (l, t, rt, b) {
            (Some(left), Some(top), Some(right), Some(bottom)) => Some(Rect { left, top, right, bottom }),
            _ => None,
        }
    }
}

impl Gain {
    pub fn new(x: i32, y: i32) -> (r: Gain)
        ensures
            r == (Gain { x, y }),
    {
        Gain { x, y }
    }

    pub fn zero() -> (r: Gain)
        ensures
            r == (Gain { x: 0, y: 0 }),
    {
        Gain { x: 0, y: 0 }
    }
}

} // verus!
