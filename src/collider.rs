//! Axis-aligned bounding boxes and their overlap test.
use vstd::prelude::*;

verus! {

/// A point or extent in world space, in sub-units.
#[derive(Clone, Copy, Debug, PartialEq, Eq, Structural)]
pub struct Vec2 {
    pub x: i64,
    pub y: i64,
}

impl Vec2 {
    pub fn new(x: i64, y: i64) -> (r: Vec2)
        ensures
            r.x == x,
            r.y == y,
    {
        Vec2 { x, y }
    }
}

/// An axis-aligned box given by its center and its full width and height.
#[derive(Clone, Copy, Debug, PartialEq, Eq, Structural)]
pub struct BoxCollider {
    /// Center of the box.
    pub pos: Vec2,
    /// Full width and height (not the half-extent).
    pub size: Vec2,
}

/// The closed intervals `[ca - sa/2, ca + sa/2]` and `[cb - sb/2, cb + sb/2]`
/// meet. Both sides are doubled so that odd sizes stay exact.
pub open spec fn axis_overlap(ca: int, sa: int, cb: int, sb: int) -> bool {
    &&& 2 * ca - sa <= 2 * cb + sb
    &&& 2 * cb - sb <= 2 * ca + sa
}

/// Two boxes overlap when their projections meet on both axes; touching
/// edges count as overlap.
pub open spec fn overlaps(a: BoxCollider, b: BoxCollider) -> bool {
    &&& axis_overlap(a.pos.x as int, a.size.x as int, b.pos.x as int, b.size.x as int)
    &&& axis_overlap(a.pos.y as int, a.size.y as int, b.pos.y as int, b.size.y as int)
}

impl BoxCollider {
    /// Both extents are positive.
    pub open spec fn wf(self) -> bool {
        self.size.x > 0 && self.size.y > 0
    }

    pub fn new(pos: Vec2, size: Vec2) -> (r: BoxCollider)
        requires
            size.x > 0,
            size.y > 0,
        ensures
            r.pos == pos,
            r.size == size,
            r.wf(),
    {
        BoxCollider { pos, size }
    }

    /// Inclusive overlap test against `other`.
    #[allow(non_snake_case)]
    pub fn CheckCollision(&mut self, other: &BoxCollider) -> (r: bool)
        ensures
            r == overlaps(*old(self), *other),
            *final(self) == *old(self),
    {
        axis_meets(self.pos.x, self.size.x, other.pos.x, other.size.x)
            && axis_meets(self.pos.y, self.size.y, other.pos.y, other.size.y)
    }
}

fn axis_meets(ca: i64, sa: i64, cb: i64, sb: i64) -> (r: bool)
    ensures
        r == axis_overlap(ca as int, sa as int, cb as int, sb as int),
{
    let ca2 = 2 * (ca as i128);
    let cb2 = 2 * (cb as i128);
    ca2 - (sa as i128) <= cb2 + (sb as i128) && cb2 - (sb as i128) <= ca2 + (sa as i128)
}

/// The overlap test is symmetric.
pub proof fn lemma_overlaps_symmetric(a: BoxCollider, b: BoxCollider)
    ensures
        overlaps(a, b) == overlaps(b, a),
{
}

/// Two boxes with positive sizes and the same center always overlap.
pub proof fn lemma_same_center_overlaps(a: BoxCollider, b: BoxCollider)
    requires
        a.wf(),
        b.wf(),
        a.pos == b.pos,
    ensures
        overlaps(a, b),
{
}

/// Two boxes whose centers lie further apart on one axis than the sum of
/// their half-extents on that axis never overlap.
pub proof fn lemma_separated_never_overlap(a: BoxCollider, b: BoxCollider)
    requires
        2 * (a.pos.x - b.pos.x) > a.size.x + b.size.x
            || 2 * (b.pos.x - a.pos.x) > a.size.x + b.size.x
            || 2 * (a.pos.y - b.pos.y) > a.size.y + b.size.y
            || 2 * (b.pos.y - a.pos.y) > a.size.y + b.size.y,
    ensures
        !overlaps(a, b),
{
}

} // verus!
