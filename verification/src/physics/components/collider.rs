//! Axis-aligned box colliders placed relative to a body's position.
use vstd::prelude::*;
use crate::vec2::{Vec2, fits};

verus! {

/// The shape of a collider: the offset of its lower-left corner from the
/// body's position, and its width and height.
pub ghost struct BoxShape {
    pub x: int,
    pub y: int,
    pub w: int,
    pub h: int,
}

/// A closed axis-aligned box in world coordinates.
pub ghost struct Aabb {
    pub min_x: int,
    pub min_y: int,
    pub max_x: int,
    pub max_y: int,
}

impl BoxShape {
    /// The box that this shape covers when its body stands at `pos`.
    pub open spec fn at(self, pos: Vec2) -> Aabb {
        Aabb {
            min_x: pos.x + self.x,
            min_y: pos.y + self.y,
            max_x: pos.x + self.x + self.w,
            max_y: pos.y + self.y + self.h,
        }
    }

    /// The shape that covers this one over a whole step of displacement
    /// `v`: stretched along each axis in the direction of motion.
    pub open spec fn swept_by(self, v: Vec2) -> BoxShape {
        BoxShape {
            x: if v.x > 0 { self.x } else { self.x + v.x },
            y: if v.y > 0 { self.y } else { self.y + v.y },
            w: if v.x > 0 { v.x + self.w } else { self.w - v.x },
            h: if v.y > 0 { v.y + self.h } else { self.h - v.y },
        }
    }
}

impl Aabb {
    /// The point `(x, y)` lies in the closed box.
    pub open spec fn holds(self, x: int, y: int) -> bool {
        self.min_x <= x <= self.max_x && self.min_y <= y <= self.max_y
    }

    /// Two closed boxes touch when they overlap or share part of an edge.
    pub open spec fn touches(self, other: Aabb) -> bool {
        !(self.max_x < other.min_x || self.min_x > other.max_x || self.max_y < other.min_y
            || self.min_y > other.max_y)
    }
}

/// Touching is symmetric: `a` touches `b` exactly when `b` touches `a`.
pub proof fn lemma_touches_symmetric(a: Aabb, b: Aabb)
    ensures
        a.touches(b) == b.touches(a),
{
}

/// Two boxes with non-negative sizes touch exactly when some point lies in
/// both of them.
pub proof fn lemma_touches_iff_common_point(a: Aabb, b: Aabb)
    requires
        a.min_x <= a.max_x,
        a.min_y <= a.max_y,
        b.min_x <= b.max_x,
        b.min_y <= b.max_y,
    ensures
        a.touches(b) <==> exists|x: int, y: int| #[trigger] a.holds(x, y) && b.holds(x, y),
{
    if a.touches(b) {
        let x = if a.min_x < b.min_x { b.min_x } else { a.min_x };
        let y = if a.min_y < b.min_y { b.min_y } else { a.min_y };
        assert(a.holds(x, y) && b.holds(x, y));
    }
}

/// A collider built for a size spans exactly that size and holds the body's
/// position, with at most one unit more on the upper side than the lower.
pub proof fn lemma_new_box_around_position(bounds: Vec2, pos: Vec2)
    requires
        bounds.x > 0,
        bounds.y > 0,
    ensures
        ({
            let b = (BoxShape { x: -(bounds.x / 2), y: -(bounds.y / 2), w: bounds.x as int, h: bounds.y as int }).at(pos);
            &&& b.max_x - b.min_x == bounds.x
            &&& b.max_y - b.min_y == bounds.y
            &&& b.min_x <= pos.x <= b.max_x
            &&& b.min_y <= pos.y <= b.max_y
            &&& 0 <= (b.max_x - pos.x) - (pos.x - b.min_x) <= 1
            &&& 0 <= (b.max_y - pos.y) - (pos.y - b.min_y) <= 1
        }),
{
}

/// The box swept over a step covers the box where the body starts and the
/// box where it ends the step.
pub proof fn lemma_swept_box_covers_motion(shape: BoxShape, pos: Vec2, v: Vec2)
    requires
        fits(pos.x + v.x),
        fits(pos.y + v.y),
    ensures
        ({
            let swept = shape.swept_by(v).at(pos);
            let first = shape.at(pos);
            let last = shape.at(Vec2 { x: (pos.x + v.x) as i32, y: (pos.y + v.y) as i32 });
            &&& swept.min_x <= first.min_x && first.max_x <= swept.max_x
            &&& swept.min_y <= first.min_y && first.max_y <= swept.max_y
            &&& swept.min_x <= last.min_x && last.max_x <= swept.max_x
            &&& swept.min_y <= last.min_y && last.max_y <= swept.max_y
        }),
{
}

/// The box swept over a step is as large as the collider grown by the
/// size of the displacement along each axis, so a collider with a positive
/// size keeps a positive size.
pub proof fn lemma_swept_box_size(shape: BoxShape, v: Vec2)
    ensures
        shape.swept_by(v).w == shape.w + (if v.x < 0 { -v.x } else { v.x as int }),
        shape.swept_by(v).h == shape.h + (if v.y < 0 { -v.y } else { v.y as int }),
        shape.w > 0 ==> shape.swept_by(v).w >= shape.w > 0,
        shape.h > 0 ==> shape.swept_by(v).h >= shape.h > 0,
{
}

/// A collider's box spans its size wherever the body stands, and moves with
/// the body: moving the position by `d` moves both corners by `d`.
pub proof fn lemma_box_moves_with_position(shape: BoxShape, pos: Vec2, d: Vec2)
    requires
        fits(pos.x + d.x),
        fits(pos.y + d.y),
    ensures
        shape.at(pos).max_x - shape.at(pos).min_x == shape.w,
        shape.at(pos).max_y - shape.at(pos).min_y == shape.h,
        shape.w > 0 ==> shape.at(pos).min_x < shape.at(pos).max_x,
        shape.h > 0 ==> shape.at(pos).min_y < shape.at(pos).max_y,
        ({
            let moved = shape.at(Vec2 { x: (pos.x + d.x) as i32, y: (pos.y + d.y) as i32 });
            &&& moved.min_x == shape.at(pos).min_x + d.x
            &&& moved.min_y == shape.at(pos).min_y + d.y
            &&& moved.max_x == shape.at(pos).max_x + d.x
            &&& moved.max_y == shape.at(pos).max_y + d.y
        }),
{
}

/// An axis-aligned box around a body's position.
#[derive(Clone, Copy, Debug)]
pub struct Collider {
    x: i32,
    y: i32,
    h: i32,
    w: i32,
}

impl View for Collider {
    type V = BoxShape;

    closed spec fn view(&self) -> BoxShape {
        BoxShape { x: self.x as int, y: self.y as int, w: self.w as int, h: self.h as int }
    }
}

impl Collider {
    /// Width and height are never negative.
    #[verifier::type_invariant]
    spec fn extent_nonnegative(self) -> bool {
        self.w >= 0 && self.h >= 0
    }

    /// Every part of a collider's shape is a coordinate.
    pub proof fn lemma_shape_fits(&self)
        ensures
            fits(self@.x),
            fits(self@.y),
            fits(self@.w),
            fits(self@.h),
    {
    }

    /// A collider of the given size centred on the body's position; an odd
    /// size leaves the extra unit on the upper side.
    pub fn new(bounds: Vec2) -> (r: Collider)
        requires
            bounds.x > 0,
            bounds.y > 0,
        ensures
            r@ == (BoxShape { x: -(bounds.x / 2), y: -(bounds.y / 2), w: bounds.x as int, h: bounds.y as int }),
    {
        let x = -(bounds.x / 2);
        let y = -(bounds.y / 2);
        Collider { x, y, w: bounds.x, h: bounds.y }
    }

    /// The width and height of the box.
    pub fn bounds(&self) -> (r: Vec2)
        ensures
            r.x == self@.w,
            r.y == self@.h,
            r.x >= 0,
            r.y >= 0,
    {
        proof {
            use_type_invariant(self);
        }
        Vec2 { x: self.w, y: self.h }
    }

    /// Half the width and height, rounded down.
    pub fn half_bounds(&self) -> (r: Vec2)
        ensures
            r.x == self@.w / 2,
            r.y == self@.h / 2,
            r.x >= 0,
            r.y >= 0,
    {
        proof {
            use_type_invariant(self);
        }
        Vec2 { x: self.w / 2, y: self.h / 2 }
    }

    /// The lower-left corner of the box when the body stands at `pos`.
    pub fn min(&self, pos: Vec2) -> (r: Vec2)
        requires
            fits(self@.at(pos).min_x),
            fits(self@.at(pos).min_y),
        ensures
            r.x == self@.at(pos).min_x,
            r.y == self@.at(pos).min_y,
    {
        Vec2 { x: pos.x + self.x, y: pos.y + self.y }
    }

    /// The upper-right corner of the box when the body stands at `pos`.
    pub fn max(&self, pos: Vec2) -> (r: Vec2)
        requires
            fits(self@.at(pos).max_x),
            fits(self@.at(pos).max_y),
        ensures
            r.x == self@.at(pos).max_x,
            r.y == self@.at(pos).max_y,
    {
        let x = pos.x as i64 + self.x as i64 + self.w as i64;
        let y = pos.y as i64 + self.y as i64 + self.h as i64;
        Vec2 { x: x as i32, y: y as i32 }
    }

    /// The collider that covers this one over a step of displacement
    /// `rel_velocity`, for a cheap first test before the exact one.
    pub fn broad_phase_check(&self, rel_velocity: Vec2) -> (r: Collider)
        requires
            fits(self@.swept_by(rel_velocity).x),
            fits(self@.swept_by(rel_velocity).y),
            fits(self@.swept_by(rel_velocity).w),
            fits(self@.swept_by(rel_velocity).h),
        ensures
            r@ == self@.swept_by(rel_velocity),
    {
        proof {
            use_type_invariant(self);
        }
        let x = if rel_velocity.x > 0 { self.x } else { self.x + rel_velocity.x };
        let y = if rel_velocity.y > 0 { self.y } else { self.y + rel_velocity.y };
        let w = if rel_velocity.x > 0 { rel_velocity.x + self.w } else { self.w - rel_velocity.x };
        let h = if rel_velocity.y > 0 { rel_velocity.y + self.h } else { self.h - rel_velocity.y };
        Collider { x, y, h, w }
    }

    /// The corners of the box when the body stands at `pos`, computed wide
    /// enough that they cannot overflow: `(min_x, min_y, max_x, max_y)`.
    pub fn corners_at(&self, pos: Vec2) -> (r: (i64, i64, i64, i64))
        ensures
            r.0 == self@.at(pos).min_x,
            r.1 == self@.at(pos).min_y,
            r.2 == self@.at(pos).max_x,
            r.3 == self@.at(pos).max_y,
    {
        let min_x = pos.x as i64 + self.x as i64;
        let min_y = pos.y as i64 + self.y as i64;
        (min_x, min_y, min_x + self.w as i64, min_y + self.h as i64)
    }

    /// Whether this collider at `my_pos` touches `other` at `other_pos`.
    pub fn intersects(&self, my_pos: Vec2, other: &Self, other_pos: Vec2) -> (r: bool)
        ensures
            r == self@.at(my_pos).touches(other@.at(other_pos)),
    {
        let a_min_x = my_pos.x as i64 + self.x as i64;
        let a_min_y = my_pos.y as i64 + self.y as i64;
        let b_min_x = other.x as i64 + other_pos.x as i64;
        let b_min_y = other.y as i64 + other_pos.y as i64;
        let a_max_x = a_min_x + self.w as i64;
        let a_max_y = a_min_y + self.h as i64;
        let b_max_x = b_min_x + other.w as i64;
        let b_max_y = b_min_y + other.h as i64;
        !(a_max_x < b_min_x || a_min_x > b_max_x || a_max_y < b_min_y || a_min_y > b_max_y)
    }
}

} // verus!
