//! Collision detection and response between moving and fixed boxes.
use vstd::prelude::*;
use crate::vec2::Vec2;
use crate::physics::components::collider::{Aabb, BoxShape, Collider};
use crate::physics::time::{Moment, Time, start, end};

pub mod components;
pub mod events;
pub mod time;
pub mod contact;
pub mod response;
pub mod detection;

verus! {

/// The moment along one axis at which a box `[a_min, a_max]` moving by `v`
/// per step starts to overlap the fixed span `[b_min, b_max]`; minus
/// infinity when there is no motion along the axis.
pub open spec fn axis_entry(a_min: int, a_max: int, b_min: int, b_max: int, v: int) -> Moment {
    if v == 0 {
        Moment::NegInf
    } else if v > 0 {
        Moment::At { num: b_min - a_max, den: v }
    } else {
        Moment::At { num: a_min - b_max, den: -v }
    }
}

/// The moment along one axis at which the moving span stops overlapping
/// the fixed one; plus infinity when there is no motion along the axis.
pub open spec fn axis_exit(a_min: int, a_max: int, b_min: int, b_max: int, v: int) -> Moment {
    if v == 0 {
        Moment::PosInf
    } else if v > 0 {
        Moment::At { num: b_max - a_min, den: v }
    } else {
        Moment::At { num: a_max - b_min, den: -v }
    }
}

/// The outcome of sweeping box `a` (shape `a_shape` at `a_pos`) by `v`
/// over one step against the fixed box `b`: the moment it first touches
/// `b` and the outward normal of the face of `b` that it meets, or nothing.
/// The face is on the axis whose entry moment comes last, and its normal
/// points against the motion along that axis. Boxes that touch with no
/// relative motion at all get the upward normal.
pub open spec fn swept_hit(a_pos: Vec2, a_shape: BoxShape, v: Vec2, b: Aabb) -> Option<(Moment, Vec2)> {
    let a = a_shape.at(a_pos);
    let entry_x = axis_entry(a.min_x, a.max_x, b.min_x, b.max_x, v.x as int);
    let entry_y = axis_entry(a.min_y, a.max_y, b.min_y, b.max_y, v.y as int);
    let exit_x = axis_exit(a.min_x, a.max_x, b.min_x, b.max_x, v.x as int);
    let exit_y = axis_exit(a.min_y, a.max_y, b.min_y, b.max_y, v.y as int);
    let entry_time = entry_x.max(entry_y);
    let exit_time = exit_x.min(exit_y);
    if !a_shape.swept_by(v).at(a_pos).touches(b) {
        None
    } else if exit_time.lt(entry_time) || exit_time.lt(start()) || end().lt(entry_time) {
        None
    } else if entry_y.lt(entry_x) {
        if v.x > 0 {
            Some((entry_time, Vec2 { x: -1i32, y: 0 }))
        } else {
            Some((entry_time, Vec2 { x: 1, y: 0 }))
        }
    } else {
        if v.y > 0 {
            Some((entry_time, Vec2 { x: 0, y: -1i32 }))
        } else {
            Some((entry_time, Vec2 { x: 0, y: 1 }))
        }
    }
}

/// A unit vector along one of the axes: the normal of a face of a box.
pub open spec fn is_face_normal(n: Vec2) -> bool {
    ||| n == Vec2 { x: 1, y: 0 }
    ||| n == Vec2 { x: -1i32, y: 0 }
    ||| n == Vec2 { x: 0, y: 1 }
    ||| n == Vec2 { x: 0, y: -1i32 }
}

/// A hit as computed at run time, seen through the moments it stands for.
pub open spec fn hit_view(r: Option<(Time, Vec2)>) -> Option<(Moment, Vec2)> {
    match r {
        Some((t, n)) => Some((t@, n)),
        None => None,
    }
}

/// Values a few times larger than any coordinate, used to bound sums of
/// coordinates.
spec fn small(v: int) -> bool {
    -0x4_0000_0000 <= v <= 0x4_0000_0000
}

/// Entry and exit moments along one axis.
fn axis_times(a_min: i64, a_max: i64, b_min: i64, b_max: i64, v: i32) -> (r: (Time, Time))
    requires
        small(a_min as int),
        small(a_max as int),
        small(b_min as int),
        small(b_max as int),
    ensures
        r.0@ == axis_entry(a_min as int, a_max as int, b_min as int, b_max as int, v as int),
        r.1@ == axis_exit(a_min as int, a_max as int, b_min as int, b_max as int, v as int),
{
    if v == 0 {
        (Time::NegInfinity, Time::PosInfinity)
    } else if v > 0 {
        (Time::At { num: b_min - a_max, den: v as i64 }, Time::At { num: b_max - a_min, den: v as i64 })
    } else {
        (
            Time::At { num: a_min - b_max, den: -(v as i64) },
            Time::At { num: a_max - b_min, den: -(v as i64) },
        )
    }
}

/// Sweeps box `a` by `relative_velocity` over one step against box `b`,
/// both seen from `b`'s frame, and reports the moment of first contact,
/// as a fraction of the step, together with the outward normal of the face
/// of `b` that is met, which points against the motion. No motion along an
/// axis makes the entry moment along it minus infinity, so boxes that
/// already touch with no relative motion report minus infinity (with the
/// upward normal).
pub fn swept_aabb_2d(
    a_pos: Vec2,
    a_collider: &Collider,
    relative_velocity: Vec2,
    b_pos: Vec2,
    b_collider: &Collider,
) -> (r: Option<(Time, Vec2)>)
    ensures
        hit_view(r) == swept_hit(a_pos, a_collider@, relative_velocity, b_collider@.at(b_pos)),
        r matches Some((t, n)) ==> t@.wf() && is_face_normal(n),
        r matches Some((_, n)) ==> !a_collider@.at(a_pos).touches(b_collider@.at(b_pos)) ==> n.x
            * relative_velocity.x + n.y * relative_velocity.y < 0,
{
    proof {
        a_collider.lemma_shape_fits();
        b_collider.lemma_shape_fits();
        crate::physics::contact::lemma_hit_normal_opposes_motion(
            a_pos,
            a_collider@,
            relative_velocity,
            b_collider@.at(b_pos),
        );
    }
    let (a_min_x, a_min_y, a_max_x, a_max_y) = a_collider.corners_at(a_pos);
    let (b_min_x, b_min_y, b_max_x, b_max_y) = b_collider.corners_at(b_pos);
    let v = relative_velocity;

    // broad phase: the box stretched over the whole step must touch `b`
    let sweep_min_x = if v.x > 0 { a_min_x } else { a_min_x + v.x as i64 };
    let sweep_max_x = if v.x > 0 { a_max_x + v.x as i64 } else { a_max_x };
    let sweep_min_y = if v.y > 0 { a_min_y } else { a_min_y + v.y as i64 };
    let sweep_max_y = if v.y > 0 { a_max_y + v.y as i64 } else { a_max_y };
    if sweep_max_x < b_min_x || sweep_min_x > b_max_x || sweep_max_y < b_min_y || sweep_min_y
        > b_max_y {
        return None;
    }

    let (entry_x, exit_x) = axis_times(a_min_x, a_max_x, b_min_x, b_max_x, v.x);
    let (entry_y, exit_y) = axis_times(a_min_y, a_max_y, b_min_y, b_max_y, v.y);

    let entry_time = if entry_x.lt(&entry_y) { entry_y } else { entry_x };
    let exit_time = if exit_y.lt(&exit_x) { exit_y } else { exit_x };
    let zero = Time::At { num: 0, den: 1 };
    let one = Time::At { num: 1, den: 1 };

    if exit_time.lt(&entry_time) || exit_time.lt(&zero) || one.lt(&entry_time) {
        None
    } else if entry_y.lt(&entry_x) {
        if v.x > 0 {
            Some((entry_time, Vec2 { x: -1, y: 0 }))
        } else {
            Some((entry_time, Vec2 { x: 1, y: 0 }))
        }
    } else {
        if v.y > 0 {
            Some((entry_time, Vec2 { x: 0, y: -1 }))
        } else {
            Some((entry_time, Vec2 { x: 0, y: 1 }))
        }
    }
}

} // verus!
