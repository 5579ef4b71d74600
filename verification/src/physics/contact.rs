//! What a swept hit means geometrically: the moving box touches the fixed
//! one at some moment of the step exactly when a hit is reported, and the
//! reported moment is the first contact.
use vstd::prelude::*;
use crate::vec2::Vec2;
use crate::physics::components::collider::{Aabb, BoxShape};
use crate::physics::time::{Moment, start, end, lemma_le_trans, lemma_lt_le_trans};
use crate::physics::{axis_entry, axis_exit, swept_hit};

verus! {

/// Along one axis, the span `[a_min, a_max]` moved by `v` times the
/// fraction `num / den` overlaps or meets `[b_min, b_max]` (both sides
/// multiplied by the positive `den`).
pub open spec fn axis_touching(a_min: int, a_max: int, b_min: int, b_max: int, v: int, num: int, den: int) -> bool {
    &&& a_max * den + v * num >= b_min * den
    &&& a_min * den + v * num <= b_max * den
}

/// Box `a` moved by `v` times the moment `s` touches box `b`.
pub open spec fn touching_at(a: Aabb, v: Vec2, b: Aabb, s: Moment) -> bool {
    match s {
        Moment::At { num, den } => {
            &&& axis_touching(a.min_x, a.max_x, b.min_x, b.max_x, v.x as int, num, den)
            &&& axis_touching(a.min_y, a.max_y, b.min_y, b.max_y, v.y as int, num, den)
        },
        _ => false,
    }
}

/// Along the x axis, box `a` moved by `v` times the moment `s` overlaps or
/// meets box `b`.
pub open spec fn touching_x_at(a: Aabb, v: Vec2, b: Aabb, s: Moment) -> bool {
    match s {
        Moment::At { num, den } => axis_touching(a.min_x, a.max_x, b.min_x, b.max_x, v.x as int, num, den),
        _ => false,
    }
}

/// Along the y axis, box `a` moved by `v` times the moment `s` overlaps or
/// meets box `b`.
pub open spec fn touching_y_at(a: Aabb, v: Vec2, b: Aabb, s: Moment) -> bool {
    match s {
        Moment::At { num, den } => axis_touching(a.min_y, a.max_y, b.min_y, b.max_y, v.y as int, num, den),
        _ => false,
    }
}

/// A finite moment between the start and the end of the step.
pub open spec fn within_step(s: Moment) -> bool {
    &&& s is At
    &&& s.wf()
    &&& start().le(s)
    &&& s.le(end())
}

/// Along a moving axis, the spans touch at `s` exactly when `s` lies between
/// the entry and the exit moment; along a still axis, exactly when they
/// touch at the start.
proof fn lemma_axis_touching(a_min: int, a_max: int, b_min: int, b_max: int, v: int, num: int, den: int)
    requires
        den > 0,
    ensures
        v != 0 ==> (axis_touching(a_min, a_max, b_min, b_max, v, num, den) <==> (axis_entry(
            a_min,
            a_max,
            b_min,
            b_max,
            v,
        ).le(Moment::At { num, den }) && (Moment::At { num, den }).le(
            axis_exit(a_min, a_max, b_min, b_max, v),
        ))),
        v == 0 ==> (axis_touching(a_min, a_max, b_min, b_max, v, num, den) <==> (a_max >= b_min
            && a_min <= b_max)),
        axis_entry(a_min, a_max, b_min, b_max, v).wf(),
        axis_exit(a_min, a_max, b_min, b_max, v).wf(),
{
    assert((b_min - a_max) * den == b_min * den - a_max * den) by (nonlinear_arith);
    assert((b_max - a_min) * den == b_max * den - a_min * den) by (nonlinear_arith);
    assert((a_min - b_max) * den == a_min * den - b_max * den) by (nonlinear_arith);
    assert((a_max - b_min) * den == a_max * den - b_min * den) by (nonlinear_arith);
    assert(num * v == v * num) by (nonlinear_arith);
    assert(num * (-v) == -(v * num)) by (nonlinear_arith);
    if v == 0 {
        assert(v * num == 0) by (nonlinear_arith)
            requires
                v == 0,
        ;
        assert(a_max * den >= b_min * den <==> a_max >= b_min) by (nonlinear_arith)
            requires
                den > 0,
        ;
        assert(a_min * den <= b_max * den <==> a_min <= b_max) by (nonlinear_arith)
            requires
                den > 0,
        ;
    }
}

/// Touching somewhere in the step along an axis implies that the span swept
/// over the whole step touches along that axis.
proof fn lemma_axis_touching_swept(a_min: int, a_max: int, b_min: int, b_max: int, v: int, num: int, den: int)
    requires
        0 <= num <= den,
        den > 0,
        axis_touching(a_min, a_max, b_min, b_max, v, num, den),
    ensures
        a_max + (if v > 0 { v } else { 0 }) >= b_min,
        a_min + (if v > 0 { 0 } else { v }) <= b_max,
{
    let up: int = if v > 0 { v } else { 0 };
    let down: int = if v > 0 { 0 } else { v };
    assert(v * num <= up * den) by (nonlinear_arith)
        requires
            0 <= num <= den,
            up == (if v > 0 { v } else { 0 }),
    ;
    assert(v * num >= down * den) by (nonlinear_arith)
        requires
            0 <= num <= den,
            down == (if v > 0 { 0 } else { v }),
    ;
    assert((a_max + up) * den >= b_min * den) by (nonlinear_arith)
        requires
            a_max * den + v * num >= b_min * den,
            v * num <= up * den,
    ;
    assert((a_min + down) * den <= b_max * den) by (nonlinear_arith)
        requires
            a_min * den + v * num <= b_max * den,
            v * num >= down * den,
    ;
    assert(a_max + up >= b_min) by (nonlinear_arith)
        requires
            (a_max + up) * den >= b_min * den,
            den > 0,
    ;
    assert(a_min + down <= b_max) by (nonlinear_arith)
        requires
            (a_min + down) * den <= b_max * den,
            den > 0,
    ;
}

/// The box swept over the whole step touches the fixed box whenever the
/// moving box touches it at some moment of the step: the broad phase never
/// misses a contact.
pub proof fn lemma_swept_box_covers_contacts(a_pos: Vec2, a_shape: BoxShape, v: Vec2, b: Aabb, s: Moment)
    requires
        within_step(s),
        touching_at(a_shape.at(a_pos), v, b, s),
    ensures
        a_shape.swept_by(v).at(a_pos).touches(b),
{
    let a = a_shape.at(a_pos);
    let (num, den) = match s {
        Moment::At { num, den } => (num, den),
        _ => (0, 1),
    };
    assert(0 <= num <= den) by (nonlinear_arith)
        requires
            den > 0,
            !(num * 1 < 0 * den),
            !(1 * den < num * 1),
    ;
    lemma_axis_touching_swept(a.min_x, a.max_x, b.min_x, b.max_x, v.x as int, num, den);
    lemma_axis_touching_swept(a.min_y, a.max_y, b.min_y, b.max_y, v.y as int, num, den);
}

/// Sweeping `a` against `b` with velocity `v` is sweeping `b` against `a`
/// with velocity `-v`: a hit is reported in both or in neither, at the
/// same moment, and when there is motion the two normals are opposite.
pub proof fn lemma_sweep_symmetric(a_pos: Vec2, a_shape: BoxShape, v: Vec2, b_pos: Vec2, b_shape: BoxShape)
    requires
        v.x > i32::MIN,
        v.y > i32::MIN,
    ensures
        ({
            let w = Vec2 { x: (-v.x) as i32, y: (-v.y) as i32 };
            let forward = swept_hit(a_pos, a_shape, v, b_shape.at(b_pos));
            let backward = swept_hit(b_pos, b_shape, w, a_shape.at(a_pos));
            &&& forward is Some <==> backward is Some
            &&& forward matches Some((t, n)) ==> backward matches Some((u, m)) && t == u && (v != Vec2 {
                x: 0,
                y: 0,
            } ==> m.x == -n.x && m.y == -n.y)
        }),
{
    let w = Vec2 { x: (-v.x) as i32, y: (-v.y) as i32 };
    let a = a_shape.at(a_pos);
    let b = b_shape.at(b_pos);
    assert(axis_entry(a.min_x, a.max_x, b.min_x, b.max_x, v.x as int) == axis_entry(
        b.min_x,
        b.max_x,
        a.min_x,
        a.max_x,
        w.x as int,
    ));
    assert(axis_entry(a.min_y, a.max_y, b.min_y, b.max_y, v.y as int) == axis_entry(
        b.min_y,
        b.max_y,
        a.min_y,
        a.max_y,
        w.y as int,
    ));
    assert(axis_exit(a.min_x, a.max_x, b.min_x, b.max_x, v.x as int) == axis_exit(
        b.min_x,
        b.max_x,
        a.min_x,
        a.max_x,
        w.x as int,
    ));
    assert(axis_exit(a.min_y, a.max_y, b.min_y, b.max_y, v.y as int) == axis_exit(
        b.min_y,
        b.max_y,
        a.min_y,
        a.max_y,
        w.y as int,
    ));
    assert(a_shape.swept_by(v).at(a_pos).touches(b) == b_shape.swept_by(w).at(b_pos).touches(a));
}

/// A sweep reports a hit exactly when the moving box touches the fixed box
/// at some moment of the step.
pub proof fn lemma_hit_iff_contact_in_step(a_pos: Vec2, a_shape: BoxShape, v: Vec2, b: Aabb)
    ensures
        swept_hit(a_pos, a_shape, v, b) is Some <==> exists|s: Moment|
            within_step(s) && #[trigger] touching_at(a_shape.at(a_pos), v, b, s),
{
    let a = a_shape.at(a_pos);
    let entry_x = axis_entry(a.min_x, a.max_x, b.min_x, b.max_x, v.x as int);
    let entry_y = axis_entry(a.min_y, a.max_y, b.min_y, b.max_y, v.y as int);
    let exit_x = axis_exit(a.min_x, a.max_x, b.min_x, b.max_x, v.x as int);
    let exit_y = axis_exit(a.min_y, a.max_y, b.min_y, b.max_y, v.y as int);
    let entry_time = entry_x.max(entry_y);
    let exit_time = exit_x.min(exit_y);
    lemma_axis_touching(a.min_x, a.max_x, b.min_x, b.max_x, v.x as int, 0, 1);
    lemma_axis_touching(a.min_y, a.max_y, b.min_y, b.max_y, v.y as int, 0, 1);
    if swept_hit(a_pos, a_shape, v, b) is Some {
        let s = if entry_time.lt(start()) { start() } else { entry_time };
        let (num, den) = match s {
            Moment::At { num, den } => (num, den),
            _ => (0, 1),
        };
        assert(s is At);
        lemma_axis_touching(a.min_x, a.max_x, b.min_x, b.max_x, v.x as int, num, den);
        lemma_axis_touching(a.min_y, a.max_y, b.min_y, b.max_y, v.y as int, num, den);
        assert(entry_time.le(s));
        assert(s.le(exit_time)) by {
            if s == start() {
            } else {
                assert(s == entry_time);
            }
        }
        lemma_le_trans(entry_x, entry_time, s);
        lemma_le_trans(entry_y, entry_time, s);
        lemma_le_trans(s, exit_time, exit_x);
        lemma_le_trans(s, exit_time, exit_y);
        assert(within_step(s));
        assert(touching_at(a, v, b, s));
    }
    if exists|s: Moment| within_step(s) && #[trigger] touching_at(a, v, b, s) {
        let s = choose|s: Moment| within_step(s) && #[trigger] touching_at(a, v, b, s);
        let (num, den) = match s {
            Moment::At { num, den } => (num, den),
            _ => (0, 1),
        };
        lemma_axis_touching(a.min_x, a.max_x, b.min_x, b.max_x, v.x as int, num, den);
        lemma_axis_touching(a.min_y, a.max_y, b.min_y, b.max_y, v.y as int, num, den);
        assert(0 <= num <= den) by (nonlinear_arith)
            requires
                den > 0,
                !(num * 1 < 0 * den),
                !(1 * den < num * 1),
        ;
        lemma_axis_touching_swept(a.min_x, a.max_x, b.min_x, b.max_x, v.x as int, num, den);
        lemma_axis_touching_swept(a.min_y, a.max_y, b.min_y, b.max_y, v.y as int, num, den);
        assert(a_shape.swept_by(v).at(a_pos).touches(b));
        assert(entry_time.le(s));
        assert(s.le(exit_time));
        lemma_le_trans(entry_time, s, exit_time);
        lemma_le_trans(start(), s, exit_time);
        lemma_le_trans(entry_time, s, end());
    }
}

/// Without relative motion a hit is reported exactly when the boxes touch,
/// at minus infinity.
pub proof fn lemma_still_hit_iff_touching(a_pos: Vec2, a_shape: BoxShape, b: Aabb)
    ensures
        swept_hit(a_pos, a_shape, Vec2 { x: 0, y: 0 }, b) is Some <==> a_shape.at(a_pos).touches(b),
        swept_hit(a_pos, a_shape, Vec2 { x: 0, y: 0 }, b) matches Some((t, _)) ==> t == Moment::NegInf,
{
}

/// For boxes apart at the start, the reported normal points against the
/// motion: its dot product with the relative velocity is negative.
pub proof fn lemma_hit_normal_opposes_motion(a_pos: Vec2, a_shape: BoxShape, v: Vec2, b: Aabb)
    ensures
        swept_hit(a_pos, a_shape, v, b) matches Some((_, n)) ==> !a_shape.at(a_pos).touches(b) ==> n.x
            * v.x + n.y * v.y < 0,
{
    if swept_hit(a_pos, a_shape, v, b) is Some && !a_shape.at(a_pos).touches(b) {
        let n = match swept_hit(a_pos, a_shape, v, b) {
            Some((_, n)) => n,
            None => Vec2 { x: 0, y: 0 },
        };
        if v.x == 0 && v.y == 0 {
            lemma_still_hit_iff_touching(a_pos, a_shape, b);
            assert(v == Vec2 { x: 0, y: 0 });
        }
        assert(n.x * v.x + n.y * v.y < 0) by (nonlinear_arith)
            requires
                (n.x == 0 && n.y == 1 && v.y < 0) || (n.x == 0 && n.y == -1 && v.y > 0) || (n.y == 0
                    && n.x == 1 && v.x < 0) || (n.y == 0 && n.x == -1 && v.x > 0),
        ;
    }
}

/// The reported normal is the outward normal of the face that is met: at
/// a finite reported moment the boxes touch, the normal lies along an axis
/// along which they were still apart at every earlier moment, and it points
/// against the motion along that axis.
pub proof fn lemma_hit_normal_is_face_met(a_pos: Vec2, a_shape: BoxShape, v: Vec2, b: Aabb)
    ensures
        swept_hit(a_pos, a_shape, v, b) matches Some((t, n)) ==> t is At ==> {
            let a = a_shape.at(a_pos);
            &&& touching_at(a, v, b, t)
            &&& (n.x != 0 || n.y != 0)
            &&& n.x != 0 ==> {
                &&& n.y == 0
                &&& v.x != 0
                &&& n.x == (if v.x > 0 { -1int } else { 1int })
                &&& forall|s: Moment| s.wf() && #[trigger] s.lt(t) ==> !touching_x_at(a, v, b, s)
            }
            &&& n.y != 0 ==> {
                &&& n.x == 0
                &&& v.y != 0
                &&& n.y == (if v.y > 0 { -1int } else { 1int })
                &&& forall|s: Moment| s.wf() && #[trigger] s.lt(t) ==> !touching_y_at(a, v, b, s)
            }
        },
{
    let a = a_shape.at(a_pos);
    let entry_x = axis_entry(a.min_x, a.max_x, b.min_x, b.max_x, v.x as int);
    let entry_y = axis_entry(a.min_y, a.max_y, b.min_y, b.max_y, v.y as int);
    let exit_x = axis_exit(a.min_x, a.max_x, b.min_x, b.max_x, v.x as int);
    let exit_y = axis_exit(a.min_y, a.max_y, b.min_y, b.max_y, v.y as int);
    let entry_time = entry_x.max(entry_y);
    let exit_time = exit_x.min(exit_y);
    if let Some((t, n)) = swept_hit(a_pos, a_shape, v, b) {
        if let Moment::At { num, den } = t {
            assert(t == entry_time);
            lemma_axis_touching(a.min_x, a.max_x, b.min_x, b.max_x, v.x as int, num, den);
            lemma_axis_touching(a.min_y, a.max_y, b.min_y, b.max_y, v.y as int, num, den);
            lemma_axis_touching(a.min_x, a.max_x, b.min_x, b.max_x, v.x as int, 0, 1);
            lemma_axis_touching(a.min_y, a.max_y, b.min_y, b.max_y, v.y as int, 0, 1);
            assert(t.le(exit_time));
            lemma_le_trans(t, exit_time, exit_x);
            lemma_le_trans(t, exit_time, exit_y);
            assert(touching_at(a, v, b, t));
            if entry_y.lt(entry_x) {
                assert(t == entry_x);
                assert forall|s: Moment| s.wf() && #[trigger] s.lt(t) implies !touching_x_at(a, v, b, s) by {
                    if let Moment::At { num: sn, den: sd } = s {
                        lemma_axis_touching(a.min_x, a.max_x, b.min_x, b.max_x, v.x as int, sn, sd);
                    }
                }
            } else {
                let ey = entry_y;
                assert(entry_x.le(entry_y));
                assert(ey is At);
                assert(t.le(entry_y)) by {
                    if entry_x.lt(entry_y) {
                        assert(t == entry_y);
                    } else {
                        assert(t == entry_x);
                    }
                }
                assert forall|s: Moment| s.wf() && #[trigger] s.lt(t) implies !touching_y_at(a, v, b, s) by {
                    lemma_lt_le_trans(s, t, entry_y);
                    if let Moment::At { num: sn, den: sd } = s {
                        lemma_axis_touching(a.min_y, a.max_y, b.min_y, b.max_y, v.y as int, sn, sd);
                    }
                }
            }
        }
    }
}

/// The reported moment is the first contact: at no earlier moment does the
/// moving box touch the fixed one.
pub proof fn lemma_hit_is_first_contact(a_pos: Vec2, a_shape: BoxShape, v: Vec2, b: Aabb, s: Moment)
    requires
        swept_hit(a_pos, a_shape, v, b) matches Some((t, _)) && s.lt(t),
        s is At,
        s.wf(),
    ensures
        !touching_at(a_shape.at(a_pos), v, b, s),
{
    let a = a_shape.at(a_pos);
    let entry_x = axis_entry(a.min_x, a.max_x, b.min_x, b.max_x, v.x as int);
    let entry_y = axis_entry(a.min_y, a.max_y, b.min_y, b.max_y, v.y as int);
    let (num, den) = match s {
        Moment::At { num, den } => (num, den),
        _ => (0, 1),
    };
    lemma_axis_touching(a.min_x, a.max_x, b.min_x, b.max_x, v.x as int, num, den);
    lemma_axis_touching(a.min_y, a.max_y, b.min_y, b.max_y, v.y as int, num, den);
}

} // verus!
