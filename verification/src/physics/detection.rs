//! Finding the collisions of a step: between every two moving bodies, and
//! between every moving body and every fixed one.
use vstd::prelude::*;
use crate::vec2::{Vec2, fits, to_coord};
use crate::physics::{swept_hit, swept_aabb_2d};
use crate::physics::components::collider::{Aabb, BoxShape, Collider};
use crate::physics::components::velocity::Velocity;
use crate::physics::events::collision_event::{CollisionMessage, Contact};
use crate::physics::response::{impact_at, impact_point, contacts};
use crate::physics::time::Moment;
use crate::physics::contact::{
    touching_at, within_step, lemma_hit_iff_contact_in_step, lemma_hit_is_first_contact,
};

verus! {

/// A moving body: its entity, position, velocity and collider.
pub struct DynamicBody {
    pub entity: u64,
    pub position: Vec2,
    pub velocity: Velocity,
    pub collider: Collider,
}

/// A fixed body: its entity, position and collider.
pub struct StaticBody {
    pub entity: u64,
    pub position: Vec2,
    pub collider: Collider,
}

/// What testing one pair of bodies gives: no hit, a hit, or a value that
/// leaves the range of coordinates.
pub ghost enum Outcome {
    Miss,
    Hit(Contact),
    OutOfRange,
}

/// Sweeping body `a_entity` (at `a_pos`, shape `a_shape`, velocity
/// `a_vel`) with relative velocity `(rel_x, rel_y)` against the box `b` of
/// body `b_entity`. A hit is reported at the point where `a` stands at the
/// moment of the hit, moving with its own velocity.
pub open spec fn sweep_outcome(
    a_entity: u64,
    a_pos: Vec2,
    a_shape: BoxShape,
    a_vel: Vec2,
    rel_x: int,
    rel_y: int,
    b_entity: u64,
    b: Aabb,
) -> Outcome {
    if !fits(rel_x) || !fits(rel_y) {
        Outcome::OutOfRange
    } else {
        match swept_hit(a_pos, a_shape, Vec2 { x: rel_x as i32, y: rel_y as i32 }, b) {
            None => Outcome::Miss,
            Some((t, n)) => {
                let p = impact_at(a_pos, a_vel, t);
                if fits(p.0) && fits(p.1) {
                    Outcome::Hit(
                        Contact {
                            a: a_entity,
                            b: b_entity,
                            normal: n,
                            time: t,
                            impact_point: Vec2 { x: p.0 as i32, y: p.1 as i32 },
                        },
                    )
                } else {
                    Outcome::OutOfRange
                }
            },
        }
    }
}

/// The outcome for two moving bodies, `a` swept with the difference of
/// their velocities.
pub open spec fn dynamic_pair(a: DynamicBody, b: DynamicBody) -> Outcome {
    sweep_outcome(
        a.entity,
        a.position,
        a.collider@,
        a.velocity@,
        a.velocity@.x - b.velocity@.x,
        a.velocity@.y - b.velocity@.y,
        b.entity,
        b.collider@.at(b.position),
    )
}

/// The outcome for a moving body against a fixed one.
pub open spec fn static_pair(a: DynamicBody, b: StaticBody) -> Outcome {
    sweep_outcome(
        a.entity,
        a.position,
        a.collider@,
        a.velocity@,
        a.velocity@.x as int,
        a.velocity@.y as int,
        b.entity,
        b.collider@.at(b.position),
    )
}

/// The contacts an outcome reports: one for a hit, none otherwise.
pub open spec fn reported(o: Outcome) -> Seq<Contact> {
    match o {
        Outcome::Hit(c) => seq![c],
        _ => Seq::empty(),
    }
}

/// The contacts of moving body `i` with the moving bodies after it and
/// before `k`, in order.
pub open spec fn dynamic_row(bodies: Seq<DynamicBody>, i: int, k: int) -> Seq<Contact>
    decreases k - i,
{
    if k <= i + 1 {
        Seq::empty()
    } else {
        dynamic_row(bodies, i, k - 1) + reported(dynamic_pair(bodies[i], bodies[k - 1]))
    }
}

/// The contacts between moving bodies whose first body comes before `i`:
/// every pair once, the earlier body first, in order.
pub open spec fn dynamic_contacts(bodies: Seq<DynamicBody>, i: int) -> Seq<Contact>
    decreases i,
{
    if i <= 0 {
        Seq::empty()
    } else {
        dynamic_contacts(bodies, i - 1) + dynamic_row(bodies, i - 1, bodies.len() as int)
    }
}

/// No pair of moving bodies leaves the range of coordinates.
pub open spec fn dynamic_in_range(bodies: Seq<DynamicBody>) -> bool {
    forall|i: int, j: int|
        0 <= i < j < bodies.len() ==> !(#[trigger] dynamic_pair(bodies[i], bodies[j]) is OutOfRange)
}

/// The contacts of moving body `i` with the fixed bodies before `k`.
pub open spec fn static_row(dynamic: Seq<DynamicBody>, fixed: Seq<StaticBody>, i: int, k: int) -> Seq<Contact>
    decreases k,
{
    if k <= 0 {
        Seq::empty()
    } else {
        static_row(dynamic, fixed, i, k - 1) + reported(static_pair(dynamic[i], fixed[k - 1]))
    }
}

/// The contacts of the moving bodies before `i` with all fixed bodies, in
/// order.
pub open spec fn static_contacts(dynamic: Seq<DynamicBody>, fixed: Seq<StaticBody>, i: int) -> Seq<Contact>
    decreases i,
{
    if i <= 0 {
        Seq::empty()
    } else {
        static_contacts(dynamic, fixed, i - 1) + static_row(dynamic, fixed, i - 1, fixed.len() as int)
    }
}

/// No moving body and fixed body leave the range of coordinates.
pub open spec fn static_in_range(dynamic: Seq<DynamicBody>, fixed: Seq<StaticBody>) -> bool {
    forall|i: int, j: int|
        0 <= i < dynamic.len() && 0 <= j < fixed.len() ==> !(#[trigger] static_pair(
            dynamic[i],
            fixed[j],
        ) is OutOfRange)
}

/// Box `a` moved by `va` times the moment `s` touches box `b` moved by `vb`
/// times the same moment.
pub open spec fn both_touching_at(a: Aabb, va: Vec2, b: Aabb, vb: Vec2, s: Moment) -> bool {
    match s {
        Moment::At { num, den } => {
            &&& a.max_x * den + va.x * num >= b.min_x * den + vb.x * num
            &&& a.min_x * den + va.x * num <= b.max_x * den + vb.x * num
            &&& a.max_y * den + va.y * num >= b.min_y * den + vb.y * num
            &&& a.min_y * den + va.y * num <= b.max_y * den + vb.y * num
        },
        _ => false,
    }
}

/// Both boxes moving touch exactly when the first, moved by the difference
/// of the velocities, touches the second standing still.
proof fn lemma_both_touching_relative(a: Aabb, va: Vec2, b: Aabb, vb: Vec2, rel: Vec2, s: Moment)
    requires
        rel.x == va.x - vb.x,
        rel.y == va.y - vb.y,
    ensures
        both_touching_at(a, va, b, vb, s) == touching_at(a, rel, b, s),
{
    if let Moment::At { num, den } = s {
        assert(rel.x * num == va.x * num - vb.x * num) by (nonlinear_arith)
            requires
                rel.x == va.x - vb.x,
        ;
        assert(rel.y * num == va.y * num - vb.y * num) by (nonlinear_arith)
            requires
                rel.y == va.y - vb.y,
        ;
    }
}

/// The meaning of testing two moving bodies: a collision of `a` with `b` is
/// reported exactly when, at some moment of the step, `a`'s box moved with
/// `a`'s velocity touches `b`'s box moved with `b`'s velocity. A reported
/// collision names `a` then `b`, its moment is the first contact (no
/// earlier moment has the boxes touching), and its impact point is where
/// `a` stands at that moment, rounded down.
pub proof fn lemma_dynamic_pair_is_contact(a: DynamicBody, b: DynamicBody)
    ensures
        ({
            let ab = a.collider@.at(a.position);
            let bb = b.collider@.at(b.position);
            let va = a.velocity@;
            let vb = b.velocity@;
            &&& dynamic_pair(a, b) is Miss ==> !exists|s: Moment| within_step(s) && #[trigger] both_touching_at(ab, va, bb, vb, s)
            &&& dynamic_pair(a, b) matches Outcome::Hit(c) ==> {
                &&& exists|s: Moment| within_step(s) && #[trigger] both_touching_at(ab, va, bb, vb, s)
                &&& c.a == a.entity && c.b == b.entity
                &&& forall|s: Moment| s.wf() && #[trigger] s.lt(c.time) ==> !both_touching_at(ab, va, bb, vb, s)
                &&& c.time matches Moment::At { num, den } ==> den > 0
                    && c.impact_point.x == a.position.x + (va.x * num) / den
                    && c.impact_point.y == a.position.y + (va.y * num) / den
            }
        }),
{
    let ab = a.collider@.at(a.position);
    let bb = b.collider@.at(b.position);
    let va = a.velocity@;
    let vb = b.velocity@;
    let rx = va.x - vb.x;
    let ry = va.y - vb.y;
    if crate::vec2::fits(rx) && crate::vec2::fits(ry) {
        let rel = Vec2 { x: rx as i32, y: ry as i32 };
        lemma_hit_iff_contact_in_step(a.position, a.collider@, rel, bb);
        if exists|s: Moment| within_step(s) && #[trigger] touching_at(ab, rel, bb, s) {
            let s = choose|s: Moment| within_step(s) && #[trigger] touching_at(ab, rel, bb, s);
            lemma_both_touching_relative(ab, va, bb, vb, rel, s);
            assert(within_step(s) && both_touching_at(ab, va, bb, vb, s));
        }
        if exists|s: Moment| within_step(s) && #[trigger] both_touching_at(ab, va, bb, vb, s) {
            let s = choose|s: Moment| within_step(s) && #[trigger] both_touching_at(ab, va, bb, vb, s);
            lemma_both_touching_relative(ab, va, bb, vb, rel, s);
            assert(within_step(s) && touching_at(ab, rel, bb, s));
        }
        if let Some((t, n)) = swept_hit(a.position, a.collider@, rel, bb) {
            assert forall|s: Moment| s.wf() && #[trigger] s.lt(t) implies !both_touching_at(ab, va, bb, vb, s) by {
                lemma_both_touching_relative(ab, va, bb, vb, rel, s);
                if s is At {
                    lemma_hit_is_first_contact(a.position, a.collider@, rel, bb, s);
                }
            }
        }
    }
}

/// The meaning of testing a moving body against a fixed one: a collision is
/// reported exactly when, at some moment of the step, the moving box moved
/// with its velocity touches the fixed box. A reported collision names the
/// moving body then the fixed one, its moment is the first contact, and its
/// impact point is where the moving body stands at that moment, rounded
/// down.
pub proof fn lemma_static_pair_is_contact(a: DynamicBody, b: StaticBody)
    ensures
        ({
            let ab = a.collider@.at(a.position);
            let bb = b.collider@.at(b.position);
            let va = a.velocity@;
            &&& static_pair(a, b) is Miss ==> !exists|s: Moment| within_step(s) && #[trigger] touching_at(ab, va, bb, s)
            &&& static_pair(a, b) matches Outcome::Hit(c) ==> {
                &&& exists|s: Moment| within_step(s) && #[trigger] touching_at(ab, va, bb, s)
                &&& c.a == a.entity && c.b == b.entity
                &&& forall|s: Moment| s.wf() && #[trigger] s.lt(c.time) ==> !touching_at(ab, va, bb, s)
                &&& c.time matches Moment::At { num, den } ==> den > 0
                    && c.impact_point.x == a.position.x + (va.x * num) / den
                    && c.impact_point.y == a.position.y + (va.y * num) / den
            }
        }),
{
    let ab = a.collider@.at(a.position);
    let bb = b.collider@.at(b.position);
    let va = a.velocity@;
    lemma_hit_iff_contact_in_step(a.position, a.collider@, va, bb);
    if let Some((t, n)) = swept_hit(a.position, a.collider@, va, bb) {
        assert forall|s: Moment| s.wf() && #[trigger] s.lt(t) implies !touching_at(ab, va, bb, s) by {
            if s is At {
                lemma_hit_is_first_contact(a.position, a.collider@, va, bb, s);
            }
        }
    }
}

/// A concatenation holds exactly what either part holds.
proof fn lemma_concat_contains(s1: Seq<Contact>, s2: Seq<Contact>, c: Contact)
    ensures
        (s1 + s2).contains(c) <==> s1.contains(c) || s2.contains(c),
{
    if (s1 + s2).contains(c) {
        let k = choose|k: int| 0 <= k < (s1 + s2).len() && (s1 + s2)[k] == c;
        if k < s1.len() {
            assert(s1[k] == c);
        } else {
            assert(s2[k - s1.len()] == c);
        }
    }
    if s1.contains(c) {
        let k = choose|k: int| 0 <= k < s1.len() && s1[k] == c;
        assert((s1 + s2)[k] == c);
    }
    if s2.contains(c) {
        let k = choose|k: int| 0 <= k < s2.len() && s2[k] == c;
        assert((s1 + s2)[k + s1.len()] == c);
    }
}

/// An outcome reports `c` exactly when it is a hit with contact `c`.
proof fn lemma_reported_contains(o: Outcome, c: Contact)
    ensures
        reported(o).contains(c) <==> o == Outcome::Hit(c),
{
    if o == Outcome::Hit(c) {
        assert(reported(o)[0] == c);
    }
}

/// The row of moving body `i` holds exactly the hits of `i` with the bodies
/// after it and before `k`.
proof fn lemma_dynamic_row_members(bodies: Seq<DynamicBody>, i: int, k: int, c: Contact)
    ensures
        dynamic_row(bodies, i, k).contains(c) <==> exists|j: int|
            i < j < k && #[trigger] dynamic_pair(bodies[i], bodies[j]) == Outcome::Hit(c),
    decreases k - i,
{
    if k > i + 1 {
        lemma_dynamic_row_members(bodies, i, k - 1, c);
        lemma_concat_contains(dynamic_row(bodies, i, k - 1), reported(dynamic_pair(bodies[i], bodies[k - 1])), c);
        lemma_reported_contains(dynamic_pair(bodies[i], bodies[k - 1]), c);
    }
}

/// Every two moving bodies are tested once: the contacts found between
/// moving bodies are exactly the hits of the pairs `i < j`.
pub proof fn lemma_dynamic_contacts_members(bodies: Seq<DynamicBody>, i: int, c: Contact)
    requires
        0 <= i <= bodies.len(),
    ensures
        dynamic_contacts(bodies, i).contains(c) <==> exists|p: int, q: int|
            0 <= p < i && p < q < bodies.len() && #[trigger] dynamic_pair(bodies[p], bodies[q])
                == Outcome::Hit(c),
    decreases i,
{
    if i > 0 {
        lemma_dynamic_contacts_members(bodies, i - 1, c);
        lemma_dynamic_row_members(bodies, i - 1, bodies.len() as int, c);
        lemma_concat_contains(dynamic_contacts(bodies, i - 1), dynamic_row(bodies, i - 1, bodies.len() as int), c);
    }
}

/// The row of moving body `i` holds exactly its hits with the fixed bodies
/// before `k`.
proof fn lemma_static_row_members(dynamic: Seq<DynamicBody>, fixed: Seq<StaticBody>, i: int, k: int, c: Contact)
    ensures
        static_row(dynamic, fixed, i, k).contains(c) <==> exists|j: int|
            0 <= j < k && #[trigger] static_pair(dynamic[i], fixed[j]) == Outcome::Hit(c),
    decreases k,
{
    if k > 0 {
        lemma_static_row_members(dynamic, fixed, i, k - 1, c);
        lemma_concat_contains(static_row(dynamic, fixed, i, k - 1), reported(static_pair(dynamic[i], fixed[k - 1])), c);
        lemma_reported_contains(static_pair(dynamic[i], fixed[k - 1]), c);
    }
}

/// Every moving body is tested against every fixed body: the contacts found
/// are exactly the hits of those pairs.
pub proof fn lemma_static_contacts_members(dynamic: Seq<DynamicBody>, fixed: Seq<StaticBody>, i: int, c: Contact)
    requires
        0 <= i <= dynamic.len(),
    ensures
        static_contacts(dynamic, fixed, i).contains(c) <==> exists|p: int, q: int|
            0 <= p < i && 0 <= q < fixed.len() && #[trigger] static_pair(dynamic[p], fixed[q])
                == Outcome::Hit(c),
    decreases i,
{
    if i > 0 {
        lemma_static_contacts_members(dynamic, fixed, i - 1, c);
        lemma_static_row_members(dynamic, fixed, i - 1, fixed.len() as int, c);
        lemma_concat_contains(static_contacts(dynamic, fixed, i - 1), static_row(dynamic, fixed, i - 1, fixed.len() as int), c);
    }
}

/// Runs one sweep; `Err` when a value leaves the range of coordinates.
fn sweep_pair(
    a_entity: u64,
    a_pos: Vec2,
    a_collider: &Collider,
    a_vel: Vec2,
    rel_x: i64,
    rel_y: i64,
    b_entity: u64,
    b_pos: Vec2,
    b_collider: &Collider,
) -> (r: Result<Option<CollisionMessage>, ()>)
    ensures
        match sweep_outcome(
            a_entity,
            a_pos,
            a_collider@,
            a_vel,
            rel_x as int,
            rel_y as int,
            b_entity,
            b_collider@.at(b_pos),
        ) {
            Outcome::Miss => r == Ok::<Option<CollisionMessage>, ()>(None),
            Outcome::Hit(c) => r matches Ok(Some(m)) && m@ == c && m.time@.wf(),
            Outcome::OutOfRange => r is Err,
        },
{
    let rel = match (to_coord(rel_x as i128), to_coord(rel_y as i128)) {
        (Some(x), Some(y)) => Vec2 { x, y },
        _ => {
            return Err(());
        },
    };
    match swept_aabb_2d(a_pos, a_collider, rel, b_pos, b_collider) {
        None => Ok(None),
        Some((t, normal)) => match impact_point(a_pos, a_vel, t) {
            Some(p) => Ok(Some(CollisionMessage { a: a_entity, b: b_entity, normal, time: t, impact_point: p })),
            None => Err(()),
        },
    }
}

/// Finds the collisions between every two moving bodies, each pair once
/// with the earlier body as `a`, in order. Nothing when a value leaves the
/// range of coordinates.
pub fn detect_dynamic_collisions(dynamic: &[DynamicBody]) -> (r: Option<Vec<CollisionMessage>>)
    ensures
        r is None <==> !dynamic_in_range(dynamic@),
        r matches Some(ms) ==> contacts(ms@) == dynamic_contacts(dynamic@, dynamic@.len() as int),
        r matches Some(ms) ==> forall|k: int| 0 <= k < ms@.len() ==> (#[trigger] ms@[k]).time@.wf(),
{
    let n = dynamic.len();
    let mut out: Vec<CollisionMessage> = Vec::new();
    let mut i: usize = 0;
    while i < n
        invariant
            n == dynamic@.len(),
            i <= n,
            contacts(out@) == dynamic_contacts(dynamic@, i as int),
            forall|k: int| 0 <= k < out@.len() ==> (#[trigger] out@[k]).time@.wf(),
            forall|p: int, q: int|
                0 <= p < i && p < q < n ==> !(#[trigger] dynamic_pair(dynamic@[p], dynamic@[q]) is OutOfRange),
        decreases n - i,
    {
        let mut j: usize = i + 1;
        while j < n
            invariant
                n == dynamic@.len(),
                i < n,
                i + 1 <= j <= n,
                contacts(out@) == dynamic_contacts(dynamic@, i as int) + dynamic_row(dynamic@, i as int, j as int),
                forall|k: int| 0 <= k < out@.len() ==> (#[trigger] out@[k]).time@.wf(),
                forall|p: int, q: int|
                    0 <= p < i && p < q < n ==> !(#[trigger] dynamic_pair(dynamic@[p], dynamic@[q]) is OutOfRange),
                forall|q: int| i < q < j ==> !(#[trigger] dynamic_pair(dynamic@[i as int], dynamic@[q]) is OutOfRange),
            decreases n - j,
        {
            let a = &dynamic[i];
            let b = &dynamic[j];
            let va = a.velocity.xy();
            let vb = b.velocity.xy();
            let rel_x = va.x as i64 - vb.x as i64;
            let rel_y = va.y as i64 - vb.y as i64;
            match sweep_pair(a.entity, a.position, &a.collider, va, rel_x, rel_y, b.entity, b.position, &b.collider) {
                Err(()) => {
                    assert(dynamic_pair(dynamic@[i as int], dynamic@[j as int]) is OutOfRange);
                    return None;
                },
                Ok(None) => {
                    assert(contacts(out@) =~= dynamic_contacts(dynamic@, i as int) + dynamic_row(dynamic@, i as int, j + 1));
                },
                Ok(Some(m)) => {
                    let ghost before = out@;
                    out.push(m);
                    assert(contacts(out@) =~= contacts(before).push(m@));
                    assert(contacts(out@) =~= dynamic_contacts(dynamic@, i as int) + dynamic_row(dynamic@, i as int, j + 1));
                },
            }
            j = j + 1;
        }
        assert(contacts(out@) =~= dynamic_contacts(dynamic@, i + 1));
        i = i + 1;
    }
    Some(out)
}

/// Finds the collisions of every moving body with every fixed body, with
/// the moving body as `a`, in order of moving body and then of fixed body.
/// Nothing when a value leaves the range of coordinates.
pub fn detect_dynamic_to_static_collisions(dynamic: &[DynamicBody], fixed: &[StaticBody]) -> (r: Option<Vec<CollisionMessage>>)
    ensures
        r is None <==> !static_in_range(dynamic@, fixed@),
        r matches Some(ms) ==> contacts(ms@) == static_contacts(dynamic@, fixed@, dynamic@.len() as int),
        r matches Some(ms) ==> forall|k: int| 0 <= k < ms@.len() ==> (#[trigger] ms@[k]).time@.wf(),
{
    let n = dynamic.len();
    let f = fixed.len();
    let mut out: Vec<CollisionMessage> = Vec::new();
    let mut i: usize = 0;
    while i < n
        invariant
            n == dynamic@.len(),
            f == fixed@.len(),
            i <= n,
            contacts(out@) == static_contacts(dynamic@, fixed@, i as int),
            forall|k: int| 0 <= k < out@.len() ==> (#[trigger] out@[k]).time@.wf(),
            forall|p: int, q: int|
                0 <= p < i && 0 <= q < f ==> !(#[trigger] static_pair(dynamic@[p], fixed@[q]) is OutOfRange),
        decreases n - i,
    {
        let mut j: usize = 0;
        while j < f
            invariant
                n == dynamic@.len(),
                f == fixed@.len(),
                i < n,
                j <= f,
                contacts(out@) == static_contacts(dynamic@, fixed@, i as int) + static_row(dynamic@, fixed@, i as int, j as int),
                forall|k: int| 0 <= k < out@.len() ==> (#[trigger] out@[k]).time@.wf(),
                forall|p: int, q: int|
                    0 <= p < i && 0 <= q < f ==> !(#[trigger] static_pair(dynamic@[p], fixed@[q]) is OutOfRange),
                forall|q: int| 0 <= q < j ==> !(#[trigger] static_pair(dynamic@[i as int], fixed@[q]) is OutOfRange),
            decreases f - j,
        {
            let a = &dynamic[i];
            let b = &fixed[j];
            let va = a.velocity.xy();
            match sweep_pair(a.entity, a.position, &a.collider, va, va.x as i64, va.y as i64, b.entity, b.position, &b.collider) {
                Err(()) => {
                    assert(static_pair(dynamic@[i as int], fixed@[j as int]) is OutOfRange);
                    return None;
                },
                Ok(None) => {
                    assert(contacts(out@) =~= static_contacts(dynamic@, fixed@, i as int) + static_row(dynamic@, fixed@, i as int, j + 1));
                },
                Ok(Some(m)) => {
                    let ghost before = out@;
                    out.push(m);
                    assert(contacts(out@) =~= contacts(before).push(m@));
                    assert(contacts(out@) =~= static_contacts(dynamic@, fixed@, i as int) + static_row(dynamic@, fixed@, i as int, j + 1));
                },
            }
            j = j + 1;
        }
        assert(contacts(out@) =~= static_contacts(dynamic@, fixed@, i + 1));
        i = i + 1;
    }
    Some(out)
}

} // verus!
