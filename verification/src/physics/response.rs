//! Collision response: placing a body at its point of impact, reflecting
//! its velocity, and moving the bodies that did not collide.
use vstd::prelude::*;
use crate::vec2::{Vec2, fits, floor_div, to_coord};
use crate::physics::time::{Moment, Time};
use crate::physics::components::velocity::Velocity;
use crate::physics::events::collision_event::{CollisionMessage, Contact};
use crate::physics::is_face_normal;

verus! {

/// The x component of `v` reflected off a surface with normal `n`,
/// `v - 2 (v . n) n`.
pub open spec fn reflect_x(v: Vec2, n: Vec2) -> int {
    v.x - 2 * (v.x * n.x + v.y * n.y) * n.x
}

/// The y component of `v` reflected off a surface with normal `n`.
pub open spec fn reflect_y(v: Vec2, n: Vec2) -> int {
    v.y - 2 * (v.x * n.x + v.y * n.y) * n.y
}

/// The coordinate `p` advanced by the displacement `d` scaled by the moment
/// `t`, rounded down; a moment that is not a finite fraction leaves `p` where
/// it is.
pub open spec fn advance(p: int, d: int, t: Moment) -> int {
    match t {
        Moment::At { num, den } => p + (d * num) / den,
        _ => p,
    }
}

/// The part of the step left after moment `t`; nothing is left after a
/// moment that is not a finite fraction.
pub open spec fn rest_of_step(t: Moment) -> Moment {
    match t {
        Moment::At { num, den } => Moment::At { num: den - num, den },
        _ => Moment::At { num: 0, den: 1 },
    }
}

/// Where a body that starts the step at `pos` with velocity `vel` stands
/// at moment `t` of the step.
pub open spec fn impact_at(pos: Vec2, vel: Vec2, t: Moment) -> (int, int) {
    (advance(pos.x as int, vel.x as int, t), advance(pos.y as int, vel.y as int, t))
}

/// The response of a body with velocity `vel` to the collision `c`: it is
/// put at the point of impact, its velocity is reflected off the normal, and
/// it moves on with the reflected velocity for the rest of the step. Nothing
/// when a coordinate leaves the range of coordinates.
pub open spec fn response(vel: Vec2, c: Contact) -> Option<(Vec2, Vec2)> {
    let rx = reflect_x(vel, c.normal);
    let ry = reflect_y(vel, c.normal);
    let rest = rest_of_step(c.time);
    let px = advance(c.impact_point.x as int, rx, rest);
    let py = advance(c.impact_point.y as int, ry, rest);
    if fits(rx) && fits(ry) && fits(px) && fits(py) {
        Some((Vec2 { x: px as i32, y: py as i32 }, Vec2 { x: rx as i32, y: ry as i32 }))
    } else {
        None
    }
}

/// Reflecting off a face turns back the component of the velocity along the
/// face's normal and keeps the other one; reflecting twice off the same face
/// gives the velocity back.
pub proof fn lemma_reflect_off_face(v: Vec2, n: Vec2)
    requires
        is_face_normal(n),
    ensures
        n.x != 0 ==> reflect_x(v, n) == -v.x && reflect_y(v, n) == v.y,
        n.y != 0 ==> reflect_x(v, n) == v.x && reflect_y(v, n) == -v.y,
        fits(reflect_x(v, n)) && fits(reflect_y(v, n)) ==> ({
            let r = Vec2 { x: reflect_x(v, n) as i32, y: reflect_y(v, n) as i32 };
            reflect_x(r, n) == v.x && reflect_y(r, n) == v.y
        }),
{
    assert(n.x != 0 ==> reflect_x(v, n) == -v.x && reflect_y(v, n) == v.y) by (nonlinear_arith)
        requires
            (n.x == 0 && (n.y == 1 || n.y == -1)) || (n.y == 0 && (n.x == 1 || n.x == -1)),
            reflect_x(v, n) == v.x - 2 * (v.x * n.x + v.y * n.y) * n.x,
            reflect_y(v, n) == v.y - 2 * (v.x * n.x + v.y * n.y) * n.y,
    ;
    assert(n.y != 0 ==> reflect_x(v, n) == v.x && reflect_y(v, n) == -v.y) by (nonlinear_arith)
        requires
            (n.x == 0 && (n.y == 1 || n.y == -1)) || (n.y == 0 && (n.x == 1 || n.x == -1)),
            reflect_x(v, n) == v.x - 2 * (v.x * n.x + v.y * n.y) * n.x,
            reflect_y(v, n) == v.y - 2 * (v.x * n.x + v.y * n.y) * n.y,
    ;
    if fits(reflect_x(v, n)) && fits(reflect_y(v, n)) {
        let r = Vec2 { x: reflect_x(v, n) as i32, y: reflect_y(v, n) as i32 };
        assert(reflect_x(r, n) == v.x && reflect_y(r, n) == v.y) by (nonlinear_arith)
            requires
                (n.x == 0 && (n.y == 1 || n.y == -1)) || (n.y == 0 && (n.x == 1 || n.x == -1)),
                r.x == v.x - 2 * (v.x * n.x + v.y * n.y) * n.x,
                r.y == v.y - 2 * (v.x * n.x + v.y * n.y) * n.y,
                reflect_x(r, n) == r.x - 2 * (r.x * n.x + r.y * n.y) * n.x,
                reflect_y(r, n) == r.y - 2 * (r.x * n.x + r.y * n.y) * n.y,
        ;
    }
}

/// The meaning of a collision response: the new velocity is the old one
/// reflected off the normal, `v - 2 (v . n) n`, and the new position is the
/// impact point moved on by the new velocity for the rest of the step after
/// the moment of the collision (rounded down); a moment that is not a finite
/// fraction leaves the body at the impact point. A response is given
/// exactly when both vectors fit in coordinates.
pub proof fn lemma_response_moves_on_with_new_velocity(vel: Vec2, c: Contact)
    requires
        c.time.wf(),
    ensures
        response(vel, c) matches Some((p, w)) ==> {
            &&& w.x == vel.x - 2 * (vel.x * c.normal.x + vel.y * c.normal.y) * c.normal.x
            &&& w.y == vel.y - 2 * (vel.x * c.normal.x + vel.y * c.normal.y) * c.normal.y
            &&& c.time matches Moment::At { num, den } ==> {
                &&& p.x == c.impact_point.x + (w.x * (den - num)) / den
                &&& p.y == c.impact_point.y + (w.y * (den - num)) / den
            }
            &&& !(c.time is At) ==> p == c.impact_point
        },
        response(vel, c) is None ==> ({
            let wx = vel.x - 2 * (vel.x * c.normal.x + vel.y * c.normal.y) * c.normal.x;
            let wy = vel.y - 2 * (vel.x * c.normal.x + vel.y * c.normal.y) * c.normal.y;
            ||| !fits(wx)
            ||| !fits(wy)
            ||| (c.time matches Moment::At { num, den } && (!fits(c.impact_point.x + (wx * (den - num)) / den)
                || !fits(c.impact_point.y + (wy * (den - num)) / den)))
        }),
{
    if let Some((p, w)) = response(vel, c) {
        if !(c.time is At) {
            let rx = reflect_x(vel, c.normal);
            let ry = reflect_y(vel, c.normal);
            assert((rx * 0) / 1 == 0 && (ry * 0) / 1 == 0) by (nonlinear_arith);
        }
    } else {
        if !(c.time is At) {
            let rx = reflect_x(vel, c.normal);
            let ry = reflect_y(vel, c.normal);
            assert((rx * 0) / 1 == 0 && (ry * 0) / 1 == 0) by (nonlinear_arith);
        }
    }
}

/// Bounds on a product of bounded integers.
proof fn lemma_product_bound(a: int, b: int, ma: int, mb: int)
    requires
        -ma <= a <= ma,
        -mb <= b <= mb,
    ensures
        -(ma * mb) <= a * b <= ma * mb,
{
    assert(-(ma * mb) <= a * b <= ma * mb) by (nonlinear_arith)
        requires
            -ma <= a <= ma,
            -mb <= b <= mb,
    ;
}

/// Reflects the velocity `v` off a surface with normal `normal`.
pub fn reflect(v: Vec2, normal: Vec2) -> (r: Vec2)
    requires
        fits(reflect_x(v, normal)),
        fits(reflect_y(v, normal)),
    ensures
        r.x == reflect_x(v, normal),
        r.y == reflect_y(v, normal),
{
    let (x, y) = reflect_wide(v, normal);
    Vec2 { x: x as i32, y: y as i32 }
}

/// The two components of a reflection, computed wide enough not to overflow.
fn reflect_wide(v: Vec2, n: Vec2) -> (r: (i128, i128))
    ensures
        r.0 == reflect_x(v, n),
        r.1 == reflect_y(v, n),
{
    let ghost m: int = 0x8000_0000;
    proof {
        lemma_product_bound(v.x as int, n.x as int, m, m);
        lemma_product_bound(v.y as int, n.y as int, m, m);
    }
    let dot: i128 = v.x as i128 * n.x as i128 + v.y as i128 * n.y as i128;
    proof {
        lemma_product_bound(2 * dot, n.x as int, 4 * m * m, m);
        lemma_product_bound(2 * dot, n.y as int, 4 * m * m, m);
        assert(4 * m * m * m == 0x8000_0000_0000_0000_0000_0000) by (nonlinear_arith)
            requires
                m == 0x8000_0000,
        ;
    }
    let x: i128 = v.x as i128 - 2 * dot * n.x as i128;
    let y: i128 = v.y as i128 - 2 * dot * n.y as i128;
    (x, y)
}

/// `p + floor(d * num / den)`, computed wide.
fn advance_frac(p: i32, d: i32, num: i128, den: i128) -> (r: i128)
    requires
        0 < den <= 0x1_0000_0000_0000_0000,
        -0x2_0000_0000_0000_0000 <= num <= 0x2_0000_0000_0000_0000,
    ensures
        r == p + (d * num) / (den as int),
{
    proof {
        lemma_product_bound(d as int, num as int, 0x8000_0000, 0x2_0000_0000_0000_0000);
    }
    let q = floor_div(d as i128 * num, den);
    proof {
        assert(-0x1_0000_0000_0000_0000_0000_0000 <= q <= 0x1_0000_0000_0000_0000_0000_0000) by (
        nonlinear_arith)
            requires
                q == (d * num) / (den as int),
                den > 0,
                -0x1_0000_0000_0000_0000_0000_0000 <= d * num <= 0x1_0000_0000_0000_0000_0000_0000,
        ;
    }
    p as i128 + q
}

/// Where a body that starts the step at `pos` with velocity `vel` stands at
/// moment `t`, rounded down; nothing when that point leaves the range of
/// coordinates.
pub fn impact_point(pos: Vec2, vel: Vec2, t: Time) -> (r: Option<Vec2>)
    requires
        t@.wf(),
    ensures
        r is Some <==> fits(impact_at(pos, vel, t@).0) && fits(impact_at(pos, vel, t@).1),
        r matches Some(p) ==> p.x == impact_at(pos, vel, t@).0 && p.y == impact_at(pos, vel, t@).1,
{
    match t {
        Time::At { num, den } => {
            let x = advance_frac(pos.x, vel.x, num as i128, den as i128);
            let y = advance_frac(pos.y, vel.y, num as i128, den as i128);
            match (to_coord(x), to_coord(y)) {
                (Some(x), Some(y)) => Some(Vec2 { x, y }),
                _ => None,
            }
        },
        _ => Some(pos),
    }
}

/// The response of a body with velocity `velocity` to `message`: its new
/// position and its new velocity.
pub fn resolve_collision(velocity: Vec2, message: &CollisionMessage) -> (r: Option<(Vec2, Vec2)>)
    requires
        message.time@.wf(),
    ensures
        r == response(velocity, message@),
{
    let (rx, ry) = reflect_wide(velocity, message.normal);
    let (rx, ry) = match (to_coord(rx), to_coord(ry)) {
        (Some(x), Some(y)) => (x, y),
        _ => {
            return None;
        },
    };
    let (px, py) = match message.time {
        Time::At { num, den } => {
            let rest = den as i128 - num as i128;
            (
                advance_frac(message.impact_point.x, rx, rest, den as i128),
                advance_frac(message.impact_point.y, ry, rest, den as i128),
            )
        },
        _ => (
            advance_frac(message.impact_point.x, rx, 0, 1),
            advance_frac(message.impact_point.y, ry, 0, 1),
        ),
    };
    match (to_coord(px), to_coord(py)) {
        (Some(x), Some(y)) => Some((Vec2 { x, y }, Vec2 { x: rx, y: ry })),
        _ => None,
    }
}

} // verus!

verus! {

/// A body that collisions can move: its entity, position and velocity, and
/// whether it has already been moved during the current step.
#[derive(Clone, Copy, Debug, PartialEq, Eq, Structural)]
pub struct Body {
    pub entity: u64,
    pub position: Vec2,
    pub velocity: Velocity,
    pub moved: bool,
}

/// A body with its velocity seen as a displacement per step.
pub ghost struct BodyState {
    pub entity: u64,
    pub position: Vec2,
    pub velocity: Vec2,
    pub moved: bool,
}

impl View for Body {
    type V = BodyState;

    open spec fn view(&self) -> BodyState {
        BodyState {
            entity: self.entity,
            position: self.position,
            velocity: self.velocity@,
            moved: self.moved,
        }
    }
}

/// The states of a sequence of bodies.
pub open spec fn states(bodies: Seq<Body>) -> Seq<BodyState> {
    bodies.map_values(|b: Body| b@)
}

/// The contacts that a sequence of messages report.
pub open spec fn contacts(messages: Seq<CollisionMessage>) -> Seq<Contact> {
    messages.map_values(|m: CollisionMessage| m@)
}

/// `i` is the first position of entity `id` among the bodies.
pub open spec fn is_first_with(bodies: Seq<BodyState>, id: u64, i: int) -> bool {
    &&& 0 <= i < bodies.len()
    &&& bodies[i].entity == id
    &&& forall|j: int| 0 <= j < i ==> bodies[j].entity != id
}

/// The bodies after the response to one contact: the first body of entity
/// `c.a` takes the position and velocity of its response and is marked as
/// moved; nothing changes when no body is that entity; nothing at all when
/// the response leaves the range of coordinates.
pub open spec fn apply_contact(bodies: Seq<BodyState>, c: Contact) -> Option<Seq<BodyState>> {
    if exists|i: int| is_first_with(bodies, c.a, i) {
        let i = choose|i: int| is_first_with(bodies, c.a, i);
        match response(bodies[i].velocity, c) {
            Some((p, v)) => Some(
                bodies.update(
                    i,
                    BodyState { entity: bodies[i].entity, position: p, velocity: v, moved: true },
                ),
            ),
            None => None,
        }
    } else {
        Some(bodies)
    }
}

/// The bodies after the responses to a sequence of contacts, in order.
pub open spec fn apply_contacts(bodies: Seq<BodyState>, cs: Seq<Contact>) -> Option<Seq<BodyState>>
    decreases cs.len(),
{
    if cs.len() == 0 {
        Some(bodies)
    } else {
        match apply_contacts(bodies, cs.drop_last()) {
            Some(b) => apply_contact(b, cs.last()),
            None => None,
        }
    }
}

/// Responding to collisions keeps every body and its entity in its place:
/// only positions, velocities and moved marks change.
pub proof fn lemma_responses_keep_bodies(bodies: Seq<BodyState>, cs: Seq<Contact>)
    ensures
        apply_contacts(bodies, cs) matches Some(out) ==> out.len() == bodies.len() && forall|i: int|
            0 <= i < bodies.len() ==> (#[trigger] out[i]).entity == bodies[i].entity,
    decreases cs.len(),
{
    if cs.len() > 0 {
        lemma_responses_keep_bodies(bodies, cs.drop_last());
    }
}

/// A body that no contact names keeps its state through the responses.
pub proof fn lemma_unnamed_body_unchanged(bodies: Seq<BodyState>, cs: Seq<Contact>, i: int)
    requires
        0 <= i < bodies.len(),
        forall|k: int| 0 <= k < cs.len() ==> (#[trigger] cs[k]).a != bodies[i].entity,
    ensures
        apply_contacts(bodies, cs) matches Some(out) ==> out[i] == bodies[i],
    decreases cs.len(),
{
    if cs.len() > 0 {
        let rest = cs.drop_last();
        assert forall|k: int| 0 <= k < rest.len() implies (#[trigger] rest[k]).a != bodies[i].entity by {
            assert(rest[k] == cs[k]);
        }
        lemma_unnamed_body_unchanged(bodies, rest, i);
        lemma_responses_keep_bodies(bodies, rest);
        if let Some(b) = apply_contacts(bodies, rest) {
            let c = cs.last();
            assert(c == cs[cs.len() - 1]);
            if exists|j: int| is_first_with(b, c.a, j) {
                let j = choose|j: int| is_first_with(b, c.a, j);
                assert(j != i);
            }
        }
    }
}

/// The effect of one collision message on the bodies: the first body of
/// the named entity takes the response's position and velocity and is
/// marked as moved, keeping its entity; every other body is unchanged; when
/// no body is that entity nothing changes.
pub proof fn lemma_contact_affects_first_named_body(bodies: Seq<BodyState>, c: Contact)
    ensures
        apply_contact(bodies, c) matches Some(out) ==> {
            &&& out.len() == bodies.len()
            &&& forall|j: int|
                0 <= j < bodies.len() && !is_first_with(bodies, c.a, j) ==> #[trigger] out[j] == bodies[j]
            &&& forall|i: int|
                is_first_with(bodies, c.a, i) ==> {
                    &&& response(bodies[i].velocity, c) matches Some((p, v))
                    &&& (#[trigger] out[i]).entity == bodies[i].entity
                    &&& out[i].position == p
                    &&& out[i].velocity == v
                    &&& out[i].moved
                }
        },
        (forall|j: int| 0 <= j < bodies.len() ==> bodies[j].entity != c.a) ==> apply_contact(bodies, c)
            == Some(bodies),
{
    if exists|i: int| is_first_with(bodies, c.a, i) {
        let i = choose|i: int| is_first_with(bodies, c.a, i);
        assert forall|j: int| is_first_with(bodies, c.a, j) implies j == i by {}
    }
}

/// Messages are handled one after another in their order: handling a
/// sequence and then one more message is handling the longer sequence, and
/// handling no message changes nothing.
pub proof fn lemma_responses_in_order(bodies: Seq<BodyState>, cs: Seq<Contact>, c: Contact)
    ensures
        apply_contacts(bodies, Seq::empty()) == Some(bodies),
        apply_contacts(bodies, cs.push(c)) == (match apply_contacts(bodies, cs) {
            Some(b) => apply_contact(b, c),
            None => None,
        }),
{
    assert(cs.push(c).drop_last() =~= cs);
}

/// The state of a body after moving on: a body already moved stays as it
/// is; any other body keeps its entity, velocity and mark and its position
/// advances by its velocity.
pub proof fn lemma_moved_on(b: BodyState)
    requires
        move_fits(b),
    ensures
        b.moved ==> moved_on(b) == b,
        !b.moved ==> {
            &&& moved_on(b).entity == b.entity
            &&& moved_on(b).velocity == b.velocity
            &&& !moved_on(b).moved
            &&& moved_on(b).position.x == b.position.x + b.velocity.x
            &&& moved_on(b).position.y == b.position.y + b.velocity.y
        },
{
}

/// Once a response leaves the range of coordinates, so does the whole
/// sequence of responses.
proof fn lemma_apply_none_persists(bodies: Seq<BodyState>, cs: Seq<Contact>, k: int)
    requires
        0 <= k <= cs.len(),
        apply_contacts(bodies, cs.take(k)) is None,
    ensures
        apply_contacts(bodies, cs) is None,
    decreases cs.len() - k,
{
    if k == cs.len() {
        assert(cs.take(k) =~= cs);
    } else {
        assert(cs.take(k + 1).drop_last() =~= cs.take(k));
        lemma_apply_none_persists(bodies, cs, k + 1);
    }
}

/// The first position of entity `id` among the bodies, if any.
fn find_entity(bodies: &Vec<Body>, id: u64) -> (r: Option<usize>)
    ensures
        r matches Some(i) ==> is_first_with(states(bodies@), id, i as int),
        r is None ==> forall|j: int| 0 <= j < bodies@.len() ==> bodies@[j].entity != id,
{
    let mut i: usize = 0;
    while i < bodies.len()
        invariant
            i <= bodies@.len(),
            forall|j: int| 0 <= j < i ==> bodies@[j].entity != id,
        decreases bodies@.len() - i,
    {
        if bodies[i].entity == id {
            return Some(i);
        }
        i = i + 1;
    }
    None
}

/// Responds to each collision message in order: the body of entity `a` is
/// put where the response takes it, gets the reflected velocity and is
/// marked as moved; messages about entities that are not among the bodies
/// are skipped. Nothing when a response leaves the range of coordinates.
pub fn handle_collisions(bodies: Vec<Body>, messages: &[CollisionMessage]) -> (r: Option<Vec<Body>>)
    requires
        forall|k: int| 0 <= k < messages@.len() ==> (#[trigger] messages@[k]).time@.wf(),
    ensures
        r matches Some(out) ==> apply_contacts(states(bodies@), contacts(messages@)) == Some(
            states(out@),
        ),
        r is None <==> apply_contacts(states(bodies@), contacts(messages@)) is None,
{
    let ghost start = states(bodies@);
    let ghost cs = contacts(messages@);
    let mut cur = bodies;
    let mut k: usize = 0;
    assert(cs.take(0) =~= Seq::<Contact>::empty());
    while k < messages.len()
        invariant
            k <= messages@.len(),
            cs == contacts(messages@),
            start == states(bodies@),
            forall|k: int| 0 <= k < messages@.len() ==> (#[trigger] messages@[k]).time@.wf(),
            apply_contacts(start, cs.take(k as int)) == Some(states(cur@)),
        decreases messages@.len() - k,
    {
        let m = messages[k];
        assert(cs.take(k + 1).drop_last() =~= cs.take(k as int));
        assert(cs.take(k + 1).last() == m@);
        let ghost before = states(cur@);
        match find_entity(&cur, m.a) {
            None => {
                assert(!exists|i: int| is_first_with(before, m.a, i));
            },
            Some(i) => {
                assert(is_first_with(before, m.a, i as int));
                assert((choose|j: int| is_first_with(before, m.a, j)) == i as int);
                match resolve_collision(cur[i].velocity.xy(), &m) {
                    None => {
                        proof {
                            lemma_apply_none_persists(start, cs, k + 1);
                        }
                        return None;
                    },
                    Some((p, v)) => {
                        let body = Body {
                            entity: cur[i].entity,
                            position: p,
                            velocity: Velocity::new(v),
                            moved: true,
                        };
                        cur.set(i, body);
                        assert(states(cur@) =~= before.update(
                            i as int,
                            BodyState { entity: before[i as int].entity, position: p, velocity: v, moved: true },
                        ));
                    },
                }
            },
        }
        k = k + 1;
    }
    assert(cs.take(messages@.len() as int) =~= cs);
    Some(cur)
}

/// The state of a body after it moves on with its own velocity, unless it
/// was already moved during the step.
pub open spec fn moved_on(b: BodyState) -> BodyState {
    if b.moved {
        b
    } else {
        BodyState {
            entity: b.entity,
            position: Vec2 {
                x: (b.position.x + b.velocity.x) as i32,
                y: (b.position.y + b.velocity.y) as i32,
            },
            velocity: b.velocity,
            moved: b.moved,
        }
    }
}

/// Moving on keeps the body within the range of coordinates.
pub open spec fn move_fits(b: BodyState) -> bool {
    b.moved || (fits(b.position.x + b.velocity.x) && fits(b.position.y + b.velocity.y))
}

/// Moves every body that was not already moved during the step by its
/// velocity. Nothing when a body would leave the range of coordinates.
pub fn move_objects(bodies: Vec<Body>) -> (r: Option<Vec<Body>>)
    ensures
        r is None <==> exists|i: int| 0 <= i < bodies@.len() && !move_fits(#[trigger] bodies@[i]@),
        r matches Some(out) ==> states(out@) == states(bodies@).map_values(|b: BodyState| moved_on(b)),
{
    let ghost orig = bodies@;
    let mut cur = bodies;
    let mut i: usize = 0;
    while i < cur.len()
        invariant
            i <= cur@.len(),
            cur@.len() == orig.len(),
            orig == bodies@,
            forall|j: int| 0 <= j < i ==> move_fits(#[trigger] orig[j]@),
            forall|j: int| 0 <= j < i ==> (#[trigger] cur@[j])@ == moved_on(orig[j]@),
            forall|j: int| i <= j < cur@.len() ==> #[trigger] cur@[j] == orig[j],
        decreases cur@.len() - i,
    {
        let b = cur[i];
        if !b.moved {
            let v = b.velocity.xy();
            let x = to_coord(b.position.x as i128 + v.x as i128);
            let y = to_coord(b.position.y as i128 + v.y as i128);
            match (x, y) {
                (Some(x), Some(y)) => {
                    cur.set(
                        i,
                        Body {
                            entity: b.entity,
                            position: Vec2 { x, y },
                            velocity: b.velocity,
                            moved: b.moved,
                        },
                    );
                },
                _ => {
                    assert(!move_fits(bodies@[i as int]@));
                    return None;
                },
            }
        }
        i = i + 1;
    }
    assert(states(cur@) =~= states(orig).map_values(|b: BodyState| moved_on(b)));
    Some(cur)
}

/// Clears the moved mark of every body, ready for the next step.
pub fn reset_moves(bodies: &mut Vec<Body>)
    ensures
        final(bodies)@.len() == old(bodies)@.len(),
        forall|i: int|
            0 <= i < final(bodies)@.len() ==> #[trigger] final(bodies)@[i] == (Body {
                moved: false,
                ..old(bodies)@[i]
            }),
{
    let mut i: usize = 0;
    while i < bodies.len()
        invariant
            i <= bodies@.len(),
            bodies@.len() == old(bodies)@.len(),
            forall|j: int| 0 <= j < i ==> #[trigger] bodies@[j] == (Body { moved: false, ..old(bodies)@[j] }),
            forall|j: int| i <= j < bodies@.len() ==> #[trigger] bodies@[j] == old(bodies)@[j],
        decreases bodies@.len() - i,
    {
        let b = bodies[i];
        bodies.set(i, Body { moved: false, ..b });
        i = i + 1;
    }
}

} // verus!
