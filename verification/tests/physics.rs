use pong::physics::components::collider::Collider;
use pong::physics::components::velocity::Velocity;
use pong::physics::detection::{
    detect_dynamic_collisions, detect_dynamic_to_static_collisions, DynamicBody, StaticBody,
};
use pong::physics::events::collision_event::CollisionMessage;
use pong::physics::response::{
    handle_collisions, impact_point, move_objects, reflect, reset_moves, resolve_collision, Body,
};
use pong::physics::swept_aabb_2d;
use pong::physics::time::Time;
use pong::vec2::{floor_div, to_coord, Vec2};

#[test]
fn moving_right_hits_left_face() {
    let result = swept_aabb_2d(
        Vec2::new(0, 0),
        &Collider::new(Vec2::new(5, 5)),
        Vec2::new(10, 0),
        Vec2::new(5, 0),
        &Collider::new(Vec2::new(5, 5)),
    );

    assert!(result.is_some());
    assert_eq!(result, Some((Time::At { num: 0, den: 10 }, Vec2::new(-1, 0))));
}

#[test]
fn moving_right_misses_left_face() {
    let result2 = swept_aabb_2d(
        Vec2::new(0, 0),
        &Collider::new(Vec2::new(5, 5)),
        Vec2::new(10, 0),
        Vec2::new(5, 10),
        &Collider::new(Vec2::new(5, 5)),
    );

    assert!(result2.is_none());
}

#[test]
fn hit_in_the_middle_of_the_step() {
    let small = Collider::new(Vec2::new(2, 2));
    let r = swept_aabb_2d(Vec2::new(0, 0), &small, Vec2::new(10, 0), Vec2::new(6, 0), &small);
    assert_eq!(r, Some((Time::At { num: 4, den: 10 }, Vec2::new(-1, 0))));
}

#[test]
fn hit_from_above_reports_vertical_normal() {
    let small = Collider::new(Vec2::new(2, 2));
    let r = swept_aabb_2d(Vec2::new(0, 10), &small, Vec2::new(0, -8), Vec2::new(0, 0), &small);
    assert_eq!(r, Some((Time::At { num: 8, den: 8 }, Vec2::new(0, 1))));
}

#[test]
fn moving_left_hits_right_face() {
    let c = Collider::new(Vec2::new(10, 10));
    let r = swept_aabb_2d(Vec2::new(20, 0), &c, Vec2::new(-20, 0), Vec2::new(0, 0), &c);
    assert_eq!(r, Some((Time::At { num: 10, den: 20 }, Vec2::new(1, 0))));
}

#[test]
fn normal_opposes_motion_for_boxes_apart() {
    let c = Collider::new(Vec2::new(4, 4));
    let cases = [
        (Vec2::new(-10, 0), Vec2::new(10, 0)),
        (Vec2::new(10, 0), Vec2::new(-10, 0)),
        (Vec2::new(0, 10), Vec2::new(0, -10)),
        (Vec2::new(0, -10), Vec2::new(0, 10)),
        (Vec2::new(-9, -8), Vec2::new(12, 12)),
    ];
    for (start, v) in cases {
        let (_, n) = swept_aabb_2d(start, &c, v, Vec2::new(0, 0), &c).unwrap();
        assert!(n.x * v.x + n.y * v.y < 0);
    }
}

#[test]
fn sweeping_is_symmetric() {
    let a = Collider::new(Vec2::new(4, 6));
    let b = Collider::new(Vec2::new(8, 2));
    let pa = Vec2::new(-20, 3);
    let pb = Vec2::new(5, 1);
    let v = Vec2::new(30, -2);
    let forward = swept_aabb_2d(pa, &a, v, pb, &b).unwrap();
    let backward = swept_aabb_2d(pb, &b, Vec2::new(-v.x, -v.y), pa, &a).unwrap();
    assert_eq!(forward.0, backward.0);
    assert_eq!(forward.1, Vec2::new(-backward.1.x, -backward.1.y));
    assert_eq!(forward, (Time::At { num: 19, den: 30 }, Vec2::new(-1, 0)));
}

#[test]
fn target_beyond_the_step_is_missed() {
    let small = Collider::new(Vec2::new(2, 2));
    let r = swept_aabb_2d(Vec2::new(0, 0), &small, Vec2::new(10, 0), Vec2::new(20, 0), &small);
    assert_eq!(r, None);
}

#[test]
fn moving_away_is_missed() {
    let small = Collider::new(Vec2::new(2, 2));
    let r = swept_aabb_2d(Vec2::new(0, 0), &small, Vec2::new(-10, 0), Vec2::new(5, 0), &small);
    assert_eq!(r, None);
}

#[test]
fn still_overlap_reports_minus_infinity() {
    let c = Collider::new(Vec2::new(4, 4));
    let r = swept_aabb_2d(Vec2::new(0, 0), &c, Vec2::new(0, 0), Vec2::new(1, 1), &c);
    assert_eq!(r, Some((Time::NegInfinity, Vec2::new(0, 1))));
    let apart = swept_aabb_2d(Vec2::new(0, 0), &c, Vec2::new(0, 0), Vec2::new(10, 1), &c);
    assert_eq!(apart, None);
}

#[test]
fn already_overlapping_while_moving_reports_past_moment() {
    let c = Collider::new(Vec2::new(4, 4));
    let r = swept_aabb_2d(Vec2::new(0, 0), &c, Vec2::new(2, 0), Vec2::new(1, 0), &c);
    assert_eq!(r, Some((Time::At { num: -3, den: 2 }, Vec2::new(-1, 0))));
}

#[test]
fn moment_order() {
    let a = Time::At { num: 1, den: 3 };
    let b = Time::At { num: 1, den: 2 };
    assert!(a.lt(&b));
    assert!(!b.lt(&a));
    assert!(!a.lt(&Time::At { num: 2, den: 6 }));
    assert!(Time::NegInfinity.lt(&a));
    assert!(!Time::NegInfinity.lt(&Time::NegInfinity));
    assert!(a.lt(&Time::PosInfinity));
    assert!(!Time::PosInfinity.lt(&Time::PosInfinity));
}

#[test]
fn reflection_turns_back_the_normal_component() {
    assert_eq!(reflect(Vec2::new(3, -4), Vec2::new(-1, 0)), Vec2::new(-3, -4));
    assert_eq!(reflect(Vec2::new(3, -4), Vec2::new(0, 1)), Vec2::new(3, 4));
    let once = reflect(Vec2::new(7, 2), Vec2::new(1, 0));
    assert_eq!(reflect(once, Vec2::new(1, 0)), Vec2::new(7, 2));
}

#[test]
fn impact_point_rounds_down() {
    let t = Time::At { num: 1, den: 3 };
    assert_eq!(impact_point(Vec2::new(0, 0), Vec2::new(10, -10), t), Some(Vec2::new(3, -4)));
    assert_eq!(impact_point(Vec2::new(5, 5), Vec2::new(10, 10), Time::NegInfinity), Some(Vec2::new(5, 5)));
    assert_eq!(impact_point(Vec2::new(i32::MAX, 0), Vec2::new(10, 0), Time::At { num: 1, den: 1 }), None);
}

#[test]
fn floor_division_and_coordinates() {
    assert_eq!(floor_div(7, 2), 3);
    assert_eq!(floor_div(-7, 2), -4);
    assert_eq!(floor_div(-8, 2), -4);
    assert_eq!(to_coord(i32::MAX as i128), Some(i32::MAX));
    assert_eq!(to_coord(i32::MAX as i128 + 1), None);
}

#[test]
fn velocity_keeps_what_it_is_given() {
    let mut v = Velocity::new(Vec2::new(3, 4));
    assert_eq!(v.xy(), Vec2::new(3, 4));
    v.set_xy(Vec2::new(-1, 2));
    assert_eq!(v.xy(), Vec2::new(-1, 2));
}

fn ball(entity: u64, x: i32, y: i32, vx: i32, vy: i32) -> DynamicBody {
    DynamicBody {
        entity,
        position: Vec2::new(x, y),
        velocity: Velocity::new(Vec2::new(vx, vy)),
        collider: Collider::new(Vec2::new(2, 2)),
    }
}

#[test]
fn two_balls_meeting_collide_once() {
    let balls = [ball(1, 0, 0, 4, 0), ball(2, 10, 0, -4, 0), ball(3, 0, 100, 0, 0)];
    let messages = detect_dynamic_collisions(&balls).unwrap();
    assert_eq!(messages.len(), 1);
    let m = messages[0];
    assert_eq!((m.a, m.b), (1, 2));
    assert_eq!(m.time, Time::At { num: 8, den: 8 });
    assert_eq!(m.normal, Vec2::new(-1, 0));
    assert_eq!(m.impact_point, Vec2::new(4, 0));
}

#[test]
fn dynamic_pairs_come_in_order() {
    let balls = [ball(1, 0, 0, 0, 0), ball(2, 1, 0, 0, 0), ball(3, 2, 0, 0, 0)];
    let messages = detect_dynamic_collisions(&balls).unwrap();
    let pairs: Vec<(u64, u64)> = messages.iter().map(|m| (m.a, m.b)).collect();
    assert_eq!(pairs, vec![(1, 2), (1, 3), (2, 3)]);
    assert!(messages.iter().all(|m| m.time == Time::NegInfinity));
}

#[test]
fn relative_velocity_out_of_range_gives_nothing() {
    let balls = [ball(1, 0, 0, i32::MAX, 0), ball(2, 10, 0, -1, 0)];
    assert!(detect_dynamic_collisions(&balls).is_none());
    let none: [DynamicBody; 0] = [];
    assert_eq!(detect_dynamic_collisions(&none), Some(vec![]));
}

#[test]
fn ball_hits_wall() {
    let balls = [ball(1, 0, 0, 0, 10), ball(2, 50, 0, 0, 10)];
    let wall = [StaticBody {
        entity: 9,
        position: Vec2::new(0, 8),
        collider: Collider::new(Vec2::new(20, 2)),
    }];
    let messages = detect_dynamic_to_static_collisions(&balls, &wall).unwrap();
    assert_eq!(messages.len(), 1);
    let m = messages[0];
    assert_eq!((m.a, m.b), (1, 9));
    assert_eq!(m.time, Time::At { num: 6, den: 10 });
    assert_eq!(m.normal, Vec2::new(0, -1));
    assert_eq!(m.impact_point, Vec2::new(0, 6));
}

#[test]
fn static_detection_order_and_range() {
    let balls = [ball(1, 0, 0, 0, 0), ball(2, 0, 1, 0, 0)];
    let walls = [
        StaticBody { entity: 7, position: Vec2::new(0, 0), collider: Collider::new(Vec2::new(4, 4)) },
        StaticBody { entity: 8, position: Vec2::new(1, 0), collider: Collider::new(Vec2::new(4, 4)) },
    ];
    let messages = detect_dynamic_to_static_collisions(&balls, &walls).unwrap();
    let pairs: Vec<(u64, u64)> = messages.iter().map(|m| (m.a, m.b)).collect();
    assert_eq!(pairs, vec![(1, 7), (1, 8), (2, 7), (2, 8)]);
    let far = [ball(1, i32::MAX - 1, 0, 1, 0)];
    let hit_far = [StaticBody {
        entity: 7,
        position: Vec2::new(i32::MAX, 0),
        collider: Collider::new(Vec2::new(4, 4)),
    }];
    assert!(detect_dynamic_to_static_collisions(&far, &hit_far).is_some());
}

fn body(entity: u64, x: i32, y: i32, vx: i32, vy: i32) -> Body {
    Body { entity, position: Vec2::new(x, y), velocity: Velocity::new(Vec2::new(vx, vy)), moved: false }
}

#[test]
fn collision_response_reflects_and_moves_on() {
    let m = CollisionMessage {
        a: 1,
        b: 9,
        normal: Vec2::new(0, -1),
        time: Time::At { num: 6, den: 10 },
        impact_point: Vec2::new(0, 6),
    };
    assert_eq!(resolve_collision(Vec2::new(0, 10), &m), Some((Vec2::new(0, 2), Vec2::new(0, -10))));
    let out = handle_collisions(vec![body(1, 0, 0, 0, 10), body(2, 5, 5, 1, 1)], &[m]).unwrap();
    assert_eq!(out[0], Body { entity: 1, position: Vec2::new(0, 2), velocity: Velocity::new(Vec2::new(0, -10)), moved: true });
    assert_eq!(out[1], body(2, 5, 5, 1, 1));
}

#[test]
fn messages_about_unknown_bodies_are_skipped() {
    let m = CollisionMessage {
        a: 42,
        b: 9,
        normal: Vec2::new(1, 0),
        time: Time::At { num: 0, den: 1 },
        impact_point: Vec2::new(0, 0),
    };
    let bodies = vec![body(1, 3, 4, 5, 6)];
    assert_eq!(handle_collisions(bodies.clone(), &[m]), Some(bodies));
}

#[test]
fn unbounded_moment_leaves_body_at_impact_point() {
    let m = CollisionMessage {
        a: 1,
        b: 2,
        normal: Vec2::new(0, 1),
        time: Time::NegInfinity,
        impact_point: Vec2::new(3, 3),
    };
    assert_eq!(resolve_collision(Vec2::new(2, -5), &m), Some((Vec2::new(3, 3), Vec2::new(2, 5))));
    let overflow = CollisionMessage { impact_point: Vec2::new(0, i32::MAX), time: Time::At { num: 0, den: 1 }, ..m };
    assert_eq!(resolve_collision(Vec2::new(0, -5), &overflow), None);
    assert_eq!(handle_collisions(vec![body(1, 0, 0, 0, -5)], &[overflow]), None);
}

#[test]
fn later_messages_see_earlier_responses() {
    let first = CollisionMessage {
        a: 1,
        b: 2,
        normal: Vec2::new(1, 0),
        time: Time::At { num: 1, den: 1 },
        impact_point: Vec2::new(10, 0),
    };
    let second = CollisionMessage { normal: Vec2::new(0, 1), impact_point: Vec2::new(20, 0), ..first };
    let out = handle_collisions(vec![body(1, 0, 0, 4, 3)], &[first, second]).unwrap();
    assert_eq!(out[0].velocity.xy(), Vec2::new(-4, -3));
    assert_eq!(out[0].position, Vec2::new(20, 0));
    assert!(out[0].moved);
}

#[test]
fn moved_bodies_stay_and_others_move() {
    let mut moved = body(1, 0, 0, 5, 5);
    moved.moved = true;
    let out = move_objects(vec![moved, body(2, 1, 1, 2, -3)]).unwrap();
    assert_eq!(out[0], moved);
    assert_eq!(out[1].position, Vec2::new(3, -2));
    assert_eq!(move_objects(vec![body(3, i32::MAX, 0, 1, 0)]), None);
    let mut reset = out;
    reset_moves(&mut reset);
    assert!(reset.iter().all(|b| !b.moved));
    assert_eq!(reset[1].position, Vec2::new(3, -2));
}
