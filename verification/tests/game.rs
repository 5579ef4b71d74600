use pong::game::{isqrt, paddle_bounce, paddle_size, Constraint, Keys, Paddle, Side, UNITS_PER_PIXEL};
use pong::physics::components::collider::Collider;
use pong::vec2::Vec2;

#[test]
fn clamping_keeps_the_body_inside() {
    let c = Constraint::new(Vec2::new(-10, -20), Vec2::new(10, 20));
    let half = Vec2::new(2, 5);
    assert_eq!(c.clamp_position(Vec2::new(50, -50), half), Vec2::new(8, -15));
    assert_eq!(c.clamp_position(Vec2::new(3, 4), half), Vec2::new(3, 4));
    let once = c.clamp_position(Vec2::new(-50, 50), half);
    assert_eq!(once, Vec2::new(-8, 15));
    assert_eq!(c.clamp_position(once, half), once);
    assert_eq!(c.lower_left(), Vec2::new(-10, -20));
    assert_eq!(c.upper_right(), Vec2::new(10, 20));
}

#[test]
fn constraint_uses_half_the_collider() {
    let c = Constraint::new(Vec2::new(0, 0), Vec2::new(100, 100));
    let collider = Collider::new(Vec2::new(10, 20));
    assert_eq!(c.constrain(Vec2::new(-5, 200), &collider), Vec2::new(5, 90));
}

#[test]
fn constraint_exactly_as_wide_as_the_body() {
    let c = Constraint::new(Vec2::new(0, 0), Vec2::new(11, 20));
    let collider = Collider::new(Vec2::new(11, 20));
    assert_eq!(c.constrain(Vec2::new(100, -100), &collider), Vec2::new(6, 10));
}

#[test]
fn higher_strike_sends_ball_higher() {
    let v = Vec2::new(300, 400);
    let mut last = i32::MIN;
    for y in -60..=60 {
        let out = paddle_bounce(0, 50, y, v).unwrap();
        assert!(out.y >= last);
        last = out.y;
    }
}

#[test]
fn paddle_keys_by_side() {
    let left = Paddle { speed: 7, side: Side::Left };
    let right = Paddle { speed: 7, side: Side::Right };
    let w = Keys { w: true, s: false, arrow_up: false, arrow_down: false };
    let both = Keys { w: true, s: true, arrow_up: true, arrow_down: true };
    let down = Keys { w: false, s: false, arrow_up: false, arrow_down: true };
    assert_eq!(left.direction(w), 1);
    assert_eq!(right.direction(w), 0);
    assert_eq!(left.direction(both), 0);
    assert_eq!(right.direction(both), 0);
    assert_eq!(right.direction(down), -1);
    assert_eq!(left.step(10, w), 17);
    assert_eq!(right.step(10, down), 3);
    assert_eq!(right.step(10, both), 10);
}

#[test]
fn paddles_start_on_their_side() {
    assert_eq!(Side::Left.start_position(), Vec2::new(-350 * UNITS_PER_PIXEL, 0));
    assert_eq!(Side::Right.start_position(), Vec2::new(350 * UNITS_PER_PIXEL, 0));
    let left = Side::Left.constraint();
    assert_eq!(left.lower_left(), Vec2::new(-360 * UNITS_PER_PIXEL, -243 * UNITS_PER_PIXEL));
    assert_eq!(left.upper_right(), Vec2::new(-340 * UNITS_PER_PIXEL, 243 * UNITS_PER_PIXEL));
    let right = Side::Right.constraint();
    assert_eq!(right.lower_left(), Vec2::new(340 * UNITS_PER_PIXEL, -243 * UNITS_PER_PIXEL));
    assert_eq!(right.upper_right(), Vec2::new(380 * UNITS_PER_PIXEL, 243 * UNITS_PER_PIXEL));
    assert_eq!(paddle_size(), Vec2::new(10 * UNITS_PER_PIXEL, 100 * UNITS_PER_PIXEL));
}

#[test]
fn integer_square_roots() {
    assert_eq!(isqrt(0), 0);
    assert_eq!(isqrt(1), 1);
    assert_eq!(isqrt(24), 4);
    assert_eq!(isqrt(25), 5);
    assert_eq!(isqrt(u64::MAX), 0xFFFF_FFFF);
}

#[test]
fn bounce_angles() {
    // centre strike: straight back with the same speed
    assert_eq!(paddle_bounce(0, 50, 0, Vec2::new(-300, 400)), Some(Vec2::new(-500, 0)));
    // top edge: a quarter less horizontal speed, 17/20 of it upwards
    assert_eq!(paddle_bounce(0, 50, 50, Vec2::new(300, 400)), Some(Vec2::new(375, 425)));
    // beyond the edge counts as the edge
    assert_eq!(paddle_bounce(0, 50, -80, Vec2::new(300, 400)), Some(Vec2::new(375, -425)));
    // half way up
    assert_eq!(paddle_bounce(10, 40, 30, Vec2::new(0, 100)), Some(Vec2::new(87, 42)));
    // too fast to represent
    assert_eq!(paddle_bounce(0, 50, 0, Vec2::new(i32::MIN, i32::MIN)), None);
}
