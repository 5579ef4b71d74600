use pong::physics::components::collider::Collider;
use pong::vec2::Vec2;

#[test]
fn intersection() {
    let a = Collider::new(Vec2::new(10, 10));
    let b = Collider::new(Vec2::new(10, 10));

    assert!(a.intersects(Vec2::new(0, 0), &b, Vec2::new(2, 0)));
}

#[test]
fn intersection_is_symmetric() {
    let a = Collider::new(Vec2::new(10, 4));
    let b = Collider::new(Vec2::new(2, 8));
    let pa = Vec2::new(3, -1);
    let pb = Vec2::new(9, 5);
    assert_eq!(a.intersects(pa, &b, pb), b.intersects(pb, &a, pa));
    let pb = Vec2::new(40, 5);
    assert_eq!(a.intersects(pa, &b, pb), b.intersects(pb, &a, pa));
    assert!(!a.intersects(pa, &b, pb));
}

#[test]
fn boxes_sharing_an_edge_touch() {
    let a = Collider::new(Vec2::new(10, 10));
    let b = Collider::new(Vec2::new(10, 10));
    assert!(a.intersects(Vec2::new(0, 0), &b, Vec2::new(10, 0)));
    assert!(!a.intersects(Vec2::new(0, 0), &b, Vec2::new(11, 0)));
    assert!(!a.intersects(Vec2::new(0, 0), &b, Vec2::new(0, -11)));
}

#[test]
fn new_centres_the_box() {
    let c = Collider::new(Vec2::new(10, 6));
    assert_eq!(c.min(Vec2::new(0, 0)), Vec2::new(-5, -3));
    assert_eq!(c.max(Vec2::new(0, 0)), Vec2::new(5, 3));
    assert_eq!(c.min(Vec2::new(7, -2)), Vec2::new(2, -5));
    assert_eq!(c.bounds(), Vec2::new(10, 6));
    assert_eq!(c.half_bounds(), Vec2::new(5, 3));
}

#[test]
fn odd_size_leaves_extra_unit_above() {
    let c = Collider::new(Vec2::new(5, 7));
    assert_eq!(c.min(Vec2::new(0, 0)), Vec2::new(-2, -3));
    assert_eq!(c.max(Vec2::new(0, 0)), Vec2::new(3, 4));
    assert_eq!(c.half_bounds(), Vec2::new(2, 3));
}

#[test]
fn broad_phase_box_stretches_along_motion() {
    let c = Collider::new(Vec2::new(4, 4));
    let forward = c.broad_phase_check(Vec2::new(10, -6));
    assert_eq!(forward.min(Vec2::new(0, 0)), Vec2::new(-2, -8));
    assert_eq!(forward.max(Vec2::new(0, 0)), Vec2::new(12, 2));
    assert_eq!(forward.bounds(), Vec2::new(14, 10));
    let still = c.broad_phase_check(Vec2::new(0, 0));
    assert_eq!(still.min(Vec2::new(0, 0)), Vec2::new(-2, -2));
    assert_eq!(still.max(Vec2::new(0, 0)), Vec2::new(2, 2));
}

#[test]
fn corners_are_exact_far_from_the_origin() {
    let c = Collider::new(Vec2::new(10, 10));
    let (min_x, min_y, max_x, max_y) = c.corners_at(Vec2::new(i32::MAX, i32::MIN));
    assert_eq!(min_x, i32::MAX as i64 - 5);
    assert_eq!(max_x, i32::MAX as i64 + 5);
    assert_eq!(min_y, i32::MIN as i64 - 5);
    assert_eq!(max_y, i32::MIN as i64 + 5);
}

#[test]
fn swept_box_grows_by_the_displacement() {
    let c = Collider::new(Vec2::new(3, 5));
    assert_eq!(c.broad_phase_check(Vec2::new(-7, 4)).bounds(), Vec2::new(10, 9));
    let p = Vec2::new(4, -9);
    let d = Vec2::new(-3, 11);
    let moved = Vec2::new(p.x + d.x, p.y + d.y);
    assert_eq!(c.min(moved), Vec2::new(c.min(p).x + d.x, c.min(p).y + d.y));
    assert_eq!(c.max(moved), Vec2::new(c.max(p).x + d.x, c.max(p).y + d.y));
    assert_eq!(c.max(p).x - c.min(p).x, 3);
}
