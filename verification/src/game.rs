//! The rules of the play field: paddles, the keys that drive them, the
//! boxes that keep bodies in place, and where the paddles start.
use vstd::prelude::*;
use crate::vec2::{Vec2, fits, floor_div, to_coord};
use crate::physics::components::collider::Collider;

verus! {

/// World units in one pixel of the play field.
pub const UNITS_PER_PIXEL: i32 = 1000;

/// `v` held within `[lo, hi]`.
pub open spec fn clamp(v: int, lo: int, hi: int) -> int {
    if v < lo {
        lo
    } else if v > hi {
        hi
    } else {
        v
    }
}

/// A rectangle, given by its lower-left and upper-right corners, that a
/// body's collider must stay inside.
pub struct Constraint {
    lower_left: Vec2,
    upper_right: Vec2,
}

impl View for Constraint {
    type V = (Vec2, Vec2);

    closed spec fn view(&self) -> (Vec2, Vec2) {
        (self.lower_left, self.upper_right)
    }
}

impl Constraint {
    /// The lower-left corner is never above or right of the upper-right one.
    #[verifier::type_invariant]
    spec fn ordered(self) -> bool {
        self.lower_left.x <= self.upper_right.x && self.lower_left.y <= self.upper_right.y
    }

    /// The rectangle with the given corners.
    pub fn new(lower_left: Vec2, upper_right: Vec2) -> (r: Constraint)
        requires
            lower_left.x <= upper_right.x,
            lower_left.y <= upper_right.y,
        ensures
            r@ == (lower_left, upper_right),
    {
        Constraint { lower_left, upper_right }
    }

    /// The lower-left corner.
    pub fn lower_left(&self) -> (r: Vec2)
        ensures
            r == self@.0,
            r.x <= self@.1.x,
            r.y <= self@.1.y,
    {
        proof {
            use_type_invariant(self);
        }
        self.lower_left
    }

    /// The upper-right corner.
    pub fn upper_right(&self) -> (r: Vec2)
        ensures
            r == self@.1,
    {
        self.upper_right
    }

    /// The position closest to `pos` at which a body with half extent
    /// `half` stays inside the rectangle: each coordinate clamped between
    /// the lower-left corner plus `half` and the upper-right corner minus
    /// `half`.
    pub fn clamp_position(&self, pos: Vec2, half: Vec2) -> (r: Vec2)
        requires
            half.x >= 0,
            half.y >= 0,
            self@.0.x + half.x <= self@.1.x - half.x,
            self@.0.y + half.y <= self@.1.y - half.y,
        ensures
            r.x == clamp(pos.x as int, self@.0.x + half.x, self@.1.x - half.x),
            r.y == clamp(pos.y as int, self@.0.y + half.y, self@.1.y - half.y),
    {
        let min_x = self.lower_left.x + half.x;
        let min_y = self.lower_left.y + half.y;
        let max_x = self.upper_right.x - half.x;
        let max_y = self.upper_right.y - half.y;
        Vec2 { x: clamp_coord(pos.x, min_x, max_x), y: clamp_coord(pos.y, min_y, max_y) }
    }

    /// Keeps a body with collider `collider` inside the rectangle: its
    /// position clamped by half the collider's extent.
    pub fn constrain(&self, pos: Vec2, collider: &Collider) -> (r: Vec2)
        requires
            self@.1.x - self@.0.x >= collider@.w,
            self@.1.y - self@.0.y >= collider@.h,
        ensures
            r.x == clamp(pos.x as int, self@.0.x + collider@.w / 2, self@.1.x - collider@.w / 2),
            r.y == clamp(pos.y as int, self@.0.y + collider@.h / 2, self@.1.y - collider@.h / 2),
    {
        let half = collider.half_bounds();
        proof {
            collider.lemma_shape_fits();
            assert(half.x + half.x <= collider@.w && half.y + half.y <= collider@.h);
        }
        self.clamp_position(pos, half)
    }
}

/// `v` held within `[lo, hi]`.
fn clamp_coord(v: i32, lo: i32, hi: i32) -> (r: i32)
    requires
        lo <= hi,
    ensures
        r == clamp(v as int, lo as int, hi as int),
{
    if v < lo {
        lo
    } else if v > hi {
        hi
    } else {
        v
    }
}

/// Clamping is idempotent: a clamped position stays where it is when
/// clamped again, and so does every position already inside the range.
pub proof fn lemma_clamp_idempotent(v: int, lo: int, hi: int)
    requires
        lo <= hi,
    ensures
        lo <= clamp(v, lo, hi) <= hi,
        clamp(clamp(v, lo, hi), lo, hi) == clamp(v, lo, hi),
        lo <= v <= hi ==> clamp(v, lo, hi) == v,
{
}

/// Clamping gives the point of `[lo, hi]` nearest to `v`.
pub proof fn lemma_clamp_nearest(v: int, lo: int, hi: int, u: int)
    requires
        lo <= hi,
        lo <= u <= hi,
    ensures
        lo <= clamp(v, lo, hi) <= hi,
        (if clamp(v, lo, hi) <= v { v - clamp(v, lo, hi) } else { clamp(v, lo, hi) - v }) <= (if u <= v {
            v - u
        } else {
            u - v
        }),
{
}

/// The side of the field a paddle defends.
#[derive(Clone, Copy, Debug, PartialEq, Eq, Structural)]
pub enum Side {
    Left,
    Right,
}

/// Which of the four paddle keys are held down.
#[derive(Clone, Copy, Debug, PartialEq, Eq, Structural)]
pub struct Keys {
    pub w: bool,
    pub s: bool,
    pub arrow_up: bool,
    pub arrow_down: bool,
}

/// A paddle: how far it moves per step while a key is held, and its side.
#[derive(Clone, Copy, Debug, PartialEq, Eq, Structural)]
pub struct Paddle {
    pub speed: i32,
    pub side: Side,
}

/// The direction a paddle on `side` is driven in: up by its up key (`W` on
/// the left, the up arrow on the right), down by its down key (`S`, the
/// down arrow); both keys together cancel out.
pub open spec fn drive(side: Side, keys: Keys) -> int {
    let (up, down) = match side {
        Side::Left => (keys.w, keys.s),
        Side::Right => (keys.arrow_up, keys.arrow_down),
    };
    (if up { 1int } else { 0int }) - (if down { 1int } else { 0int })
}

impl Paddle {
    /// The direction the keys drive this paddle in: 1 up, -1 down, 0 still.
    pub fn direction(&self, keys: Keys) -> (r: i32)
        ensures
            r == drive(self.side, keys),
    {
        let mut direction: i32 = 0;
        match self.side {
            Side::Left => {
                if keys.w {
                    direction += 1;
                }
                if keys.s {
                    direction -= 1;
                }
            },
            Side::Right => {
                if keys.arrow_up {
                    direction += 1;
                }
                if keys.arrow_down {
                    direction -= 1;
                }
            },
        }
        direction
    }

    /// The height of the paddle after one step with the given keys held.
    pub fn step(&self, y: i32, keys: Keys) -> (r: i32)
        requires
            fits(y + drive(self.side, keys) * self.speed),
        ensures
            r == y + drive(self.side, keys) * self.speed,
    {
        let d = self.direction(keys);
        let ghost dd = drive(self.side, keys);
        assert(dd * self.speed == (if dd == 1 { self.speed as int } else if dd == -1 { -self.speed } else { 0 })) by (nonlinear_arith)
            requires
                -1 <= dd <= 1,
        ;
        let r: i64 = if d == 1 {
            y as i64 + self.speed as i64
        } else if d == -1 {
            y as i64 - self.speed as i64
        } else {
            y as i64
        };
        r as i32
    }
}

impl Side {
    /// Where the paddle on this side starts: 350 pixels left or right of
    /// the centre.
    pub fn start_position(self) -> (r: Vec2)
        ensures
            r.x == (match self {
                Side::Left => -350 * UNITS_PER_PIXEL,
                Side::Right => 350 * UNITS_PER_PIXEL,
            }),
            r.y == 0,
    {
        match self {
            Side::Left => Vec2 { x: -350 * UNITS_PER_PIXEL, y: 0 },
            Side::Right => Vec2 { x: 350 * UNITS_PER_PIXEL, y: 0 },
        }
    }

    /// The rectangle the paddle on this side stays inside.
    pub fn constraint(self) -> (r: Constraint)
        ensures
            r@.0.x == (match self {
                Side::Left => -360 * UNITS_PER_PIXEL,
                Side::Right => 340 * UNITS_PER_PIXEL,
            }),
            r@.1.x == (match self {
                Side::Left => -340 * UNITS_PER_PIXEL,
                Side::Right => 380 * UNITS_PER_PIXEL,
            }),
            r@.0.y == -243 * UNITS_PER_PIXEL,
            r@.1.y == 243 * UNITS_PER_PIXEL,
    {
        match self {
            Side::Left => Constraint::new(
                Vec2 { x: -360 * UNITS_PER_PIXEL, y: -243 * UNITS_PER_PIXEL },
                Vec2 { x: -340 * UNITS_PER_PIXEL, y: 243 * UNITS_PER_PIXEL },
            ),
            Side::Right => Constraint::new(
                Vec2 { x: 340 * UNITS_PER_PIXEL, y: -243 * UNITS_PER_PIXEL },
                Vec2 { x: 380 * UNITS_PER_PIXEL, y: 243 * UNITS_PER_PIXEL },
            ),
        }
    }
}

/// `r` is the square root of `n` rounded down.
pub open spec fn is_floor_sqrt(r: int, n: int) -> bool {
    0 <= r && r * r <= n < (r + 1) * (r + 1)
}

/// The square root of `n` rounded down.
pub open spec fn floor_sqrt(n: int) -> int {
    choose|r: int| is_floor_sqrt(r, n)
}

/// A number has at most one rounded-down square root.
pub proof fn lemma_floor_sqrt_unique(r1: int, r2: int, n: int)
    requires
        is_floor_sqrt(r1, n),
        is_floor_sqrt(r2, n),
    ensures
        r1 == r2,
{
    if r1 < r2 {
        assert((r1 + 1) * (r1 + 1) <= r2 * r2) by (nonlinear_arith)
            requires
                0 <= r1 < r2,
        ;
    } else if r2 < r1 {
        assert((r2 + 1) * (r2 + 1) <= r1 * r1) by (nonlinear_arith)
            requires
                0 <= r2 < r1,
        ;
    }
}

/// Every natural number has a rounded-down square root.
pub proof fn lemma_floor_sqrt_exists(n: int)
    requires
        n >= 0,
    ensures
        is_floor_sqrt(floor_sqrt(n), n),
    decreases n,
{
    if n == 0 {
        assert(is_floor_sqrt(0, 0));
    } else {
        lemma_floor_sqrt_exists(n - 1);
        let r = floor_sqrt(n - 1);
        if (r + 1) * (r + 1) <= n {
            assert((r + 1) * (r + 1) == n);
            assert(n < (r + 2) * (r + 2)) by (nonlinear_arith)
                requires
                    (r + 1) * (r + 1) == n,
                    r >= 0,
            ;
            assert(is_floor_sqrt(r + 1, n));
        } else {
            assert(is_floor_sqrt(r, n));
        }
    }
}

/// The square root of `n` rounded down.
pub fn isqrt(n: u64) -> (r: u64)
    ensures
        is_floor_sqrt(r as int, n as int),
        r == floor_sqrt(n as int),
{
    let mut lo: u64 = 0;
    let mut hi: u64 = 0x1_0000_0000;
    assert(n < hi * hi) by (nonlinear_arith)
        requires
            hi == 0x1_0000_0000,
            n <= u64::MAX,
    ;
    while hi - lo > 1
        invariant
            lo < hi <= 0x1_0000_0000,
            lo * lo <= n,
            n < hi * hi,
        decreases hi - lo,
    {
        let mid = lo + (hi - lo) / 2;
        assert(mid * mid < 0x1_0000_0000_0000_0000) by (nonlinear_arith)
            requires
                mid < 0x1_0000_0000,
        ;
        if mid * mid <= n {
            lo = mid;
        } else {
            hi = mid;
        }
    }
    assert(is_floor_sqrt(lo as int, n as int));
    proof {
        lemma_floor_sqrt_unique(lo as int, floor_sqrt(n as int), n as int);
    }
    lo
}

/// Where on a paddle of half height `half` the ball struck, `offset` above
/// its centre, as a numerator over `half`, held within `[-half, half]`.
pub open spec fn strike(offset: int, half: int) -> int {
    clamp(offset, -half, half)
}

/// The velocity a ball moving at `vel` leaves a paddle with after striking
/// it `offset` above its centre, on a paddle of half height `half`: its
/// speed is kept (rounded down), its horizontal direction is kept, and it is
/// sent off at a slope that grows with the distance from the centre: the
/// horizontal part scaled by `1 - |s| / 4` and the vertical part set to
/// `17 / 20` of the speed times `s`, where `s = strike(offset, half) / half`,
/// each rounded down.
pub open spec fn bounce(offset: int, half: int, vel: Vec2) -> (int, int) {
    let n = strike(offset, half);
    let speed = floor_sqrt(vel.x * vel.x + vel.y * vel.y);
    let dir_x: int = if vel.x < 0 { -1 } else { 1 };
    let abs_n: int = if n < 0 { -n } else { n };
    ((dir_x * speed * (4 * half - abs_n)) / (4 * half), (n * speed * 17) / (20 * half))
}

/// The velocity a ball leaves the paddle at `paddle_y`, of half height
/// `half_height`, with after striking it at height `impact_y` while moving
/// at `velocity`. Nothing when a component leaves the range of coordinates.
pub fn paddle_bounce(paddle_y: i32, half_height: i32, impact_y: i32, velocity: Vec2) -> (r: Option<Vec2>)
    requires
        half_height > 0,
    ensures
        r is Some <==> fits(bounce(impact_y - paddle_y, half_height as int, velocity).0) && fits(
            bounce(impact_y - paddle_y, half_height as int, velocity).1,
        ),
        r matches Some(v) ==> v.x == bounce(impact_y - paddle_y, half_height as int, velocity).0
            && v.y == bounce(impact_y - paddle_y, half_height as int, velocity).1,
{
    let ghost m: int = 0x8000_0000;
    let offset: i64 = impact_y as i64 - paddle_y as i64;
    let h = half_height as i64;
    let n: i64 = if offset < -h {
        -h
    } else if offset > h {
        h
    } else {
        offset
    };
    assert(0 <= velocity.x * velocity.x <= m * m && 0 <= velocity.y * velocity.y <= m * m) by (nonlinear_arith)
        requires
            -m <= velocity.x <= m,
            -m <= velocity.y <= m,
    ;
    let sq_x: i64 = velocity.x as i64 * velocity.x as i64;
    let sq_y: i64 = velocity.y as i64 * velocity.y as i64;
    let sq: u64 = sq_x as u64 + sq_y as u64;
    let speed = isqrt(sq) as i128;
    assert(speed <= 0x1_0000_0000) by (nonlinear_arith)
        requires
            speed * speed <= sq,
            sq <= 2 * m * m,
            m == 0x8000_0000,
            speed >= 0,
    ;
    let dir_x: i128 = if velocity.x < 0 { -1 } else { 1 };
    let abs_n: i128 = if n < 0 { -(n as i128) } else { n as i128 };
    let scale: i128 = 4 * h as i128 - abs_n;
    assert(0 <= scale <= 4 * m) by (nonlinear_arith)
        requires
            scale == 4 * h - abs_n,
            0 <= abs_n <= h,
            h < m,
    ;
    assert(-(0x1_0000_0000 * 4 * m) <= dir_x * speed * scale <= 0x1_0000_0000 * 4 * m) by (
    nonlinear_arith)
        requires
            0 <= speed <= 0x1_0000_0000,
            0 <= scale <= 4 * m,
            dir_x == 1 || dir_x == -1,
    ;
    assert(-(m * 0x1_0000_0000 * 17) <= n * speed * 17 <= m * 0x1_0000_0000 * 17) by (nonlinear_arith)
        requires
            0 <= speed <= 0x1_0000_0000,
            -m <= n <= m,
    ;
    let x = floor_div(dir_x * speed * scale, 4 * h as i128);
    let y = floor_div(n as i128 * speed * 17, 20 * h as i128);
    match (to_coord(x), to_coord(y)) {
        (Some(x), Some(y)) => Some(Vec2 { x, y }),
        _ => None,
    }
}

/// A paddle only ever moves one way at a time: up when its up key alone is
/// held (`W` on the left, the up arrow on the right), down when its down
/// key alone is held (`S`, the down arrow), and not at all otherwise; the
/// other side's keys do not matter.
pub proof fn lemma_drive(side: Side, keys: Keys)
    ensures
        -1 <= drive(side, keys) <= 1,
        side == Side::Left && keys.w && keys.s ==> drive(side, keys) == 0,
        side == Side::Right && keys.arrow_up && keys.arrow_down ==> drive(side, keys) == 0,
        side == Side::Left ==> (drive(side, keys) == 1 <==> keys.w && !keys.s) && (drive(side, keys) == -1
            <==> keys.s && !keys.w),
        side == Side::Right ==> (drive(side, keys) == 1 <==> keys.arrow_up && !keys.arrow_down) && (drive(
            side,
            keys,
        ) == -1 <==> keys.arrow_down && !keys.arrow_up),
{
}

/// A bounce keeps the ball's horizontal direction, and a strike at the very
/// centre of the paddle sends it off with no vertical motion.
pub proof fn lemma_bounce_keeps_direction(offset: int, half: int, vel: Vec2)
    requires
        half > 0,
    ensures
        vel.x >= 0 ==> bounce(offset, half, vel).0 >= 0,
        vel.x < 0 ==> bounce(offset, half, vel).0 <= 0,
        offset == 0 ==> bounce(offset, half, vel).1 == 0,
{
    let sq = vel.x * vel.x + vel.y * vel.y;
    assert(sq >= 0) by (nonlinear_arith)
        requires
            sq == vel.x * vel.x + vel.y * vel.y,
    ;
    lemma_floor_sqrt_exists(sq);
    let speed = floor_sqrt(sq);
    let n = strike(offset, half);
    let abs_n: int = if n < 0 { -n } else { n };
    let scale = 4 * half - abs_n;
    assert(speed * scale >= 0) by (nonlinear_arith)
        requires
            speed >= 0,
            scale >= 0,
    ;
    if vel.x >= 0 {
        assert((1 * speed * scale) / (4 * half) >= 0) by (nonlinear_arith)
            requires
                speed * scale >= 0,
                half > 0,
        ;
    } else {
        assert((-1 * speed * scale) / (4 * half) <= 0) by (nonlinear_arith)
            requires
                speed * scale >= 0,
                half > 0,
        ;
    }
    if offset == 0 {
        assert(n == 0);
        assert((n * speed * 17) / (20 * half) == 0) by (nonlinear_arith)
            requires
                n == 0,
                half > 0,
        ;
    }
}

/// A strike higher on the paddle never sends the ball lower.
pub proof fn lemma_bounce_monotone_in_strike(offset1: int, offset2: int, half: int, vel: Vec2)
    requires
        half > 0,
        offset1 <= offset2,
    ensures
        bounce(offset1, half, vel).1 <= bounce(offset2, half, vel).1,
{
    let sq = vel.x * vel.x + vel.y * vel.y;
    assert(sq >= 0) by (nonlinear_arith)
        requires
            sq == vel.x * vel.x + vel.y * vel.y,
    ;
    lemma_floor_sqrt_exists(sq);
    let speed = floor_sqrt(sq);
    let n1 = strike(offset1, half);
    let n2 = strike(offset2, half);
    assert(n1 <= n2);
    assert(n1 * speed * 17 <= n2 * speed * 17) by (nonlinear_arith)
        requires
            n1 <= n2,
            speed >= 0,
    ;
    assert((n1 * speed * 17) / (20 * half) <= (n2 * speed * 17) / (20 * half)) by (nonlinear_arith)
        requires
            n1 * speed * 17 <= n2 * speed * 17,
            half > 0,
    ;
}

/// The quotient of `x` by a positive `d`, rounded down, pins `x` between
/// two consecutive multiples of `d`.
proof fn lemma_floor_bounds(x: int, d: int)
    requires
        d > 0,
    ensures
        (x / d) * d <= x < (x / d) * d + d,
{
    assert((x / d) * d <= x < (x / d) * d + d) by (nonlinear_arith)
        requires
            d > 0,
    ;
}

/// A bounce is mirror-symmetric in where the ball struck: a strike as far
/// below the centre as another is above it gives the same horizontal
/// velocity and the opposite vertical velocity, up to one unit of rounding
/// down.
pub proof fn lemma_bounce_mirror(offset: int, half: int, vel: Vec2)
    requires
        half > 0,
    ensures
        bounce(-offset, half, vel).0 == bounce(offset, half, vel).0,
        -bounce(offset, half, vel).1 - 1 <= bounce(-offset, half, vel).1 <= -bounce(offset, half, vel).1,
{
    let sq = vel.x * vel.x + vel.y * vel.y;
    let speed = floor_sqrt(sq);
    let n = strike(offset, half);
    assert(strike(-offset, half) == -n);
    let d = 20 * half;
    let x = n * speed * 17;
    assert((-n) * speed * 17 == -x) by (nonlinear_arith)
        requires
            x == n * speed * 17,
    ;
    lemma_floor_bounds(x, d);
    lemma_floor_bounds(-x, d);
    let q1 = x / d;
    let q2 = (-x) / d;
    assert(-q1 - 1 <= q2 <= -q1) by (nonlinear_arith)
        requires
            d > 0,
            q1 * d <= x < q1 * d + d,
            q2 * d <= -x < q2 * d + d,
    ;
}

/// The angle of a bounce: for a strike within the paddle, `offset` above
/// its centre on a paddle of half height `half`, the ball leaves with its
/// speed `r` (the square root of its squared speed, rounded down) split so
/// that the vertical velocity is `17/20 * r * offset / half` and the
/// horizontal velocity keeps the ball's horizontal direction and is
/// `r * (1 - |offset| / (4 * half))`, each rounded down. A strike beyond an
/// edge counts as a strike at that edge.
pub proof fn lemma_bounce_angle(offset: int, half: int, vel: Vec2)
    requires
        half > 0,
    ensures
        ({
            let r = floor_sqrt(vel.x * vel.x + vel.y * vel.y);
            let b = bounce(offset, half, vel);
            let dir: int = if vel.x < 0 { -1 } else { 1 };
            let abs_o: int = if offset < 0 { -offset } else { offset };
            &&& is_floor_sqrt(r, vel.x * vel.x + vel.y * vel.y)
            &&& -half <= offset <= half ==> {
                &&& b.1 * (20 * half) <= offset * r * 17 < (b.1 + 1) * (20 * half)
                &&& b.0 * (4 * half) <= dir * r * (4 * half - abs_o) < (b.0 + 1) * (4 * half)
            }
            &&& offset > half ==> b == bounce(half, half, vel)
            &&& offset < -half ==> b == bounce(-half, half, vel)
        }),
{
    let sq = vel.x * vel.x + vel.y * vel.y;
    assert(sq >= 0) by (nonlinear_arith)
        requires
            sq == vel.x * vel.x + vel.y * vel.y,
    ;
    lemma_floor_sqrt_exists(sq);
    let r = floor_sqrt(sq);
    let dir: int = if vel.x < 0 { -1 } else { 1 };
    let abs_o: int = if offset < 0 { -offset } else { offset };
    lemma_floor_bounds(offset * r * 17, 20 * half);
    lemma_floor_bounds(dir * r * (4 * half - abs_o), 4 * half);
    let b = bounce(offset, half, vel);
    assert(b.1 * (20 * half) + 20 * half == (b.1 + 1) * (20 * half)) by (nonlinear_arith);
    assert(b.0 * (4 * half) + 4 * half == (b.0 + 1) * (4 * half)) by (nonlinear_arith);
}

/// The size of a paddle: 10 by 100 pixels.
pub fn paddle_size() -> (r: Vec2)
    ensures
        r.x == 10 * UNITS_PER_PIXEL,
        r.y == 100 * UNITS_PER_PIXEL,
{
    Vec2 { x: 10 * UNITS_PER_PIXEL, y: 100 * UNITS_PER_PIXEL }
}

} // verus!
