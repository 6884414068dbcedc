use vstd::prelude::*;

use crate::tactical::{BattlePoint, BattleSide, FlatBattlefield};

verus! {

// ---------------------------------------------------------------------------
// Distances
// ---------------------------------------------------------------------------

/// Squared euclidean distance between two battlefield points.
pub open spec fn spec_dist2(left: BattlePoint, right: BattlePoint) -> int {
    let dx = right.x_mm as int - left.x_mm as int;
    let dy = right.y_mm as int - left.y_mm as int;
    dx * dx + dy * dy
}

/// Two points are within `distance_mm` when the closed disc of that radius
/// around one holds the other.
pub open spec fn spec_within(left: BattlePoint, right: BattlePoint, distance_mm: u32) -> bool {
    spec_dist2(left, right) <= distance_mm as int * distance_mm as int
}

pub open spec fn abs(v: int) -> int {
    if v < 0 { -v } else { v }
}

pub open spec fn sign(v: int) -> int {
    if v < 0 { -1 } else if v > 0 { 1 } else { 0 }
}

/// Squares grow with their (non-negative) roots.
pub proof fn lemma_square_le(a: int, b: int)
    requires
        0 <= a <= b,
    ensures
        a * a <= b * b,
{
    lemma_square_monotonic(a, b);
}

proof fn lemma_square_monotonic(a: int, b: int)
    requires
        0 <= a <= b,
    ensures
        a * a <= b * b,
{
    assert(a * a <= a * b) by (nonlinear_arith) requires 0 <= a <= b;
    assert(a * b <= b * b) by (nonlinear_arith) requires 0 <= a <= b;
}

proof fn lemma_square_strict(a: int, b: int)
    requires
        0 <= a < b,
    ensures
        a * a < b * b,
{
    assert(a * a <= a * b) by (nonlinear_arith) requires 0 <= a < b;
    assert(a * b < b * b) by (nonlinear_arith) requires 0 <= a < b;
}

proof fn lemma_abs_square(v: int)
    ensures
        abs(v) * abs(v) == v * v,
{
    assert((-v) * (-v) == v * v) by (nonlinear_arith);
}

fn abs_diff_u64(a: u32, b: u32) -> (d: u64)
    ensures
        d == abs(b as int - a as int),
{
    if a <= b {
        (b - a) as u64
    } else {
        (a - b) as u64
    }
}

/// Whether `right` lies within `distance_mm` of `left`; exact on the whole
/// `u32` coordinate range. Radii beyond `i32::MAX` are not meaningful for the
/// tactical engine and are refused by its setup validation.
pub fn points_within_distance(left: BattlePoint, right: BattlePoint, distance_mm: u32) -> (within:
    bool)
    requires
        distance_mm <= i32::MAX,
    ensures
        within == spec_within(left, right, distance_mm),
{
    let dx = abs_diff_u64(left.x_mm, right.x_mm);
    let dz = abs_diff_u64(left.y_mm, right.y_mm);
    let distance = distance_mm as u64;
    proof {
        lemma_abs_square(right.x_mm as int - left.x_mm as int);
        lemma_abs_square(right.y_mm as int - left.y_mm as int);
    }
    if dx > distance || dz > distance {
        proof {
            if dx > distance {
                lemma_square_strict(distance as int, dx as int);
            } else {
                lemma_square_strict(distance as int, dz as int);
            }
            assert(dx * dx >= 0 && dz * dz >= 0) by (nonlinear_arith);
        }
        return false;
    }
    proof {
        lemma_square_monotonic(dx as int, distance as int);
        lemma_square_monotonic(dz as int, distance as int);
        assert(distance * distance <= 0x7fff_ffff * 0x7fff_ffff) by (nonlinear_arith)
            requires
                distance <= 0x7fff_ffff,
        ;
    }
    dx * dx + dz * dz <= distance * distance
}

/// Squared distance between two points, as the engine compares it.
pub fn point_distance_squared(left: BattlePoint, right: BattlePoint) -> (d2: u128)
    ensures
        d2 == spec_dist2(left, right),
{
    let dx = abs_diff_u64(left.x_mm, right.x_mm) as u128;
    let dy = abs_diff_u64(left.y_mm, right.y_mm) as u128;
    proof {
        lemma_abs_square(right.x_mm as int - left.x_mm as int);
        lemma_abs_square(right.y_mm as int - left.y_mm as int);
        assert(dx * dx <= 0xffff_ffff * 0xffff_ffff) by (nonlinear_arith)
            requires
                dx <= 0xffff_ffff,
        ;
        assert(dy * dy <= 0xffff_ffff * 0xffff_ffff) by (nonlinear_arith)
            requires
                dy <= 0xffff_ffff,
        ;
    }
    dx * dx + dy * dy
}

// ---------------------------------------------------------------------------
// Integer square root
// ---------------------------------------------------------------------------

/// `root` is the smallest natural number whose square reaches `value`.
pub open spec fn is_sqrt_ceil(value: int, root: int) -> bool {
    &&& root >= 0
    &&& root * root >= value
    &&& root == 0 || (root - 1) * (root - 1) < value
}

pub open spec fn spec_sqrt_ceil(value: int) -> int {
    choose|root: int| is_sqrt_ceil(value, root)
}

proof fn lemma_sqrt_ceil_unique(value: int, a: int, b: int)
    requires
        is_sqrt_ceil(value, a),
        is_sqrt_ceil(value, b),
    ensures
        a == b,
{
    if a < b {
        lemma_square_monotonic(a, b - 1);
    } else if b < a {
        lemma_square_monotonic(b, a - 1);
    }
}

proof fn lemma_sqrt_ceil_is(value: int, root: int)
    requires
        is_sqrt_ceil(value, root),
    ensures
        spec_sqrt_ceil(value) == root,
{
    let c = spec_sqrt_ceil(value);
    assert(is_sqrt_ceil(value, c));
    lemma_sqrt_ceil_unique(value, c, root);
}

/// The ceiling of the square root of `value`.
pub fn integer_sqrt_ceil(value: u128) -> (root: u128)
    requires
        value <= 0x4_0000_0000_0000_0000u128,
    ensures
        is_sqrt_ceil(value as int, root as int),
        root as int == spec_sqrt_ceil(value as int),
        root <= 0x2_0000_0000u128,
{
    let mut low: u128 = 0;
    let mut high: u128 = 0x4_0000_0000;
    assert(high * high > value) by (nonlinear_arith)
        requires
            high == 0x4_0000_0000u128,
            value <= 0x4_0000_0000_0000_0000u128,
    ;
    while high - low > 1
        invariant
            low < high <= 0x4_0000_0000u128,
            low * low <= value,
            value < high * high,
        decreases high - low,
    {
        let mid = low + (high - low) / 2;
        assert(mid * mid <= 0x10_0000_0000_0000_0000u128) by (nonlinear_arith)
            requires
                mid <= 0x4_0000_0000u128,
        ;
        if mid * mid <= value {
            low = mid;
        } else {
            high = mid;
        }
    }
    let root = if low * low == value {
        low
    } else {
        high
    };
    proof {
        if low * low == value {
            if low > 0 {
                lemma_square_strict(low - 1, low as int);
            }
        }
        assert(is_sqrt_ceil(value as int, root as int));
        lemma_sqrt_ceil_is(value as int, root as int);
        if root > 0x2_0000_0000u128 {
            lemma_square_monotonic(0x2_0000_0000int, root - 1);
        }
    }
    root
}

// ---------------------------------------------------------------------------
// Movement steps
// ---------------------------------------------------------------------------

/// One movement step of length at most `speed` along `(dx, dy)`: each
/// component is scaled by `speed / |(dx, dy)|` (the length rounded up) and
/// truncated toward zero; a step that would vanish becomes one millimetre
/// along the dominant axis.
pub open spec fn spec_step(dx: int, dy: int, speed: int) -> (int, int) {
    let distance = spec_sqrt_ceil(dx * dx + dy * dy);
    let step_x = signed(dx, scaled(abs(dx), speed, distance));
    let step_y = signed(dy, scaled(abs(dy), speed, distance));
    if step_x == 0 && step_y == 0 {
        if abs(dx) >= abs(dy) {
            (sign(dx), 0)
        } else {
            (0, sign(dy))
        }
    } else {
        (step_x, step_y)
    }
}

/// `a * speed / distance`, rounded down.
pub open spec fn scaled(a: int, speed: int, distance: int) -> int {
    a * speed / distance
}

/// `magnitude` with the sign of `direction`.
pub open spec fn signed(direction: int, magnitude: int) -> int {
    if direction < 0 { -magnitude } else { magnitude }
}

proof fn lemma_sqrt_bounds_axes(dx: int, dy: int, root: int)
    requires
        is_sqrt_ceil(dx * dx + dy * dy, root),
    ensures
        abs(dx) <= root,
        abs(dy) <= root,
{
    lemma_abs_square(dx);
    lemma_abs_square(dy);
    assert(dy * dy >= 0 && dx * dx >= 0) by (nonlinear_arith);
    if abs(dx) > root {
        lemma_square_strict(root, abs(dx));
    }
    if abs(dy) > root {
        lemma_square_strict(root, abs(dy));
    }
}

proof fn lemma_scaled_le(a: int, s: int, d: int)
    requires
        0 <= a <= d,
        0 <= s,
        d > 0,
    ensures
        0 <= scaled(a, s, d) <= s,
        s <= d ==> scaled(a, s, d) <= a,
        a == 0 ==> scaled(a, s, d) == 0,
{
    if a == 0 {
        assert(a * s == 0);
    }
    assert(0 <= a * s) by (nonlinear_arith) requires 0 <= a, 0 <= s;
    assert(a * s <= d * s) by (nonlinear_arith) requires 0 <= a <= d, 0 <= s;
    assert(a * s / d <= s) by (nonlinear_arith) requires a * s <= d * s, d > 0, 0 <= a * s;
    if s <= d {
        assert(a * s <= a * d) by (nonlinear_arith) requires 0 <= a, s <= d;
        assert(a * s / d <= a) by (nonlinear_arith) requires a * s <= a * d, d > 0, 0 <= a * s;
    }
}

/// A step never exceeds the speed: `step_x² + step_y² <= speed²`.
proof fn lemma_step_within_speed(dx: int, dy: int, speed: int)
    requires
        dx != 0 || dy != 0,
        speed >= 1,
    ensures
        ({
            let s = spec_step(dx, dy, speed);
            s.0 * s.0 + s.1 * s.1 <= speed * speed
        }),
{
    let d = spec_sqrt_ceil(dx * dx + dy * dy);
    assert(dx * dx >= 0 && dy * dy >= 0) by (nonlinear_arith);
    lemma_sqrt_exists(dx * dx + dy * dy);
    assert(is_sqrt_ceil(dx * dx + dy * dy, d));
    lemma_sqrt_bounds_axes(dx, dy, d);
    lemma_abs_square(dx);
    lemma_abs_square(dy);
    let ax = abs(dx);
    let ay = abs(dy);
    assert(d > 0) by {
        if d == 0 {
            assert(dx * dx + dy * dy <= 0);
            assert(dx * dx > 0 || dy * dy > 0) by (nonlinear_arith) requires dx != 0 || dy != 0;
            assert(dx * dx >= 0 && dy * dy >= 0) by (nonlinear_arith);
        }
    }
    let qx = scaled(ax, speed, d);
    let qy = scaled(ay, speed, d);
    lemma_scaled_le(ax, speed, d);
    lemma_scaled_le(ay, speed, d);
    let s = spec_step(dx, dy, speed);
    if qx == 0 && qy == 0 {
        assert(s == (if ax >= ay { (sign(dx), 0int) } else { (0int, sign(dy)) }));
        assert(s.0 * s.0 + s.1 * s.1 <= 1) by (nonlinear_arith)
            requires
                (s.0 == 0 || s.0 == 1 || s.0 == -1) && (s.1 == 0 || s.1 == 1 || s.1 == -1),
                s.0 == 0 || s.1 == 0,
        ;
        assert(1 <= speed * speed) by (nonlinear_arith) requires speed >= 1;
    } else {
        assert(s.0 == qx || s.0 == -qx);
        assert(s.1 == qy || s.1 == -qy);
        assert(s.0 * s.0 == qx * qx) by (nonlinear_arith) requires s.0 == qx || s.0 == -qx;
        assert(s.1 * s.1 == qy * qy) by (nonlinear_arith) requires s.1 == qy || s.1 == -qy;
        assert(qx * d <= ax * speed) by (nonlinear_arith)
            requires
                qx == ax * speed / d,
                d > 0,
                ax >= 0,
                speed >= 0,
        ;
        assert(qy * d <= ay * speed) by (nonlinear_arith)
            requires
                qy == ay * speed / d,
                d > 0,
                ay >= 0,
                speed >= 0,
        ;
        assert((qx * qx + qy * qy) * (d * d) <= (ax * ax + ay * ay) * (speed * speed))
            by (nonlinear_arith)
            requires
                0 <= qx * d <= ax * speed,
                0 <= qy * d <= ay * speed,
                qx >= 0,
                qy >= 0,
                d > 0,
        ;
        assert((ax * ax + ay * ay) * (speed * speed) <= (d * d) * (speed * speed))
            by (nonlinear_arith)
            requires
                ax * ax + ay * ay <= d * d,
        ;
        assert(qx * qx + qy * qy <= speed * speed) by (nonlinear_arith)
            requires
                (qx * qx + qy * qy) * (d * d) <= (d * d) * (speed * speed),
                d > 0,
        ;
    }
}

proof fn lemma_sqrt_exists(value: int)
    requires
        value >= 0,
    ensures
        exists|r: int| is_sqrt_ceil(value, r),
    decreases value,
{
    if value == 0 {
        assert(is_sqrt_ceil(0, 0));
    } else {
        let previous = value - 1;
        lemma_sqrt_exists(previous);
        let r = choose|r: int| is_sqrt_ceil(previous, r);
        if r * r >= value {
            assert(is_sqrt_ceil(value, r));
        } else {
            assert(r * r == value - 1);
            assert((r + 1) * (r + 1) >= value) by (nonlinear_arith) requires r >= 0, r * r == value - 1;
            assert(is_sqrt_ceil(value, r + 1));
        }
    }
}

/// The components of a step stay within the components of the leg.
proof fn lemma_step_within_leg(dx: int, dy: int, speed: int)
    requires
        dx != 0 || dy != 0,
        speed >= 0,
        dx * dx + dy * dy > speed * speed,
    ensures
        abs(spec_step(dx, dy, speed).0) <= abs(dx),
        abs(spec_step(dx, dy, speed).1) <= abs(dy),
        sign(spec_step(dx, dy, speed).0) * sign(dx) >= 0,
        sign(spec_step(dx, dy, speed).1) * sign(dy) >= 0,
{
    assert(dx * dx >= 0 && dy * dy >= 0) by (nonlinear_arith);
    lemma_sqrt_exists(dx * dx + dy * dy);
    let d = spec_sqrt_ceil(dx * dx + dy * dy);
    assert(is_sqrt_ceil(dx * dx + dy * dy, d));
    lemma_sqrt_bounds_axes(dx, dy, d);
    if d <= speed {
        assert(speed >= 0);
        lemma_square_monotonic(d, speed);
    }
    assert(d > 0 && speed <= d);
    lemma_scaled_le(abs(dx), speed, d);
    lemma_scaled_le(abs(dy), speed, d);
}

proof fn lemma_step_bounded(dx: int, dy: int, speed: int)
    requires
        dx != 0 || dy != 0,
        speed >= 0,
    ensures
        abs(spec_step(dx, dy, speed).0) <= if speed >= 1 { speed } else { 1 },
        abs(spec_step(dx, dy, speed).1) <= if speed >= 1 { speed } else { 1 },
{
    assert(dx * dx >= 0 && dy * dy >= 0) by (nonlinear_arith);
    lemma_sqrt_exists(dx * dx + dy * dy);
    let d = spec_sqrt_ceil(dx * dx + dy * dy);
    assert(is_sqrt_ceil(dx * dx + dy * dy, d));
    lemma_sqrt_bounds_axes(dx, dy, d);
    assert(d > 0) by {
        if d == 0 {
            assert(dx * dx > 0 || dy * dy > 0) by (nonlinear_arith) requires dx != 0 || dy != 0;
            assert(dx * dx >= 0 && dy * dy >= 0) by (nonlinear_arith);
        }
    }
    lemma_scaled_le(abs(dx), speed, d);
    lemma_scaled_le(abs(dy), speed, d);
}

fn abs_u128(v: i64) -> (a: u128)
    ensures
        a == abs(v as int),
{
    if v < 0 {
        (-(v as i128)) as u128
    } else {
        v as u128
    }
}

/// The step vector of one movement tick along `(dx, dy)`.
pub fn step_vector(dx: i64, dy: i64, speed_mm: u32) -> (step: (i64, i64))
    requires
        dx != 0 || dy != 0,
        -0xffff_ffff <= dx <= 0xffff_ffff,
        -0xffff_ffff <= dy <= 0xffff_ffff,
    ensures
        step.0 == spec_step(dx as int, dy as int, speed_mm as int).0,
        step.1 == spec_step(dx as int, dy as int, speed_mm as int).1,
{
    let ax = abs_u128(dx);
    let ay = abs_u128(dy);
    proof {
        lemma_abs_square(dx as int);
        lemma_abs_square(dy as int);
        assert(ax * ax <= 0xffff_ffff * 0xffff_ffff) by (nonlinear_arith)
            requires
                ax <= 0xffff_ffff,
        ;
        assert(ay * ay <= 0xffff_ffff * 0xffff_ffff) by (nonlinear_arith)
            requires
                ay <= 0xffff_ffff,
        ;
    }
    let squared = ax * ax + ay * ay;
    let distance = integer_sqrt_ceil(squared);
    let speed = speed_mm as u128;
    proof {
        lemma_step_bounded(dx as int, dy as int, speed as int);
        lemma_sqrt_bounds_axes(dx as int, dy as int, distance as int);
        assert(distance > 0) by {
            if distance == 0 {
                assert(ax * ax > 0 || ay * ay > 0) by (nonlinear_arith) requires ax > 0 || ay > 0;
            }
        }
        assert(ax * speed <= 0xffff_ffff * 0xffff_ffff) by (nonlinear_arith)
            requires
                ax <= 0xffff_ffff,
                speed <= 0xffff_ffff,
        ;
        assert(ay * speed <= 0xffff_ffff * 0xffff_ffff) by (nonlinear_arith)
            requires
                ay <= 0xffff_ffff,
                speed <= 0xffff_ffff,
        ;
        lemma_scaled_le(ax as int, speed as int, distance as int);
        lemma_scaled_le(ay as int, speed as int, distance as int);
    }
    let qx = (ax * speed / distance) as i64;
    let qy = (ay * speed / distance) as i64;
    let mut step_x: i64 = if dx < 0 {
        -qx
    } else {
        qx
    };
    let mut step_y: i64 = if dy < 0 {
        -qy
    } else {
        qy
    };
    if step_x == 0 && step_y == 0 {
        if ax >= ay {
            step_x = if dx < 0 {
                -1
            } else if dx > 0 {
                1
            } else {
                0
            };
        } else {
            step_y = if dy < 0 {
                -1
            } else if dy > 0 {
                1
            } else {
                0
            };
        }
    }
    (step_x, step_y)
}

/// One tick of movement from `current` toward `destination` at `speed_mm`:
/// the destination itself once it is within reach, otherwise one step.
pub open spec fn spec_move_toward(current: BattlePoint, destination: BattlePoint, speed_mm: u32) -> BattlePoint {
    let dx = destination.x_mm as int - current.x_mm as int;
    let dy = destination.y_mm as int - current.y_mm as int;
    if current == destination || spec_dist2(current, destination) <= speed_mm as int
        * speed_mm as int {
        destination
    } else {
        let step = spec_step(dx, dy, speed_mm as int);
        BattlePoint {
            x_mm: (current.x_mm as int + step.0) as u32,
            y_mm: (current.y_mm as int + step.1) as u32,
        }
    }
}

pub open spec fn between(a: int, v: int, b: int) -> bool {
    (a <= v <= b) || (b <= v <= a)
}

/// A tick of movement ends between the start and the target on each axis,
/// covers at most `speed_mm` (for a positive speed), and reaches a target
/// within reach exactly.
pub proof fn lemma_move_toward(current: BattlePoint, destination: BattlePoint, speed_mm: u32)
    ensures
        between(current.x_mm as int, spec_move_toward(current, destination, speed_mm).x_mm as int, destination.x_mm as int),
        between(current.y_mm as int, spec_move_toward(current, destination, speed_mm).y_mm as int, destination.y_mm as int),
        speed_mm >= 1 ==> spec_dist2(current, spec_move_toward(current, destination, speed_mm))
            <= speed_mm as int * speed_mm as int,
        spec_dist2(current, destination) <= speed_mm as int * speed_mm as int ==> spec_move_toward(
            current,
            destination,
            speed_mm,
        ) == destination,
{
    let dx = destination.x_mm as int - current.x_mm as int;
    let dy = destination.y_mm as int - current.y_mm as int;
    if current == destination || spec_dist2(current, destination) <= speed_mm as int * speed_mm as int {
        if current == destination {
            assert(spec_dist2(current, current) == 0);
        }
    } else {
        assert(dx != 0 || dy != 0);
        lemma_step_within_leg(dx, dy, speed_mm as int);
        if speed_mm >= 1 {
            lemma_step_within_speed(dx, dy, speed_mm as int);
        }
        let s = spec_step(dx, dy, speed_mm as int);
        let next = spec_move_toward(current, destination, speed_mm);
        assert(next.x_mm as int == current.x_mm as int + s.0);
        assert(next.y_mm as int == current.y_mm as int + s.1);
    }
}

pub fn move_point_toward(current: BattlePoint, destination: BattlePoint, speed_mm: u32) -> (next:
    BattlePoint)
    ensures
        next == spec_move_toward(current, destination, speed_mm),
{
    if current == destination {
        return destination;
    }
    let dx: i64 = destination.x_mm as i64 - current.x_mm as i64;
    let dy: i64 = destination.y_mm as i64 - current.y_mm as i64;
    let distance_squared = point_distance_squared(current, destination);
    let speed = speed_mm as u128;
    assert(speed * speed <= 0xffff_ffff * 0xffff_ffff) by (nonlinear_arith)
        requires
            speed <= 0xffff_ffff,
    ;
    if distance_squared <= speed * speed {
        return destination;
    }
    proof {
        lemma_step_within_leg(dx as int, dy as int, speed_mm as int);
    }
    let (step_x, step_y) = step_vector(dx, dy, speed_mm);
    BattlePoint::new(
        (current.x_mm as i64 + step_x) as u32,
        (current.y_mm as i64 + step_y) as u32,
    )
}

/// One tick of flight from `enemy`: a step directly away (straight back
/// toward the own edge when both stand on the same point), kept on the
/// battlefield.
pub open spec fn spec_move_away(
    current: BattlePoint,
    enemy: BattlePoint,
    speed_mm: u32,
    battlefield: FlatBattlefield,
    side: BattleSide,
) -> BattlePoint {
    let dy = current.y_mm as int - enemy.y_mm as int;
    let dx0 = current.x_mm as int - enemy.x_mm as int;
    let dx = if dx0 == 0 && dy == 0 {
        match side {
            BattleSide::Attacker => -1int,
            BattleSide::Defender => 1int,
        }
    } else {
        dx0
    };
    let step = spec_step(dx, dy, speed_mm as int);
    BattlePoint {
        x_mm: clamp(current.x_mm as int + step.0, battlefield.width_mm as int) as u32,
        y_mm: clamp(current.y_mm as int + step.1, battlefield.depth_mm as int) as u32,
    }
}

pub open spec fn clamp(v: int, high: int) -> int {
    if v < 0 { 0 } else if v > high { high } else { v }
}

pub fn move_point_away(
    current: BattlePoint,
    enemy: BattlePoint,
    speed_mm: u32,
    battlefield: FlatBattlefield,
    side: BattleSide,
) -> (next: BattlePoint)
    ensures
        next == spec_move_away(current, enemy, speed_mm, battlefield, side),
        battlefield.spec_contains(next),
{
    let mut dx: i64 = current.x_mm as i64 - enemy.x_mm as i64;
    let dy: i64 = current.y_mm as i64 - enemy.y_mm as i64;
    if dx == 0 && dy == 0 {
        dx = match side {
            BattleSide::Attacker => -1,
            BattleSide::Defender => 1,
        };
    }
    proof {
        lemma_step_bounded(dx as int, dy as int, speed_mm as int);
    }
    let (step_x, step_y) = step_vector(dx, dy, speed_mm);
    let raw_x = current.x_mm as i64 + step_x;
    let raw_y = current.y_mm as i64 + step_y;
    let x = if raw_x < 0 {
        0
    } else if raw_x > battlefield.width_mm as i64 {
        battlefield.width_mm as i64
    } else {
        raw_x
    };
    let y = if raw_y < 0 {
        0
    } else if raw_y > battlefield.depth_mm as i64 {
        battlefield.depth_mm as i64
    } else {
        raw_y
    };
    BattlePoint::new(x as u32, y as u32)
}

} // verus!
