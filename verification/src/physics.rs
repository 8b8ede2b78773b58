//! Positions, speeds and the kinematic step.
//!
//! Every scalar is a whole number of some small unit: a coordinate counts
//! length steps, a speed counts the length steps covered in one move.

use vstd::prelude::*;

verus! {

/// Length steps in one distance unit.
pub const STEPS_PER_UNIT: u64 = 1_000_000;

/// Largest magnitude of a coordinate that the arithmetic here is proved for.
pub const COORD_LIMIT: i64 = 0x2000_0000_0000_0000;

/// A point of the plane, in length steps.
#[derive(Clone, Copy, PartialEq, Eq, Structural, Debug)]
pub struct Point {
    pub x: i64,
    pub y: i64,
}

/// Where a body is.
#[derive(Clone, Copy, PartialEq, Eq, Structural, Debug)]
pub struct PhysicalObject {
    pub position: Point,
}

/// Length steps covered in one move.
#[derive(Clone, Copy, PartialEq, Eq, Structural, Debug)]
pub struct Speed(pub u64);

/// The current speed of a body that can move.
#[derive(Clone, Copy, PartialEq, Eq, Structural, Debug)]
pub struct Mobile(pub Speed);

impl Point {
    /// Both coordinates lie within `COORD_LIMIT` of the origin.
    pub open spec fn in_bounds(self) -> bool {
        &&& -COORD_LIMIT <= self.x <= COORD_LIMIT
        &&& -COORD_LIMIT <= self.y <= COORD_LIMIT
    }

    /// Square of the Euclidean distance between two points.
    pub open spec fn distance_squared_to(self, other: Point) -> int {
        (other.x - self.x) * (other.x - self.x) + (other.y - self.y) * (other.y - self.y)
    }

    /// Computes `in_bounds`.
    pub fn is_in_bounds(&self) -> (ok: bool)
        ensures
            ok == self.in_bounds(),
    {
        -COORD_LIMIT <= self.x && self.x <= COORD_LIMIT && -COORD_LIMIT <= self.y && self.y
            <= COORD_LIMIT
    }

    /// The point of these coordinates, where both are within the limit.
    pub fn new(x: i64, y: i64) -> (point: Option<Point>)
        ensures
            point == if (Point { x, y }).in_bounds() {
                Some(Point { x, y })
            } else {
                None::<Point>
            },
    {
        if -COORD_LIMIT <= x && x <= COORD_LIMIT && -COORD_LIMIT <= y && y <= COORD_LIMIT {
            Some(Point { x, y })
        } else {
            None
        }
    }

    /// Square of the Euclidean distance to `other`.
    pub fn distance_squared(&self, other: &Point) -> (d: u128)
        requires
            self.in_bounds(),
            other.in_bounds(),
        ensures
            d == self.distance_squared_to(*other),
            d <= 0x2000_0000_0000_0000_0000_0000_0000_0000,
    {
        let ax: u128 = magnitude(self.x, other.x);
        let ay: u128 = magnitude(self.y, other.y);
        proof {
            lemma_square_bounded(ax as int, 0x4000_0000_0000_0000);
            lemma_square_bounded(ay as int, 0x4000_0000_0000_0000);
            lemma_square_of_difference(self.x as int, other.x as int);
            lemma_square_of_difference(self.y as int, other.y as int);
        }
        ax * ax + ay * ay
    }
}

/// The absolute difference of two integers.
pub open spec fn gap(from: int, to: int) -> int {
    if to >= from {
        to - from
    } else {
        from - to
    }
}

/// The least natural number whose square is at least `n`.
pub open spec fn ceil_sqrt(n: nat) -> nat
    decreases n,
{
    if n == 0 {
        0
    } else {
        let r = ceil_sqrt((n - 1) as nat);
        if r * r >= n {
            r
        } else {
            r + 1
        }
    }
}

/// The coordinate reached from `from` after covering the fraction `d / t` of
/// the way to `to`, rounded towards `from`.
pub open spec fn coordinate_between(from: int, to: int, d: int, t: int) -> int {
    if to >= from {
        from + ((to - from) * d) / t
    } else {
        from - ((from - to) * d) / t
    }
}

/// The point reached from `point1` after moving `distance` towards `point2`:
/// `point2` itself where the move would reach or pass it, else the point at
/// the fraction `distance / ceil_sqrt(total squared distance)` of the way,
/// each coordinate rounded towards `point1`.
pub open spec fn point_between(point1: Point, point2: Point, distance: nat) -> Point {
    let n = point1.distance_squared_to(point2);
    if distance * distance >= n {
        point2
    } else {
        let t = ceil_sqrt(n as nat) as int;
        Point {
            x: coordinate_between(point1.x as int, point2.x as int, distance as int, t) as i64,
            y: coordinate_between(point1.y as int, point2.y as int, distance as int, t) as i64,
        }
    }
}

proof fn lemma_square_bounded(a: int, bound: int)
    by (nonlinear_arith)
    requires
        0 <= a <= bound,
    ensures
        0 <= a * a <= bound * bound,
{
}

proof fn lemma_square_of_difference(from: int, to: int)
    by (nonlinear_arith)
    ensures
        gap(from, to) * gap(from, to) == (to - from) * (to - from),
{
}

proof fn lemma_square_monotonic(a: int, b: int)
    by (nonlinear_arith)
    requires
        0 <= a <= b,
    ensures
        a * a <= b * b,
{
}

/// `ceil_sqrt(n)` is the one `t` with `(t - 1)^2 < n <= t^2`.
pub proof fn lemma_ceil_sqrt_bounds(n: nat)
    ensures
        n <= ceil_sqrt(n) * ceil_sqrt(n),
        n > 0 ==> ceil_sqrt(n) >= 1 && (ceil_sqrt(n) - 1) * (ceil_sqrt(n) - 1) < n,
    decreases n,
{
    if n > 0 {
        let m = (n - 1) as nat;
        let r = ceil_sqrt(m);
        lemma_ceil_sqrt_bounds(m);
        if r * r >= n {
            if r == 0 {
                assert(r * r == 0);
            }
        } else {
            assert(r * r == m);
            assert((r + 1) * (r + 1) == r * r + 2 * r + 1) by (nonlinear_arith);
        }
    } else {
        assert(ceil_sqrt(0) == 0);
    }
}

/// Any `t` with `(t - 1)^2 < n <= t^2` is `ceil_sqrt(n)`.
pub proof fn lemma_ceil_sqrt_unique(n: nat, t: nat)
    requires
        n <= t * t,
        t > 0 ==> (t - 1) * (t - 1) < n,
    ensures
        t == ceil_sqrt(n),
{
    let r = ceil_sqrt(n);
    lemma_ceil_sqrt_bounds(n);
    if n == 0 {
        if t > 0 {
            lemma_square_bounded(0, t - 1);
        }
    } else {
        if t == 0 {
            assert(t * t == 0);
        }
        if t < r {
            lemma_square_monotonic(t as int, r - 1);
        }
        if r < t {
            lemma_square_monotonic(r as int, t - 1);
        }
    }
}

/// The absolute difference of two coordinates.
fn magnitude(from: i64, to: i64) -> (m: u128)
    requires
        -COORD_LIMIT <= from <= COORD_LIMIT,
        -COORD_LIMIT <= to <= COORD_LIMIT,
    ensures
        m == gap(from as int, to as int),
        m <= 0x4000_0000_0000_0000,
{
    if to >= from {
        (to - from) as u128
    } else {
        (from - to) as u128
    }
}

/// The least `t` whose square is at least `n`.
pub fn ceil_sqrt_of(n: u128) -> (t: u128)
    ensures
        t == ceil_sqrt(n as nat),
        t <= 0x1_0000_0000_0000_0000,
{
    if n == 0 {
        return 0;
    }
    let mut low: u128 = 0;
    let mut high: u128 = 0x1_0000_0000_0000_0000;
    proof {
        assert(0x1_0000_0000_0000_0000int * 0x1_0000_0000_0000_0000int > u128::MAX);
    }
    while high - low > 1
        invariant
            low < high <= 0x1_0000_0000_0000_0000,
            low * low < n,
            n <= high * high,
        decreases high - low,
    {
        let mid: u128 = low + (high - low) / 2;
        proof {
            lemma_square_bounded(mid as int, 0xFFFF_FFFF_FFFF_FFFF);
            assert(0xFFFF_FFFF_FFFF_FFFFint * 0xFFFF_FFFF_FFFF_FFFFint <= u128::MAX);
        }
        if mid * mid >= n {
            high = mid;
        } else {
            low = mid;
        }
    }
    proof {
        assert(high - 1 == low);
        lemma_ceil_sqrt_unique(n as nat, high as nat);
    }
    high
}

/// The coordinate at the fraction `d / t` of the way from `from` to `to`.
fn step_coordinate(from: i64, to: i64, d: u64, t: u128) -> (c: i64)
    requires
        -COORD_LIMIT <= from <= COORD_LIMIT,
        -COORD_LIMIT <= to <= COORD_LIMIT,
        d < t,
    ensures
        c == coordinate_between(from as int, to as int, d as int, t as int),
        gap(from as int, c as int) <= gap(from as int, to as int),
        to >= from ==> from <= c <= to,
        to <= from ==> to <= c <= from,
{
    let a: u128 = magnitude(from, to);
    proof {
        lemma_fraction_bounded(a as int, d as int, t as int);
        assert(a * d <= 0x4000_0000_0000_0000 * 0xFFFF_FFFF_FFFF_FFFF) by (nonlinear_arith)
            requires
                0 <= a <= 0x4000_0000_0000_0000,
                0 <= d <= 0xFFFF_FFFF_FFFF_FFFF,
        ;
    }
    let m: u128 = a * (d as u128) / t;
    if to >= from {
        from + (m as i64)
    } else {
        from - (m as i64)
    }
}

/// A whole fraction `d / t < 1` of `a` is at most `a`, and less where `a > 0`.
proof fn lemma_fraction_bounded(a: int, d: int, t: int)
    by (nonlinear_arith)
    requires
        0 <= a,
        0 <= d < t,
    ensures
        0 <= (a * d) / t <= a,
        a > 0 ==> (a * d) / t < a,
        ((a * d) / t) * t <= a * d < ((a * d) / t) * t + t,
{
}

/// Moves from `point1` towards `point2` by `distance_from_point1`, stopping at
/// `point2` where the move would reach or pass it.
pub fn get_point_between(point1: Point, point2: Point, distance_from_point1: u64) -> (point: Point)
    requires
        point1.in_bounds(),
        point2.in_bounds(),
    ensures
        point == point_between(point1, point2, distance_from_point1 as nat),
        point.in_bounds(),
        point == point2 <==> distance_from_point1 * distance_from_point1
            >= point1.distance_squared_to(point2),
        point.distance_squared_to(point2) <= point1.distance_squared_to(point2),
{
    proof {
        lemma_step_stays_on_the_way(point1, point2, distance_from_point1 as nat);
        lemma_step_arrives_iff_reached(point1, point2, distance_from_point1 as nat);
    }
    let total_squared: u128 = point1.distance_squared(&point2);
    let d: u128 = distance_from_point1 as u128;
    proof {
        lemma_square_bounded(d as int, 0xFFFF_FFFF_FFFF_FFFF);
        assert(0xFFFF_FFFF_FFFF_FFFFint * 0xFFFF_FFFF_FFFF_FFFFint <= u128::MAX);
    }
    if d * d >= total_squared {
        return point2;
    }
    let t: u128 = ceil_sqrt_of(total_squared);
    proof {
        lemma_ceil_sqrt_bounds(total_squared as nat);
        if d >= t {
            lemma_square_monotonic(t as int, d as int);
        }
    }
    Point {
        x: step_coordinate(point1.x, point2.x, distance_from_point1, t),
        y: step_coordinate(point1.y, point2.y, distance_from_point1, t),
    }
}

/// A kinematic step never leaves the segment's bounding box, lands within one
/// length step of the segment point at fraction `distance / ceil_sqrt(total)`,
/// and never increases the distance to the destination.
pub proof fn lemma_step_stays_on_the_way(point1: Point, point2: Point, distance: nat)
    requires
        point1.in_bounds(),
        point2.in_bounds(),
    ensures
        ({
            let reached = point_between(point1, point2, distance);
            let t = ceil_sqrt(point1.distance_squared_to(point2) as nat);
            &&& reached.in_bounds()
            &&& point1.x <= point2.x ==> point1.x <= reached.x <= point2.x
            &&& point2.x <= point1.x ==> point2.x <= reached.x <= point1.x
            &&& point1.y <= point2.y ==> point1.y <= reached.y <= point2.y
            &&& point2.y <= point1.y ==> point2.y <= reached.y <= point1.y
            &&& reached.distance_squared_to(point2) <= point1.distance_squared_to(point2)
            &&& reached != point2 ==> {
                &&& gap(point1.x as int, reached.x as int) * t <= gap(
                    point1.x as int,
                    point2.x as int,
                ) * distance < gap(point1.x as int, reached.x as int) * t + t
                &&& gap(point1.y as int, reached.y as int) * t <= gap(
                    point1.y as int,
                    point2.y as int,
                ) * distance < gap(point1.y as int, reached.y as int) * t + t
            }
        }),
{
    let reached = point_between(point1, point2, distance);
    let n = point1.distance_squared_to(point2);
    let d = distance as int;
    lemma_square_of_difference(point1.x as int, point2.x as int);
    lemma_square_of_difference(point1.y as int, point2.y as int);
    lemma_square_bounded(gap(point1.x as int, point2.x as int), 0x4000_0000_0000_0000);
    lemma_square_bounded(gap(point1.y as int, point2.y as int), 0x4000_0000_0000_0000);
    if d * d < n {
        let t = ceil_sqrt(n as nat) as int;
        lemma_ceil_sqrt_bounds(n as nat);
        if d >= t {
            lemma_square_monotonic(t, d);
        }
        lemma_fraction_bounded(gap(point1.x as int, point2.x as int), d, t);
        lemma_fraction_bounded(gap(point1.y as int, point2.y as int), d, t);
        lemma_square_of_difference(reached.x as int, point2.x as int);
        lemma_square_of_difference(reached.y as int, point2.y as int);
        lemma_square_monotonic(
            gap(reached.x as int, point2.x as int),
            gap(point1.x as int, point2.x as int),
        );
        lemma_square_monotonic(
            gap(reached.y as int, point2.y as int),
            gap(point1.y as int, point2.y as int),
        );
    }
}

/// Twice the area of the triangle of three points, with a sign: it is zero
/// exactly when `c` lies on the line through `a` and `b`.
pub open spec fn cross(a: Point, b: Point, c: Point) -> int {
    (c.x - a.x) * (b.y - a.y) - (c.y - a.y) * (b.x - a.x)
}

proof fn lemma_cross_of_rounded(gx: int, gy: int, d: int, t: int, mx: int, my: int)
    requires
        t > 0,
        mx == (gx * d) / t,
        my == (gy * d) / t,
    ensures
        mx * gy == my * gx <==> gx * ((gy * d) % t) == gy * ((gx * d) % t),
        (-mx) * gy - my * (-gx) == -(mx * gy - my * gx),
        mx * (-gy) - (-my) * gx == -(mx * gy - my * gx),
        (-mx) * (-gy) - (-my) * (-gx) == mx * gy - my * gx,
{
    let rx = (gx * d) % t;
    let ry = (gy * d) % t;
    vstd::arithmetic::div_mod::lemma_fundamental_div_mod(gx * d, t);
    vstd::arithmetic::div_mod::lemma_fundamental_div_mod(gy * d, t);
    let k = mx * gy - my * gx;
    assert(t * k == gx * ry - gy * rx) by (nonlinear_arith)
        requires
            t * mx + rx == gx * d,
            t * my + ry == gy * d,
            k == mx * gy - my * gx,
    ;
    assert(t * k == 0 <==> k == 0) by (nonlinear_arith)
        requires
            t > 0,
    ;
    assert((-mx) * gy - my * (-gx) == -(mx * gy - my * gx)) by (nonlinear_arith);
    assert(mx * (-gy) - (-my) * gx == -(mx * gy - my * gx)) by (nonlinear_arith);
    assert((-mx) * (-gy) - (-my) * (-gx) == mx * gy - my * gx) by (nonlinear_arith);
}

/// A kinematic step lands on the line from the prior position to the
/// destination exactly when it arrives, or when what the rounding cut off
/// of the two coordinates is in proportion to the way to go in each.
pub proof fn lemma_step_on_the_line(point1: Point, point2: Point, distance: nat)
    requires
        point1.in_bounds(),
        point2.in_bounds(),
    ensures
        ({
            let reached = point_between(point1, point2, distance);
            let t = ceil_sqrt(point1.distance_squared_to(point2) as nat) as int;
            let gx = gap(point1.x as int, point2.x as int);
            let gy = gap(point1.y as int, point2.y as int);
            cross(point1, point2, reached) == 0 <==> reached == point2 || gx * ((gy * distance)
                % t) == gy * ((gx * distance) % t)
        }),
{
    let reached = point_between(point1, point2, distance);
    let n = point1.distance_squared_to(point2);
    let d = distance as int;
    let gx = gap(point1.x as int, point2.x as int);
    let gy = gap(point1.y as int, point2.y as int);
    lemma_step_stays_on_the_way(point1, point2, distance);
    lemma_step_arrives_iff_reached(point1, point2, distance);
    if d * d >= n {
        assert(cross(point1, point2, point2) == 0) by (nonlinear_arith);
    } else {
        let t = ceil_sqrt(n as nat) as int;
        lemma_ceil_sqrt_bounds(n as nat);
        lemma_square_of_difference(point1.x as int, point2.x as int);
        lemma_square_of_difference(point1.y as int, point2.y as int);
        lemma_square_bounded(gx, 0x4000_0000_0000_0000);
        lemma_square_bounded(gy, 0x4000_0000_0000_0000);
        if d >= t {
            lemma_square_monotonic(t, d);
        }
        lemma_fraction_bounded(gx, d, t);
        lemma_fraction_bounded(gy, d, t);
        let mx = (gx * d) / t;
        let my = (gy * d) / t;
        lemma_cross_of_rounded(gx, gy, d, t, mx, my);
        assert(reached.x - point1.x == if point2.x >= point1.x {
            mx
        } else {
            -mx
        });
        assert(reached.y - point1.y == if point2.y >= point1.y {
            my
        } else {
            -my
        });
        assert(point2.x - point1.x == if point2.x >= point1.x {
            gx
        } else {
            -gx
        });
        assert(point2.y - point1.y == if point2.y >= point1.y {
            gy
        } else {
            -gy
        });
    }
}

/// A kinematic step lands on the destination exactly when the distance moved
/// is at least the distance that was left.
pub proof fn lemma_step_arrives_iff_reached(point1: Point, point2: Point, distance: nat)
    requires
        point1.in_bounds(),
        point2.in_bounds(),
    ensures
        point_between(point1, point2, distance) == point2 <==> distance * distance
            >= point1.distance_squared_to(point2),
        point_between(point2, point2, distance) == point2,
{
    let n = point1.distance_squared_to(point2);
    let d = distance as int;
    lemma_square_of_difference(point1.x as int, point2.x as int);
    lemma_square_of_difference(point1.y as int, point2.y as int);
    assert(point2.distance_squared_to(point2) == 0);
    assert(d * d >= 0) by (nonlinear_arith);
    if d * d < n {
        let t = ceil_sqrt(n as nat) as int;
        lemma_ceil_sqrt_bounds(n as nat);
        if d >= t {
            lemma_square_monotonic(t, d);
        }
        lemma_fraction_bounded(gap(point1.x as int, point2.x as int), d, t);
        lemma_fraction_bounded(gap(point1.y as int, point2.y as int), d, t);
        if point1.x == point2.x && point1.y == point2.y {
            assert(n == 0);
        }
    }
}

} // verus!
