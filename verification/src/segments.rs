//! Positions, and whether two line segments meet.
//!
//! Two tests are stated here, both in rounded arithmetic: one by the place in
//! which the lines of the segments meet ([`segments_meet`]), and one by the
//! sides on which the ends of the segments lie ([`segments_touch`]). On
//! coordinates of moderate size, in whole pixels or in binary fractions of them,
//! both say exactly whether the segments have a point in common.

use vstd::arithmetic::power2::lemma2_to64;
use vstd::arithmetic::power2::lemma_pow2_adds;
use vstd::arithmetic::power2::lemma_pow2_pos;
use vstd::arithmetic::power2::lemma_pow2_strictly_increases;
use vstd::arithmetic::power2::pow2;
use vstd::prelude::*;

use crate::double::alike;
use crate::double::law_signs;
use crate::double::lemma_exact_rounds_to_itself;
use crate::double::lemma_minus_of_opposites;
use crate::double::lemma_minus_turned;
use crate::double::lemma_nearest_is_exact;
use crate::double::lemma_negated;
use crate::double::lemma_over_of_opposites;
use crate::double::lemma_pattern_exists;
use crate::double::lemma_rounded;
use crate::double::lemma_rounding_is_monotone;
use crate::double::lemma_size_decides;
use crate::double::lemma_times_commutes;
use crate::double::lemma_times_opposite;
use crate::double::lemma_units_at_scale;
use crate::double::lemma_units_increase;
use crate::double::lemma_units_zero;
use crate::double::nearest;
use crate::double::one;
use crate::double::opposite;
use crate::double::rounded;
use crate::double::rounds_to;
use crate::double::size_of_int;
use crate::double::twice_middle;
use crate::double::units;
use crate::double::Double;
use crate::double::INFINITY_BITS;

verus! {

/// Lines whose cross product is smaller than this, a ten thousand millionth,
/// count as parallel.
pub const PARALLEL_BITS: u64 = 0x3ddb_7cdf_d9d7_bdbb;

/// The number one.
pub const ONE_BITS: u64 = 0x3ff0_0000_0000_0000;

/// A pointer position in logical pixels.
#[derive(Clone, Copy, Debug, PartialEq, Eq, Structural)]
pub struct Position {
    pub x: Double,
    pub y: Double,
}

impl Position {
    /// The position on the other side of the diagonal.
    pub open spec fn mirrored(self) -> Position {
        Position { x: self.y, y: self.x }
    }
}

/// The point (`x`, `y`).
pub open spec fn point(x: int, y: int) -> Position {
    Position { x: Double::of_int(x), y: Double::of_int(y) }
}

/// The cross product of the vectors (ax, ay) and (bx, by).
#[verifier::opaque]
pub open spec fn cross_product(ax: Double, ay: Double, bx: Double, by: Double) -> Double {
    ax.times(by).minus(ay.times(bx))
}

/// Whether `x` is a number from zero to one.
pub open spec fn is_share(x: Double) -> bool {
    x.ge(Double::zero(false)) && (Double { bits: ONE_BITS }).ge(x)
}

/// Whether `x` is zero.
pub open spec fn is_zero(x: Double) -> bool {
    x.ge(Double::zero(false)) && Double::zero(false).ge(x)
}

/// Whether directions with the cross product `denom` count as parallel.
pub open spec fn is_parallel(denom: Double) -> bool {
    (Double { bits: PARALLEL_BITS }).gt(denom.magnitude())
}

/// Whether two segments meet, whose directions have the cross product `denom`,
/// and whose lines meet `t / denom` of the way along the one segment and
/// `u / denom` of the way along the other.
#[verifier::opaque]
pub open spec fn meet_within(denom: Double, t: Double, u: Double) -> bool {
    &&& !is_parallel(denom)
    &&& is_share(t.over(denom))
    &&& is_share(u.over(denom))
}

/// Whether one of `a1` and `a2` is not above one of `b1` and `b2`.
pub open spec fn begins_before(a1: Double, a2: Double, b1: Double, b2: Double) -> bool {
    b1.ge(a1) || b1.ge(a2) || b2.ge(a1) || b2.ge(a2)
}

/// Whether the range between `a1` and `a2` and the one between `b1` and `b2`
/// have a number in common.
pub open spec fn ranges_meet(a1: Double, a2: Double, b1: Double, b2: Double) -> bool {
    begins_before(a1, a2, b1, b2) && begins_before(b1, b2, a1, a2)
}

/// The cross product of the directions of two segments.
pub open spec fn directions(a: Position, b: Position, c: Position, d: Position) -> Double {
    cross_product(a.x.minus(b.x), a.y.minus(b.y), c.x.minus(d.x), c.y.minus(d.y))
}

/// How far along the segment from `a` to `b` the lines meet, in parts of
/// [`directions`].
pub open spec fn along_first(a: Position, b: Position, c: Position, d: Position) -> Double {
    cross_product(a.x.minus(c.x), a.y.minus(c.y), c.x.minus(d.x), c.y.minus(d.y))
}

/// How far along the segment from `c` to `d` the lines meet, in parts of
/// [`directions`].
pub open spec fn along_second(a: Position, b: Position, c: Position, d: Position) -> Double {
    cross_product(a.x.minus(b.x), a.y.minus(b.y), a.x.minus(c.x), a.y.minus(c.y)).negated()
}

/// Whether the line segment from `a` to `b` and the one from `c` to `d` cross:
/// they are not parallel, and their lines meet in a point that lies on both.
pub open spec fn segments_cross(a: Position, b: Position, c: Position, d: Position) -> bool {
    meet_within(directions(a, b, c, d), along_first(a, b, c, d), along_second(a, b, c, d))
}

/// Whether the line segment from `a` to `b` and the one from `c` to `d` overlap:
/// they are parallel, lie on one line, and their extents meet.
pub open spec fn segments_overlap(a: Position, b: Position, c: Position, d: Position) -> bool {
    &&& is_parallel(directions(a, b, c, d))
    &&& is_zero(along_first(a, b, c, d))
    &&& is_zero(along_second(a, b, c, d))
    &&& ranges_meet(a.x, b.x, c.x, d.x)
    &&& ranges_meet(a.y, b.y, c.y, d.y)
}

/// Whether the line segment from `a` to `b` and the one from `c` to `d` have a
/// point in common.
pub open spec fn segments_meet(a: Position, b: Position, c: Position, d: Position) -> bool {
    segments_cross(a, b, c, d) || segments_overlap(a, b, c, d)
}

/// The cross product of the vectors (ax, ay) and (bx, by).
fn cross(ax: &Double, ay: &Double, bx: &Double, by: &Double) -> (product: Double)
    ensures
        product == cross_product(*ax, *ay, *bx, *by),
{
    proof {
        reveal(cross_product);
    }
    ax.mul(by).sub(&ay.mul(bx))
}

/// Whether `x` is a number from zero to one.
fn share(x: &Double) -> (r: bool)
    ensures
        r == is_share(*x),
{
    x.is_at_least(&Double::from_bits(0)) && Double::from_bits(ONE_BITS).is_at_least(x)
}

/// Whether `x` is zero.
fn zero(x: &Double) -> (r: bool)
    ensures
        r == is_zero(*x),
{
    x.is_at_least(&Double::from_bits(0)) && Double::from_bits(0).is_at_least(x)
}

/// Tests [`begins_before`].
fn starts_before(a1: &Double, a2: &Double, b1: &Double, b2: &Double) -> (r: bool)
    ensures
        r == begins_before(*a1, *a2, *b1, *b2),
{
    b1.is_at_least(a1) || b1.is_at_least(a2) || b2.is_at_least(a1) || b2.is_at_least(a2)
}

/// How two line segments lie to each other.
#[derive(Clone, Copy, Debug, PartialEq, Eq, Structural)]
pub enum Meeting {
    /// They are not parallel and have a point in common.
    Cross,
    /// They are parallel and have points in common.
    Overlap,
    /// They have no point in common.
    Apart,
}

/// How the line segment from `a` to `b` and the one from `c` to `d` lie to each
/// other.
pub fn meeting(a: &Position, b: &Position, c: &Position, d: &Position) -> (r: Meeting)
    ensures
        r == Meeting::Cross <==> segments_cross(*a, *b, *c, *d),
        r == Meeting::Overlap <==> segments_overlap(*a, *b, *c, *d),
{
    proof {
        reveal(meet_within);
    }
    let ux = a.x.sub(&b.x);
    let uy = a.y.sub(&b.y);
    let vx = c.x.sub(&d.x);
    let vy = c.y.sub(&d.y);
    let wx = a.x.sub(&c.x);
    let wy = a.y.sub(&c.y);
    let denom = cross(&ux, &uy, &vx, &vy);
    let t = cross(&wx, &wy, &vx, &vy);
    let u = cross(&ux, &uy, &wx, &wy).neg();
    if Double::from_bits(PARALLEL_BITS).is_greater(&denom.abs()) {
        if zero(&t) && zero(&u) && starts_before(&a.x, &b.x, &c.x, &d.x) && starts_before(
            &c.x,
            &d.x,
            &a.x,
            &b.x,
        ) && starts_before(&a.y, &b.y, &c.y, &d.y) && starts_before(&c.y, &d.y, &a.y, &b.y) {
            Meeting::Overlap
        } else {
            Meeting::Apart
        }
    } else if share(&t.div(&denom)) && share(&u.div(&denom)) {
        Meeting::Cross
    } else {
        Meeting::Apart
    }
}

/// Whether the line segment from `a` to `b` and the one from `c` to `d` meet.
pub fn line_segments_intersect(a: &Position, b: &Position, c: &Position, d: &Position) -> (r: bool)
    ensures
        r == segments_meet(*a, *b, *c, *d),
{
    match meeting(a, b, c, d) {
        Meeting::Cross | Meeting::Overlap => true,
        Meeting::Apart => false,
    }
}

/// A cross product the other way round is the opposite.
proof fn lemma_cross_turned(ax: Double, ay: Double, bx: Double, by: Double)
    ensures
        opposite(cross_product(ax, ay, bx, by), cross_product(bx, by, ax, ay)),
{
    reveal(cross_product);
    lemma_times_commutes(ax, by);
    lemma_times_commutes(ay, bx);
    lemma_minus_turned(ax.times(by), ay.times(bx));
}

/// The cross product with the opposite vector is the opposite.
proof fn lemma_cross_opposite(
    ax: Double,
    ay: Double,
    bx: Double,
    by: Double,
    ax2: Double,
    ay2: Double,
)
    requires
        opposite(ax, ax2),
        opposite(ay, ay2),
    ensures
        opposite(cross_product(ax, ay, bx, by), cross_product(ax2, ay2, bx, by)),
{
    reveal(cross_product);
    lemma_times_opposite(ax, by, ax2);
    lemma_times_opposite(ay, bx, ay2);
    lemma_minus_of_opposites(ax.times(by), ay.times(bx), ax2.times(by), ay2.times(bx));
}

/// What is opposite to an opposite is alike.
proof fn lemma_opposite_twice(a: Double, b: Double, c: Double)
    requires
        opposite(a, b),
        opposite(b, c),
    ensures
        alike(a, c),
        opposite(a, c.negated()),
        opposite(a.negated(), c),
{
    lemma_negated(a);
    lemma_negated(c);
}

/// What is opposite, over what is opposite, is the same share.
proof fn lemma_same_share(a: Double, b: Double, a2: Double, b2: Double)
    requires
        opposite(a, a2),
        opposite(b, b2),
        !is_parallel(b),
    ensures
        is_share(a.over(b)) == is_share(a2.over(b2)),
{
    lemma_units_zero(b.unsigned_bits());
    lemma_units_zero(0);
    lemma_units_increase(0, PARALLEL_BITS as int);
    if !b.is_nan() {
        lemma_size_decides(b, b2);
        lemma_over_of_opposites(a, b, a2, b2);
    }
}

/// It does not matter which of the two segments comes first.
pub proof fn law_segments_are_interchangeable(a: Position, b: Position, c: Position, d: Position)
    ensures
        segments_meet(a, b, c, d) == segments_meet(c, d, a, b),
        segments_cross(a, b, c, d) == segments_cross(c, d, a, b),
{
    let (ux, uy) = (a.x.minus(b.x), a.y.minus(b.y));
    let (vx, vy) = (c.x.minus(d.x), c.y.minus(d.y));
    let (wx, wy) = (a.x.minus(c.x), a.y.minus(c.y));
    let (zx, zy) = (c.x.minus(a.x), c.y.minus(a.y));
    lemma_minus_turned(a.x, c.x);
    lemma_minus_turned(a.y, c.y);
    let denom = directions(a, b, c, d);
    let denom2 = directions(c, d, a, b);
    lemma_cross_turned(ux, uy, vx, vy);
    // How far along the first segment.
    lemma_cross_turned(wx, wy, vx, vy);
    lemma_cross_opposite(wx, wy, vx, vy, zx, zy);
    lemma_cross_turned(zx, zy, vx, vy);
    lemma_opposite_twice(
        cross_product(wx, wy, vx, vy),
        cross_product(zx, zy, vx, vy),
        cross_product(vx, vy, zx, zy),
    );
    // How far along the second one.
    lemma_cross_turned(ux, uy, wx, wy);
    lemma_cross_opposite(wx, wy, ux, uy, zx, zy);
    lemma_opposite_twice(
        cross_product(ux, uy, wx, wy),
        cross_product(wx, wy, ux, uy),
        cross_product(zx, zy, ux, uy),
    );
    let t = along_first(a, b, c, d);
    let u = along_second(a, b, c, d);
    let t2 = along_first(c, d, a, b);
    let u2 = along_second(c, d, a, b);
    assert(opposite(t, u2));
    assert(opposite(u, t2));
    lemma_same_parallel(denom, denom2);
    lemma_same_zero(t, u2);
    lemma_same_zero(u, t2);
    assert(segments_cross(a, b, c, d) == segments_cross(c, d, a, b)) by {
        reveal(meet_within);
        if !is_parallel(denom) {
            lemma_same_share(t, denom, u2, denom2);
            lemma_same_share(u, denom, t2, denom2);
        }
    }
}

/// Opposite cross products are both those of parallel directions, or neither.
proof fn lemma_same_parallel(a: Double, b: Double)
    requires
        opposite(a, b),
    ensures
        is_parallel(a) == is_parallel(b),
{
    if !a.is_nan() {
        lemma_size_decides(a, b);
    }
}

/// Opposite numbers are both zero, or neither.
proof fn lemma_same_zero(a: Double, b: Double)
    requires
        opposite(a, b),
    ensures
        is_zero(a) == is_zero(b),
{
    lemma_units_zero(0);
}

/// How many grains coordinates can have for their cross products to be exact.
pub const EXACT_REACH: i32 = 0x100_0000;

/// Into how many binary places pixels can be divided for cross products to tell
/// parallel lines from others.
pub const EXACT_PLACES: u32 = 16;

/// A grain: a pixel divided by two to the power of `places`, in the units of
/// [`units`].
pub open spec fn grain(places: nat) -> int {
    pow2((1074 - places) as nat) as int
}

/// The number of `n` grains.
pub open spec fn grains(n: int, places: nat) -> Double {
    nearest(n * grain(places), 1)
}

/// The position of `p` grains.
pub open spec fn spot(p: (int, int), places: nat) -> Position {
    Position { x: grains(p.0, places), y: grains(p.1, places) }
}

/// The point (`x`, `y`), in pixels, as a position in grains.
pub open spec fn in_grains(x: int, y: int, places: nat) -> (int, int) {
    (x * pow2(places), y * pow2(places))
}

/// Whether the position of `p` grains is of moderate size: at most
/// [`EXACT_REACH`] grains from either axis.
pub open spec fn is_moderate(p: (int, int)) -> bool {
    -EXACT_REACH <= p.0 <= EXACT_REACH && -EXACT_REACH <= p.1 <= EXACT_REACH
}

/// Whether the point `p / k` of the way from `a` to `b` is the one `q / k` of
/// the way from `c` to `d`.
pub open spec fn is_common_point(
    a: (int, int),
    b: (int, int),
    c: (int, int),
    d: (int, int),
    k: int,
    p: int,
    q: int,
) -> bool {
    &&& k > 0
    &&& 0 <= p <= k
    &&& 0 <= q <= k
    &&& k * a.0 + p * (b.0 - a.0) == k * c.0 + q * (d.0 - c.0)
    &&& k * a.1 + p * (b.1 - a.1) == k * c.1 + q * (d.1 - c.1)
}

/// Whether the segment from `a` to `b` and the one from `c` to `d` have a point
/// in common, exactly.
pub open spec fn share_a_point(a: (int, int), b: (int, int), c: (int, int), d: (int, int)) -> bool {
    exists|k: int, p: int, q: int| is_common_point(a, b, c, d, k, p, q)
}

/// The exact cross product of the vectors (ax, ay) and (bx, by).
pub open spec fn exact_cross(ax: int, ay: int, bx: int, by: int) -> int {
    ax * by - ay * bx
}

/// The exact value of [`directions`].
spec fn exact_directions(a: (int, int), b: (int, int), c: (int, int), d: (int, int)) -> int {
    exact_cross(a.0 - b.0, a.1 - b.1, c.0 - d.0, c.1 - d.1)
}

/// The exact value of [`along_first`].
spec fn exact_first(a: (int, int), b: (int, int), c: (int, int), d: (int, int)) -> int {
    exact_cross(a.0 - c.0, a.1 - c.1, c.0 - d.0, c.1 - d.1)
}

/// The exact value of [`along_second`].
spec fn exact_second(a: (int, int), b: (int, int), c: (int, int), d: (int, int)) -> int {
    -exact_cross(a.0 - b.0, a.1 - b.1, a.0 - c.0, a.1 - c.1)
}

/// Whether `n / d` lies from zero to one.
spec fn exact_share(n: int, d: int) -> bool {
    if d > 0 {
        0 <= n <= d
    } else {
        d <= n <= 0
    }
}

/// Whether `x` lies from `a` to `b` or from `b` to `a`.
pub open spec fn is_within(a: int, b: int, x: int) -> bool {
    a <= x <= b || b <= x <= a
}

/// Whether `x` lies in the rectangle with the corners `a` and `b`.
spec fn in_box(a: (int, int), b: (int, int), x: (int, int)) -> bool {
    is_within(a.0, b.0, x.0) && is_within(a.1, b.1, x.1)
}

/// Whether two ranges of whole numbers meet.
spec fn exact_ranges_meet(a1: int, a2: int, b1: int, b2: int) -> bool {
    &&& a1 <= b1 || a1 <= b2 || a2 <= b1 || a2 <= b2
    &&& b1 <= a1 || b1 <= a2 || b2 <= a1 || b2 <= a2
}

/// A common point fixes how far along the segments it lies.
proof fn lemma_common_point_shares(
    a: (int, int),
    b: (int, int),
    c: (int, int),
    d: (int, int),
    k: int,
    p: int,
    q: int,
)
    requires
        is_common_point(a, b, c, d, k, p, q),
    ensures
        k * exact_first(a, b, c, d) == p * exact_directions(a, b, c, d),
        k * exact_second(a, b, c, d) == q * exact_directions(a, b, c, d),
{
    let (ux, uy) = (a.0 - b.0, a.1 - b.1);
    let (vx, vy) = (c.0 - d.0, c.1 - d.1);
    let (wx, wy) = (a.0 - c.0, a.1 - c.1);
    assert(k * wx == p * ux - q * vx) by (nonlinear_arith)
        requires
            k * a.0 + p * (b.0 - a.0) == k * c.0 + q * (d.0 - c.0),
            ux == a.0 - b.0,
            vx == c.0 - d.0,
            wx == a.0 - c.0,
    ;
    assert(k * wy == p * uy - q * vy) by (nonlinear_arith)
        requires
            k * a.1 + p * (b.1 - a.1) == k * c.1 + q * (d.1 - c.1),
            uy == a.1 - b.1,
            vy == c.1 - d.1,
            wy == a.1 - c.1,
    ;
    lemma_scaled_cross(k, wx, wy, p, ux, uy, q, vx, vy, vx, vy);
    lemma_scaled_cross(k, wx, wy, p, ux, uy, q, vx, vy, ux, uy);
    assert(vx * vy - vy * vx == 0) by (nonlinear_arith);
    assert(ux * uy - uy * ux == 0) by (nonlinear_arith);
    assert(wx * uy - wy * ux == -(ux * wy - uy * wx)) by (nonlinear_arith);
    assert(vx * uy - vy * ux == -(ux * vy - uy * vx)) by (nonlinear_arith);
    let n = ux * vy - uy * vx;
    assert(p * 0 - q * -n == q * n) by (nonlinear_arith);
    assert(p * n - q * 0 == p * n) by (nonlinear_arith);
}

/// The cross product of a combination of two vectors with a third.
proof fn lemma_scaled_cross(
    k: int,
    x: int,
    y: int,
    p: int,
    ux: int,
    uy: int,
    q: int,
    vx: int,
    vy: int,
    sx: int,
    sy: int,
)
    requires
        k * x == p * ux - q * vx,
        k * y == p * uy - q * vy,
    ensures
        k * (x * sy - y * sx) == p * (ux * sy - uy * sx) - q * (vx * sy - vy * sx),
{
    assert(k * (x * sy - y * sx) == (k * x) * sy - (k * y) * sx) by (nonlinear_arith);
    assert((p * ux - q * vx) * sy == p * (ux * sy) - q * (vx * sy)) by (nonlinear_arith);
    assert((p * uy - q * vy) * sx == p * (uy * sx) - q * (vy * sx)) by (nonlinear_arith);
    assert(p * (ux * sy - uy * sx) == p * (ux * sy) - p * (uy * sx)) by (nonlinear_arith);
    assert(q * (vx * sy - vy * sx) == q * (vx * sy) - q * (vy * sx)) by (nonlinear_arith);
}

/// Where the directions differ, the shares decide whether there is a common
/// point.
proof fn lemma_crossing_is_exact(a: (int, int), b: (int, int), c: (int, int), d: (int, int))
    requires
        exact_directions(a, b, c, d) != 0,
    ensures
        share_a_point(a, b, c, d) <==> exact_share(
            exact_first(a, b, c, d),
            exact_directions(a, b, c, d),
        ) && exact_share(exact_second(a, b, c, d), exact_directions(a, b, c, d)),
{
    let n = exact_directions(a, b, c, d);
    let t = exact_first(a, b, c, d);
    let u = exact_second(a, b, c, d);
    let (ux, uy) = (a.0 - b.0, a.1 - b.1);
    let (vx, vy) = (c.0 - d.0, c.1 - d.1);
    let (wx, wy) = (a.0 - c.0, a.1 - c.1);
    if share_a_point(a, b, c, d) {
        let (k, p, q) = choose|k: int, p: int, q: int| is_common_point(a, b, c, d, k, p, q);
        lemma_common_point_shares(a, b, c, d, k, p, q);
        lemma_share_of(k, p, t, n);
        lemma_share_of(k, q, u, n);
    }
    if exact_share(t, n) && exact_share(u, n) {
        assert(n * wx == t * ux - u * vx) by (nonlinear_arith)
            requires
                n == ux * vy - uy * vx,
                t == wx * vy - wy * vx,
                u == -(ux * wy - uy * wx),
        ;
        assert(n * wy == t * uy - u * vy) by (nonlinear_arith)
            requires
                n == ux * vy - uy * vx,
                t == wx * vy - wy * vx,
                u == -(ux * wy - uy * wx),
        ;
        lemma_common_coordinate(a.0, b.0, c.0, d.0, n, t, u);
        lemma_common_coordinate(a.1, b.1, c.1, d.1, n, t, u);
        if n > 0 {
            assert(is_common_point(a, b, c, d, n, t, u));
        } else {
            assert(is_common_point(a, b, c, d, -n, -t, -u));
        }
    }
}

/// A coordinate of a common point, from how far along the segments it lies.
proof fn lemma_common_coordinate(a: int, b: int, c: int, d: int, n: int, t: int, u: int)
    requires
        n * (a - c) == t * (a - b) - u * (c - d),
    ensures
        n * a + t * (b - a) == n * c + u * (d - c),
        (-n) * a + (-t) * (b - a) == (-n) * c + (-u) * (d - c),
{
    assert(n * a + t * (b - a) == n * c + u * (d - c)) by (nonlinear_arith)
        requires
            n * (a - c) == t * (a - b) - u * (c - d),
    ;
    assert((-n) * a + (-t) * (b - a) == -(n * a + t * (b - a))) by (nonlinear_arith);
    assert((-n) * c + (-u) * (d - c) == -(n * c + u * (d - c))) by (nonlinear_arith);
}

/// Where `n / d` is `p / k`, it lies from zero to one as that does.
proof fn lemma_share_of(k: int, p: int, n: int, d: int)
    requires
        k > 0,
        0 <= p <= k,
        k * n == p * d,
        d != 0,
    ensures
        exact_share(n, d),
{
    assert(exact_share(n, d)) by (nonlinear_arith)
        requires
            k > 0,
            0 <= p <= k,
            k * n == p * d,
            d != 0,
            exact_share(n, d) == if d > 0 {
                0 <= n <= d
            } else {
                d <= n <= 0
            },
    ;
}

/// On which side of the line from `a` to `b` the point `c` lies: positive to
/// the left, zero on the line.
pub open spec fn exact_side(a: (int, int), b: (int, int), c: (int, int)) -> int {
    exact_cross(a.0 - b.0, a.1 - b.1, a.0 - c.0, a.1 - c.1)
}

/// The sides on which the ends of two segments lie, by how far along the
/// segments the lines meet.
proof fn lemma_sides(a: (int, int), b: (int, int), c: (int, int), d: (int, int))
    ensures
        exact_side(a, b, c) == -exact_second(a, b, c, d),
        exact_side(a, b, d) == exact_directions(a, b, c, d) - exact_second(a, b, c, d),
        exact_side(c, d, a) == exact_first(a, b, c, d),
        exact_side(c, d, b) == exact_first(a, b, c, d) - exact_directions(a, b, c, d),
        exact_side(a, c, d) == exact_first(a, b, c, d),
        exact_side(b, c, d) == exact_first(a, b, c, d) - exact_directions(a, b, c, d),
        exact_side(d, c, a) == -exact_first(a, b, c, d),
        exact_side(b, a, c) == exact_second(a, b, c, d),
{
    let (ux, uy) = (a.0 - b.0, a.1 - b.1);
    let (vx, vy) = (c.0 - d.0, c.1 - d.1);
    let (wx, wy) = (a.0 - c.0, a.1 - c.1);
    assert(ux * (wy + vy) - uy * (wx + vx) == (ux * vy - uy * vx) + (ux * wy - uy * wx))
        by (nonlinear_arith);
    assert(vx * -wy - vy * -wx == wx * vy - wy * vx) by (nonlinear_arith);
    assert(vx * (uy - wy) - vy * (ux - wx) == (wx * vy - wy * vx) - (ux * vy - uy * vx))
        by (nonlinear_arith);
    assert(wx * (wy + vy) - wy * (wx + vx) == wx * vy - wy * vx) by (nonlinear_arith);
    assert((wx - ux) * (wy - uy + vy) - (wy - uy) * (wx - ux + vx) == (wx * vy - wy * vx) - (ux * vy
        - uy * vx)) by (nonlinear_arith);
    assert(b.0 - c.0 == wx - ux && b.1 - c.1 == wy - uy);
    assert(b.0 - d.0 == wx - ux + vx && b.1 - d.1 == wy - uy + vy);
    assert(a.0 - d.0 == wx + vx && a.1 - d.1 == wy + vy);
    assert(c.0 - a.0 == -wx && c.1 - a.1 == -wy);
    assert(c.0 - b.0 == ux - wx && c.1 - b.1 == uy - wy);
    assert((-vx) * (-wy - vy) - (-vy) * (-wx - vx) == -(wx * vy - wy * vx)) by (nonlinear_arith);
    assert((-ux) * (wy - uy) - (-uy) * (wx - ux) == -(ux * wy - uy * wx)) by (nonlinear_arith);
    assert(d.0 - c.0 == -vx && d.1 - c.1 == -vy);
    assert(d.0 - a.0 == -wx - vx && d.1 - a.1 == -wy - vy);
    assert(b.0 - a.0 == -ux && b.1 - a.1 == -uy);
}

/// On a line that is not upright, what lies between in one coordinate lies
/// between in the other.
proof fn lemma_within_follows(ux: int, uy: int, wx: int, wy: int)
    requires
        ux != 0,
        ux * wy == uy * wx,
        is_within(0, ux, wx),
    ensures
        is_within(0, uy, wy),
{
    assert(is_within(0, uy, wy)) by (nonlinear_arith)
        requires
            ux != 0,
            ux * wy == uy * wx,
            0 <= wx <= ux || ux <= wx <= 0,
            is_within(0, uy, wy) == (0 <= wy <= uy || uy <= wy <= 0),
    ;
}

/// What lies on a line and between the ends of a segment of it is so far along
/// the segment.
proof fn lemma_point_on_segment(a: (int, int), b: (int, int), c: (int, int)) -> (kp: (int, int))
    requires
        exact_side(a, b, c) == 0,
        in_box(a, b, c),
    ensures
        kp.0 > 0,
        0 <= kp.1 <= kp.0,
        kp.0 * (a.0 - c.0) == kp.1 * (a.0 - b.0),
        kp.0 * (a.1 - c.1) == kp.1 * (a.1 - b.1),
{
    let (ux, uy) = (a.0 - b.0, a.1 - b.1);
    let (wx, wy) = (a.0 - c.0, a.1 - c.1);
    let kp = if ux > 0 {
        (ux, wx)
    } else if ux < 0 {
        (-ux, -wx)
    } else if uy > 0 {
        (uy, wy)
    } else if uy < 0 {
        (-uy, -wy)
    } else {
        (1, 0)
    };
    let (k, p) = kp;
    assert(k * wx == p * ux && k * wy == p * uy) by (nonlinear_arith)
        requires
            ux * wy - uy * wx == 0,
            ({
                ||| k == ux && p == wx
                ||| k == -ux && p == -wx
                ||| k == uy && p == wy
                ||| k == -uy && p == -wy
                ||| wx == 0 && wy == 0 && p == 0
            }),
    ;
    kp
}

/// Where an end of one segment lies on the other, the segments share a point.
proof fn lemma_end_on_segment(a: (int, int), b: (int, int), c: (int, int), d: (int, int))
    requires
        ({
            ||| exact_side(a, b, c) == 0 && in_box(a, b, c)
            ||| exact_side(a, b, d) == 0 && in_box(a, b, d)
            ||| exact_side(c, d, a) == 0 && in_box(c, d, a)
            ||| exact_side(c, d, b) == 0 && in_box(c, d, b)
        }),
    ensures
        share_a_point(a, b, c, d),
{
    if exact_side(a, b, c) == 0 && in_box(a, b, c) {
        let (k, p) = lemma_point_on_segment(a, b, c);
        lemma_end_coordinate(k, p, a.0, b.0, c.0, d.0);
        lemma_end_coordinate(k, p, a.1, b.1, c.1, d.1);
        assert(is_common_point(a, b, c, d, k, p, 0));
    } else if exact_side(a, b, d) == 0 && in_box(a, b, d) {
        let (k, p) = lemma_point_on_segment(a, b, d);
        lemma_end_coordinate(k, p, a.0, b.0, d.0, c.0);
        lemma_end_coordinate(k, p, a.1, b.1, d.1, c.1);
        assert(is_common_point(a, b, c, d, k, p, k));
    } else if exact_side(c, d, a) == 0 && in_box(c, d, a) {
        let (k, q) = lemma_point_on_segment(c, d, a);
        lemma_end_coordinate(k, q, c.0, d.0, a.0, b.0);
        lemma_end_coordinate(k, q, c.1, d.1, a.1, b.1);
        assert(is_common_point(a, b, c, d, k, 0, q));
    } else {
        let (k, q) = lemma_point_on_segment(c, d, b);
        lemma_end_coordinate(k, q, c.0, d.0, b.0, a.0);
        lemma_end_coordinate(k, q, c.1, d.1, b.1, a.1);
        assert(is_common_point(a, b, c, d, k, k, q));
    }
}

/// A coordinate of a point so far along a segment.
proof fn lemma_end_coordinate(k: int, p: int, a: int, b: int, end: int, other: int)
    requires
        k * (a - end) == p * (a - b),
    ensures
        k * a + p * (b - a) == k * end,
        k * end + 0 * (other - end) == k * end,
        k * other + k * (end - other) == k * end,
{
    assert(k * a + p * (b - a) == k * end) by (nonlinear_arith)
        requires
            k * (a - end) == p * (a - b),
    ;
    assert(k * other + k * (end - other) == k * end) by (nonlinear_arith);
}

/// Of two segments on one line whose extents meet, one has an end within the
/// extent of the other.
proof fn lemma_overlap_has_an_end(a: (int, int), b: (int, int), c: (int, int), d: (int, int))
    requires
        exact_directions(a, b, c, d) == 0,
        exact_first(a, b, c, d) == 0,
        exact_second(a, b, c, d) == 0,
        exact_ranges_meet(a.0, b.0, c.0, d.0),
        exact_ranges_meet(a.1, b.1, c.1, d.1),
    ensures
        in_box(a, b, c) || in_box(a, b, d) || in_box(c, d, a) || in_box(c, d, b),
{
    lemma_sides(a, b, c, d);
    if a.0 == b.0 && c.0 == d.0 {
    } else if is_within(a.0, b.0, c.0) {
        lemma_end_is_in_box(a, b, c, d);
    } else if is_within(a.0, b.0, d.0) {
        lemma_directions_turned(a, b, c, d);
        lemma_end_is_in_box(a, b, d, c);
    } else if is_within(c.0, d.0, a.0) {
        lemma_directions_turned(a, b, c, d);
        lemma_end_is_in_box(c, d, a, b);
    } else {
        lemma_directions_turned(a, b, c, d);
        lemma_end_is_in_box(c, d, b, a);
    }
}

/// Segments that are parallel are so in any order of their ends.
proof fn lemma_directions_turned(a: (int, int), b: (int, int), c: (int, int), d: (int, int))
    requires
        exact_directions(a, b, c, d) == 0,
    ensures
        exact_directions(a, b, d, c) == 0,
        exact_directions(c, d, a, b) == 0,
        exact_directions(c, d, b, a) == 0,
{
    let (ux, uy) = (a.0 - b.0, a.1 - b.1);
    let (vx, vy) = (c.0 - d.0, c.1 - d.1);
    assert(ux * -vy - uy * -vx == -(ux * vy - uy * vx)) by (nonlinear_arith);
    assert(vx * uy - vy * ux == -(ux * vy - uy * vx)) by (nonlinear_arith);
    assert(vx * -uy - vy * -ux == ux * vy - uy * vx) by (nonlinear_arith);
    assert(b.0 - a.0 == -ux && b.1 - a.1 == -uy);
    assert(d.0 - c.0 == -vx && d.1 - c.1 == -vy);
}

/// An end on the line of a segment lies within the segment's extent where its
/// first coordinate does, unless the line is upright.
proof fn lemma_end_is_in_box(a: (int, int), b: (int, int), c: (int, int), d: (int, int))
    requires
        exact_directions(a, b, c, d) == 0,
        exact_side(a, b, c) == 0,
        exact_side(c, d, a) == 0,
        is_within(a.0, b.0, c.0),
        a.0 != b.0 || c.0 != d.0,
    ensures
        in_box(a, b, c),
{
    let (ux, uy) = (a.0 - b.0, a.1 - b.1);
    let (vx, vy) = (c.0 - d.0, c.1 - d.1);
    let (wx, wy) = (a.0 - c.0, a.1 - c.1);
    if ux != 0 {
        lemma_within_follows(ux, uy, wx, wy);
    } else {
        // The first segment is a point, and the other's end is that point.
        assert(vx * -wy - vy * -wx == 0);
        assert(uy == 0) by (nonlinear_arith)
            requires
                ux * vy - uy * vx == 0,
                ux == 0,
                vx != 0,
        ;
        assert(wy == 0) by (nonlinear_arith)
            requires
                vx * -wy - vy * -wx == 0,
                wx == 0,
                vx != 0,
        ;
    }
}

/// Segments that share a point have extents that meet.
proof fn lemma_common_point_in_ranges(
    a: int,
    b: int,
    c: int,
    d: int,
    k: int,
    p: int,
    q: int,
)
    requires
        k > 0,
        0 <= p <= k,
        0 <= q <= k,
        k * a + p * (b - a) == k * c + q * (d - c),
    ensures
        exact_ranges_meet(a, b, c, d),
{
    let at = k * a + p * (b - a);
    lemma_between(a, b, k, p);
    lemma_between(c, d, k, q);
    let (low, high) = if a <= b {
        (a, b)
    } else {
        (b, a)
    };
    let (low2, high2) = if c <= d {
        (c, d)
    } else {
        (d, c)
    };
    assert(low <= high2) by (nonlinear_arith)
        requires
            k * low <= at,
            at <= k * high2,
            k > 0,
    ;
    assert(low2 <= high) by (nonlinear_arith)
        requires
            k * low2 <= at,
            at <= k * high,
            k > 0,
    ;
}

/// What is part of the way from `a` to `b` lies between them.
proof fn lemma_between(a: int, b: int, k: int, p: int)
    requires
        k > 0,
        0 <= p <= k,
    ensures
        a <= b ==> k * a <= k * a + p * (b - a) <= k * b,
        b <= a ==> k * b <= k * a + p * (b - a) <= k * a,
{
    assert(a <= b ==> k * a <= k * a + p * (b - a) <= k * b) by (nonlinear_arith)
        requires
            k > 0,
            0 <= p <= k,
    ;
    assert(b <= a ==> k * b <= k * a + p * (b - a) <= k * a) by (nonlinear_arith)
        requires
            k > 0,
            0 <= p <= k,
    ;
}

/// Of parallel segments, being on one line with extents that meet decides
/// whether there is a common point.
proof fn lemma_overlap_is_exact(a: (int, int), b: (int, int), c: (int, int), d: (int, int))
    requires
        exact_directions(a, b, c, d) == 0,
    ensures
        share_a_point(a, b, c, d) <==> {
            &&& exact_first(a, b, c, d) == 0
            &&& exact_second(a, b, c, d) == 0
            &&& exact_ranges_meet(a.0, b.0, c.0, d.0)
            &&& exact_ranges_meet(a.1, b.1, c.1, d.1)
        },
{
    let t = exact_first(a, b, c, d);
    let u = exact_second(a, b, c, d);
    if share_a_point(a, b, c, d) {
        let (k, p, q) = choose|k: int, p: int, q: int| is_common_point(a, b, c, d, k, p, q);
        lemma_common_point_shares(a, b, c, d, k, p, q);
        assert(t == 0 && u == 0) by (nonlinear_arith)
            requires
                k > 0,
                k * t == p * 0,
                k * u == q * 0,
        ;
        lemma_common_point_in_ranges(a.0, b.0, c.0, d.0, k, p, q);
        lemma_common_point_in_ranges(a.1, b.1, c.1, d.1, k, p, q);
    }
    if t == 0 && u == 0 && exact_ranges_meet(a.0, b.0, c.0, d.0) && exact_ranges_meet(
        a.1,
        b.1,
        c.1,
        d.1,
    ) {
        lemma_sides(a, b, c, d);
        lemma_overlap_has_an_end(a, b, c, d);
        lemma_end_on_segment(a, b, c, d);
    }
}

/// Whether `x` is the number of `n` grains.
spec fn is_grains(x: Double, n: int, places: nat) -> bool {
    x.is_finite() && x.value() == n * grain(places)
}

/// Moderate numbers of grains have patterns.
proof fn lemma_grains(n: int, places: nat)
    requires
        -0x20_0000_0000_0000 < n < 0x20_0000_0000_0000,
        places <= 1074,
    ensures
        is_grains(grains(n, places), n, places),
{
    let size = if n < 0 {
        -n
    } else {
        n
    };
    let unit = grain(places);
    let bits = lemma_pattern_exists(size, (1074 - places) as nat);
    lemma_pow2_pos((1074 - places) as nat);
    assert(size * unit >= 0 && n * unit == if n < 0 {
        -(size * unit)
    } else {
        size * unit
    }) by (nonlinear_arith)
        requires
            size == if n < 0 {
                -n
            } else {
                n
            },
            unit > 0,
    ;
    lemma_nearest_is_exact(n * unit, bits);
}

/// The value of a moderate number of grains.
pub proof fn lemma_grains_value(n: int, places: nat)
    requires
        -0x20_0000_0000_0000 < n < 0x20_0000_0000_0000,
        places <= 1074,
    ensures
        grains(n, places).is_finite(),
        grains(n, places).value() == n * grain(places),
{
    lemma_grains(n, places);
}

/// A whole number of pixels is a number of grains.
pub proof fn lemma_pixels_are_grains(n: int, places: nat)
    requires
        places <= 1074,
    ensures
        Double::of_int(n) == grains(n * pow2(places), places),
{
    lemma_pow2_adds(places, (1074 - places) as nat);
    assert((n * pow2(places)) * grain(places) == n * one()) by (nonlinear_arith)
        requires
            pow2(places) * grain(places) == one(),
    ;
}

/// Numbers of grains are ordered as their doubles are.
proof fn lemma_order(x: Double, y: Double, m: int, n: int, places: nat)
    requires
        is_grains(x, m, places),
        is_grains(y, n, places),
    ensures
        x.ge(y) <==> m >= n,
        x.gt(y) <==> m > n,
{
    let unit = grain(places);
    lemma_pow2_pos((1074 - places) as nat);
    assert((m * unit >= n * unit <==> m >= n) && (m * unit > n * unit <==> m > n))
        by (nonlinear_arith)
        requires
            unit > 0,
    ;
}

/// Moderate numbers of grains are ordered as their doubles are.
pub proof fn lemma_grains_order(m: int, n: int, places: nat)
    requires
        is_moderate((m, n)),
        places <= 1074,
    ensures
        grains(m, places).ge(grains(n, places)) <==> m >= n,
        grains(m, places).gt(grains(n, places)) <==> m > n,
        grains(n, places).ge(grains(m, places)) <==> n >= m,
        grains(n, places).gt(grains(m, places)) <==> n > m,
{
    lemma_grains(m, places);
    lemma_grains(n, places);
    lemma_order(grains(m, places), grains(n, places), m, n, places);
    lemma_order(grains(n, places), grains(m, places), n, m, places);
}

/// Only zero is zero.
proof fn lemma_grains_zero(x: Double, n: int, places: nat)
    requires
        is_grains(x, n, places),
    ensures
        is_zero(x) <==> n == 0,
        x.value() == 0 <==> n == 0,
{
    lemma_units_zero(0);
    lemma_order(x, Double::zero(false), n, 0, places);
    lemma_order(Double::zero(false), x, 0, n, places);
}

/// The difference of moderate numbers of grains is exact.
proof fn lemma_grains_minus(x: Double, y: Double, m: int, n: int, places: nat)
    requires
        is_grains(x, m, places),
        is_grains(y, n, places),
        -0x20_0000_0000_0000 < m - n < 0x20_0000_0000_0000,
        places <= 1074,
    ensures
        is_grains(x.minus(y), m - n, places),
{
    let unit = grain(places);
    lemma_negated(y);
    lemma_units_zero(0);
    lemma_grains(m - n, places);
    assert((m - n) * unit == m * unit - n * unit) by (nonlinear_arith);
}

/// The difference of two numbers of pixels is finite.
pub proof fn lemma_pixel_difference(m: int, n: int)
    requires
        -0x1_0000_0000 < m < 0x1_0000_0000,
        -0x1_0000_0000 < n < 0x1_0000_0000,
    ensures
        Double::of_int(m).minus(Double::of_int(n)).is_finite(),
{
    lemma_grains(m, 0);
    lemma_grains(n, 0);
    lemma_grains_minus(grains(m, 0), grains(n, 0), m, n, 0);
}

/// The product of numbers of grains is exact where it is of moderate size, in
/// grains with twice as many places.
proof fn lemma_grains_times(x: Double, y: Double, m: int, n: int, places: nat)
    requires
        is_grains(x, m, places),
        is_grains(y, n, places),
        -0x20_0000_0000_0000 < m * n < 0x20_0000_0000_0000,
        2 * places <= 1074,
    ensures
        is_grains(x.times(y), m * n, 2 * places),
{
    let unit = grain(places);
    let fine = grain(2 * places);
    lemma_units_zero(0);
    lemma_grains_zero(x, m, places);
    lemma_grains_zero(y, n, places);
    lemma_pow2_pos(1074);
    lemma_pow2_pos((1074 - 2 * places) as nat);
    if m == 0 || n == 0 {
        assert(m * n == 0) by (nonlinear_arith)
            requires
                m == 0 || n == 0,
        ;
    } else {
        let size = if m * n < 0 {
            -(m * n)
        } else {
            m * n
        };
        let bits = lemma_pattern_exists(size, (1074 - 2 * places) as nat);
        lemma_exact_rounds_to_itself(one(), bits);
        lemma_pow2_adds((1074 - places) as nat, (1074 - places) as nat);
        lemma_pow2_adds((1074 - 2 * places) as nat, 1074);
        let num = x.value() * y.value();
        assert(num == ((m * n) * fine) * one()) by (nonlinear_arith)
            requires
                num == (m * unit) * (n * unit),
                unit * unit == fine * one(),
        ;
        assert((-(m * n)) * fine == -((m * n) * fine)) by (nonlinear_arith);
        assert((-((m * n) * fine)) * one() == -(((m * n) * fine) * one())) by (nonlinear_arith);
        assert(num < 0 <==> m * n < 0) by (nonlinear_arith)
            requires
                num == ((m * n) * fine) * one(),
                fine > 0,
                one() > 0,
        ;
        assert(x.times(y) == nearest(num, one()));
        assert(x.times(y).unsigned_bits() == bits);
    }
}

/// What the patterns of one, of the number after it and of the bound for
/// parallel lines stand for.
pub proof fn lemma_constants()
    ensures
        units(ONE_BITS as int) == one(),
        units(ONE_BITS + 1) == one() + pow2(1022),
        0 < units(PARALLEL_BITS as int) < pow2(1041),
        one() == 0x10_0000_0000_0000 * pow2(1022),
        pow2(1022) > 0,
{
    lemma2_to64();
    lemma_pow2_pos(1022);
    lemma_units_at_scale(1022, 0x10_0000_0000_0000);
    lemma_units_at_scale(1022, 0x10_0000_0000_0001);
    lemma_units_at_scale(989, 0x10_0000_0000_0000);
    lemma_pow2_adds(32, 20);
    lemma_pow2_adds(52, 1022);
    lemma_pow2_adds(52, 989);
    assert(0x10_0000_0000_0001 * pow2(1022) == 0x10_0000_0000_0000 * pow2(1022) + pow2(1022))
        by (nonlinear_arith);
    lemma_units_zero(0);
    lemma_units_increase(0, PARALLEL_BITS as int);
    lemma_units_increase(PARALLEL_BITS as int, 0x3de0_0000_0000_0000);
}

/// How the quotient of two positive numbers of grains of size `unit` rounds,
/// against one.
proof fn lemma_quotient(n: int, d: int, unit: int)
    requires
        n > 0,
        0 < d <= 0x10_0000_0000_0000,
        unit > 0,
    ensures
        ({
            let bits = rounded(n * unit * one(), d * unit);
            &&& 1 <= bits <= INFINITY_BITS
            &&& bits <= ONE_BITS <==> n <= d
            &&& units(bits) > 0
            &&& units(bits) <= one() <==> n <= d
        }),
{
    lemma_constants();
    lemma_units_at_scale(0, 1);
    lemma2_to64();
    let num = n * unit * one();
    let den = d * unit;
    let bits = rounded(num, den);
    let step = pow2(1022) as int;
    let reach = one();
    assert(reach >= 0x10_0000_0000_0000);
    assert(num == (n * reach) * unit) by (nonlinear_arith)
        requires
            num == n * unit * reach,
    ;
    assert(d <= n * reach) by (nonlinear_arith)
        requires
            n > 0,
            0 < d <= 0x10_0000_0000_0000,
            reach >= 0x10_0000_0000_0000,
    ;
    assert(den > 0 && den <= num) by (nonlinear_arith)
        requires
            num == (n * reach) * unit,
            den == d * unit,
            0 < d <= n * reach,
            unit > 0,
    ;
    lemma_exact_rounds_to_itself(den, 1);
    lemma_rounding_is_monotone(den, num, den);
    assert(units(1) * den == den) by (nonlinear_arith)
        requires
            units(1) == 1,
    ;
    if n <= d {
        assert(num <= reach * den) by (nonlinear_arith)
            requires
                num == n * unit * reach,
                den == d * unit,
                n <= d,
                reach > 0,
                unit > 0,
        ;
        lemma_exact_rounds_to_itself(den, ONE_BITS as int);
        lemma_rounding_is_monotone(num, reach * den, den);
        if bits < ONE_BITS {
            lemma_units_increase(bits, ONE_BITS as int);
        }
    } else {
        let after = reach + step;
        assert(after * d <= n * reach) by (nonlinear_arith)
            requires
                after == reach + step,
                reach == 0x10_0000_0000_0000 * step,
                step > 0,
                n >= d + 1,
                0 < d <= 0x10_0000_0000_0000,
        ;
        assert(after * den <= num && after * den >= 0) by (nonlinear_arith)
            requires
                after * d <= n * reach,
                num == (n * reach) * unit,
                den == d * unit,
                den > 0,
                unit > 0,
                after > 0,
        ;
        lemma_exact_rounds_to_itself(den, ONE_BITS + 1);
        lemma_rounding_is_monotone(after * den, num, den);
        lemma_units_increase(ONE_BITS as int, bits);
    }
    lemma_units_increase(0, bits);
    lemma_units_zero(0);
}

/// A quotient of moderate numbers of grains lies from zero to one exactly where
/// it should.
proof fn lemma_grains_share(x: Double, y: Double, n: int, d: int, places: nat)
    requires
        is_grains(x, n, places),
        is_grains(y, d, places),
        d != 0,
        -0x10_0000_0000_0000 <= d <= 0x10_0000_0000_0000,
    ensures
        is_share(x.over(y)) == exact_share(n, d),
{
    let unit = grain(places);
    lemma_constants();
    lemma_units_zero(0);
    lemma_grains_zero(x, n, places);
    lemma_grains_zero(y, d, places);
    lemma_pow2_pos(1074);
    lemma_pow2_pos((1074 - places) as nat);
    lemma_order(y, Double::zero(false), d, 0, places);
    if n != 0 {
        let size = if n < 0 {
            -n
        } else {
            n
        };
        let over = if d < 0 {
            -d
        } else {
            d
        };
        lemma_quotient(size, over, unit);
        let bits = rounded(size * unit * one(), over * unit);
        let num = if d > 0 {
            x.value() * one()
        } else {
            -x.value() * one()
        };
        assert(over * unit == if d > 0 {
            y.value()
        } else {
            -y.value()
        }) by (nonlinear_arith)
            requires
                y.value() == d * unit,
                over == if d < 0 {
                    -d
                } else {
                    d
                },
                d != 0,
        ;
        assert(x.over(y) == nearest(num, over * unit));
        let agree = (n > 0) == (d > 0);
        assert((agree ==> num == size * unit * one() && num > 0) && (!agree ==> num == -(size * unit
            * one()) && num < 0)) by (nonlinear_arith)
            requires
                x.value() == n * unit,
                num == if d > 0 {
                    x.value() * one()
                } else {
                    -x.value() * one()
                },
                size == if n < 0 {
                    -n
                } else {
                    n
                },
                agree == ((n > 0) == (d > 0)),
                n != 0,
                d != 0,
                unit > 0,
                one() > 0,
        ;
        assert(x.over(y).unsigned_bits() == bits);
        assert(x.over(y).negative() == !agree);
    }
}

/// Whether the vector is between positions of moderate size.
spec fn is_short(x: int, y: int) -> bool {
    -0x200_0000 <= x <= 0x200_0000 && -0x200_0000 <= y <= 0x200_0000
}

/// Products of moderate numbers are moderate.
proof fn lemma_moderate_product(x: int, y: int)
    requires
        -0x200_0000 <= x <= 0x200_0000,
        -0x200_0000 <= y <= 0x200_0000,
    ensures
        -0x4_0000_0000_0000 <= x * y <= 0x4_0000_0000_0000,
{
    assert(-0x4_0000_0000_0000 <= x * y <= 0x4_0000_0000_0000) by (nonlinear_arith)
        requires
            -0x200_0000 <= x <= 0x200_0000,
            -0x200_0000 <= y <= 0x200_0000,
    ;
}

/// Cross products of moderate numbers of grains are exact.
proof fn lemma_grains_cross(
    ax: Double,
    ay: Double,
    bx: Double,
    by: Double,
    a: (int, int),
    b: (int, int),
    places: nat,
)
    requires
        is_grains(ax, a.0, places),
        is_grains(ay, a.1, places),
        is_grains(bx, b.0, places),
        is_grains(by, b.1, places),
        is_short(a.0, a.1),
        is_short(b.0, b.1),
        places <= EXACT_PLACES,
    ensures
        is_grains(
            cross_product(ax, ay, bx, by),
            exact_cross(a.0, a.1, b.0, b.1),
            2 * places,
        ),
        -0x8_0000_0000_0000 <= exact_cross(a.0, a.1, b.0, b.1) <= 0x8_0000_0000_0000,
{
    reveal(cross_product);
    lemma_moderate_product(a.0, b.1);
    lemma_moderate_product(a.1, b.0);
    lemma_grains_times(ax, by, a.0, b.1, places);
    lemma_grains_times(ay, bx, a.1, b.0, places);
    lemma_grains_minus(ax.times(by), ay.times(bx), a.0 * b.1, a.1 * b.0, 2 * places);
}

/// Differences of positions of moderate size are exact.
proof fn lemma_grains_difference(a: (int, int), b: (int, int), places: nat)
    requires
        is_moderate(a),
        is_moderate(b),
        places <= EXACT_PLACES,
    ensures
        is_grains(spot(a, places).x.minus(spot(b, places).x), a.0 - b.0, places),
        is_grains(spot(a, places).y.minus(spot(b, places).y), a.1 - b.1, places),
        is_short(a.0 - b.0, a.1 - b.1),
{
    lemma_grains(a.0, places);
    lemma_grains(a.1, places);
    lemma_grains(b.0, places);
    lemma_grains(b.1, places);
    lemma_grains_minus(spot(a, places).x, spot(b, places).x, a.0, b.0, places);
    lemma_grains_minus(spot(a, places).y, spot(b, places).y, a.1, b.1, places);
}

/// Only directions without a cross product count as parallel, where grains are
/// not too fine.
proof fn lemma_grains_parallel(x: Double, n: int, places: nat)
    requires
        is_grains(x, n, places),
        places <= 2 * EXACT_PLACES,
    ensures
        is_parallel(x) <==> n == 0,
{
    let unit = grain(places);
    lemma_constants();
    lemma_negated(x);
    lemma_pow2_strictly_increases(1041, (1074 - places) as nat);
    assert(n != 0 ==> n * unit >= unit || n * unit <= -unit) by (nonlinear_arith)
        requires
            unit > 0,
    ;
}

/// Ranges of grains meet as their doubles do.
proof fn lemma_grains_ranges(a: int, b: int, c: int, d: int, places: nat)
    requires
        is_moderate((a, b)),
        is_moderate((c, d)),
        places <= EXACT_PLACES,
    ensures
        ranges_meet(
            grains(a, places),
            grains(b, places),
            grains(c, places),
            grains(d, places),
        ) == exact_ranges_meet(a, b, c, d),
{
    lemma_grains_order(a, c, places);
    lemma_grains_order(a, d, places);
    lemma_grains_order(b, c, places);
    lemma_grains_order(b, d, places);
}

/// On positions of moderate size, what decides whether two segments are parallel
/// is exact.
proof fn lemma_grains_directions(
    a: (int, int),
    b: (int, int),
    c: (int, int),
    d: (int, int),
    places: nat,
)
    requires
        is_moderate(a),
        is_moderate(b),
        is_moderate(c),
        is_moderate(d),
        places <= EXACT_PLACES,
    ensures
        ({
            let (pa, pb) = (spot(a, places), spot(b, places));
            let (pc, pd) = (spot(c, places), spot(d, places));
            let n = exact_directions(a, b, c, d);
            &&& is_grains(directions(pa, pb, pc, pd), n, 2 * places)
            &&& is_parallel(directions(pa, pb, pc, pd)) <==> n == 0
            &&& -0x8_0000_0000_0000 <= n <= 0x8_0000_0000_0000
        }),
{
    let (pa, pb) = (spot(a, places), spot(b, places));
    let (pc, pd) = (spot(c, places), spot(d, places));
    lemma_grains_difference(a, b, places);
    lemma_grains_difference(c, d, places);
    lemma_grains_cross(
        pa.x.minus(pb.x),
        pa.y.minus(pb.y),
        pc.x.minus(pd.x),
        pc.y.minus(pd.y),
        (a.0 - b.0, a.1 - b.1),
        (c.0 - d.0, c.1 - d.1),
        places,
    );
    lemma_grains_parallel(
        directions(pa, pb, pc, pd),
        exact_directions(a, b, c, d),
        2 * places,
    );
}

/// On positions of moderate size, segments that are not parallel meet only by
/// crossing.
pub proof fn lemma_meeting_is_crossing(
    a: (int, int),
    b: (int, int),
    c: (int, int),
    d: (int, int),
    places: nat,
)
    requires
        is_moderate(a),
        is_moderate(b),
        is_moderate(c),
        is_moderate(d),
        places <= EXACT_PLACES,
        exact_cross(a.0 - b.0, a.1 - b.1, c.0 - d.0, c.1 - d.1) != 0,
    ensures
        segments_meet(spot(a, places), spot(b, places), spot(c, places), spot(d, places))
            == segments_cross(spot(a, places), spot(b, places), spot(c, places), spot(d, places)),
{
    lemma_grains_directions(a, b, c, d, places);
}

/// On positions of moderate size, parallel segments do not cross.
pub proof fn lemma_parallel_is_no_crossing(
    a: (int, int),
    b: (int, int),
    c: (int, int),
    d: (int, int),
    places: nat,
)
    requires
        is_moderate(a),
        is_moderate(b),
        is_moderate(c),
        is_moderate(d),
        places <= EXACT_PLACES,
        exact_cross(a.0 - b.0, a.1 - b.1, c.0 - d.0, c.1 - d.1) == 0,
    ensures
        !segments_cross(spot(a, places), spot(b, places), spot(c, places), spot(d, places)),
{
    lemma_grains_directions(a, b, c, d, places);
    reveal(meet_within);
}

/// On positions of moderate size, two segments meet exactly where they have a
/// point in common. The positions count grains: whole pixels where `places` is
/// zero, 256ths of a pixel where it is eight.
pub proof fn law_segments_meet_in_a_point(
    a: (int, int),
    b: (int, int),
    c: (int, int),
    d: (int, int),
    places: nat,
)
    requires
        is_moderate(a),
        is_moderate(b),
        is_moderate(c),
        is_moderate(d),
        places <= EXACT_PLACES,
    ensures
        segments_meet(spot(a, places), spot(b, places), spot(c, places), spot(d, places))
            == share_a_point(a, b, c, d),
{
    let (pa, pb) = (spot(a, places), spot(b, places));
    let (pc, pd) = (spot(c, places), spot(d, places));
    let (ux, uy) = (pa.x.minus(pb.x), pa.y.minus(pb.y));
    let (vx, vy) = (pc.x.minus(pd.x), pc.y.minus(pd.y));
    let (wx, wy) = (pa.x.minus(pc.x), pa.y.minus(pc.y));
    let u = (a.0 - b.0, a.1 - b.1);
    let v = (c.0 - d.0, c.1 - d.1);
    let w = (a.0 - c.0, a.1 - c.1);
    lemma_grains_difference(a, b, places);
    lemma_grains_difference(c, d, places);
    lemma_grains_difference(a, c, places);
    lemma_grains_directions(a, b, c, d, places);
    lemma_grains_cross(wx, wy, vx, vy, w, v, places);
    lemma_grains_cross(ux, uy, wx, wy, u, w, places);
    let n = exact_directions(a, b, c, d);
    let first = exact_first(a, b, c, d);
    let second = exact_second(a, b, c, d);
    let fine = grain(2 * places);
    lemma_negated(cross_product(ux, uy, wx, wy));
    assert(second * fine == -((-second) * fine)) by (nonlinear_arith);
    let denom = directions(pa, pb, pc, pd);
    assert(is_grains(along_first(pa, pb, pc, pd), first, 2 * places));
    assert(is_grains(along_second(pa, pb, pc, pd), second, 2 * places));
    lemma_grains_zero(along_first(pa, pb, pc, pd), first, 2 * places);
    lemma_grains_zero(along_second(pa, pb, pc, pd), second, 2 * places);
    lemma_grains_ranges(a.0, b.0, c.0, d.0, places);
    lemma_grains_ranges(a.1, b.1, c.1, d.1, places);
    reveal(meet_within);
    if n == 0 {
        lemma_overlap_is_exact(a, b, c, d);
    } else {
        lemma_grains_share(along_first(pa, pb, pc, pd), denom, first, n, 2 * places);
        lemma_grains_share(along_second(pa, pb, pc, pd), denom, second, n, 2 * places);
        lemma_crossing_is_exact(a, b, c, d);
    }
}

/// The left side of the comparison that decides which way `a`, `b` and `c` turn.
pub open spec fn left_product(a: Position, b: Position, c: Position) -> Double {
    c.y.minus(a.y).times(b.x.minus(a.x))
}

/// The right side of that comparison.
pub open spec fn right_product(a: Position, b: Position, c: Position) -> Double {
    b.y.minus(a.y).times(c.x.minus(a.x))
}

/// Whether `a`, `b` and `c` turn to the left.
pub open spec fn turns_left(a: Position, b: Position, c: Position) -> bool {
    left_product(a, b, c).gt(right_product(a, b, c))
}

/// Whether `a`, `b` and `c` do not turn.
pub open spec fn is_straight(a: Position, b: Position, c: Position) -> bool {
    left_product(a, b, c).ge(right_product(a, b, c)) && right_product(a, b, c).ge(
        left_product(a, b, c),
    )
}

/// Whether `x` lies from `a` to `b` or from `b` to `a`.
pub open spec fn is_between(a: Double, b: Double, x: Double) -> bool {
    x.ge(a) && b.ge(x) || x.ge(b) && a.ge(x)
}

/// Whether `c` lies on the segment from `a` to `b`.
pub open spec fn lies_on(a: Position, b: Position, c: Position) -> bool {
    is_straight(a, b, c) && is_between(a.x, b.x, c.x) && is_between(a.y, b.y, c.y)
}

/// Whether each of two segments has its ends on different sides of the other,
/// or an end of one lies on the other.
pub open spec fn segments_touch(a: Position, b: Position, c: Position, d: Position) -> bool {
    ||| turns_left(a, c, d) != turns_left(b, c, d) && turns_left(a, b, c) != turns_left(a, b, d)
    ||| lies_on(a, b, c)
    ||| lies_on(a, b, d)
    ||| lies_on(c, d, a)
    ||| lies_on(c, d, b)
}

/// On positions of moderate size, turns are exact.
proof fn lemma_grains_turn(a: (int, int), b: (int, int), c: (int, int), places: nat)
    requires
        is_moderate(a),
        is_moderate(b),
        is_moderate(c),
        places <= EXACT_PLACES,
    ensures
        ({
            let (pa, pb, pc) = (spot(a, places), spot(b, places), spot(c, places));
            &&& turns_left(pa, pb, pc) <==> exact_side(a, b, c) > 0
            &&& is_straight(pa, pb, pc) <==> exact_side(a, b, c) == 0
        }),
{
    let (pa, pb, pc) = (spot(a, places), spot(b, places), spot(c, places));
    lemma_grains_difference(c, a, places);
    lemma_grains_difference(b, a, places);
    let (ux, uy) = (a.0 - b.0, a.1 - b.1);
    let (wx, wy) = (a.0 - c.0, a.1 - c.1);
    let left = (c.1 - a.1) * (b.0 - a.0);
    let right = (b.1 - a.1) * (c.0 - a.0);
    lemma_moderate_product(c.1 - a.1, b.0 - a.0);
    lemma_moderate_product(b.1 - a.1, c.0 - a.0);
    lemma_grains_times(pc.y.minus(pa.y), pb.x.minus(pa.x), c.1 - a.1, b.0 - a.0, places);
    lemma_grains_times(pb.y.minus(pa.y), pc.x.minus(pa.x), b.1 - a.1, c.0 - a.0, places);
    lemma_order(left_product(pa, pb, pc), right_product(pa, pb, pc), left, right, 2 * places);
    lemma_order(right_product(pa, pb, pc), left_product(pa, pb, pc), right, left, 2 * places);
    assert((-wy) * (-ux) == ux * wy) by (nonlinear_arith);
    assert((-uy) * (-wx) == uy * wx) by (nonlinear_arith);
    assert(c.1 - a.1 == -wy && b.0 - a.0 == -ux && b.1 - a.1 == -uy && c.0 - a.0 == -wx);
}

/// On positions of moderate size, lying on a segment is exact.
proof fn lemma_grains_lies_on(a: (int, int), b: (int, int), c: (int, int), places: nat)
    requires
        is_moderate(a),
        is_moderate(b),
        is_moderate(c),
        places <= EXACT_PLACES,
    ensures
        lies_on(spot(a, places), spot(b, places), spot(c, places)) <==> exact_side(a, b, c) == 0
            && in_box(a, b, c),
{
    lemma_grains_turn(a, b, c, places);
    lemma_grains_order(a.0, c.0, places);
    lemma_grains_order(b.0, c.0, places);
    lemma_grains_order(a.1, c.1, places);
    lemma_grains_order(b.1, c.1, places);
}

/// A point part of the way from `a` to `b` lies between them.
pub proof fn lemma_part_is_within(a: int, b: int, x: int, k: int, p: int)
    requires
        k > 0,
        0 <= p <= k,
        k * a + p * (b - a) == k * x,
    ensures
        is_within(a, b, x),
{
    lemma_between(a, b, k, p);
    assert((k * a <= k * x ==> a <= x) && (k * x <= k * a ==> x <= a)) by (nonlinear_arith)
        requires
            k > 0,
    ;
    assert((k * b <= k * x ==> b <= x) && (k * x <= k * b ==> x <= b)) by (nonlinear_arith)
        requires
            k > 0,
    ;
}

/// None of the way leads to the one end, and all of it to the other.
proof fn lemma_whole_way(k: int, p: int, a: int, b: int)
    ensures
        p == 0 ==> k * a + p * (b - a) == k * a,
        p == k ==> k * a + p * (b - a) == k * b,
{
    assert(p == 0 ==> p * (b - a) == 0) by (nonlinear_arith);
    assert(p == k ==> k * a + p * (b - a) == k * b) by (nonlinear_arith);
}

/// Segments that share a point and are not parallel have each other's ends on
/// different sides, or an end of one lies on the other.
proof fn lemma_shared_point_parts(a: (int, int), b: (int, int), c: (int, int), d: (int, int))
    requires
        exact_directions(a, b, c, d) != 0,
        share_a_point(a, b, c, d),
    ensures
        ({
            let n = exact_directions(a, b, c, d);
            let t = exact_first(a, b, c, d);
            let u = exact_second(a, b, c, d);
            &&& exact_share(t, n)
            &&& exact_share(u, n)
            &&& t == 0 ==> in_box(c, d, a)
            &&& t == n ==> in_box(c, d, b)
            &&& u == 0 ==> in_box(a, b, c)
            &&& u == n ==> in_box(a, b, d)
        }),
{
    let n = exact_directions(a, b, c, d);
    let t = exact_first(a, b, c, d);
    let u = exact_second(a, b, c, d);
    lemma_crossing_is_exact(a, b, c, d);
    let (k, p, q) = choose|k: int, p: int, q: int| is_common_point(a, b, c, d, k, p, q);
    lemma_common_point_shares(a, b, c, d, k, p, q);
    assert((t == 0 ==> p == 0) && (t == n ==> p == k)) by (nonlinear_arith)
        requires
            k * t == p * n,
            n != 0,
    ;
    assert((u == 0 ==> q == 0) && (u == n ==> q == k)) by (nonlinear_arith)
        requires
            k * u == q * n,
            n != 0,
    ;
    lemma_whole_way(k, p, a.0, b.0);
    lemma_whole_way(k, p, a.1, b.1);
    lemma_whole_way(k, q, c.0, d.0);
    lemma_whole_way(k, q, c.1, d.1);
    if t == 0 {
        lemma_part_is_within(c.0, d.0, a.0, k, q);
        lemma_part_is_within(c.1, d.1, a.1, k, q);
    }
    if t == n {
        lemma_part_is_within(c.0, d.0, b.0, k, q);
        lemma_part_is_within(c.1, d.1, b.1, k, q);
    }
    if u == 0 {
        lemma_part_is_within(a.0, b.0, c.0, k, p);
        lemma_part_is_within(a.1, b.1, c.1, k, p);
    }
    if u == n {
        lemma_part_is_within(a.0, b.0, d.0, k, p);
        lemma_part_is_within(a.1, b.1, d.1, k, p);
    }
}

/// On positions of moderate size, in grains, two segments touch exactly where
/// they have a point in common.
pub proof fn law_segments_touch_in_a_point(
    a: (int, int),
    b: (int, int),
    c: (int, int),
    d: (int, int),
    places: nat,
)
    requires
        is_moderate(a),
        is_moderate(b),
        is_moderate(c),
        is_moderate(d),
        places <= EXACT_PLACES,
    ensures
        segments_touch(spot(a, places), spot(b, places), spot(c, places), spot(d, places))
            == share_a_point(a, b, c, d),
{
    lemma_sides(a, b, c, d);
    lemma_grains_turn(a, c, d, places);
    lemma_grains_turn(b, c, d, places);
    lemma_grains_turn(a, b, c, places);
    lemma_grains_turn(a, b, d, places);
    lemma_grains_lies_on(a, b, c, places);
    lemma_grains_lies_on(a, b, d, places);
    lemma_grains_lies_on(c, d, a, places);
    lemma_grains_lies_on(c, d, b, places);
    let n = exact_directions(a, b, c, d);
    let t = exact_first(a, b, c, d);
    let u = exact_second(a, b, c, d);
    if n != 0 {
        lemma_crossing_is_exact(a, b, c, d);
    }
    if share_a_point(a, b, c, d) {
        if n == 0 {
            lemma_overlap_is_exact(a, b, c, d);
            lemma_overlap_has_an_end(a, b, c, d);
        } else {
            lemma_shared_point_parts(a, b, c, d);
        }
    } else if exact_side(a, b, c) == 0 && in_box(a, b, c) || exact_side(a, b, d) == 0 && in_box(
        a,
        b,
        d,
    ) || exact_side(c, d, a) == 0 && in_box(c, d, a) || exact_side(c, d, b) == 0 && in_box(
        c,
        d,
        b,
    ) {
        lemma_end_on_segment(a, b, c, d);
    }
}

/// On positions of moderate size, in grains, the two tests agree.
pub proof fn law_both_tests_agree(
    a: (int, int),
    b: (int, int),
    c: (int, int),
    d: (int, int),
    places: nat,
)
    requires
        is_moderate(a),
        is_moderate(b),
        is_moderate(c),
        is_moderate(d),
        places <= EXACT_PLACES,
    ensures
        segments_touch(spot(a, places), spot(b, places), spot(c, places), spot(d, places))
            == segments_meet(spot(a, places), spot(b, places), spot(c, places), spot(d, places)),
{
    law_segments_meet_in_a_point(a, b, c, d, places);
    law_segments_touch_in_a_point(a, b, c, d, places);
}

/// Directions count as parallel exactly if the size of their cross product is
/// below the number nearest to a ten thousand millionth.
pub proof fn law_parallel_bound(denom: Double)
    requires
        !denom.is_nan(),
    ensures
        is_parallel(denom) <==> size_of_int(denom.value()) < units(
            rounded(one(), 10_000_000_000),
        ),
        rounds_to(one(), 10_000_000_000, rounded(one(), 10_000_000_000)),
{
    law_signs(denom);
    lemma_parallel_pattern();
    lemma_rounded(one(), 10_000_000_000, PARALLEL_BITS as int);
}

/// The bound for parallel lines is the pattern nearest to a ten thousand
/// millionth.
proof fn lemma_parallel_pattern()
    ensures
        rounds_to(one(), 10_000_000_000, PARALLEL_BITS as int),
{
    let unit = pow2(988) as int;
    lemma_pow2_pos(988);
    lemma2_to64();
    lemma_pow2_adds(43, 43);
    lemma_pow2_adds(86, 988);
    assert(pow2(43) == 0x800_0000_0000) by {
        lemma_pow2_adds(32, 11);
    }
    assert(pow2(86) == 0x40_0000_0000_0000_0000_0000int);
    assert(one() == 0x40_0000_0000_0000_0000_0000int * unit);
    lemma_units_at_scale(988, 0x1b_7cdf_d9d7_bdba);
    lemma_units_at_scale(988, 0x1b_7cdf_d9d7_bdbb);
    lemma_units_at_scale(988, 0x1b_7cdf_d9d7_bdbc);
    let below = 0x36_f9bf_b3af_7b75int * unit;
    let above = 0x36_f9bf_b3af_7b77int * unit;
    assert(twice_middle(PARALLEL_BITS - 1) == below);
    assert(twice_middle(PARALLEL_BITS as int) == above);
}

} // verus!
