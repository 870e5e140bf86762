//! Pointer barriers, and when a pointer motion runs into one.

use vstd::arithmetic::power2::lemma2_to64;
use vstd::arithmetic::power2::lemma_pow2_adds;
use vstd::arithmetic::power2::lemma_pow2_pos;
use vstd::arithmetic::power2::lemma_pow2_strictly_increases;
use vstd::arithmetic::power2::pow2;
use vstd::prelude::*;

use crate::double::lemma_exact_rounds_to_itself;
use crate::double::lemma_minus_magnitude;
use crate::double::lemma_negated;
use crate::double::lemma_of_int;
use crate::double::lemma_pattern_exists;
use crate::double::lemma_rounding_is_monotone;
use crate::double::lemma_units_at_scale;
use crate::double::lemma_units_increase;
use crate::double::lemma_units_nonnegative;
use crate::double::lemma_units_zero;
use crate::double::one;
use crate::double::rounded;
use crate::double::units;
use crate::double::Double;
use crate::double::INFINITY_BITS;
use crate::segments::along_first;
use crate::segments::along_second;
use crate::segments::cross_product;
use crate::segments::directions;
use crate::segments::exact_cross;
use crate::segments::grain;
use crate::segments::grains;
use crate::segments::in_grains;
use crate::segments::is_common_point;
use crate::segments::is_moderate;
use crate::segments::is_within;
use crate::segments::law_segments_meet_in_a_point;
use crate::segments::lemma_constants;
use crate::segments::lemma_grains_order;
use crate::segments::lemma_grains_value;
use crate::segments::lemma_meeting_is_crossing;
use crate::segments::lemma_parallel_is_no_crossing;
use crate::segments::lemma_part_is_within;
use crate::segments::lemma_pixel_difference;
use crate::segments::lemma_pixels_are_grains;
use crate::segments::line_segments_intersect;
use crate::segments::meet_within;
use crate::segments::meeting;
use crate::segments::point;
use crate::segments::segments_cross;
use crate::segments::segments_meet;
use crate::segments::share_a_point;
use crate::segments::spot;
use crate::segments::Meeting;
use crate::segments::Position;
use crate::segments::EXACT_PLACES;
use crate::segments::ONE_BITS;
use crate::segments::PARALLEL_BITS;

verus! {

/// How near to a barrier counts as being at it: one and a half pixels.
/// Barriers are often placed one pixel outside the coordinates that a pointer
/// can reach, as at 6400 where the last column is 6399.
pub const EDGE_THRESHOLD_BITS: u64 = 0x3ff8_0000_0000_0000;

/// A line, in whole logical pixels, at which a session wants to take over.
#[derive(Clone, Copy, Debug, PartialEq, Eq, Structural)]
pub struct Barrier {
    pub id: u32,
    pub x1: i32,
    pub y1: i32,
    pub x2: i32,
    pub y2: i32,
}

/// The smaller of two numbers.
pub open spec fn lesser(a: int, b: int) -> int {
    if a <= b {
        a
    } else {
        b
    }
}

/// The larger of two numbers.
pub open spec fn greater(a: int, b: int) -> int {
    if a >= b {
        a
    } else {
        b
    }
}

/// The threshold of nearness.
pub open spec fn edge() -> Double {
    Double { bits: EDGE_THRESHOLD_BITS }
}

/// Whether `at` is less than the threshold away from the line at `pixel`.
pub open spec fn near(at: Double, pixel: int) -> bool {
    edge().gt(at.minus(Double::of_int(pixel)).magnitude())
}

/// Whether `along` lies from one end of a barrier to the other.
pub open spec fn between_ends(along: Double, end1: int, end2: int) -> bool {
    &&& along.ge(Double::of_int(lesser(end1, end2)))
    &&& Double::of_int(greater(end1, end2)).ge(along)
}

/// Whether a motion along one axis heads for the line at `pixel`, from before
/// it.
pub open spec fn heads_for(old: Double, new: Double, pixel: int) -> bool {
    let line = Double::of_int(pixel);
    ||| new.gt(old) && line.gt(old)
    ||| old.gt(new) && old.gt(line)
}

/// Whether a motion along one axis leads over the line at `pixel`. It may begin
/// or end on the line, but not both.
pub open spec fn passes(old: Double, new: Double, pixel: int) -> bool {
    let line = Double::of_int(pixel);
    ||| new.gt(old) && line.ge(old) && new.ge(line)
    ||| old.gt(new) && old.ge(line) && line.ge(new)
}

/// Whether a motion goes through a vertical barrier at `pixel`: it leads over
/// the barrier's line, and does so between the barrier's ends. Where the motion
/// begins and ends between them, that is certain; otherwise the segments are
/// looked at.
pub open spec fn goes_through(
    pixel: int,
    end1: int,
    end2: int,
    old: Position,
    new: Position,
) -> bool {
    &&& passes(old.x, new.x, pixel)
    &&& {
        ||| between_ends(old.y, end1, end2) && between_ends(new.y, end1, end2)
        ||| segments_meet(
            old,
            new,
            point(pixel, lesser(end1, end2)),
            point(pixel, greater(end1, end2)),
        )
    }
}

/// Whether a motion comes up to a vertical barrier at `pixel`: it heads for the
/// barrier, and ends near it and between its ends.
pub open spec fn comes_up_to(pixel: int, end1: int, end2: int, old: Position, new: Position) -> bool {
    &&& near(new.x, pixel)
    &&& between_ends(new.y, end1, end2)
    &&& heads_for(old.x, new.x, pixel)
}

/// Whether a motion runs into a vertical barrier at `pixel`.
pub open spec fn runs_into(pixel: int, end1: int, end2: int, old: Position, new: Position) -> bool {
    goes_through(pixel, end1, end2, old, new) || comes_up_to(pixel, end1, end2, old, new)
}

impl Barrier {
    /// Whether the barrier is vertical.
    pub open spec fn vertical(self) -> bool {
        self.x1 == self.x2
    }

    /// Whether the barrier is horizontal, and not just a point.
    pub open spec fn horizontal(self) -> bool {
        self.x1 != self.x2 && self.y1 == self.y2
    }

    /// Whether the barrier is parallel to neither axis.
    pub open spec fn slanted(self) -> bool {
        self.x1 != self.x2 && self.y1 != self.y2
    }

    /// The first end, in grains.
    pub open spec fn first_end(self, places: nat) -> (int, int) {
        in_grains(self.x1 as int, self.y1 as int, places)
    }

    /// The second end, in grains.
    pub open spec fn second_end(self, places: nat) -> (int, int) {
        in_grains(self.x2 as int, self.y2 as int, places)
    }

    /// The barrier with its ends exchanged.
    pub open spec fn turned(self) -> Barrier {
        Barrier { id: self.id, x1: self.x2, y1: self.y2, x2: self.x1, y2: self.y1 }
    }

    /// Whether the motion from `old` to `new` crosses the barrier. A motion along
    /// the barrier's own line does not.
    pub open spec fn crossed(self, old: Position, new: Position) -> bool {
        if self.vertical() {
            runs_into(self.x1 as int, self.y1 as int, self.y2 as int, old, new)
        } else if self.horizontal() {
            runs_into(
                self.y1 as int,
                self.x1 as int,
                self.x2 as int,
                old.mirrored(),
                new.mirrored(),
            )
        } else {
            segments_cross(
                old,
                new,
                point(self.x1 as int, self.y1 as int),
                point(self.x2 as int, self.y2 as int),
            )
        }
    }

    /// Whether the motion from `old_pos` to `new_pos` crosses the barrier.
    pub fn at_or_near_barrier(&self, old_pos: &Position, new_pos: &Position) -> (r: bool)
        ensures
            r == self.crossed(*old_pos, *new_pos),
    {
        if self.x1 == self.x2 {
            run_into(self.x1, self.y1, self.y2, old_pos, new_pos)
        } else if self.y1 == self.y2 {
            let old_mirrored = Position { x: old_pos.y, y: old_pos.x };
            let new_mirrored = Position { x: new_pos.y, y: new_pos.x };
            run_into(self.y1, self.x1, self.x2, &old_mirrored, &new_mirrored)
        } else {
            let how = meeting(
                old_pos,
                new_pos,
                &Position { x: Double::from_i32(self.x1), y: Double::from_i32(self.y1) },
                &Position { x: Double::from_i32(self.x2), y: Double::from_i32(self.y2) },
            );
            match how {
                Meeting::Cross => true,
                _ => false,
            }
        }
    }
}

/// Tests [`runs_into`].
fn run_into(pixel: i32, end1: i32, end2: i32, old: &Position, new: &Position) -> (r: bool)
    ensures
        r == runs_into(pixel as int, end1 as int, end2 as int, *old, *new),
{
    let edge = Double::from_bits(EDGE_THRESHOLD_BITS);
    let line = Double::from_i32(pixel);
    let low = Double::from_i32(if end1 <= end2 {
        end1
    } else {
        end2
    });
    let high = Double::from_i32(if end1 >= end2 {
        end1
    } else {
        end2
    });
    let forward = new.x.is_greater(&old.x);
    let backward = old.x.is_greater(&new.x);
    let begins_between = old.y.is_at_least(&low) && high.is_at_least(&old.y);
    let ends_between = new.y.is_at_least(&low) && high.is_at_least(&new.y);
    let passing = (forward && line.is_at_least(&old.x) && new.x.is_at_least(&line)) || (backward
        && old.x.is_at_least(&line) && line.is_at_least(&new.x));
    if passing && ((begins_between && ends_between) || line_segments_intersect(
        old,
        new,
        &Position { x: line, y: low },
        &Position { x: line, y: high },
    )) {
        return true;
    }
    ends_between && edge.is_greater(&new.x.sub(&line).abs()) && ((forward && line.is_greater(
        &old.x,
    )) || (backward && old.x.is_greater(&line)))
}

/// How far `at` lies from the line at `pixel`, exactly.
pub open spec fn distance(at: Double, pixel: int) -> int {
    let difference = at.value() - pixel * one();
    if difference >= 0 {
        difference
    } else {
        -difference
    }
}

/// Nearness in terms of the exact distance.
proof fn lemma_near(at: Double, pixel: int)
    requires
        -0x1_0000_0000 < pixel < 0x1_0000_0000,
    ensures
        near(at, pixel) ==> at.is_finite(),
        at.is_finite() ==> (near(at, pixel) <==> rounded(distance(at, pixel), 1)
            < EDGE_THRESHOLD_BITS),
{
    let line = Double::of_int(pixel);
    lemma_of_int(pixel);
    if at.is_finite() {
        lemma_minus_magnitude(at, line);
        let bits = rounded(distance(at, pixel), 1);
        if bits < EDGE_THRESHOLD_BITS {
            lemma_units_increase(bits, EDGE_THRESHOLD_BITS as int);
        } else if bits > EDGE_THRESHOLD_BITS {
            lemma_units_increase(EDGE_THRESHOLD_BITS as int, bits);
        }
    } else {
        lemma_negated(line);
        lemma_units_increase(EDGE_THRESHOLD_BITS as int, INFINITY_BITS as int);
    }
}

/// What the pattern of the threshold stands for.
proof fn lemma_threshold()
    ensures
        2 * units(EDGE_THRESHOLD_BITS as int) == 3 * one(),
        one() > 0,
{
    lemma_constants();
    lemma_units_at_scale(1022, 0x18_0000_0000_0000);
    assert(0x18_0000_0000_0000 * pow2(1022) * 2 == 3 * (0x10_0000_0000_0000 * pow2(1022)))
        by (nonlinear_arith);
}

/// A pointer that moves away from a barrier that is parallel to an axis, and
/// was not on its line, does not cross it.
pub proof fn law_moving_away_crosses_nothing(barrier: Barrier, old: Position, new: Position)
    requires
        !barrier.slanted(),
        ({
            let (from, to, line) = if barrier.vertical() {
                (old.x, new.x, Double::of_int(barrier.x1 as int))
            } else {
                (old.y, new.y, Double::of_int(barrier.y1 as int))
            };
            to.gt(from) && from.gt(line) || from.gt(to) && line.gt(from)
        }),
    ensures
        !barrier.crossed(old, new),
{
}

/// A motion that leads over the line of a barrier that is parallel to an axis,
/// and begins and ends between the barrier's ends, crosses it, however fast the
/// pointer moved.
pub proof fn law_passing_through_crosses(barrier: Barrier, old: Position, new: Position)
    requires
        !barrier.slanted(),
        barrier.vertical() ==> {
            &&& passes(old.x, new.x, barrier.x1 as int)
            &&& between_ends(old.y, barrier.y1 as int, barrier.y2 as int)
            &&& between_ends(new.y, barrier.y1 as int, barrier.y2 as int)
        },
        barrier.horizontal() ==> {
            &&& passes(old.y, new.y, barrier.y1 as int)
            &&& between_ends(old.x, barrier.x1 as int, barrier.x2 as int)
            &&& between_ends(new.x, barrier.x1 as int, barrier.x2 as int)
        },
    ensures
        barrier.crossed(old, new),
{
}

/// A motion between positions of moderate size that has a point in common with a
/// barrier, and is not parallel to it, crosses it. The positions count grains:
/// whole pixels where `places` is zero, 256ths of a pixel where it is eight.
pub proof fn law_motion_through_a_point_crosses(
    barrier: Barrier,
    old: (int, int),
    new: (int, int),
    places: nat,
)
    requires
        places <= EXACT_PLACES,
        is_moderate(old),
        is_moderate(new),
        is_moderate(barrier.first_end(places)),
        is_moderate(barrier.second_end(places)),
        ({
            let (c, d) = (barrier.first_end(places), barrier.second_end(places));
            &&& exact_cross(old.0 - new.0, old.1 - new.1, c.0 - d.0, c.1 - d.1) != 0
            &&& share_a_point(old, new, c, d)
        }),
    ensures
        barrier.crossed(spot(old, places), spot(new, places)),
{
    let c = barrier.first_end(places);
    let d = barrier.second_end(places);
    let (k, p, q) = choose|k: int, p: int, q: int| is_common_point(old, new, c, d, k, p, q);
    let (ux, uy) = (old.0 - new.0, old.1 - new.1);
    let (vx, vy) = (c.0 - d.0, c.1 - d.1);
    assert((vx == 0 ==> ux != 0) && (vy == 0 ==> uy != 0)) by (nonlinear_arith)
        requires
            ux * vy - uy * vx != 0,
    ;
    if barrier.vertical() {
        lemma_motion_goes_through(
            barrier.x1 as int,
            barrier.y1 as int,
            barrier.y2 as int,
            old,
            new,
            places,
            (k, p, q),
        );
    } else if barrier.horizontal() {
        lemma_motion_goes_through(
            barrier.y1 as int,
            barrier.x1 as int,
            barrier.x2 as int,
            (old.1, old.0),
            (new.1, new.0),
            places,
            (k, p, q),
        );
    } else {
        lemma_pixels_are_grains(barrier.x1 as int, places);
        lemma_pixels_are_grains(barrier.y1 as int, places);
        lemma_pixels_are_grains(barrier.x2 as int, places);
        lemma_pixels_are_grains(barrier.y2 as int, places);
        lemma_meeting_is_crossing(old, new, c, d, places);
        law_segments_meet_in_a_point(old, new, c, d, places);
    }
}

/// A motion that has a point in common with a vertical barrier, and is not
/// parallel to it, goes through it.
proof fn lemma_motion_goes_through(
    pixel: int,
    end1: int,
    end2: int,
    old: (int, int),
    new: (int, int),
    places: nat,
    kpq: (int, int, int),
)
    requires
        places <= EXACT_PLACES,
        is_moderate(old),
        is_moderate(new),
        is_moderate(in_grains(pixel, end1, places)),
        is_moderate(in_grains(pixel, end2, places)),
        old.0 != new.0,
        is_common_point(
            old,
            new,
            in_grains(pixel, end1, places),
            in_grains(pixel, end2, places),
            kpq.0,
            kpq.1,
            kpq.2,
        ),
    ensures
        goes_through(pixel, end1, end2, spot(old, places), spot(new, places)),
{
    let (k, p, q) = kpq;
    let c = in_grains(pixel, end1, places);
    let d = in_grains(pixel, end2, places);
    let low = in_grains(pixel, lesser(end1, end2), places);
    let high = in_grains(pixel, greater(end1, end2), places);
    lemma_common_point_is_on_the_line(old, new, c, d, k, p, q);
    lemma_passing(pixel, old.0, new.0, places);
    lemma_share_with_turned(old, new, c, d);
    law_segments_meet_in_a_point(old, new, low, high, places);
    lemma_pixels_are_grains(pixel, places);
    lemma_pixels_are_grains(lesser(end1, end2), places);
    lemma_pixels_are_grains(greater(end1, end2), places);
    assert(point(pixel, lesser(end1, end2)) == spot(low, places));
    assert(point(pixel, greater(end1, end2)) == spot(high, places));
}

/// A point in common with an upright segment lies on the segment's line.
proof fn lemma_common_point_is_on_the_line(
    a: (int, int),
    b: (int, int),
    c: (int, int),
    d: (int, int),
    k: int,
    p: int,
    q: int,
)
    requires
        c.0 == d.0,
        is_common_point(a, b, c, d, k, p, q),
    ensures
        is_within(a.0, b.0, c.0),
        share_a_point(a, b, c, d),
{
    assert(q * (d.0 - c.0) == 0) by (nonlinear_arith)
        requires
            c.0 == d.0,
    ;
    lemma_part_is_within(a.0, b.0, c.0, k, p);
}

/// A segment shares a point with another whichever way that one is turned.
proof fn lemma_share_with_turned(a: (int, int), b: (int, int), c: (int, int), d: (int, int))
    requires
        share_a_point(a, b, c, d),
    ensures
        share_a_point(a, b, d, c),
{
    let (k, p, q) = choose|k: int, p: int, q: int| is_common_point(a, b, c, d, k, p, q);
    lemma_other_way(k, q, c, d);
    assert(is_common_point(a, b, d, c, k, p, k - q));
}

/// What is so far along a segment is the rest of the way from its other end.
proof fn lemma_other_way(k: int, q: int, c: (int, int), d: (int, int))
    ensures
        k * d.0 + (k - q) * (c.0 - d.0) == k * c.0 + q * (d.0 - c.0),
        k * d.1 + (k - q) * (c.1 - d.1) == k * c.1 + q * (d.1 - c.1),
{
    let (x, y, z, w) = (c.0, c.1, d.0, d.1);
    assert(k * z + (k - q) * (x - z) == k * x + q * (z - x)) by (nonlinear_arith);
    assert(k * w + (k - q) * (y - w) == k * y + q * (w - y)) by (nonlinear_arith);
}

/// A motion between positions of moderate size, in grains, that crosses a
/// barrier has a point in common with it, or comes up to it.
pub proof fn law_crossing_is_at_or_near(
    barrier: Barrier,
    old: (int, int),
    new: (int, int),
    places: nat,
)
    requires
        places <= EXACT_PLACES,
        is_moderate(old),
        is_moderate(new),
        is_moderate(barrier.first_end(places)),
        is_moderate(barrier.second_end(places)),
        barrier.crossed(spot(old, places), spot(new, places)),
    ensures
        ({
            let (from, to) = (spot(old, places), spot(new, places));
            ||| share_a_point(old, new, barrier.first_end(places), barrier.second_end(places))
            ||| barrier.vertical() && comes_up_to(
                barrier.x1 as int,
                barrier.y1 as int,
                barrier.y2 as int,
                from,
                to,
            )
            ||| barrier.horizontal() && comes_up_to(
                barrier.y1 as int,
                barrier.x1 as int,
                barrier.x2 as int,
                from.mirrored(),
                to.mirrored(),
            )
        }),
{
    let c = barrier.first_end(places);
    let d = barrier.second_end(places);
    let (x1, y1) = (barrier.x1 as int, barrier.y1 as int);
    let (x2, y2) = (barrier.x2 as int, barrier.y2 as int);
    let (from, to) = (spot(old, places), spot(new, places));
    if barrier.slanted() {
        lemma_pixels_are_grains(x1, places);
        lemma_pixels_are_grains(y1, places);
        lemma_pixels_are_grains(x2, places);
        lemma_pixels_are_grains(y2, places);
        law_segments_meet_in_a_point(old, new, c, d, places);
    } else if barrier.vertical() {
        if goes_through(x1, y1, y2, from, to) {
            let (k, p, q) = lemma_through_shares_a_point(x1, y1, y2, old, new, places);
            assert(is_common_point(old, new, c, d, k, p, q));
        }
    } else if goes_through(y1, x1, x2, from.mirrored(), to.mirrored()) {
        let (k, p, q) = lemma_through_shares_a_point(
            y1,
            x1,
            x2,
            (old.1, old.0),
            (new.1, new.0),
            places,
        );
        assert(is_common_point(old, new, c, d, k, p, q));
    }
}

/// A motion through a vertical barrier has a point in common with it.
proof fn lemma_through_shares_a_point(
    pixel: int,
    end1: int,
    end2: int,
    old: (int, int),
    new: (int, int),
    places: nat,
) -> (kpq: (int, int, int))
    requires
        places <= EXACT_PLACES,
        is_moderate(old),
        is_moderate(new),
        is_moderate(in_grains(pixel, end1, places)),
        is_moderate(in_grains(pixel, end2, places)),
        goes_through(pixel, end1, end2, spot(old, places), spot(new, places)),
    ensures
        is_common_point(
            old,
            new,
            in_grains(pixel, end1, places),
            in_grains(pixel, end2, places),
            kpq.0,
            kpq.1,
            kpq.2,
        ),
{
    let low = in_grains(pixel, lesser(end1, end2), places);
    let high = in_grains(pixel, greater(end1, end2), places);
    let (from, to) = (spot(old, places), spot(new, places));
    lemma_pixels_are_grains(pixel, places);
    lemma_pixels_are_grains(lesser(end1, end2), places);
    lemma_pixels_are_grains(greater(end1, end2), places);
    if between_ends(from.y, end1, end2) && between_ends(to.y, end1, end2) {
        lemma_passing(pixel, old.0, new.0, places);
        lemma_grains_order(old.1, low.1, places);
        lemma_grains_order(high.1, old.1, places);
        lemma_grains_order(new.1, low.1, places);
        lemma_grains_order(high.1, new.1, places);
        lemma_way_through(low.0, low.1, high.1, old, new);
    } else {
        law_segments_meet_in_a_point(old, new, low, high, places);
    }
    let (k, p, q) = choose|k: int, p: int, q: int| is_common_point(old, new, low, high, k, p, q);
    if end1 <= end2 {
        (k, p, q)
    } else {
        lemma_other_way(k, q, low, high);
        (k, p, k - q)
    }
}

/// Passing over a line, in grains.
proof fn lemma_passing(pixel: int, old: int, new: int, places: nat)
    requires
        places <= EXACT_PLACES,
        is_moderate((old, new)),
        is_moderate((pixel * pow2(places), 0)),
    ensures
        passes(grains(old, places), grains(new, places), pixel) <==> old != new && is_within(
            old,
            new,
            pixel * pow2(places),
        ),
{
    let line = pixel * pow2(places);
    lemma_pixels_are_grains(pixel, places);
    lemma_grains_order(old, new, places);
    lemma_grains_order(line, old, places);
    lemma_grains_order(line, new, places);
}

/// A motion over a line that begins and ends between the ends of a barrier has a
/// point in common with the barrier.
proof fn lemma_way_through(pixel: int, low: int, high: int, old: (int, int), new: (int, int))
    requires
        old.0 != new.0,
        is_within(old.0, new.0, pixel),
        low <= old.1 <= high,
        low <= new.1 <= high,
    ensures
        share_a_point(old, new, (pixel, low), (pixel, high)),
{
    let (k, p) = if new.0 > old.0 {
        (new.0 - old.0, pixel - old.0)
    } else {
        (old.0 - new.0, old.0 - pixel)
    };
    assert(k * old.0 + p * (new.0 - old.0) == k * pixel) by (nonlinear_arith)
        requires
            ({
                ||| k == new.0 - old.0 && p == pixel - old.0
                ||| k == old.0 - new.0 && p == old.0 - pixel
            }),
    ;
    let at = k * old.1 + p * (new.1 - old.1);
    let h = high - low;
    assert(k * low <= at <= k * high) by (nonlinear_arith)
        requires
            at == k * old.1 + p * (new.1 - old.1),
            0 <= p <= k,
            low <= old.1 <= high,
            low <= new.1 <= high,
    ;
    if h == 0 {
        assert(p * (new.1 - old.1) == 0) by (nonlinear_arith)
            requires
                new.1 == old.1,
        ;
        assert(is_common_point(old, new, (pixel, low), (pixel, high), k, p, 0));
    } else {
        let q = at - k * low;
        assert(k * h > 0 && 0 <= p * h <= k * h && q <= k * h) by (nonlinear_arith)
            requires
                h > 0,
                k > 0,
                0 <= p <= k,
                q == at - k * low,
                at <= k * high,
                h == high - low,
        ;
        assert((k * h) * old.0 + (p * h) * (new.0 - old.0) == (k * h) * pixel + q * (pixel - pixel))
            by (nonlinear_arith)
            requires
                k * old.0 + p * (new.0 - old.0) == k * pixel,
        ;
        assert((k * h) * old.1 + (p * h) * (new.1 - old.1) == (k * h) * low + q * (high - low))
            by (nonlinear_arith)
            requires
                at == k * old.1 + p * (new.1 - old.1),
                q == at - k * low,
                h == high - low,
        ;
        assert(is_common_point(old, new, (pixel, low), (pixel, high), k * h, p * h, q));
    }
}

/// Exchanging the ends of a barrier that is parallel to an axis changes no
/// crossing.
pub proof fn law_ends_are_interchangeable(barrier: Barrier, old: Position, new: Position)
    requires
        !barrier.slanted(),
    ensures
        barrier.turned().crossed(old, new) == barrier.crossed(old, new),
{
}

/// A pointer that does not move across a barrier that is parallel to an axis
/// does not cross it.
pub proof fn law_no_motion_no_crossing(barrier: Barrier, old: Position, new: Position)
    requires
        !barrier.slanted(),
        barrier.vertical() ==> old.x == new.x,
        barrier.horizontal() ==> old.y == new.y,
    ensures
        !barrier.crossed(old, new),
{
}

/// A pointer that does not move at all crosses no barrier, slanted ones included.
pub proof fn law_still_pointer_crosses_nothing(barrier: Barrier, at: Position)
    ensures
        !barrier.crossed(at, at),
{
    if !barrier.slanted() {
        law_no_motion_no_crossing(barrier, at, at);
    } else {
        lemma_pixel_difference(barrier.x1 as int, barrier.x2 as int);
        lemma_pixel_difference(barrier.y1 as int, barrier.y2 as int);
        lemma_still_segment_crosses_nothing(
            at,
            point(barrier.x1 as int, barrier.y1 as int),
            point(barrier.x2 as int, barrier.y2 as int),
        );
    }
}

/// A segment of no length crosses no other.
proof fn lemma_still_segment_crosses_nothing(at: Position, c: Position, d: Position)
    requires
        c.x.minus(d.x).is_finite(),
        c.y.minus(d.y).is_finite(),
    ensures
        !segments_cross(at, at, c, d),
{
    lemma_self_difference(at.x);
    lemma_self_difference(at.y);
    lemma_still_cross_product(
        at.x.minus(at.x),
        at.y.minus(at.y),
        c.x.minus(d.x),
        c.y.minus(d.y),
    );
    lemma_degenerate_meeting(
        directions(at, at, c, d),
        along_first(at, at, c, d),
        along_second(at, at, c, d),
    );
}

/// Where the directions have no cross product, nothing meets.
proof fn lemma_degenerate_meeting(denom: Double, t: Double, u: Double)
    requires
        denom.is_nan() || denom.magnitude() == Double::zero(false),
    ensures
        !meet_within(denom, t, u),
{
    reveal(meet_within);
    lemma_units_zero(0);
    lemma_units_increase(0, PARALLEL_BITS as int);
}

/// The cross product with a vector that is zero or no number is so too.
proof fn lemma_still_cross_product(ux: Double, uy: Double, vx: Double, vy: Double)
    requires
        ux.is_nan() || ux == Double::zero(false),
        uy.is_nan() || uy == Double::zero(false),
        vx.is_finite(),
        vy.is_finite(),
    ensures
        ({
            let product = cross_product(ux, uy, vx, vy);
            product.is_nan() || product.magnitude() == Double::zero(false)
        }),
{
    reveal(cross_product);
    lemma_units_zero(0);
    let a = ux.times(vy);
    let b = uy.times(vx);
    if !ux.is_nan() && !uy.is_nan() {
        assert(a == Double::zero(vy.negative()));
        assert(b == Double::zero(vx.negative()));
        lemma_negated(b);
    }
}

/// What is taken from itself leaves zero, or no number.
proof fn lemma_self_difference(x: Double)
    ensures
        x.minus(x).is_nan() || x.minus(x) == Double::zero(false),
{
    lemma_negated(x);
}

/// A barrier one pixel outside the reachable coordinates works: a pointer that
/// heads for a vertical barrier, and gets to a pixel from it or closer between
/// its ends, crosses it.
pub proof fn law_one_pixel_off_still_crosses(barrier: Barrier, old: Position, new: Position)
    requires
        barrier.vertical(),
        new.x.is_finite(),
        distance(new.x, barrier.x1 as int) <= one(),
        between_ends(new.y, barrier.y1 as int, barrier.y2 as int),
        heads_for(old.x, new.x, barrier.x1 as int),
    ensures
        barrier.crossed(old, new),
{
    lemma_pixel_is_near(new.x, barrier.x1 as int);
}

/// The same of a horizontal barrier.
pub proof fn law_one_pixel_off_still_crosses_horizontally(
    barrier: Barrier,
    old: Position,
    new: Position,
)
    requires
        barrier.horizontal(),
        new.y.is_finite(),
        distance(new.y, barrier.y1 as int) <= one(),
        between_ends(new.x, barrier.x1 as int, barrier.x2 as int),
        heads_for(old.y, new.y, barrier.y1 as int),
    ensures
        barrier.crossed(old, new),
{
    lemma_pixel_is_near(new.y, barrier.y1 as int);
}

/// A motion that does not get to the line of a barrier that is parallel to an
/// axis, and stops one and a half pixels or more from it, does not cross it.
pub proof fn law_beyond_threshold_no_crossing(barrier: Barrier, old: Position, new: Position)
    requires
        !barrier.slanted(),
        barrier.vertical() ==> {
            &&& !passes(old.x, new.x, barrier.x1 as int)
            &&& 2 * distance(new.x, barrier.x1 as int) >= 3 * one()
        },
        barrier.horizontal() ==> {
            &&& !passes(old.y, new.y, barrier.y1 as int)
            &&& 2 * distance(new.y, barrier.y1 as int) >= 3 * one()
        },
    ensures
        !barrier.crossed(old, new),
{
    lemma_threshold();
    let reach = units(EDGE_THRESHOLD_BITS as int);
    lemma_units_nonnegative(EDGE_THRESHOLD_BITS as int);
    lemma_exact_rounds_to_itself(1, EDGE_THRESHOLD_BITS as int);
    if barrier.vertical() {
        lemma_near(new.x, barrier.x1 as int);
        lemma_rounding_is_monotone(reach, distance(new.x, barrier.x1 as int), 1);
    } else {
        lemma_near(new.y, barrier.y1 as int);
        lemma_rounding_is_monotone(reach, distance(new.y, barrier.y1 as int), 1);
    }
}

/// A pixel lies well inside the threshold.
proof fn lemma_pixel_is_near(at: Double, pixel: int)
    requires
        -0x1_0000_0000 < pixel < 0x1_0000_0000,
        at.is_finite(),
        distance(at, pixel) <= one(),
    ensures
        near(at, pixel),
{
    lemma_near(at, pixel);
    lemma_constants();
    lemma_rounding_is_monotone(distance(at, pixel), one(), 1);
    lemma_exact_rounds_to_itself(1, ONE_BITS as int);
}

/// What lies at most one and a half pixels less 2 to the power of -17 from a
/// line is near it.
proof fn lemma_margin_is_near(at: Double, pixel: int)
    requires
        -0x1_0000_0000 < pixel < 0x1_0000_0000,
        at.is_finite(),
        -0x2_ffff * one() <= 0x2_0000 * (at.value() - pixel * one()) <= 0x2_ffff * one(),
    ensures
        near(at, pixel),
{
    lemma_near(at, pixel);
    lemma_threshold();
    let unit = pow2(1057) as int;
    lemma2_to64();
    lemma_pow2_adds(17, 1057);
    assert(one() == 0x2_0000 * unit);
    let reach = 0x2_ffff * unit;
    let bits = lemma_pattern_exists(0x2_ffff, 1057);
    lemma_exact_rounds_to_itself(1, bits);
    assert(distance(at, pixel) <= reach);
    lemma_rounding_is_monotone(distance(at, pixel), reach, 1);
    if bits > EDGE_THRESHOLD_BITS {
        lemma_units_increase(EDGE_THRESHOLD_BITS as int, bits);
    }
}

/// What lies one and a half pixels or more from a line is not near it.
proof fn lemma_far_is_not_near(at: Double, pixel: int)
    requires
        -0x1_0000_0000 < pixel < 0x1_0000_0000,
        2 * distance(at, pixel) >= 3 * one(),
    ensures
        !near(at, pixel),
{
    lemma_threshold();
    let reach = units(EDGE_THRESHOLD_BITS as int);
    lemma_units_nonnegative(EDGE_THRESHOLD_BITS as int);
    lemma_exact_rounds_to_itself(1, EDGE_THRESHOLD_BITS as int);
    lemma_near(at, pixel);
    lemma_rounding_is_monotone(reach, distance(at, pixel), 1);
}

/// Coming up to a vertical barrier, over exact values.
proof fn lemma_approach(pixel: int, end1: int, end2: int, old: Position, new: Position)
    requires
        -0x1_0000_0000 < pixel < 0x1_0000_0000,
        -0x1_0000_0000 < end1 < 0x1_0000_0000,
        -0x1_0000_0000 < end2 < 0x1_0000_0000,
        !old.x.is_nan(),
        new.x.is_finite(),
        !new.y.is_nan(),
        ({
            ||| old.x.value() < new.x.value() && old.x.value() < pixel * one()
            ||| old.x.value() > new.x.value() && old.x.value() > pixel * one()
        }),
        -0x2_ffff * one() <= 0x2_0000 * (new.x.value() - pixel * one()) <= 0x2_ffff * one(),
        is_within(end1 * one(), end2 * one(), new.y.value()),
    ensures
        comes_up_to(pixel, end1, end2, old, new),
{
    lemma_of_int(pixel);
    lemma_margin_is_near(new.x, pixel);
    lemma_between_values(new.y, end1, end2);
}

/// Lying between the ends of a barrier, over exact values.
proof fn lemma_between_values(along: Double, end1: int, end2: int)
    requires
        -0x1_0000_0000 < end1 < 0x1_0000_0000,
        -0x1_0000_0000 < end2 < 0x1_0000_0000,
    ensures
        between_ends(along, end1, end2) <==> !along.is_nan() && is_within(
            end1 * one(),
            end2 * one(),
            along.value(),
        ),
{
    lemma_of_int(end1);
    lemma_of_int(end2);
    lemma_threshold();
    let unit = one();
    assert((end1 <= end2 ==> end1 * unit <= end2 * unit) && (end2 <= end1 ==> end2 * unit <= end1
        * unit)) by (nonlinear_arith)
        requires
            unit > 0,
    ;
}

/// A pointer that moves towards an upright barrier, and ends less than one and a
/// half pixels from its line between its ends, crosses it, from however far away
/// the motion came. Distances are exact; the last 2 to the power of -17 of a
/// pixel before one and a half are left open.
pub proof fn law_approach_crosses_upright(barrier: Barrier, old: Position, new: Position)
    requires
        barrier.x1 == barrier.x2,
        !old.x.is_nan(),
        new.x.is_finite(),
        !new.y.is_nan(),
        ({
            let line = barrier.x1 * one();
            ||| old.x.value() < new.x.value() && old.x.value() < line
            ||| old.x.value() > new.x.value() && old.x.value() > line
        }),
        -0x2_ffff * one() <= 0x2_0000 * (new.x.value() - barrier.x1 * one()) <= 0x2_ffff * one(),
        ({
            ||| barrier.y1 * one() <= new.y.value() <= barrier.y2 * one()
            ||| barrier.y2 * one() <= new.y.value() <= barrier.y1 * one()
        }),
    ensures
        barrier.crossed(old, new),
{
    lemma_approach(
        barrier.x1 as int,
        barrier.y1 as int,
        barrier.y2 as int,
        old,
        new,
    );
}

/// The same of a level barrier.
pub proof fn law_approach_crosses_level(barrier: Barrier, old: Position, new: Position)
    requires
        barrier.x1 != barrier.x2,
        barrier.y1 == barrier.y2,
        !old.y.is_nan(),
        new.y.is_finite(),
        !new.x.is_nan(),
        ({
            let line = barrier.y1 * one();
            ||| old.y.value() < new.y.value() && old.y.value() < line
            ||| old.y.value() > new.y.value() && old.y.value() > line
        }),
        -0x2_ffff * one() <= 0x2_0000 * (new.y.value() - barrier.y1 * one()) <= 0x2_ffff * one(),
        ({
            ||| barrier.x1 * one() <= new.x.value() <= barrier.x2 * one()
            ||| barrier.x2 * one() <= new.x.value() <= barrier.x1 * one()
        }),
    ensures
        barrier.crossed(old, new),
{
    lemma_approach(
        barrier.y1 as int,
        barrier.x1 as int,
        barrier.x2 as int,
        old.mirrored(),
        new.mirrored(),
    );
}

/// A motion that leads over the line of an upright barrier, or up to it, and
/// begins and ends between the barrier's ends, crosses it, however long it is.
pub proof fn law_motion_over_the_line_crosses_upright(
    barrier: Barrier,
    old: Position,
    new: Position,
)
    requires
        barrier.x1 == barrier.x2,
        !old.x.is_nan(),
        !new.x.is_nan(),
        !old.y.is_nan(),
        !new.y.is_nan(),
        ({
            let line = barrier.x1 * one();
            ||| old.x.value() < new.x.value() && old.x.value() <= line <= new.x.value()
            ||| old.x.value() > new.x.value() && old.x.value() >= line >= new.x.value()
        }),
        ({
            ||| barrier.y1 * one() <= old.y.value() <= barrier.y2 * one()
            ||| barrier.y2 * one() <= old.y.value() <= barrier.y1 * one()
        }),
        ({
            ||| barrier.y1 * one() <= new.y.value() <= barrier.y2 * one()
            ||| barrier.y2 * one() <= new.y.value() <= barrier.y1 * one()
        }),
    ensures
        barrier.crossed(old, new),
{
    lemma_of_int(barrier.x1 as int);
    lemma_between_values(old.y, barrier.y1 as int, barrier.y2 as int);
    lemma_between_values(new.y, barrier.y1 as int, barrier.y2 as int);
}

/// The same of a level barrier.
pub proof fn law_motion_over_the_line_crosses_level(
    barrier: Barrier,
    old: Position,
    new: Position,
)
    requires
        barrier.x1 != barrier.x2,
        barrier.y1 == barrier.y2,
        !old.x.is_nan(),
        !new.x.is_nan(),
        !old.y.is_nan(),
        !new.y.is_nan(),
        ({
            let line = barrier.y1 * one();
            ||| old.y.value() < new.y.value() && old.y.value() <= line <= new.y.value()
            ||| old.y.value() > new.y.value() && old.y.value() >= line >= new.y.value()
        }),
        ({
            ||| barrier.x1 * one() <= old.x.value() <= barrier.x2 * one()
            ||| barrier.x2 * one() <= old.x.value() <= barrier.x1 * one()
        }),
        ({
            ||| barrier.x1 * one() <= new.x.value() <= barrier.x2 * one()
            ||| barrier.x2 * one() <= new.x.value() <= barrier.x1 * one()
        }),
    ensures
        barrier.crossed(old, new),
{
    lemma_of_int(barrier.y1 as int);
    lemma_between_values(old.x, barrier.x1 as int, barrier.x2 as int);
    lemma_between_values(new.x, barrier.x1 as int, barrier.x2 as int);
}

/// A crossing of an upright barrier takes a motion across its line: towards the
/// line from off it, or off it from on it. A motion along the line, or away from
/// it, or one that stops one and a half pixels or more before it, is none, and
/// neither is one that is no motion between numbers. Where the line is not
/// reached, the motion ends between the barrier's ends.
pub proof fn law_crossing_takes_a_motion_upright(barrier: Barrier, old: Position, new: Position)
    requires
        barrier.x1 == barrier.x2,
        barrier.crossed(old, new),
    ensures
        !old.x.is_nan(),
        !new.x.is_nan(),
        ({
            let line = barrier.x1 * one();
            let (from, to) = (old.x.value(), new.x.value());
            &&& from != to
            &&& from < line ==> to > from && 2 * (line - to) < 3 * one()
            &&& from > line ==> to < from && 2 * (to - line) < 3 * one()
            &&& from < line && to < line || from > line && to > line ==> {
                ||| barrier.y1 * one() <= new.y.value() <= barrier.y2 * one()
                ||| barrier.y2 * one() <= new.y.value() <= barrier.y1 * one()
            }
        }),
{
    lemma_between_values(new.y, barrier.y1 as int, barrier.y2 as int);
    lemma_of_int(barrier.x1 as int);
    lemma_crossing_distance(barrier.x1 as int, old.x, new.x);
}

/// The same of a level barrier.
pub proof fn law_crossing_takes_a_motion_level(barrier: Barrier, old: Position, new: Position)
    requires
        barrier.x1 != barrier.x2,
        barrier.y1 == barrier.y2,
        barrier.crossed(old, new),
    ensures
        !old.y.is_nan(),
        !new.y.is_nan(),
        ({
            let line = barrier.y1 * one();
            let (from, to) = (old.y.value(), new.y.value());
            &&& from != to
            &&& from < line ==> to > from && 2 * (line - to) < 3 * one()
            &&& from > line ==> to < from && 2 * (to - line) < 3 * one()
            &&& from < line && to < line || from > line && to > line ==> {
                ||| barrier.x1 * one() <= new.x.value() <= barrier.x2 * one()
                ||| barrier.x2 * one() <= new.x.value() <= barrier.x1 * one()
            }
        }),
{
    lemma_between_values(new.x, barrier.x1 as int, barrier.x2 as int);
    lemma_of_int(barrier.y1 as int);
    lemma_crossing_distance(barrier.y1 as int, old.y, new.y);
}

/// What heads for a line and ends near it, or passes it, is at most so far
/// before it.
proof fn lemma_crossing_distance(pixel: int, old: Double, new: Double)
    requires
        -0x1_0000_0000 < pixel < 0x1_0000_0000,
        passes(old, new, pixel) || heads_for(old, new, pixel) && near(new, pixel),
    ensures
        ({
            let line = pixel * one();
            let (from, to) = (old.value(), new.value());
            &&& from < line ==> 2 * (line - to) < 3 * one()
            &&& from > line ==> 2 * (to - line) < 3 * one()
        }),
{
    lemma_of_int(pixel);
    lemma_threshold();
    if 2 * distance(new, pixel) >= 3 * one() {
        lemma_far_is_not_near(new, pixel);
    }
}

/// Over positions in grains, an upright barrier is crossed exactly by a motion
/// across its axis that has a point in common with it, and by one towards its
/// line that ends less than one and a half pixels from it, between its ends.
pub proof fn law_upright_crossing_is_exact(
    barrier: Barrier,
    old: (int, int),
    new: (int, int),
    places: nat,
)
    requires
        places <= EXACT_PLACES,
        is_moderate(old),
        is_moderate(new),
        is_moderate(barrier.first_end(places)),
        is_moderate(barrier.second_end(places)),
        barrier.x1 == barrier.x2,
    ensures
        barrier.crossed(spot(old, places), spot(new, places)) <==> {
            let (c, d) = (barrier.first_end(places), barrier.second_end(places));
            ||| old.0 != new.0 && share_a_point(old, new, c, d)
            ||| {
                &&& old.0 < new.0 && old.0 < c.0 || old.0 > new.0 && old.0 > c.0
                &&& -3 * pow2(places) < 2 * (new.0 - c.0) < 3 * pow2(places)
                &&& c.1 <= new.1 <= d.1 || d.1 <= new.1 <= c.1
            }
        },
{
    lemma_crossing_in_grains(
        barrier.x1 as int,
        barrier.y1 as int,
        barrier.y2 as int,
        old,
        new,
        places,
    );
}

/// The same of a level barrier.
pub proof fn law_level_crossing_is_exact(
    barrier: Barrier,
    old: (int, int),
    new: (int, int),
    places: nat,
)
    requires
        places <= EXACT_PLACES,
        is_moderate(old),
        is_moderate(new),
        is_moderate(barrier.first_end(places)),
        is_moderate(barrier.second_end(places)),
        barrier.x1 != barrier.x2,
        barrier.y1 == barrier.y2,
    ensures
        barrier.crossed(spot(old, places), spot(new, places)) <==> {
            let (c, d) = (barrier.first_end(places), barrier.second_end(places));
            ||| old.1 != new.1 && share_a_point(old, new, c, d)
            ||| {
                &&& old.1 < new.1 && old.1 < c.1 || old.1 > new.1 && old.1 > c.1
                &&& -3 * pow2(places) < 2 * (new.1 - c.1) < 3 * pow2(places)
                &&& c.0 <= new.0 <= d.0 || d.0 <= new.0 <= c.0
            }
        },
{
    let (c, d) = (barrier.first_end(places), barrier.second_end(places));
    let (a, b) = ((old.1, old.0), (new.1, new.0));
    lemma_crossing_in_grains(
        barrier.y1 as int,
        barrier.x1 as int,
        barrier.x2 as int,
        a,
        b,
        places,
    );
    lemma_share_mirrored(old, new, c, d);
    lemma_share_mirrored(a, b, (c.1, c.0), (d.1, d.0));
}

/// Over positions in grains, a slanted barrier is crossed exactly by a motion
/// that is not parallel to it and has a point in common with it.
pub proof fn law_slanted_crossing_is_exact(
    barrier: Barrier,
    old: (int, int),
    new: (int, int),
    places: nat,
)
    requires
        places <= EXACT_PLACES,
        is_moderate(old),
        is_moderate(new),
        is_moderate(barrier.first_end(places)),
        is_moderate(barrier.second_end(places)),
        barrier.x1 != barrier.x2,
        barrier.y1 != barrier.y2,
    ensures
        barrier.crossed(spot(old, places), spot(new, places)) <==> {
            let (c, d) = (barrier.first_end(places), barrier.second_end(places));
            &&& (old.0 - new.0) * (c.1 - d.1) != (old.1 - new.1) * (c.0 - d.0)
            &&& share_a_point(old, new, c, d)
        },
{
    let (c, d) = (barrier.first_end(places), barrier.second_end(places));
    lemma_pixels_are_grains(barrier.x1 as int, places);
    lemma_pixels_are_grains(barrier.y1 as int, places);
    lemma_pixels_are_grains(barrier.x2 as int, places);
    lemma_pixels_are_grains(barrier.y2 as int, places);
    law_segments_meet_in_a_point(old, new, c, d, places);
    if exact_cross(old.0 - new.0, old.1 - new.1, c.0 - d.0, c.1 - d.1) != 0 {
        lemma_meeting_is_crossing(old, new, c, d, places);
    } else {
        lemma_parallel_is_no_crossing(old, new, c, d, places);
    }
}

/// Segments share a point as their mirror images do.
proof fn lemma_share_mirrored(a: (int, int), b: (int, int), c: (int, int), d: (int, int))
    ensures
        share_a_point(a, b, c, d) ==> share_a_point(
            (a.1, a.0),
            (b.1, b.0),
            (c.1, c.0),
            (d.1, d.0),
        ),
{
    if share_a_point(a, b, c, d) {
        let (k, p, q) = choose|k: int, p: int, q: int| is_common_point(a, b, c, d, k, p, q);
        assert(is_common_point((a.1, a.0), (b.1, b.0), (c.1, c.0), (d.1, d.0), k, p, q));
    }
}

/// Running into a vertical barrier, in grains.
proof fn lemma_crossing_in_grains(
    pixel: int,
    end1: int,
    end2: int,
    old: (int, int),
    new: (int, int),
    places: nat,
)
    requires
        places <= EXACT_PLACES,
        is_moderate(old),
        is_moderate(new),
        is_moderate(in_grains(pixel, end1, places)),
        is_moderate(in_grains(pixel, end2, places)),
    ensures
        runs_into(pixel, end1, end2, spot(old, places), spot(new, places)) <==> {
            let (c, d) = (in_grains(pixel, end1, places), in_grains(pixel, end2, places));
            ||| old.0 != new.0 && share_a_point(old, new, c, d)
            ||| {
                &&& old.0 < new.0 && old.0 < c.0 || old.0 > new.0 && old.0 > c.0
                &&& -3 * pow2(places) < 2 * (new.0 - c.0) < 3 * pow2(places)
                &&& c.1 <= new.1 <= d.1 || d.1 <= new.1 <= c.1
            }
        },
{
    let (c, d) = (in_grains(pixel, end1, places), in_grains(pixel, end2, places));
    let (from, to) = (spot(old, places), spot(new, places));
    if goes_through(pixel, end1, end2, from, to) {
        lemma_passing(pixel, old.0, new.0, places);
        let (k, p, q) = lemma_through_shares_a_point(pixel, end1, end2, old, new, places);
        assert(is_common_point(old, new, c, d, k, p, q));
    }
    if old.0 != new.0 && share_a_point(old, new, c, d) {
        let kpq = choose|k: int, p: int, q: int| is_common_point(old, new, c, d, k, p, q);
        lemma_motion_goes_through(pixel, end1, end2, old, new, places, kpq);
    }
    lemma_pixels_are_grains(pixel, places);
    lemma_grains_order(old.0, new.0, places);
    lemma_grains_order(old.0, c.0, places);
    lemma_near_in_grains(pixel, new.0, places);
    lemma_between_in_grains(new.1, end1, end2, places);
}

/// Lying between the ends of a barrier, in grains.
proof fn lemma_between_in_grains(n: int, end1: int, end2: int, places: nat)
    requires
        places <= EXACT_PLACES,
        is_moderate((n, end1 * pow2(places))),
        is_moderate((n, end2 * pow2(places))),
    ensures
        between_ends(grains(n, places), end1, end2) <==> is_within(
            end1 * pow2(places),
            end2 * pow2(places),
            n,
        ),
{
    let scale = pow2(places) as int;
    lemma_pow2_pos(places);
    lemma_pixels_are_grains(end1, places);
    lemma_pixels_are_grains(end2, places);
    lemma_grains_order(n, end1 * scale, places);
    lemma_grains_order(n, end2 * scale, places);
    assert((end1 <= end2 ==> end1 * scale <= end2 * scale) && (end2 <= end1 ==> end2 * scale <= end1
        * scale)) by (nonlinear_arith)
        requires
            scale > 0,
    ;
}

/// Nearness to a line, in grains.
proof fn lemma_near_in_grains(pixel: int, n: int, places: nat)
    requires
        places <= EXACT_PLACES,
        is_moderate((n, pixel * pow2(places))),
    ensures
        near(grains(n, places), pixel) <==> -3 * pow2(places) < 2 * (n - pixel * pow2(places)) < 3
            * pow2(places),
{
    let scale = pow2(places) as int;
    let unit = grain(places);
    let line = pixel * scale;
    let gap = n - line;
    lemma_pow2_pos(places);
    lemma_pow2_pos((1074 - places) as nat);
    lemma_pow2_adds(places, (1074 - places) as nat);
    lemma2_to64();
    if places < 16 {
        lemma_pow2_strictly_increases(places, 16);
    }
    assert(1 <= scale <= 0x1_0000);
    assert(-0x1_0000_0000 < pixel < 0x1_0000_0000) by (nonlinear_arith)
        requires
            -0x100_0000 <= pixel * scale <= 0x100_0000,
            scale >= 1,
    ;
    lemma_grains_value(n, places);
    let at = grains(n, places);
    assert(at.value() - pixel * one() == gap * unit) by (nonlinear_arith)
        requires
            at.value() == n * unit,
            one() == scale * unit,
            gap == n - pixel * scale,
    ;
    if -3 * scale < 2 * gap < 3 * scale {
        assert(-0x2_ffff * one() <= 0x2_0000 * (gap * unit) <= 0x2_ffff * one()) by (nonlinear_arith)
            requires
                one() == scale * unit,
                unit > 0,
                -3 * scale + 1 <= 2 * gap <= 3 * scale - 1,
                1 <= scale <= 0x1_0000,
        ;
        lemma_margin_is_near(at, pixel);
    } else {
        assert(2 * (gap * unit) >= 3 * one() || 2 * (gap * unit) <= -3 * one()) by (nonlinear_arith)
            requires
                one() == scale * unit,
                unit > 0,
                2 * gap >= 3 * scale || 2 * gap <= -3 * scale,
        ;
        lemma_far_is_not_near(at, pixel);
    }
}

} // verus!
