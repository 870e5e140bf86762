use input_capture::barrier::Barrier;
use input_capture::double::Double;
use input_capture::mutter_input_capture;
use input_capture::segments::{line_segments_intersect, meeting, Meeting, Position};

fn at(x: f64, y: f64) -> Position {
    Position { x: Double::from_bits(x.to_bits()), y: Double::from_bits(y.to_bits()) }
}

fn barrier(x1: i32, y1: i32, x2: i32, y2: i32) -> Barrier {
    Barrier { id: 1, x1, y1, x2, y2 }
}

fn crossed(b: Barrier, old: (f64, f64), new: (f64, f64)) -> bool {
    b.at_or_near_barrier(&at(old.0, old.1), &at(new.0, new.1))
}

/// The crossing test in floating point arithmetic.
fn expected(b: Barrier, old: (f64, f64), new: (f64, f64)) -> bool {
    if b.x1 == b.x2 {
        runs_into(b.x1, b.y1, b.y2, old, new)
    } else if b.y1 == b.y2 {
        runs_into(b.y1, b.x1, b.x2, (old.1, old.0), (new.1, new.0))
    } else {
        cross(old, new, (b.x1 as f64, b.y1 as f64), (b.x2 as f64, b.y2 as f64))
    }
}

fn runs_into(pixel: i32, end1: i32, end2: i32, old: (f64, f64), new: (f64, f64)) -> bool {
    let line = pixel as f64;
    let (low, high) = (end1.min(end2) as f64, end1.max(end2) as f64);
    let between = |along: f64| low <= along && along <= high;
    let (from, to) = (old.0, new.0);
    let passes = (from < to && from <= line && line <= to) || (from > to && from >= line && line >= to);
    let heads_for = (from < to && from < line) || (from > to && from > line);
    (passes && ((between(old.1) && between(new.1)) || meet(old, new, (line, low), (line, high))))
        || (heads_for && (to - line).abs() < 1.5 && between(new.1))
}

fn meet(a: (f64, f64), b: (f64, f64), c: (f64, f64), d: (f64, f64)) -> bool {
    cross(a, b, c, d) || overlap(a, b, c, d)
}

fn cross(a: (f64, f64), b: (f64, f64), c: (f64, f64), d: (f64, f64)) -> bool {
    let denom = (a.0 - b.0) * (c.1 - d.1) - (a.1 - b.1) * (c.0 - d.0);
    if denom.abs() < 1e-10 {
        return false;
    }
    let t = ((a.0 - c.0) * (c.1 - d.1) - (a.1 - c.1) * (c.0 - d.0)) / denom;
    let u = -((a.0 - b.0) * (a.1 - c.1) - (a.1 - b.1) * (a.0 - c.0)) / denom;
    t >= 0.0 && t <= 1.0 && u >= 0.0 && u <= 1.0
}

fn overlap(a: (f64, f64), b: (f64, f64), c: (f64, f64), d: (f64, f64)) -> bool {
    let denom = (a.0 - b.0) * (c.1 - d.1) - (a.1 - b.1) * (c.0 - d.0);
    let ranges = |a: f64, b: f64, c: f64, d: f64| a.min(b) <= c.max(d) && c.min(d) <= a.max(b);
    denom.abs() < 1e-10
        && (a.0 - c.0) * (c.1 - d.1) - (a.1 - c.1) * (c.0 - d.0) == 0.0
        && (a.0 - b.0) * (a.1 - c.1) - (a.1 - b.1) * (a.0 - c.0) == 0.0
        && ranges(a.0, b.0, c.0, d.0)
        && ranges(a.1, b.1, c.1, d.1)
}

/// Whether two segments with whole ends have a point in common, exactly.
fn share_a_point(a: (i64, i64), b: (i64, i64), c: (i64, i64), d: (i64, i64)) -> bool {
    let side = |a: (i64, i64), b: (i64, i64), c: (i64, i64)| {
        ((b.0 - a.0) * (c.1 - a.1) - (b.1 - a.1) * (c.0 - a.0)).signum()
    };
    let on = |a: (i64, i64), b: (i64, i64), c: (i64, i64)| {
        side(a, b, c) == 0
            && a.0.min(b.0) <= c.0
            && c.0 <= a.0.max(b.0)
            && a.1.min(b.1) <= c.1
            && c.1 <= a.1.max(b.1)
    };
    (side(a, b, c) * side(a, b, d) < 0 && side(c, d, a) * side(c, d, b) < 0)
        || on(a, b, c)
        || on(a, b, d)
        || on(c, d, a)
        || on(c, d, b)
}

#[test]
fn barrier_one_pixel_outside_the_screen() {
    let right = barrier(6400, 0, 6400, 1440);
    assert!(crossed(right, (6398.0, 700.0), (6399.0, 700.0)));
    assert!(!crossed(right, (6397.0, 700.0), (6398.0, 700.0)));
}

#[test]
fn threshold_is_exclusive() {
    let right = barrier(6400, 0, 6400, 1440);
    assert!(!crossed(right, (6398.0, 700.0), (6398.5, 700.0)));
    let just_inside = f64::from_bits(6398.5f64.to_bits() + 1);
    assert!(crossed(right, (6398.0, 700.0), (just_inside, 700.0)));
    let left = barrier(0, 0, 0, 1440);
    assert!(!crossed(left, (3.0, 700.0), (1.5, 700.0)));
    assert!(crossed(left, (3.0, 700.0), (1.4999, 700.0)));
}

#[test]
fn moving_away_does_not_count() {
    let right = barrier(6400, 0, 6400, 1079);
    assert!(!crossed(right, (6399.0, 500.0), (6398.75, 500.0)));
    assert!(!crossed(right, (6399.5, 500.0), (6399.0, 500.0)));
    assert!(!crossed(right, (6400.5, 500.0), (6401.0, 500.0)));
    let bottom = barrier(0, 1080, 1919, 1080);
    assert!(!crossed(bottom, (5.0, 1079.5), (5.0, 1079.0)));
}

#[test]
fn fast_motion_goes_through() {
    let wall = barrier(100, 0, 100, 200);
    assert!(crossed(wall, (0.0, 50.0), (200.0, 50.0)));
    assert!(crossed(wall, (200.0, 50.0), (0.0, 60.0)));
    assert!(!crossed(wall, (0.0, 250.0), (200.0, 250.0)));
    // Over the line within the wall's extent, though it begins and ends outside.
    assert!(crossed(wall, (50.0, 250.0), (150.0, -50.0)));
    assert!(!crossed(wall, (50.0, 100.0), (120.0, 900.0)));
    let floor = barrier(0, 100, 200, 100);
    assert!(crossed(floor, (50.0, 0.0), (50.0, 200.0)));
    assert!(crossed(wall, (f64::NEG_INFINITY, 50.0), (f64::INFINITY, 50.0)));
    // A barrier that is a point.
    let pole = barrier(100, 100, 100, 100);
    assert!(crossed(pole, (90.0, 90.0), (110.0, 110.0)));
    assert!(!crossed(pole, (90.0, 90.0), (110.0, 111.0)));
}

#[test]
fn motion_along_the_line_does_not_count() {
    let right = barrier(6400, 0, 6400, 1440);
    assert!(!crossed(right, (6399.0, 600.0), (6399.0, 700.0)));
    assert!(!crossed(right, (6400.0, 600.0), (6400.0, 700.0)));
    let top = barrier(0, -1, 1920, -1);
    assert!(!crossed(top, (5.0, 0.0), (9.0, 0.0)));
    assert!(!crossed(barrier(0, 0, 9, 9), (1.0, 1.0), (5.0, 5.0)));
}

#[test]
fn still_pointer_crosses_nothing() {
    for b in [barrier(3, 0, 3, 9), barrier(0, 3, 9, 3), barrier(0, 0, 9, 9), barrier(3, 3, 3, 3)] {
        assert!(!crossed(b, (3.0, 3.0), (3.0, 3.0)));
        assert!(!crossed(b, (f64::INFINITY, 3.0), (f64::INFINITY, 3.0)));
    }
}

#[test]
fn extent_includes_both_ends() {
    let b = barrier(100, 50, 100, 10);
    assert!(crossed(b, (98.0, 10.0), (99.0, 10.0)));
    assert!(crossed(b, (98.0, 50.0), (99.0, 50.0)));
    assert!(!crossed(b, (98.0, 9.75), (99.0, 9.75)));
    assert!(!crossed(b, (98.0, 50.25), (99.0, 50.25)));
}

#[test]
fn horizontal_barrier() {
    let top = barrier(0, -1, 1920, -1);
    assert!(crossed(top, (5.0, 1.0), (5.0, 0.0)));
    assert!(!crossed(top, (5.0, 2.0), (5.0, 1.0)));
    assert!(!crossed(top, (1921.0, 1.0), (1921.0, 0.0)));
    assert!(!crossed(top, (5.0, 0.0), (5.0, 0.25)));
}

#[test]
fn ends_are_interchangeable() {
    let a = barrier(0, -1, 1920, -1);
    let b = barrier(1920, -1, 0, -1);
    for y in [-3.0, -2.0, -1.0, 0.0, 0.25, 1.0] {
        assert_eq!(crossed(a, (5.0, 1.0), (5.0, y)), crossed(b, (5.0, 1.0), (5.0, y)));
    }
}

#[test]
fn slanted_barrier_needs_an_intersection() {
    let b = barrier(0, 0, 10, 10);
    assert!(crossed(b, (0.0, 10.0), (10.0, 0.0)));
    assert!(!crossed(b, (0.0, 10.0), (4.0, 6.0)));
    // Parallel to the barrier.
    assert!(!crossed(b, (1.0, 0.0), (11.0, 10.0)));
    // Touching with the end of the motion.
    assert!(crossed(b, (0.0, 10.0), (5.0, 5.0)));
}

#[test]
fn not_a_number_crosses_nothing() {
    let b = barrier(3, 0, 3, 9);
    assert!(!crossed(b, (f64::NAN, 3.0), (3.0, 3.0)));
    assert!(!crossed(b, (2.0, 3.0), (f64::NAN, 3.0)));
    assert!(!crossed(b, (2.0, 3.0), (3.0, f64::NAN)));
}

#[test]
fn agrees_with_floating_point() {
    let mut state: u64 = 0x9e37_79b9_7f4a_7c15;
    let mut next = || {
        state ^= state << 13;
        state ^= state >> 7;
        state ^= state << 17;
        state
    };
    let mut hits = 0;
    for _ in 0..6000 {
        let b = barrier(
            (next() % 7) as i32,
            (next() % 7) as i32,
            (next() % 7) as i32,
            (next() % 7) as i32,
        );
        let mut coordinate = || (next() % 1000) as f64 / 125.0;
        let old = (coordinate(), coordinate());
        let new = (coordinate(), coordinate());
        assert_eq!(crossed(b, old, new), expected(b, old, new));
        if expected(b, old, new) {
            hits += 1;
        }
    }
    assert!(hits > 500);
}

#[test]
fn motion_in_256ths_of_a_pixel_crosses_exactly() {
    let part = |x: i64, y: i64| (x as f64 / 256.0, y as f64 / 256.0);
    // Over the line at 100 exactly in the barrier's end at 50, and just past it.
    let wall = barrier(100, 0, 100, 50);
    let (line, end) = (100 * 256, 50 * 256);
    assert!(crossed(wall, part(line - 700, end + 7), part(line + 700, end - 7)));
    assert!(!crossed(wall, part(line - 700, end + 8), part(line + 700, end - 7)));
    // The same of a slanted barrier.
    let slope = barrier(0, 0, 50, 50);
    assert!(crossed(slope, part(end - 9, end + 9), part(end + 9, end - 9)));
    assert!(!crossed(slope, part(end - 8, end + 9), part(end + 9, end - 8)));
}

#[test]
fn segments_that_meet_in_an_end() {
    assert!(line_segments_intersect(&at(0.0, 0.0), &at(2.0, 0.0), &at(2.0, 0.0), &at(3.0, 5.0)));
    assert!(!line_segments_intersect(&at(0.0, 0.0), &at(2.0, 0.0), &at(2.5, 0.0), &at(3.0, 5.0)));
}

#[test]
fn segments_on_one_line() {
    let (a, b) = (at(0.0, 0.0), at(10.0, 0.0));
    assert!(line_segments_intersect(&a, &b, &at(5.0, 0.0), &at(15.0, 0.0)));
    assert!(line_segments_intersect(&a, &b, &at(15.0, 0.0), &at(10.0, 0.0)));
    assert!(line_segments_intersect(&a, &b, &at(2.0, 0.0), &at(3.0, 0.0)));
    assert!(!line_segments_intersect(&a, &b, &at(11.0, 0.0), &at(15.0, 0.0)));
    assert!(!line_segments_intersect(&a, &b, &at(5.0, 1.0), &at(15.0, 1.0)));
    assert_eq!(meeting(&a, &b, &at(5.0, 0.0), &at(15.0, 0.0)), Meeting::Overlap);
    assert_eq!(meeting(&a, &b, &at(5.0, -1.0), &at(5.0, 1.0)), Meeting::Cross);
    assert_eq!(meeting(&a, &b, &at(5.0, 1.0), &at(5.0, 2.0)), Meeting::Apart);
}

#[test]
fn segments_meet_exactly_in_fractions_of_pixels() {
    let mut state: u64 = 0x2545_f491_4f6c_dd1d;
    let mut next = || {
        state ^= state << 13;
        state ^= state >> 7;
        state ^= state << 17;
        state
    };
    for round in 0..6000 {
        let (size, shift): (u64, i64) = if round % 2 == 0 { (5, 2) } else { (0x200_0001, 0x100_0000) };
        let mut end = || ((next() % size) as i64 - shift, (next() % size) as i64 - shift);
        let (a, b, c, d) = (end(), end(), end(), end());
        let grain = f64::from([1, 256, 65536][round / 2 % 3]);
        let spot = |p: (i64, i64)| at(p.0 as f64 / grain, p.1 as f64 / grain);
        let (pa, pb, pc, pd) = (spot(a), spot(b), spot(c), spot(d));
        let exact = share_a_point(a, b, c, d);
        assert_eq!(line_segments_intersect(&pa, &pb, &pc, &pd), exact);
        assert_eq!(mutter_input_capture::line_segments_intersect(&pa, &pb, &pc, &pd), exact);
    }
}

#[test]
fn segments_are_interchangeable() {
    let mut state: u64 = 0x1234_5678_9abc_def1;
    let mut next = || {
        state ^= state << 13;
        state ^= state >> 7;
        state ^= state << 17;
        state
    };
    for round in 0..4000 {
        let mut end = || {
            if round % 2 == 0 {
                at((next() % 1000) as f64 / 77.0, (next() % 1000) as f64 / 77.0)
            } else {
                at(f64::from_bits(next()), f64::from_bits(next()))
            }
        };
        let (a, b, c, d) = (end(), end(), end(), end());
        assert_eq!(meeting(&a, &b, &c, &d), meeting(&c, &d, &a, &b));
    }
}
