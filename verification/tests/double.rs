use input_capture::double::Double;

fn same(mine: Double, theirs: f64) {
    if theirs.is_nan() {
        assert!(f64::from_bits(mine.to_bits()).is_nan());
    } else {
        assert_eq!(mine.to_bits(), theirs.to_bits());
    }
}

fn check_pair(a: f64, b: f64) {
    let x = Double::from_bits(a.to_bits());
    let y = Double::from_bits(b.to_bits());
    same(x.add(&y), a + b);
    same(x.sub(&y), a - b);
    same(x.mul(&y), a * b);
    same(x.div(&y), a / b);
    assert_eq!(x.is_greater(&y), a > b);
    assert_eq!(x.is_at_least(&y), a >= b);
    assert_eq!(x.abs().to_bits(), a.abs().to_bits());
    assert_eq!(x.neg().to_bits(), (-a).to_bits());
}

fn next(state: &mut u64) -> u64 {
    *state ^= *state << 13;
    *state ^= *state >> 7;
    *state ^= *state << 17;
    *state
}

#[test]
fn special_values() {
    let values = [
        0.0,
        -0.0,
        1.0,
        -1.0,
        1.5,
        0.1,
        0.2,
        0.3,
        1e-10,
        6399.0,
        6400.0,
        1e308,
        -1e308,
        f64::MAX,
        f64::MIN,
        f64::MIN_POSITIVE,
        f64::from_bits(1),
        f64::from_bits(0x8000_0000_0000_0001),
        f64::from_bits(0x000f_ffff_ffff_ffff),
        f64::EPSILON,
        f64::INFINITY,
        f64::NEG_INFINITY,
        f64::NAN,
    ];
    for a in values {
        for b in values {
            check_pair(a, b);
        }
    }
}

#[test]
fn arbitrary_patterns() {
    let mut state: u64 = 0x9e37_79b9_7f4a_7c15;
    for _ in 0..20000 {
        let a = f64::from_bits(next(&mut state));
        let b = f64::from_bits(next(&mut state));
        check_pair(a, b);
    }
}

#[test]
fn neighbouring_scales() {
    let mut state: u64 = 0x2545_f491_4f6c_dd1d;
    for _ in 0..20000 {
        let a = next(&mut state);
        let b = next(&mut state);
        let scale = next(&mut state) % 140;
        let base = 900 + scale;
        let x = (a & 0x800f_ffff_ffff_ffff) | (960 << 52);
        let y = (b & 0x800f_ffff_ffff_ffff) | (base << 52);
        check_pair(f64::from_bits(x), f64::from_bits(y));
    }
}

#[test]
fn subnormal_results() {
    let mut state: u64 = 0x1234_5678_9abc_def1;
    for _ in 0..20000 {
        let a = next(&mut state);
        let b = next(&mut state);
        let x = (a & 0x800f_ffff_ffff_ffff) | ((next(&mut state) % 120) << 52);
        let y = (b & 0x800f_ffff_ffff_ffff) | ((960 + next(&mut state) % 120) << 52);
        check_pair(f64::from_bits(x), f64::from_bits(y));
    }
}

#[test]
fn whole_numbers() {
    for n in [0, 1, -1, 2, 3, 1919, 6400, i32::MAX, i32::MIN, 0x0100_0001, -77777] {
        assert_eq!(Double::from_i32(n).to_bits(), (n as f64).to_bits());
    }
}

#[test]
fn ties_go_to_the_even_pattern() {
    // 1 + 2^-53 lies in the middle between 1 and its neighbour.
    let half_step = Double::from_bits(0x3ca0_0000_0000_0000);
    let one = Double::from_bits(0x3ff0_0000_0000_0000);
    let neighbour = Double::from_bits(0x3ff0_0000_0000_0001);
    assert_eq!(one.add(&half_step).to_bits(), 0x3ff0_0000_0000_0000);
    assert_eq!(neighbour.add(&half_step).to_bits(), 0x3ff0_0000_0000_0002);
}
