use core::ops::Neg;
use foc_algorithm::Binary32;

fn b(x: f32) -> Binary32 {
    Binary32::from_bits(x.to_bits())
}

fn f(x: Binary32) -> f32 {
    f32::from_bits(x.to_bits())
}

/// Numbers at the edges of the format, and a spread of ordinary ones.
fn samples() -> Vec<f32> {
    let edges: [u32; 24] = [
        0x0000_0000, 0x0000_0001, 0x0000_0002, 0x003f_ffff, 0x007f_ffff, 0x0080_0000, 0x0080_0001,
        0x00ff_ffff, 0x0100_0000, 0x3380_0000, 0x3380_0001, 0x3f00_0000, 0x3f7f_ffff, 0x3f80_0000,
        0x3f80_0001, 0x4049_0fdb, 0x4b7f_ffff, 0x4b80_0000, 0x4b80_0001, 0x4f00_0000, 0x7f00_0000,
        0x7f7f_ffff, 0x7f80_0000, 0x7fc0_0000,
    ];
    let mut all: Vec<f32> = Vec::new();
    for bits in edges {
        all.push(f32::from_bits(bits));
        all.push(f32::from_bits(bits | 0x8000_0000));
    }
    let mut seed: u32 = 0x1234_5678;
    for _ in 0..200 {
        seed = seed.wrapping_mul(1_664_525).wrapping_add(1_013_904_223);
        all.push(f32::from_bits(seed));
    }
    for i in 0..60 {
        all.push((i as f32 - 30.0) * 0.37);
    }
    all
}

fn agree(actual: Binary32, expected: f32, what: &str, x: f32, y: f32) {
    if expected.is_nan() {
        assert!(actual.is_nan(), "{what} {x:e} {y:e}: not a NaN");
    } else {
        assert_eq!(actual.to_bits(), expected.to_bits(), "{what} {x:e} {y:e}");
    }
}

#[test]
fn arithmetic_gives_the_bits_of_the_hardware() {
    let all = samples();
    for &x in &all {
        for &y in &all {
            agree(b(x) + b(y), x + y, "+", x, y);
            agree(b(x) - b(y), x - y, "-", x, y);
            agree(b(x) * b(y), x * y, "*", x, y);
            agree(b(x) / b(y), x / y, "/", x, y);
        }
    }
}

#[test]
fn invalid_operations_give_the_quiet_nan() {
    let quiet: u32 = 0x7fc0_0000;
    let infinity = b(f32::INFINITY);
    assert_eq!((infinity - infinity).to_bits(), quiet);
    assert_eq!((infinity * b(0.0)).to_bits(), quiet);
    assert_eq!((infinity / infinity).to_bits(), quiet);
    assert_eq!((b(0.0) / b(-0.0)).to_bits(), quiet);
    assert_eq!(b(-1.0).sqrt().to_bits(), quiet);
}

#[test]
fn comparisons_agree_with_the_hardware() {
    let all = samples();
    for &x in &all {
        for &y in &all {
            assert_eq!(b(x) < b(y), x < y);
            assert_eq!(b(x) <= b(y), x <= y);
            assert_eq!(b(x) > b(y), x > y);
            assert_eq!(b(x) >= b(y), x >= y);
            assert_eq!(b(x) == b(y), x == y);
            assert_eq!(b(x).partial_cmp(&b(y)), x.partial_cmp(&y));
        }
    }
}

#[test]
fn square_roots_are_correctly_rounded() {
    for &x in &samples() {
        agree(b(x).sqrt(), libm::sqrtf(x), "sqrt", x, 0.0);
    }
    let mut bits: u32 = 1;
    while bits < 0x7f80_0000 {
        let x = f32::from_bits(bits);
        agree(b(x).sqrt(), libm::sqrtf(x), "sqrt", x, 0.0);
        bits += 65_521;
    }
    assert_eq!(f(b(2.0).sqrt()), 1.414_213_5);
    assert_eq!(b(-0.0).sqrt().to_bits(), 0x8000_0000);
}

#[test]
fn signs_sizes_and_kinds_agree_with_the_hardware() {
    for &x in &samples() {
        assert_eq!(b(x).is_nan(), x.is_nan());
        assert_eq!(b(x).is_infinite(), x.is_infinite());
        assert_eq!(b(x).is_finite(), x.is_finite());
        assert_eq!(b(x).is_negative(), x.is_sign_negative());
        assert_eq!(b(x).abs().to_bits(), x.abs().to_bits());
        assert_eq!(b(x).neg().to_bits(), (-x).to_bits());
        assert_eq!(b(x).neg().neg().to_bits(), x.to_bits());
    }
}

#[test]
fn extremes_ignore_a_nan() {
    for &x in &samples() {
        for &y in &samples() {
            let larger = f(b(x).max(b(y)));
            let smaller = f(b(x).min(b(y)));
            if x.is_nan() && y.is_nan() {
                assert!(larger.is_nan() && smaller.is_nan());
            } else {
                assert!(larger == x.max(y) && smaller == x.min(y));
            }
        }
    }
    assert_eq!(f(b(f32::NAN).max(b(3.0))), 3.0);
    assert_eq!(f(b(3.0).min(b(f32::NAN))), 3.0);
}

#[test]
fn integers_are_rounded_and_truncated_like_casts() {
    let integers: [i32; 13] = [
        0, 1, -1, 7, -6, 16_777_215, 16_777_216, 16_777_217, 16_777_219, -16_777_217, 2_147_483_647,
        -2_147_483_648, 123_456_789,
    ];
    for i in integers {
        assert_eq!(Binary32::from_i32(i).to_bits(), (i as f32).to_bits());
    }
    for &x in &samples() {
        assert_eq!(b(x).to_i32(), x as i32);
    }
    assert_eq!(b(5.999).to_i32(), 5);
    assert_eq!(b(-5.999).to_i32(), -5);
    assert_eq!(b(f32::NAN).to_i32(), 0);
    assert_eq!(b(3.0e9).to_i32(), 2_147_483_647);
}

#[test]
fn inverse_powers_of_two_halve_each_time() {
    for i in 0..16 {
        assert_eq!(Binary32::inverse_power_of_two(i).to_bits(), libm::ldexpf(1.0, -(i as i32)).to_bits());
    }
    assert_eq!(f(Binary32::inverse_power_of_two(3)), 0.125);
}

#[test]
fn sums_and_products_commute() {
    for &x in &samples() {
        for &y in &samples() {
            assert_eq!((b(x) + b(y)).to_bits(), (b(y) + b(x)).to_bits());
            assert_eq!((b(x) * b(y)).to_bits(), (b(y) * b(x)).to_bits());
        }
    }
}

#[test]
fn adding_keeps_an_inequality() {
    let all = samples();
    for &x in &all {
        for &y in &all {
            let shift = b(0.1);
            if b(x) <= b(y) {
                assert!(b(x) + shift <= b(y) + shift);
                assert!(b(x) / b(3.0) <= b(y) / b(3.0));
            }
        }
    }
}

#[test]
fn neutral_numbers_change_nothing() {
    for &x in &samples() {
        if !x.is_nan() {
            assert_eq!((b(x) * b(1.0)).to_bits(), x.to_bits());
            assert!(b(x) + b(0.0) == b(x));
        }
        if x.is_finite() {
            assert_eq!((b(x) - b(x)).to_bits(), 0);
            assert!(b(x) * b(0.0) == b(0.0));
        }
    }
}

#[test]
fn complement_to_one_sums_back_to_one() {
    for i in 0..=1000 {
        let x = b(i as f32 / 1000.0);
        assert_eq!(f(x + (b(1.0) - x)), 1.0);
    }
}

#[test]
fn square_roots_keep_order_and_invert_exact_squares() {
    for i in 0..4096 {
        let x = i as f32;
        assert_eq!(f(b(x * x).sqrt()), x);
        assert!(b(x).sqrt() <= b(x + 0.5).sqrt());
        assert!(b(x).sqrt() >= b(0.0));
    }
    assert!(b(f32::MAX).sqrt() <= b(18_446_744_073_709_551_616.0));
}
