use raytracer::material::{FUZZ_LIMIT_BITS, SCATTER_TOLERANCE_BITS};
use raytracer::scalar::{Scalar, EXPONENT_BIAS, HIDDEN_BIT, INFINITY_BITS, ONE_BITS, SIGN_BIT};
use raytracer::tracer::{
    EXHAUSTED_BLUE_BITS, EXHAUSTED_GREEN_BITS, EXHAUSTED_RED_BITS, RAY_EPSILON_BITS,
};

fn s(x: f32) -> Scalar {
    Scalar::from_bits(x.to_bits())
}

fn samples() -> Vec<f32> {
    vec![
        0.0,
        -0.0,
        1.0,
        -1.0,
        0.5,
        -0.5,
        0.001,
        -0.001,
        1.0e-40,
        -1.0e-40,
        f32::MIN_POSITIVE,
        -f32::MIN_POSITIVE,
        f32::from_bits(1),
        f32::from_bits(0x8000_0001),
        2.0,
        3.5,
        -3.5,
        255.0,
        256.0,
        1.0e10,
        -1.0e10,
        f32::MAX,
        f32::MIN,
        f32::INFINITY,
        f32::NEG_INFINITY,
        f32::NAN,
        -f32::NAN,
        f32::from_bits(0x7f80_0001),
        f32::from_bits(0xffff_ffff),
        f32::EPSILON,
    ]
}

#[test]
fn bit_patterns_of_the_named_constants() {
    assert_eq!(ONE_BITS, 1.0f32.to_bits());
    assert_eq!(INFINITY_BITS, f32::INFINITY.to_bits());
    assert_eq!(SIGN_BIT, (-0.0f32).to_bits());
    assert_eq!(HIDDEN_BIT, 1u32 << 23);
    assert_eq!(EXPONENT_BIAS, 127);
    assert_eq!(RAY_EPSILON_BITS, 0.001f32.to_bits());
    assert_eq!(SCATTER_TOLERANCE_BITS, 0.0001f32.to_bits());
    assert_eq!(FUZZ_LIMIT_BITS, 0.01f32.to_bits());
    assert_eq!(EXHAUSTED_RED_BITS, (245 as f32 / 255 as f32).to_bits());
    assert_eq!(EXHAUSTED_GREEN_BITS, (66 as f32 / 255 as f32).to_bits());
    assert_eq!(EXHAUSTED_BLUE_BITS, (129 as f32 / 255 as f32).to_bits());
}

#[test]
fn from_bits_and_to_bits_keep_the_pattern() {
    for x in samples() {
        assert_eq!(s(x).to_bits(), x.to_bits());
        assert_eq!(s(x).bits, x.to_bits());
    }
    assert_eq!(Scalar::zero().to_bits(), 0);
    assert_eq!(Scalar::one().to_bits(), 0x3f80_0000);
    assert_eq!(Scalar::infinity().to_bits(), 0x7f80_0000);
}

#[test]
fn classification_agrees_with_the_hardware() {
    for x in samples() {
        assert_eq!(s(x).is_nan(), x.is_nan(), "is_nan of {:?}", x);
        assert_eq!(s(x).is_infinite(), x.is_infinite(), "is_infinite of {:?}", x);
        assert_eq!(s(x).is_sign_negative(), x.is_sign_negative(), "sign of {:?}", x);
    }
}

#[test]
fn order_agrees_with_the_hardware_on_every_pair() {
    let xs = samples();
    for &a in &xs {
        for &b in &xs {
            assert_eq!(s(a).lt(s(b)), a < b, "{:?} < {:?}", a, b);
            assert_eq!(s(a).le(s(b)), a <= b, "{:?} <= {:?}", a, b);
            assert_eq!(s(a).gt(s(b)), a > b, "{:?} > {:?}", a, b);
            assert_eq!(s(a).ge(s(b)), a >= b, "{:?} >= {:?}", a, b);
        }
    }
}

#[test]
fn order_agrees_with_the_hardware_on_a_sweep_of_patterns() {
    let mut a: u32 = 0x1234_5678;
    let mut b: u32 = 0x9abc_def0;
    for _ in 0..200_000 {
        a = a.wrapping_mul(1_664_525).wrapping_add(1_013_904_223);
        b = b.wrapping_mul(22_695_477).wrapping_add(1);
        let (x, y) = (f32::from_bits(a), f32::from_bits(b));
        assert_eq!(Scalar::from_bits(a).lt(Scalar::from_bits(b)), x < y);
        assert_eq!(Scalar::from_bits(a).le(Scalar::from_bits(b)), x <= y);
    }
}

#[test]
fn the_two_zeros_are_equal_in_order_and_differ_in_bits() {
    assert!(!s(-0.0).lt(s(0.0)));
    assert!(!s(0.0).lt(s(-0.0)));
    assert!(s(-0.0).le(s(0.0)));
    assert!(s(0.0).le(s(-0.0)));
    assert_ne!(s(0.0), s(-0.0));
}

#[test]
fn nan_is_below_nothing_and_above_nothing() {
    for x in samples() {
        assert!(!s(f32::NAN).lt(s(x)));
        assert!(!s(f32::NAN).le(s(x)));
        assert!(!s(x).lt(s(f32::NAN)));
        assert!(!s(x).le(s(f32::NAN)));
    }
}

#[test]
fn neg_and_abs_agree_with_the_hardware() {
    for x in samples() {
        assert_eq!(s(x).neg().to_bits(), (-x).to_bits(), "neg of {:?}", x);
        assert_eq!(s(x).abs().to_bits(), x.abs().to_bits(), "abs of {:?}", x);
    }
    assert_eq!(s(1.5).neg(), s(-1.5));
    assert_eq!(s(-1.5).abs(), s(1.5));
}

#[test]
fn to_u8_cuts_the_fraction_off() {
    assert_eq!(s(0.0).to_u8(), 0);
    assert_eq!(s(0.999).to_u8(), 0);
    assert_eq!(s(1.0).to_u8(), 1);
    assert_eq!(s(1.999).to_u8(), 1);
    assert_eq!(s(2.0).to_u8(), 2);
    assert_eq!(s(127.99).to_u8(), 127);
    assert_eq!(s(128.0).to_u8(), 128);
    assert_eq!(s(254.999).to_u8(), 254);
    assert_eq!(s(255.0).to_u8(), 255);
}

#[test]
fn to_u8_saturates_at_both_ends() {
    assert_eq!(s(255.5).to_u8(), 255);
    assert_eq!(s(256.0).to_u8(), 255);
    assert_eq!(s(1.0e10).to_u8(), 255);
    assert_eq!(s(f32::MAX).to_u8(), 255);
    assert_eq!(s(f32::INFINITY).to_u8(), 255);
    assert_eq!(s(-0.0).to_u8(), 0);
    assert_eq!(s(-0.5).to_u8(), 0);
    assert_eq!(s(-1.0).to_u8(), 0);
    assert_eq!(s(-300.0).to_u8(), 0);
    assert_eq!(s(f32::NEG_INFINITY).to_u8(), 0);
}

#[test]
fn to_u8_of_nan_is_zero() {
    assert_eq!(s(f32::NAN).to_u8(), 0);
    assert_eq!(s(-f32::NAN).to_u8(), 0);
    assert_eq!(Scalar::from_bits(0x7f80_0001).to_u8(), 0);
    assert_eq!(Scalar::from_bits(0xffff_ffff).to_u8(), 0);
}

#[test]
fn to_u8_of_a_subnormal_is_zero() {
    assert_eq!(Scalar::from_bits(1).to_u8(), 0);
    assert_eq!(s(1.0e-40).to_u8(), 0);
    assert_eq!(s(f32::MIN_POSITIVE).to_u8(), 0);
}

#[test]
fn to_u8_agrees_with_the_cast_on_every_sample() {
    for x in samples() {
        assert_eq!(s(x).to_u8(), x as u8, "cast of {:?}", x);
    }
}

#[test]
fn to_u8_agrees_with_the_cast_on_a_sweep_of_patterns() {
    let mut a: u32 = 0x0bad_cafe;
    for _ in 0..300_000 {
        a = a.wrapping_mul(1_664_525).wrapping_add(1_013_904_223);
        assert_eq!(Scalar::from_bits(a).to_u8(), f32::from_bits(a) as u8, "pattern {:#x}", a);
    }
    // every pattern between 0.5 and 512, thinned out
    let mut p: u32 = 0.5f32.to_bits();
    while p < 512.0f32.to_bits() {
        assert_eq!(Scalar::from_bits(p).to_u8(), f32::from_bits(p) as u8, "pattern {:#x}", p);
        p += 977;
    }
}

#[test]
fn to_u8_agrees_with_the_cast_on_every_half_step() {
    let mut x: f32 = -4.0;
    while x <= 260.0 {
        assert_eq!(s(x).to_u8(), x as u8, "cast of {:?}", x);
        x += 0.25;
    }
}
