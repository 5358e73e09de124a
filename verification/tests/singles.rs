//! Singles by their bits, and vectors of them.

use brush::arith::{hold_between, Op, Vec3};
use brush::single::{single, Single};

fn s(x: f32) -> Single {
    single(x.to_bits())
}

fn v(x: Single) -> f32 {
    f32::from_bits(x.bits)
}

fn compute(op: Op) -> Single {
    match op {
        Op::Add(a, b) => s(v(a) + v(b)),
        Op::Sub(a, b) => s(v(a) - v(b)),
        Op::Mul(a, b) => s(v(a) * v(b)),
        Op::Div(a, b) => s(v(a) / v(b)),
        Op::Sqrt(a) => s(v(a).sqrt()),
        _ => unreachable!("not used by vectors"),
    }
}

fn samples() -> Vec<f32> {
    vec![
        0.0,
        -0.0,
        1.0,
        -1.0,
        0.5,
        -2.75,
        1e-40,
        -1e-45,
        f32::MIN_POSITIVE,
        f32::MAX,
        f32::MIN,
        f32::INFINITY,
        f32::NEG_INFINITY,
        f32::NAN,
        -f32::NAN,
    ]
}

#[test]
fn singles_are_ordered_as_numbers() {
    for a in samples() {
        assert_eq!(s(a).is_nan(), a.is_nan());
        for b in samples() {
            assert_eq!(s(a).lt(s(b)), a < b, "{a} < {b}");
            assert_eq!(s(a).le(s(b)), a <= b, "{a} <= {b}");
            assert_eq!(s(a).gt(s(b)), a > b, "{a} > {b}");
            assert_eq!(s(a).ge(s(b)), a >= b, "{a} >= {b}");
        }
    }
}

#[test]
fn signs_are_cleared_and_flipped() {
    for a in samples() {
        assert_eq!(s(a).abs().bits, a.abs().to_bits());
        assert_eq!(s(a).neg().bits, (-a).to_bits());
    }
}

#[test]
fn fractions_are_dropped() {
    for a in [0.0, 0.99, 1.0, -1.5, 254.9, 255.0, 256.5, 1e9, -1e9, 1e30, 16_777_217.0, 1e-40] {
        assert_eq!(s(a).truncate(0, 255), a as u8 as i64, "{a}");
        assert_eq!(s(a).truncate(i32::MIN as i64, i32::MAX as i64), a as i32 as i64, "{a}");
        assert_eq!(s(a).truncate(0, u32::MAX as i64), a as u32 as i64, "{a}");
    }
    assert_eq!(s(f32::NAN).truncate(-5, 5), 0);
    assert_eq!(s(f32::INFINITY).truncate(-5, 5), 5);
    assert_eq!(s(f32::NEG_INFINITY).truncate(-5, 5), -5);
}

#[test]
fn numbers_are_held_between_bounds() {
    assert_eq!(hold_between(s(5.0), s(0.0), s(1.0)), Some(s(1.0)));
    assert_eq!(hold_between(s(-5.0), s(0.0), s(1.0)), Some(s(0.0)));
    assert_eq!(hold_between(s(0.25), s(0.0), s(1.0)), Some(s(0.25)));
    assert_eq!(hold_between(s(0.25), s(1.0), s(0.0)), None);
    assert_eq!(hold_between(s(0.25), s(f32::NAN), s(1.0)), None);
}

#[test]
fn vectors_are_computed_by_components() {
    let a = Vec3::new(s(1.0), s(2.0), s(2.0));
    let b = Vec3::new(s(4.0), s(-2.0), s(0.5));
    assert_eq!(a.plus(&compute, b), Vec3::new(s(5.0), s(0.0), s(2.5)));
    assert_eq!(a.minus(&compute, b), Vec3::new(s(-3.0), s(4.0), s(1.5)));
    assert_eq!(a.scaled(&compute, s(2.0)), Vec3::new(s(2.0), s(4.0), s(4.0)));
    assert_eq!(a.divided(&compute, s(2.0)), Vec3::new(s(0.5), s(1.0), s(1.0)));
    assert_eq!(a.dot(&compute, b), s(1.0));
    assert_eq!(a.length(&compute), s(3.0));
    let unit = a.normalized(&compute);
    assert!((v(unit.x) - 1.0 / 3.0).abs() < 1e-6);
    assert_eq!(a.min(b), Vec3::new(s(1.0), s(-2.0), s(0.5)));
    assert_eq!(a.max(b), Vec3::new(s(4.0), s(2.0), s(2.0)));
    assert_eq!(Vec3::zero(), Vec3::new(s(0.0), s(0.0), s(0.0)));
}
