//! Angles, distances and the noise of the optimiser on chosen values.
use planning::geometry::{distance, distance_squared};
use planning::global_planner::reeds_shepp::mod2pi_pos;
use planning::ieee::double::Double;
use planning::local_planner::mpc::{nudge, stir, unit};
use planning::local_planner::tracking_mpc::wrap;
use planning::trig::{normalize_angle, pi, turn};
use std::f64::consts::PI;

fn d(x: f64) -> Double {
    Double { bits: x.to_bits() }
}

fn f(x: Double) -> f64 {
    f64::from_bits(x.bits)
}

#[test]
fn pi_and_a_turn_are_the_nearest_numbers() {
    assert_eq!(f(pi()), PI);
    assert_eq!(f(turn()), 2.0 * PI);
}

#[test]
fn an_angle_is_brought_within_half_a_turn() {
    assert_eq!(f(normalize_angle(d(0.5))), 0.5);
    assert_eq!(f(normalize_angle(d(PI))), PI);
    assert_eq!(f(normalize_angle(d(-PI))), -PI);
    assert_eq!(f(normalize_angle(d(4.0))), 4.0 - 2.0 * PI);
    assert_eq!(f(normalize_angle(d(-4.0))), -4.0 + 2.0 * PI);
    assert_eq!(f(normalize_angle(d(7.0 * PI))), {
        let mut a = 7.0 * PI;
        while a > PI {
            a -= 2.0 * PI;
        }
        a
    });
    for k in -40..=40 {
        let a = f64::from(k) * 1.7;
        let n = f(normalize_angle(d(a)));
        assert!((-PI..=PI).contains(&n), "{a} became {n}");
        assert!(((a - n) / (2.0 * PI) - ((a - n) / (2.0 * PI)).round()).abs() < 1e-9);
    }
}

#[test]
fn an_angle_that_cannot_be_brought_nearer_is_left() {
    assert!(f(normalize_angle(d(f64::NAN))).is_nan());
    assert_eq!(f(normalize_angle(d(f64::INFINITY))), f64::INFINITY);
    assert_eq!(f(normalize_angle(d(1e20))), 1e20);
}

#[test]
fn a_remainder_of_a_turn_is_not_negative() {
    assert_eq!(f(mod2pi_pos(d(1.0))), 1.0);
    assert_eq!(f(mod2pi_pos(d(-1.0))), -1.0 + 2.0 * PI);
    assert_eq!(f(mod2pi_pos(d(10.0))), 10.0 % (2.0 * PI));
    assert_eq!(f(mod2pi_pos(d(-10.0))), -10.0 % (2.0 * PI) + 2.0 * PI);
    assert_eq!(f(mod2pi_pos(d(2.0 * PI))), 0.0);
    for k in -40..=40 {
        let r = f(mod2pi_pos(d(f64::from(k) * 0.9)));
        assert!((0.0..2.0 * PI).contains(&r));
    }
}

#[test]
fn a_tiny_negative_angle_is_no_full_turn() {
    assert_eq!(f(mod2pi_pos(d(-1e-300))), 0.0);
    assert_eq!(f(mod2pi_pos(d(-1e-15))), -1e-15 + 2.0 * PI);
}

#[test]
fn wrapping_goes_by_the_remainder() {
    assert_eq!(f(wrap(d(0.25))), 0.25);
    assert_eq!(f(wrap(d(4.0))), 4.0 - 2.0 * PI);
    assert_eq!(f(wrap(d(-4.0))), -4.0 + 2.0 * PI);
    assert_eq!(f(wrap(d(100.0))), 100.0 % (2.0 * PI) - 2.0 * PI);
    assert_eq!(f(wrap(d(-1e20))), {
        let r = -1e20 % (2.0 * PI);
        if r < -PI {
            r + 2.0 * PI
        } else {
            r
        }
    });
}

#[test]
fn distances_are_euclidean() {
    assert_eq!(f(distance(d(1.0), d(2.0), d(4.0), d(6.0))), 5.0);
    assert_eq!(f(distance_squared(d(1.0), d(2.0), d(4.0), d(6.0))), 25.0);
}

#[test]
fn the_noise_is_an_xorshift() {
    let mut x: u32 = 12345;
    let mut y: u32 = 12345;
    for _ in 0..100 {
        y ^= y << 13;
        y ^= y >> 17;
        y ^= y << 5;
        x = stir(x);
        assert_eq!(x, y);
        assert_ne!(x, 0);
    }
    assert_eq!(stir(0), 0);
}

#[test]
fn the_noise_lies_between_zero_and_one() {
    assert_eq!(f(unit(0)), 0.0);
    assert_eq!(f(unit(0x8000_0000)), 0.5);
    assert_eq!(f(unit(1)), 1.0 / 4294967296.0);
    assert!(f(unit(u32::MAX)) < 1.0);
    assert_eq!(f(nudge(0x8000_0000)), 0.0);
    assert_eq!(f(nudge(0)), -0.5 * 0.1);
}
