use planning::ieee::double::Double;
use planning::ieee::single::Single;

fn next(s: &mut u64) -> u64 {
    *s ^= *s << 13;
    *s ^= *s >> 7;
    *s ^= *s << 17;
    *s
}

/// Random numbers, half of them of a similar size.
fn sample(s: &mut u64) -> f64 {
    let r = next(s);
    let b = next(s);
    if r % 4 == 0 {
        f64::from_bits(b)
    } else if r % 4 == 1 {
        f64::from_bits((b & 0x800f_ffff_ffff_ffff) | ((1023 + (r >> 32) % 6) << 52))
    } else if r % 4 == 2 {
        ((b % 2001) as f64 - 1000.0) / ((r >> 40) % 17) as f64
    } else {
        f64::from_bits(b & 0x801f_ffff_ffff_ffff)
    }
}

fn d(x: f64) -> Double {
    Double { bits: x.to_bits() }
}

fn agree(got: Double, want: f64, what: &str, a: f64, b: f64) {
    let g = f64::from_bits(got.bits);
    assert!(
        got.bits == want.to_bits() || (g.is_nan() && want.is_nan()),
        "{what} of {a:e} and {b:e}: {g:e}, expected {want:e}"
    );
}

#[test]
fn arithmetic_agrees_with_the_hardware() {
    let mut s = 0x1234_5678_9abc_def1u64;
    for _ in 0..100_000 {
        let a = sample(&mut s);
        let b = sample(&mut s);
        let (x, y) = (d(a), d(b));
        agree(x.plus(y), a + b, "sum", a, b);
        agree(x.minus(y), a - b, "difference", a, b);
        agree(x.times(y), a * b, "product", a, b);
        agree(x.over(y), a / b, "quotient", a, b);
        agree(x.sqrt(), a.sqrt(), "root", a, b);
        agree(x.negate(), -a, "negation", a, b);
        agree(x.abs(), a.abs(), "magnitude", a, b);
        agree(x.signum(), a.signum(), "sign", a, b);
        assert_eq!(x.lt(y), a < b);
        assert_eq!(x.le(y), a <= b);
        assert_eq!(x.same(y), a == b);
        assert_eq!(x.truncate(), a as i64);
        assert_eq!(x.floor_count(), a.floor() as u64);
        assert_eq!(x.ceil_count(), a.ceil() as u64);
        assert_eq!(x.round(), a.round() as i32);
        let m = x.min(y);
        assert!(a.min(b).is_nan() == m.is_nan() && (m.is_nan() || f64::from_bits(m.bits) == a.min(b)));
        let m = x.max(y);
        assert!(a.max(b).is_nan() == m.is_nan() && (m.is_nan() || f64::from_bits(m.bits) == a.max(b)));
    }
}

#[test]
fn sums_agree_at_every_distance_of_the_exponents() {
    let mut s = 0xfeed_f00d_feed_f00du64;
    for low in [0u64, 1, 5, 9, 10, 11, 60, 1000, 1900] {
        for gap in 0..=80 {
            for _ in 0..40 {
                let r = next(&mut s);
                let a = f64::from_bits(((low + gap) << 52) | (next(&mut s) >> 12));
                let b = f64::from_bits((low << 52) | (next(&mut s) >> 12 >> (r % 53)));
                agree(d(a).plus(d(b)), a + b, "sum", a, b);
                agree(d(b).plus(d(a)), b + a, "sum", b, a);
                agree(d(a).minus(d(b)), a - b, "difference", a, b);
                agree(d(b).minus(d(a)), b - a, "difference", b, a);
            }
        }
    }
}

#[test]
fn roots_of_squares_are_exact() {
    let mut s = 0xace5_ace5_ace5_ace5u64;
    for _ in 0..20_000 {
        let n = (next(&mut s) % (1 << 26)) as f64;
        assert_eq!(d(n * n).sqrt().bits, n.to_bits());
        for x in [f64::from_bits((n * n).to_bits() + 1), n * n + 1.0, n / 1e300] {
            agree(d(x).sqrt(), x.sqrt(), "root", x, x);
        }
    }
}

#[test]
fn remainder_agrees_with_the_hardware() {
    let mut s = 0x0dd_ba11_0dd_ba11u64;
    for _ in 0..20_000 {
        let a = sample(&mut s);
        let b = sample(&mut s);
        agree(d(a).rem(d(b)), a % b, "remainder", a, b);
    }
}

#[test]
fn single_precision_agrees_with_the_hardware() {
    let mut s = 0x5eed_5eed_5eed_5eedu64;
    for _ in 0..100_000 {
        let a = sample(&mut s);
        let n = d(a).narrow();
        let g = f32::from_bits(n.bits);
        assert!(n.bits == (a as f32).to_bits() || (g.is_nan() && a.is_nan()));
        let f = f32::from_bits(next(&mut s) as u32);
        let h = f32::from_bits(next(&mut s) as u32);
        let (x, y) = (Single { bits: f.to_bits() }, Single { bits: h.to_bits() });
        let w = f64::from_bits(x.widen().bits);
        assert!(w.to_bits() == (f as f64).to_bits() || (w.is_nan() && f.is_nan()));
        let p = f32::from_bits(x.plus(y).bits);
        assert!(p.to_bits() == (f + h).to_bits() || (p.is_nan() && (f + h).is_nan()));
        assert_eq!(x.lt(y), f < h);
        assert_eq!(x.le(y), f <= h);
    }
}

#[test]
fn decimal_constants_are_the_nearest_numbers() {
    assert_eq!(Double::ratio(22, 10).bits, 2.2f64.to_bits());
    assert_eq!(Double::ratio(15, 100).bits, 0.15f64.to_bits());
    assert_eq!(Double::ratio(1, 1_000_000_000).bits, 1e-9f64.to_bits());
    assert_eq!(Double::of(20).bits, 20f64.to_bits());
    assert_eq!(Double::ratio(7, 10).narrow().bits, 0.7f32.to_bits());
}
