use auto_fuel_price::numeral::push_scaled_decimal;
use auto_fuel_price::price::Price;
use auto_fuel_price::rounding::{power_of_two, round_to_53_bits};

fn text(x: f64) -> String {
    let mut out = String::new();
    Price::from_bits(x.to_bits()).unwrap().push_text(&mut out);
    out
}

fn next(state: &mut u64) -> u64 {
    *state = state.wrapping_mul(6364136223846793005).wrapping_add(1442695040888963407);
    let x = *state;
    (x ^ (x >> 33)).wrapping_mul(0xff51afd7ed558ccd) ^ (x >> 29)
}

fn near(state: &mut u64, other: f64) -> f64 {
    let shift = next(state) % 120;
    let exponent = (other.to_bits() >> 52) & 0x7ff;
    let moved = (exponent + shift).saturating_sub(60).min(2046);
    f64::from_bits((next(state) & 0x800f_ffff_ffff_ffff) | (moved << 52))
}

#[test]
fn infinities_and_nans_are_no_prices() {
    assert!(Price::from_bits(f64::INFINITY.to_bits()).is_none());
    assert!(Price::from_bits(f64::NEG_INFINITY.to_bits()).is_none());
    assert!(Price::from_bits(f64::NAN.to_bits()).is_none());
    assert!(Price::from_bits(f64::MAX.to_bits()).is_some());
    assert!(Price::from_bits(f64::MIN.to_bits()).is_some());
    assert_eq!(Price::from_bits(31.07f64.to_bits()).unwrap().to_bits(), 31.07f64.to_bits());
}

#[test]
fn prices_are_shown_with_two_decimals() {
    assert_eq!(text(31.0), "31.00");
    assert_eq!(text(30.5), "30.50");
    assert_eq!(text(0.5), "0.50");
    assert_eq!(text(33.0005), "33.00");
    assert_eq!(text(99.999), "100.00");
    assert_eq!(text(-1.25), "-1.25");
    assert_eq!(text(0.0), "0.00");
    assert_eq!(text(-0.0), "-0.00");
    assert_eq!(text(1e20), "100000000000000000000.00");
}

#[test]
fn a_tie_goes_to_the_even_hundredth() {
    assert_eq!(text(0.125), "0.12");
    assert_eq!(text(0.375), "0.38");
    assert_eq!(text(0.625), "0.62");
    assert_eq!(text(0.875), "0.88");
    assert_eq!(text(1000000.125), "1000000.12");
    for eighths in 0..4000u32 {
        let x = eighths as f64 / 8.0;
        assert_eq!(text(x), format!("{:.2}", x));
    }
}

#[test]
fn every_quote_is_shown_as_it_was_quoted() {
    for satang in 0..200_000u32 {
        let x = satang as f64 / 100.0;
        assert_eq!(text(x), format!("{}.{}{}", satang / 100, satang / 10 % 10, satang % 10));
    }
}

#[test]
fn text_agrees_with_machine_formatting() {
    let mut state: u64 = 7;
    for _ in 0..4_000 {
        let x = f64::from_bits(next(&mut state));
        if x.is_finite() {
            assert_eq!(text(x), format!("{:.2}", x));
        }
    }
    for _ in 0..200_000 {
        let exponent = 1000 + next(&mut state) % 100;
        let x = f64::from_bits((next(&mut state) & 0x800f_ffff_ffff_ffff) | (exponent << 52));
        assert_eq!(text(x), format!("{:.2}", x));
    }
    for x in [f64::MAX, f64::MIN, f64::MIN_POSITIVE, f64::from_bits(1), f64::from_bits(0xf_ffff_ffff_ffff)] {
        assert_eq!(text(x), format!("{:.2}", x));
    }
}

#[test]
fn distance_and_order_agree_with_machine_arithmetic() {
    let mut state: u64 = 11;
    for round in 0..600_000u32 {
        let x = f64::from_bits(next(&mut state));
        if !x.is_finite() {
            continue;
        }
        let y = if round % 8 == 0 { f64::from_bits(next(&mut state)) } else { near(&mut state, x) };
        if !y.is_finite() {
            continue;
        }
        let p = Price::from_bits(x.to_bits()).unwrap();
        let q = Price::from_bits(y.to_bits()).unwrap();
        let gap = (x - y).abs();
        match p.distance(&q) {
            Some(d) => assert_eq!(d.to_bits(), gap.to_bits(), "{} {}", x, y),
            None => assert!(gap.is_infinite(), "{} {}", x, y),
        }
        assert_eq!(p.exceeds(&q), x > y);
        assert_eq!(q.exceeds(&p), y > x);
    }
}

#[test]
fn distance_at_the_edges() {
    let edges = [
        0.0,
        -0.0,
        f64::MIN_POSITIVE,
        f64::from_bits(1),
        f64::from_bits(0xf_ffff_ffff_ffff),
        1.0,
        f64::EPSILON,
        1.0 + f64::EPSILON,
        9007199254740992.0,
        9007199254740993.0,
        18014398509481984.0,
        f64::MAX,
        f64::MAX / 2.0,
        9.9792015476735991e291,
        9.9792015476735990e291,
    ];
    for a in edges {
        for b in edges {
            for (x, y) in [(a, b), (-a, b), (a, -b), (-a, -b)] {
                let p = Price::from_bits(x.to_bits()).unwrap();
                let q = Price::from_bits(y.to_bits()).unwrap();
                let gap = (x - y).abs();
                match p.distance(&q) {
                    Some(d) => assert_eq!(d.to_bits(), gap.to_bits(), "{} {}", x, y),
                    None => assert!(gap.is_infinite(), "{} {}", x, y),
                }
                assert_eq!(p.exceeds(&q), x > y);
            }
        }
    }
}

#[test]
fn the_distance_of_quotes_is_the_quoted_distance() {
    for from in (0..5000u32).step_by(7) {
        for to in (0..5000u32).step_by(11) {
            let p = Price::from_bits((from as f64 / 100.0).to_bits()).unwrap();
            let q = Price::from_bits((to as f64 / 100.0).to_bits()).unwrap();
            let mut out = String::new();
            p.distance(&q).unwrap().push_text(&mut out);
            let satang = from.abs_diff(to);
            assert_eq!(out, format!("{}.{}{}", satang / 100, satang / 10 % 10, satang % 10));
        }
    }
}

#[test]
fn numerals_of_large_numbers() {
    let mut out = String::from("n=");
    push_scaled_decimal(&mut out, 1, 64);
    assert_eq!(out, "n=18446744073709551616");
    let mut out = String::new();
    push_scaled_decimal(&mut out, 3, 100);
    assert_eq!(out, "3802951800684688204490109616128");
    let mut out = String::new();
    push_scaled_decimal(&mut out, 0, 9);
    assert_eq!(out, "0");
    let mut out = String::new();
    push_scaled_decimal(&mut out, u64::MAX, 0);
    assert_eq!(out, "18446744073709551615");
}

#[test]
fn rounding_to_53_bits() {
    assert_eq!(round_to_53_bits(0), (0, 0));
    assert_eq!(round_to_53_bits(9007199254740991), (9007199254740991, 0));
    assert_eq!(round_to_53_bits(9007199254740993), (4503599627370496, 1));
    assert_eq!(round_to_53_bits(9007199254740995), (4503599627370498, 1));
    assert_eq!(round_to_53_bits(u128::MAX), (9007199254740992, 75));
    assert_eq!(power_of_two(0), 1);
    assert_eq!(power_of_two(127), 170141183460469231731687303715884105728);
}
