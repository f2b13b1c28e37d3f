use rule_engine::binary64::{coincides, exceeds, nan, precedes, widen};

fn samples() -> Vec<f64> {
    vec![
        0.0,
        -0.0,
        1.0,
        -1.0,
        5.0,
        0.15,
        -0.15,
        1.5e300,
        -1.5e300,
        f64::MIN_POSITIVE,
        -f64::MIN_POSITIVE,
        5e-324,
        -5e-324,
        f64::MAX,
        f64::MIN,
        f64::INFINITY,
        f64::NEG_INFINITY,
        f64::NAN,
        -f64::NAN,
        9007199254740992.0,
        9007199254740994.0,
    ]
}

#[test]
fn comparisons_agree_with_the_machine() {
    for a in samples() {
        assert_eq!(nan(a.to_bits()), a.is_nan());
        for b in samples() {
            assert_eq!(exceeds(a.to_bits(), b.to_bits()), a > b, "{} > {}", a, b);
            assert_eq!(precedes(a.to_bits(), b.to_bits()), a < b, "{} < {}", a, b);
            assert_eq!(coincides(a.to_bits(), b.to_bits()), a == b, "{} == {}", a, b);
        }
    }
}

#[test]
fn nan_equals_nothing_and_zeros_are_equal() {
    let n = f64::NAN.to_bits();
    assert!(!coincides(n, n));
    assert!(!exceeds(n, 0));
    assert!(!precedes(n, 0));
    assert!(coincides(0.0f64.to_bits(), (-0.0f64).to_bits()));
}

#[test]
fn widening_gives_exact_patterns() {
    assert_eq!(widen(0), 0);
    assert_eq!(widen(1), 0x3ff0_0000_0000_0000);
    assert_eq!(widen(5), 0x4014_0000_0000_0000);
    assert_eq!(widen(-5), 0xc014_0000_0000_0000);
    assert_eq!(widen(10000), 10000.0f64.to_bits());
    assert_eq!(widen(i64::MIN), 0xc3e0_0000_0000_0000);
    assert_eq!(widen(i64::MAX), 0x43e0_0000_0000_0000);
}

#[test]
fn widening_rounds_to_nearest_ties_to_even() {
    // 2^53 + 1 lies halfway between 2^53 and 2^53 + 2: the even one wins.
    assert_eq!(widen(9007199254740993), 9007199254740992.0f64.to_bits());
    // 2^53 + 3 lies halfway between 2^53 + 2 and 2^53 + 4.
    assert_eq!(widen(9007199254740995), 9007199254740996.0f64.to_bits());
    assert_eq!(widen(9007199254740994), 9007199254740994.0f64.to_bits());
}

#[test]
fn widening_agrees_with_the_machine() {
    let mut x: i64 = 1;
    let mut seen = 0;
    while seen < 20000 {
        for d in [-3i64, -2, -1, 0, 1, 2, 3] {
            let v = x.wrapping_add(d);
            assert_eq!(widen(v), (v as f64).to_bits(), "{}", v);
            let w = v.wrapping_neg();
            assert_eq!(widen(w), (w as f64).to_bits(), "{}", w);
        }
        x = x.wrapping_mul(6364136223846793005).wrapping_add(1442695040888963407);
        seen += 1;
    }
    for s in 0..63 {
        for d in [-2i64, -1, 0, 1, 2] {
            let v = (1i64 << s).wrapping_add(d);
            assert_eq!(widen(v), (v as f64).to_bits(), "{}", v);
            let w = v.wrapping_neg();
            assert_eq!(widen(w), (w as f64).to_bits(), "{}", w);
        }
    }
}
