use ridgepoint::binary64::F64;
use ridgepoint::decimal::{show_fixed, show_scientific};

fn soft(x: f64) -> F64 {
    F64::from_bits(x.to_bits())
}

fn hard(x: F64) -> f64 {
    f64::from_bits(x.to_bits())
}

fn agree(soft: F64, hard: f64) -> bool {
    if hard.is_nan() {
        f64::from_bits(soft.to_bits()).is_nan()
    } else {
        soft.to_bits() == hard.to_bits()
    }
}

/// Numbers of every kind: zeros, subnormals, neighbours of powers of two, extremes,
/// and what a generator brings.
fn samples() -> Vec<f64> {
    let mut v = vec![
        0.0,
        -0.0,
        1.0,
        -1.0,
        0.5,
        1.5,
        2.5,
        -2.5,
        0.1,
        0.90,
        0.61,
        4.8,
        4.8 / 8.0,
        1e9,
        312e12,
        2.5e9,
        f64::MAX,
        f64::MIN,
        f64::MIN_POSITIVE,
        f64::from_bits(1),
        f64::from_bits(0x000F_FFFF_FFFF_FFFF),
        f64::from_bits(0x8000_0000_0000_0001),
        f64::INFINITY,
        f64::NEG_INFINITY,
        f64::NAN,
        9007199254740991.0,
        9007199254740992.0,
        9007199254740993.0,
        9223372036854775807.0,
        18446744073709551615.0,
        1.0 + f64::EPSILON,
        1.0 - f64::EPSILON / 2.0,
    ];
    let mut seed: u64 = 0x9E37_79B9_7F4A_7C15;
    for i in 0..60u64 {
        seed = seed.wrapping_mul(6364136223846793005).wrapping_add(1442695040888963407);
        // All bit patterns.
        v.push(f64::from_bits(seed));
        // Numbers around those of the model.
        v.push((seed >> 20) as f64);
        v.push((seed >> 12) as f64 / (i + 1) as f64);
    }
    v
}

#[test]
fn multiplication_is_that_of_the_machine() {
    let all = samples();
    for a in &all {
        for b in &all {
            assert!(agree(soft(*a).mul(soft(*b)), a * b), "{} * {}", a, b);
        }
    }
}

#[test]
fn division_is_that_of_the_machine() {
    let all = samples();
    for a in &all {
        for b in &all {
            assert!(agree(soft(*a).div(soft(*b)), a / b), "{} / {}", a, b);
        }
    }
}

#[test]
fn subtraction_is_that_of_the_machine() {
    let all = samples();
    for a in &all {
        for b in &all {
            assert!(agree(soft(*a).sub(soft(*b)), a - b), "{} - {}", a, b);
        }
    }
}

#[test]
fn comparison_is_that_of_the_machine() {
    let all = samples();
    for a in &all {
        for b in &all {
            assert_eq!(soft(*a).lt(soft(*b)), a < b, "{} < {}", a, b);
        }
    }
}

#[test]
fn conversions_are_those_of_the_machine() {
    for a in &samples() {
        assert_eq!(soft(*a).floor_i64(), a.floor() as i64, "{}", a);
        assert_eq!(soft(*a).round_u64(), a.round() as u64, "{}", a);
        assert_eq!(soft(*a).trunc_u64(), *a as u64, "{}", a);
    }
    let mut n: u64 = 1;
    for _ in 0..64 {
        assert_eq!(hard(F64::from_u64(n)), n as f64);
        assert_eq!(hard(F64::from_u64(n - 1)), (n - 1) as f64);
        assert_eq!(hard(F64::from_u64(n | (n >> 1) | 1)), (n | (n >> 1) | 1) as f64);
        n = n.wrapping_mul(2).max(1);
    }
    assert_eq!(hard(F64::from_u64(u64::MAX)), u64::MAX as f64);
}

#[test]
fn decimals_are_literals() {
    assert_eq!(hard(F64::decimal(90, 100)), 0.90);
    assert_eq!(hard(F64::decimal(48, 10)), 4.8);
    assert_eq!(hard(F64::decimal(85, 100)), 0.85);
    assert_eq!(hard(F64::decimal(1, 3)), 1.0 / 3.0);
    assert_eq!(hard(F64::decimal(0, 7)), 0.0);
}

#[test]
fn fixed_notation_is_that_of_the_standard_library() {
    for a in &samples() {
        assert_eq!(show_fixed(soft(*a), 0), format!("{:.0}", a));
        assert_eq!(show_fixed(soft(*a), 1), format!("{:.1}", a));
        assert_eq!(show_fixed(soft(*a), 2), format!("{:.2}", a));
    }
    for i in 0..400u32 {
        let a = i as f64 / 8.0;
        assert_eq!(show_fixed(soft(a), 0), format!("{:.0}", a));
        assert_eq!(show_fixed(soft(a), 1), format!("{:.1}", a));
        assert_eq!(show_fixed(soft(a), 2), format!("{:.2}", a));
    }
}

#[test]
fn scientific_notation_is_that_of_the_standard_library() {
    for a in samples().iter().take(80) {
        assert_eq!(show_scientific(soft(*a)), format!("{:.4e}", a));
    }
    for i in 0..20u32 {
        let a = 99990.0 + i as f64 / 2.0;
        assert_eq!(show_scientific(soft(a)), format!("{:.4e}", a));
        let b = 123450.0 + i as f64 * 5.0;
        assert_eq!(show_scientific(soft(b)), format!("{:.4e}", b));
    }
}
