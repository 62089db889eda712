use haven_server::double::Double;

fn double(x: f64) -> Double {
    Double { bits: x.to_bits() }
}

/// Numbers that exercise every part of the format.
fn samples() -> Vec<f64> {
    let mut v: Vec<f64> = vec![
        0.0,
        -0.0,
        0.1,
        0.05,
        0.15,
        0.25,
        0.3,
        0.5,
        0.95,
        1.0,
        1.0000000000000002,
        0.9999999999999999,
        1.5,
        2.0,
        2.5,
        3.0,
        60.0,
        300.0,
        600.0,
        1e-300,
        5e-324,
        2.2250738585072014e-308,
        1e9,
        4294967294.5,
        4294967295.0,
        4294967296.0,
        1e300,
        f64::MAX,
        f64::INFINITY,
        f64::NEG_INFINITY,
        -1.0,
        -5e-324,
        -300.0,
        f64::NAN,
    ];
    // A spread of patterns, from a simple linear congruence.
    let mut bits: u64 = 0x9E37_79B9_7F4A_7C15;
    for _ in 0..4000 {
        bits = bits
            .wrapping_mul(6364136223846793005)
            .wrapping_add(1442695040888963407);
        v.push(f64::from_bits(bits));
        // Halves and near-halves of small numbers.
        v.push((bits >> 40) as f64 / 32.0);
    }
    v
}

#[test]
fn tick_counts_agree_with_floating_point() {
    for x in samples() {
        for rate in [0u32, 1, 3, 7, 10, 20, 30, 59, 60, 144, 240, u32::MAX] {
            let expected = ((x * rate as f64).round() as u32).max(1);
            assert_eq!(double(x).to_ticks(rate), expected, "{x} at {rate}");
        }
    }
}

#[test]
fn tick_counts_of_ordinary_durations() {
    assert_eq!(double(2.0).to_ticks(10), 20);
    assert_eq!(double(0.25).to_ticks(10), 3); // half a tick rounds up
    assert_eq!(double(0.1).to_ticks(3), 1); // never zero
    assert_eq!(double(f64::INFINITY).to_ticks(10), u32::MAX);
    assert_eq!(double(f64::NAN).to_ticks(10), 1);
    assert_eq!(double(-7.0).to_ticks(10), 1);
}

#[test]
fn comparisons_agree_with_floating_point() {
    for x in samples() {
        assert_eq!(double(x).is_not_positive(), x <= 0.0, "{x}");
        assert_eq!(
            double(x).is_in_unit_interval(),
            0.0 < x && x <= 1.0,
            "{x}"
        );
    }
}

#[test]
fn fractions_compare_as_floating_point_does() {
    let mut k: u64 = 1;
    let mut ks: Vec<u64> = vec![0, 1, 2, (1 << 53) - 1, (1 << 53) - 2, 1 << 52, (1 << 52) + 1];
    for _ in 0..40 {
        k = k
            .wrapping_mul(6364136223846793005)
            .wrapping_add(1442695040888963407);
        ks.push(k >> 11);
    }
    for x in samples() {
        for &k in &ks {
            let fraction = k as f64 * (1.0 / (1u64 << 53) as f64);
            assert_eq!(double(x).is_above_53(k), fraction < x, "{k} against {x}");
        }
    }
}
