use channels_sv2::step_function::{StepFunction, THRESHOLD_100_PCT};

fn pct(b: &StepFunction, dt: u64) -> f64 {
    f64::from_bits(b.threshold(dt))
}

#[test]
fn classic_table_matches_vardiff_state_cascade() {
    let b = StepFunction::classic_table();
    // Below the first boundary: 100% (only very large δ fires).
    assert_eq!(pct(&b, 0), 100.0);
    assert_eq!(pct(&b, 15), 100.0);
    assert_eq!(pct(&b, 59), 100.0);
    // Each subsequent rung.
    assert_eq!(pct(&b, 60), 60.0);
    assert_eq!(pct(&b, 119), 60.0);
    assert_eq!(pct(&b, 120), 50.0);
    assert_eq!(pct(&b, 179), 50.0);
    assert_eq!(pct(&b, 180), 45.0);
    assert_eq!(pct(&b, 239), 45.0);
    assert_eq!(pct(&b, 240), 30.0);
    assert_eq!(pct(&b, 299), 30.0);
    // Floor: 15% past dt = 300s.
    assert_eq!(pct(&b, 300), 15.0);
    assert_eq!(pct(&b, 1_800), 15.0);
    assert_eq!(pct(&b, u64::MAX - 1), 15.0);
}

#[test]
fn classic_threshold_is_share_rate_blind() {
    // The ladder takes no share rate at all: whatever the setpoint, the same
    // dt gives the same threshold.
    let b = StepFunction::classic_table();
    for &_spm in &[6.0f32, 12.0, 30.0, 60.0, 120.0] {
        assert_eq!(pct(&b, 120), 50.0);
        assert_eq!(pct(&b, 300), 15.0);
    }
}

#[test]
fn empty_table_falls_back_to_strict_threshold() {
    let b = StepFunction { table: vec![] };
    assert_eq!(b.threshold(0), THRESHOLD_100_PCT);
    assert_eq!(pct(&b, 12_345), 100.0);
}

#[test]
fn unterminated_table_falls_back_to_last_rung() {
    let b = StepFunction {
        table: vec![(10, 80.0f64.to_bits()), (20, 40.0f64.to_bits())],
    };
    assert_eq!(pct(&b, 5), 80.0);
    assert_eq!(pct(&b, 10), 40.0);
    assert_eq!(pct(&b, 20), 40.0);
    assert_eq!(pct(&b, 1_000), 40.0);
}

#[test]
fn custom_values_are_returned_bit_for_bit() {
    let odd = 12.345_678_9f64;
    let b = StepFunction {
        table: vec![(100, odd.to_bits()), (u64::MAX, f64::NAN.to_bits())],
    };
    assert_eq!(b.threshold(99), odd.to_bits());
    assert!(pct(&b, 100).is_nan());
}

#[test]
fn classic_table_has_terminating_rung() {
    let b = StepFunction::classic_table();
    assert_eq!(b.table.len(), 6);
    assert_eq!(b.table.last().unwrap().0, u64::MAX);
    assert!(b.table.windows(2).all(|w| w[0].0 < w[1].0));
}

#[test]
fn longer_waits_never_raise_the_classic_threshold() {
    let b = StepFunction::classic_table();
    let mut prev = f64::INFINITY;
    for dt in (0..2_000u64).step_by(7) {
        let t = pct(&b, dt);
        assert!(t <= prev, "threshold rose at dt={dt}: {prev} -> {t}");
        prev = t;
    }
}
