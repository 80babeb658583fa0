use indicator_engine::indicator::{IndicatorError, IndicatorSnapshot, RollingIndicator};
use indicator_engine::stats::integer_sqrt;
use ta::indicators::BollingerBands;
use ta::Next;

fn snapshot(average: i64, upper_band: i64, lower_band: i64) -> IndicatorSnapshot {
    IndicatorSnapshot { average, upper_band, lower_band }
}

#[test]
fn window_below_two_is_refused() {
    assert_eq!(RollingIndicator::new(0, 2000).err(), Some(IndicatorError::InvalidParameter));
    assert_eq!(RollingIndicator::new(1, 2000).err(), Some(IndicatorError::InvalidParameter));
    assert!(RollingIndicator::new(2, 2000).is_ok());
}

#[test]
fn zero_multiplier_is_refused() {
    assert_eq!(RollingIndicator::new(20, 0).err(), Some(IndicatorError::InvalidParameter));
    assert!(RollingIndicator::new(20, 1).is_ok());
}

#[test]
fn fresh_indicator_has_no_snapshot() {
    let indicator = RollingIndicator::new(20, 2000).unwrap();
    assert_eq!(indicator.snapshot(), None);
    assert_eq!(indicator.len(), 0);
    assert!(!indicator.is_full());
    assert_eq!(indicator.window_size(), 20);
    assert_eq!(indicator.multiplier_milli(), 2000);
}

#[test]
fn partial_window_gives_values_over_what_was_seen() {
    let mut indicator = RollingIndicator::new(3, 2000).unwrap();
    assert_eq!(indicator.update(200), snapshot(200, 200, 200));
    assert_eq!(indicator.update(500), snapshot(350, 650, 50));
    assert_eq!(indicator.len(), 2);
    assert!(!indicator.is_full());
    assert_eq!(indicator.snapshot(), Some(snapshot(350, 650, 50)));
}

#[test]
fn oldest_sample_leaves_once_the_window_is_full() {
    let mut indicator = RollingIndicator::new(2, 1000).unwrap();
    indicator.update(10);
    indicator.update(20);
    assert!(indicator.is_full());
    let third = indicator.update(40);
    assert_eq!(third, snapshot(30, 40, 20));
    let fourth = indicator.update(40);
    assert_eq!(fourth, snapshot(40, 40, 40));
    assert_eq!(indicator.len(), 2);
}

#[test]
fn averages_and_offsets_round_down() {
    let mut indicator = RollingIndicator::new(3, 1500).unwrap();
    indicator.update(1);
    let two = indicator.update(2);
    assert_eq!(two, snapshot(1, 1, 1));
    let three = indicator.update(4);
    assert_eq!(three, snapshot(2, 3, 1));
}

#[test]
fn flat_window_then_one_higher_close() {
    let mut indicator = RollingIndicator::new(20, 2000).unwrap();
    let mut last = snapshot(0, 0, 0);
    for _ in 0..20 {
        last = indicator.update(1000);
    }
    assert_eq!(last, snapshot(1000, 1000, 1000));
    let moved = indicator.update(1200);
    assert_eq!(moved, snapshot(1010, 1097, 923));
}

#[test]
fn same_samples_give_same_snapshots() {
    let samples: Vec<u32> = (0..200u32).map(|i| 1000 + (i * 37) % 91).collect();
    let mut a = RollingIndicator::new(20, 2000).unwrap();
    let mut b = RollingIndicator::new(20, 2000).unwrap();
    for s in &samples {
        assert_eq!(a.update(*s), b.update(*s));
    }
    assert_eq!(a.snapshot(), b.snapshot());
}

#[test]
fn largest_samples_and_parameters_do_not_overflow() {
    let mut indicator = RollingIndicator::new(65_535, 65_535).unwrap();
    let mut last = snapshot(0, 0, 0);
    for i in 0..70_000u32 {
        last = indicator.update(if i % 2 == 0 { u32::MAX } else { 0 });
    }
    assert!(last.average >= 2_147_450_000 && last.average <= 2_147_520_000);
    assert!(last.upper_band - last.average == last.average - last.lower_band);
    let offset = last.upper_band - last.average;
    assert!(offset > 140_700_000_000 && offset < 140_800_000_000);
}

#[test]
fn agrees_with_floating_point_bands() {
    let closes: Vec<u32> = (0..300u32).map(|i| 100_000 + (i * 7919) % 5000).collect();
    let mut ours = RollingIndicator::new(20, 2000).unwrap();
    let mut theirs = BollingerBands::new(20, 2.0).unwrap();
    for close in closes {
        let got = ours.update(close);
        let want = theirs.next(close as f64);
        assert!((got.average as f64 - want.average).abs() <= 1.0);
        assert!((got.upper_band as f64 - want.upper).abs() <= 2.0);
        assert!((got.lower_band as f64 - want.lower).abs() <= 2.0);
    }
}

#[test]
fn integer_square_roots_are_exact() {
    assert_eq!(integer_sqrt(0), 0);
    assert_eq!(integer_sqrt(1), 1);
    assert_eq!(integer_sqrt(2), 1);
    assert_eq!(integer_sqrt(3), 1);
    assert_eq!(integer_sqrt(4), 2);
    assert_eq!(integer_sqrt(99), 9);
    assert_eq!(integer_sqrt(100), 10);
    assert_eq!(integer_sqrt(3_040_000_000_000), 1_743_559);
    assert_eq!(integer_sqrt(u128::MAX), u64::MAX);
    assert_eq!(integer_sqrt((u64::MAX as u128) * (u64::MAX as u128)), u64::MAX);
    assert_eq!(integer_sqrt((u64::MAX as u128) * (u64::MAX as u128) - 1), u64::MAX - 1);
}
