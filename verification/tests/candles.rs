use indicator_engine::candle::{aggregate, Candle};
use indicator_engine::tick::Tick;
use indicator_engine::timeframe::Timeframe;

fn tick(price: u32, volume: u64, timestamp_ms: u64) -> Tick {
    Tick {
        instrument: "XYZ".to_string(),
        price,
        volume,
        timestamp_ms,
        exchange: "NSE".to_string(),
    }
}

#[test]
fn first_tick_opens_a_candle() {
    let (candle, is_new) = aggregate(None, &tick(1000, 3, 61_500), Timeframe::OneMinute);
    assert!(is_new);
    assert_eq!(candle.open, 1000);
    assert_eq!(candle.high, 1000);
    assert_eq!(candle.low, 1000);
    assert_eq!(candle.close, 1000);
    assert_eq!(candle.volume, 3);
    assert_eq!(candle.bucket_start_ms, 60_000);
    assert_eq!(candle.instrument, "XYZ");
    assert_eq!(candle.exchange, "NSE");
}

#[test]
fn later_tick_in_the_bucket_updates_the_candle() {
    let (first, _) = aggregate(None, &tick(1000, 3, 61_500), Timeframe::OneMinute);
    let (second, is_new) = aggregate(Some(first), &tick(1200, 2, 70_000), Timeframe::OneMinute);
    assert!(!is_new);
    let (third, is_new) = aggregate(Some(second), &tick(900, 5, 119_999), Timeframe::OneMinute);
    assert!(!is_new);
    assert_eq!(third.open, 1000);
    assert_eq!(third.high, 1200);
    assert_eq!(third.low, 900);
    assert_eq!(third.close, 900);
    assert_eq!(third.volume, 10);
    assert_eq!(third.bucket_start_ms, 60_000);
}

#[test]
fn tick_across_the_boundary_rolls_over() {
    let (first, _) = aggregate(None, &tick(1000, 3, 61_500), Timeframe::OneMinute);
    let kept: Candle = first.clone();
    let (next, is_new) = aggregate(Some(first), &tick(1100, 7, 121_500), Timeframe::OneMinute);
    assert!(is_new);
    assert_eq!(next.open, 1100);
    assert_eq!(next.close, 1100);
    assert_eq!(next.volume, 7);
    assert_eq!(next.bucket_start_ms, 120_000);
    assert_eq!(kept.close, 1000);
    assert_eq!(kept.volume, 3);
}

#[test]
fn late_tick_is_folded_into_the_current_candle() {
    let (current, _) = aggregate(None, &tick(1000, 3, 121_500), Timeframe::OneMinute);
    let (after, is_new) = aggregate(Some(current), &tick(950, 4, 61_000), Timeframe::OneMinute);
    assert!(!is_new);
    assert_eq!(after.bucket_start_ms, 120_000);
    assert_eq!(after.open, 1000);
    assert_eq!(after.low, 950);
    assert_eq!(after.close, 950);
    assert_eq!(after.volume, 7);
}
