use indicator_engine::candle::Candle;
use indicator_engine::indicator::{IndicatorError, IndicatorSnapshot, RollingIndicator};
use indicator_engine::store::{InstrumentStore, StoreError};
use indicator_engine::tick::Tick;
use indicator_engine::timeframe::{Timeframe, TimeframeSet};
use indicator_engine::warmup::{candle_in_progress, replay, warm_up};

fn tick(instrument: &str, price: u32, volume: u64, timestamp_ms: u64) -> Tick {
    Tick {
        instrument: instrument.to_string(),
        price,
        volume,
        timestamp_ms,
        exchange: "NSE".to_string(),
    }
}

fn candle(instrument: &str, close: u32, bucket_start_ms: u64) -> Candle {
    Candle {
        instrument: instrument.to_string(),
        open: close,
        high: close,
        low: close,
        close,
        volume: 1,
        bucket_start_ms,
        exchange: "NSE".to_string(),
    }
}

#[test]
fn store_refuses_bad_indicator_parameters() {
    assert_eq!(InstrumentStore::new(1, 2000, false).err(), Some(IndicatorError::InvalidParameter));
    assert_eq!(InstrumentStore::new(20, 0, false).err(), Some(IndicatorError::InvalidParameter));
    let store = InstrumentStore::new(20, 2000, true).unwrap();
    assert_eq!(store.len(), 0);
    assert_eq!(store.window_size(), 20);
    assert_eq!(store.multiplier_milli(), 2000);
    assert!(store.warmup_mandatory());
}

#[test]
fn first_tick_makes_the_entry() {
    let mut store = InstrumentStore::new(20, 2000, false).unwrap();
    let name = "XYZ".to_string();
    assert!(store.get(&name, Timeframe::OneMinute).is_none());
    let event = store.update(&tick("XYZ", 1000, 5, 61_000), Timeframe::OneMinute).unwrap();
    assert_eq!(event.instrument, "XYZ");
    assert_eq!(event.timeframe, Timeframe::OneMinute);
    assert!(event.is_new_bucket);
    assert!(event.finalized.is_none());
    assert_eq!(event.candle.open, 1000);
    assert_eq!(event.candle.volume, 5);
    assert_eq!(event.candle.bucket_start_ms, 60_000);
    assert_eq!(
        event.indicator,
        IndicatorSnapshot { average: 1000, upper_band: 1000, lower_band: 1000 }
    );
    assert_eq!(store.len(), 1);
    let entry = store.get(&name, Timeframe::OneMinute).unwrap();
    assert!(!entry.primed);
    assert_eq!(entry.candle.as_ref().unwrap().close, 1000);
    assert_eq!(entry.indicator.len(), 1);
    assert!(store.get(&name, Timeframe::FiveMinutes).is_none());
}

#[test]
fn unseeded_key_is_not_ready_when_warm_up_is_mandatory() {
    let mut store = InstrumentStore::new(20, 2000, true).unwrap();
    let name = "XYZ".to_string();
    assert!(!store.is_ready(&name, Timeframe::OneMinute));
    let refused = store.update(&tick("XYZ", 1000, 5, 61_000), Timeframe::OneMinute);
    assert_eq!(refused.err(), Some(StoreError::KeyNotReady));
    assert_eq!(store.len(), 0);
    store.get_or_create(&name, Timeframe::OneMinute);
    let refused = store.update(&tick("XYZ", 1000, 5, 61_000), Timeframe::OneMinute);
    assert_eq!(refused.err(), Some(StoreError::KeyNotReady));
    store.seed(&name, Timeframe::OneMinute, RollingIndicator::new(20, 2000).unwrap(), None);
    assert!(store.is_ready(&name, Timeframe::OneMinute));
    assert!(store.update(&tick("XYZ", 1000, 5, 61_000), Timeframe::OneMinute).is_ok());
    assert!(!store.is_ready(&name, Timeframe::FiveMinutes));
}

#[test]
fn get_or_create_keeps_slots() {
    let mut store = InstrumentStore::new(20, 2000, false).unwrap();
    let a = store.get_or_create(&"A".to_string(), Timeframe::OneMinute);
    let b = store.get_or_create(&"B".to_string(), Timeframe::OneMinute);
    let a5 = store.get_or_create(&"A".to_string(), Timeframe::FiveMinutes);
    assert_eq!(store.get_or_create(&"A".to_string(), Timeframe::OneMinute), a);
    assert_eq!(store.get_or_create(&"B".to_string(), Timeframe::OneMinute), b);
    assert_eq!(store.find(&"A".to_string(), Timeframe::FiveMinutes), Some(a5));
    assert_eq!(store.find(&"C".to_string(), Timeframe::FiveMinutes), None);
    assert_eq!(store.len(), 3);
    assert_eq!(store.entry(b).instrument, "B");
    assert!(store.entry(b).candle.is_none());
    assert_eq!(store.entry(b).indicator.len(), 0);
}

#[test]
fn finished_candle_is_handed_out_once() {
    let mut store = InstrumentStore::new(20, 2000, false).unwrap();
    let first = store.update(&tick("XYZ", 1000, 5, 61_000), Timeframe::OneMinute).unwrap();
    assert!(first.finalized.is_none());
    let second = store.update(&tick("XYZ", 1010, 2, 65_000), Timeframe::OneMinute).unwrap();
    assert!(!second.is_new_bucket);
    assert!(second.finalized.is_none());
    let third = store.update(&tick("XYZ", 1020, 4, 125_000), Timeframe::OneMinute).unwrap();
    assert!(third.is_new_bucket);
    assert_eq!(third.candle.open, 1020);
    assert_eq!(third.candle.close, 1020);
    assert_eq!(third.candle.volume, 4);
    assert_eq!(third.candle.bucket_start_ms, 120_000);
    let finished = third.finalized.unwrap();
    assert_eq!(finished.bucket_start_ms, 60_000);
    assert_eq!(finished.open, 1000);
    assert_eq!(finished.high, 1010);
    assert_eq!(finished.low, 1000);
    assert_eq!(finished.close, 1010);
    assert_eq!(finished.volume, 7);
    let fourth = store.update(&tick("XYZ", 1030, 1, 126_000), Timeframe::OneMinute).unwrap();
    assert!(!fourth.is_new_bucket);
    assert!(fourth.finalized.is_none());
}

#[test]
fn one_tick_goes_to_every_watched_timeframe() {
    let mut store = InstrumentStore::new(20, 2000, false).unwrap();
    let t = tick("XYZ", 1000, 5, 1_700_000_123_456);
    assert!(store.volume_fits_all(&t, TimeframeSet::all()));
    let events = store.update_all(&t, TimeframeSet::all());
    assert_eq!(events.len(), 3);
    let starts: Vec<u64> =
        events.iter().map(|e| e.as_ref().unwrap().candle.bucket_start_ms).collect();
    assert_eq!(starts, vec![1_700_000_100_000, 1_700_000_100_000, 1_699_999_200_000]);
    let frames: Vec<Timeframe> = events.iter().map(|e| e.as_ref().unwrap().timeframe).collect();
    assert_eq!(frames, TimeframeSet::all().to_vec());
    assert_eq!(store.len(), 3);
    let some = TimeframeSet::none().with(Timeframe::FiveMinutes);
    let events = store.update_all(&tick("ABC", 7, 1, 0), some);
    assert_eq!(events.len(), 1);
    assert_eq!(events[0].as_ref().unwrap().timeframe, Timeframe::FiveMinutes);
    assert_eq!(store.len(), 4);
    assert!(store.update_all(&t, TimeframeSet::none()).is_empty());
}

#[test]
fn every_timeframe_refuses_an_unseeded_key() {
    let mut store = InstrumentStore::new(20, 2000, true).unwrap();
    let name = "XYZ".to_string();
    store.seed(&name, Timeframe::FiveMinutes, RollingIndicator::new(20, 2000).unwrap(), None);
    let events = store.update_all(&tick("XYZ", 1000, 5, 61_000), TimeframeSet::all());
    assert_eq!(events.len(), 3);
    assert_eq!(events[0].as_ref().err(), Some(&StoreError::KeyNotReady));
    assert!(events[1].is_ok());
    assert_eq!(events[2].as_ref().err(), Some(&StoreError::KeyNotReady));
}

#[test]
fn full_volume_counter_is_reported() {
    let mut store = InstrumentStore::new(20, 2000, false).unwrap();
    store.update(&tick("XYZ", 1000, u64::MAX - 1, 61_000), Timeframe::OneMinute).unwrap();
    assert!(store.volume_fits(&tick("XYZ", 1000, 1, 62_000), Timeframe::OneMinute));
    assert!(!store.volume_fits(&tick("XYZ", 1000, 2, 62_000), Timeframe::OneMinute));
    assert!(store.volume_fits(&tick("XYZ", 1000, 2, 122_000), Timeframe::OneMinute));
    assert!(store.volume_fits(&tick("XYZ", 1000, 2, 62_000), Timeframe::FiveMinutes));
    assert!(!store.volume_fits_all(&tick("XYZ", 1000, 2, 62_000), TimeframeSet::all()));
    let event = store.update(&tick("XYZ", 1000, 1, 62_000), Timeframe::OneMinute).unwrap();
    assert_eq!(event.candle.volume, u64::MAX);
}

#[test]
fn interleaved_keys_end_as_if_served_alone() {
    let names: Vec<String> = (0..25).map(|i| format!("SYM{}", i)).collect();
    let frames = [Timeframe::OneMinute, Timeframe::FiveMinutes];
    let mut ticks: Vec<(Tick, Timeframe)> = Vec::new();
    for n in 0..1000u64 {
        let key = ((n * 7 + n / 13) % 50) as usize;
        let name = &names[key / 2];
        let tf = frames[key % 2];
        let price = 1000 + ((n * 31) % 97) as u32;
        ticks.push((tick(name, price, 1 + n % 5, 1_700_000_000_000 + n * 1_700), tf));
    }
    let mut shared = InstrumentStore::new(20, 2000, false).unwrap();
    for (t, tf) in &ticks {
        shared.update(t, *tf).unwrap();
    }
    assert_eq!(shared.len(), 50);
    for name in &names {
        for tf in frames {
            let mut alone = InstrumentStore::new(20, 2000, false).unwrap();
            for (t, f) in &ticks {
                if &t.instrument == name && *f == tf {
                    alone.update(t, *f).unwrap();
                }
            }
            let a = shared.get(name, tf).unwrap();
            let b = alone.get(name, tf).unwrap();
            let (ca, cb) = (a.candle.as_ref().unwrap(), b.candle.as_ref().unwrap());
            assert_eq!(
                (ca.open, ca.high, ca.low, ca.close, ca.volume, ca.bucket_start_ms),
                (cb.open, cb.high, cb.low, cb.close, cb.volume, cb.bucket_start_ms)
            );
            assert_eq!(a.indicator.snapshot(), b.indicator.snapshot());
            assert_eq!(a.indicator.len(), b.indicator.len());
        }
    }
}

#[test]
fn replay_feeds_every_close() {
    let history: Vec<Candle> =
        (0..5u32).map(|i| candle("XYZ", 1000 + 10 * i, 60_000 * i as u64)).collect();
    let mut replayed = RollingIndicator::new(3, 2000).unwrap();
    replay(&mut replayed, &history);
    let mut direct = RollingIndicator::new(3, 2000).unwrap();
    let mut last = None;
    for c in &history {
        last = Some(direct.update(c.close));
    }
    assert_eq!(replayed.snapshot(), last);
    assert_eq!(replayed.len(), 3);
    assert_eq!(replayed.snapshot().unwrap().average, 1030);
}

#[test]
fn primed_then_live_equals_one_run() {
    let closes: Vec<u32> = (0..40u32).map(|i| 1000 + (i * 53) % 71).collect();
    let live: Vec<u32> = (0..30u32).map(|i| 990 + (i * 17) % 43).collect();
    let history: Vec<Candle> =
        closes.iter().enumerate().map(|(i, c)| candle("XYZ", *c, 60_000 * i as u64)).collect();
    let mut primed = RollingIndicator::new(20, 2000).unwrap();
    replay(&mut primed, &history);
    let mut direct = RollingIndicator::new(20, 2000).unwrap();
    for c in &closes {
        direct.update(*c);
    }
    for s in &live {
        assert_eq!(primed.update(*s), direct.update(*s));
    }
}

#[test]
fn warm_up_seeds_the_key() {
    let mut store = InstrumentStore::new(20, 2000, true).unwrap();
    let name = "XYZ".to_string();
    let history: Vec<Candle> = (0..20u64).map(|i| candle("XYZ", 1000, 60_000 * i)).collect();
    warm_up(&mut store, &name, Timeframe::OneMinute, &history, 60_000 * 30 + 5);
    assert!(store.is_ready(&name, Timeframe::OneMinute));
    let entry = store.get(&name, Timeframe::OneMinute).unwrap();
    assert!(entry.primed);
    assert!(entry.candle.is_none());
    assert!(entry.indicator.is_full());
    assert_eq!(
        entry.indicator.snapshot(),
        Some(IndicatorSnapshot { average: 1000, upper_band: 1000, lower_band: 1000 })
    );
    let event = store.update(&tick("XYZ", 1200, 3, 60_000 * 30 + 10), Timeframe::OneMinute).unwrap();
    assert_eq!(
        event.indicator,
        IndicatorSnapshot { average: 1010, upper_band: 1097, lower_band: 923 }
    );
    assert!(event.is_new_bucket);
    assert_eq!(event.candle.volume, 3);
}

#[test]
fn warm_up_keeps_the_candle_in_progress() {
    let mut store = InstrumentStore::new(20, 2000, true).unwrap();
    let name = "XYZ".to_string();
    let history: Vec<Candle> = (0..20u64).map(|i| candle("XYZ", 1000, 60_000 * i)).collect();
    warm_up(&mut store, &name, Timeframe::OneMinute, &history, 60_000 * 19 + 500);
    let entry = store.get(&name, Timeframe::OneMinute).unwrap();
    assert_eq!(entry.candle.as_ref().unwrap().bucket_start_ms, 60_000 * 19);
    let event = store.update(&tick("XYZ", 1200, 3, 60_000 * 19 + 900), Timeframe::OneMinute).unwrap();
    assert!(!event.is_new_bucket);
    assert!(event.finalized.is_none());
    assert_eq!(event.candle.open, 1000);
    assert_eq!(event.candle.high, 1200);
    assert_eq!(event.candle.close, 1200);
    assert_eq!(event.candle.volume, 4);
    let next = store.update(&tick("XYZ", 1100, 2, 60_000 * 20), Timeframe::OneMinute).unwrap();
    assert!(next.is_new_bucket);
    assert_eq!(next.finalized.unwrap().volume, 4);
}

#[test]
fn candle_in_progress_is_the_last_one_of_the_current_bucket() {
    let history: Vec<Candle> = (0..3u64).map(|i| candle("XYZ", 1000, 300_000 * i)).collect();
    assert!(candle_in_progress(&Vec::new(), Timeframe::FiveMinutes, 0).is_none());
    assert!(candle_in_progress(&history, Timeframe::FiveMinutes, 900_000).is_none());
    assert!(candle_in_progress(&history, Timeframe::FiveMinutes, 599_999).is_none());
    let current = candle_in_progress(&history, Timeframe::FiveMinutes, 899_999).unwrap();
    assert_eq!(current.bucket_start_ms, 600_000);
}

#[test]
fn twenty_flat_closes_then_a_higher_one_in_one_bucket() {
    let mut store = InstrumentStore::new(20, 2000, false).unwrap();
    let mut last = None;
    for i in 0..20u64 {
        last = Some(store.update(&tick("XYZ", 1000, 2, 60_000 + i * 100), Timeframe::OneMinute).unwrap());
    }
    let flat = last.unwrap();
    assert_eq!(
        flat.indicator,
        IndicatorSnapshot { average: 1000, upper_band: 1000, lower_band: 1000 }
    );
    assert_eq!(flat.candle.volume, 40);
    let moved = store.update(&tick("XYZ", 1200, 3, 60_000 + 2_500), Timeframe::OneMinute).unwrap();
    assert_eq!(
        moved.indicator,
        IndicatorSnapshot { average: 1010, upper_band: 1097, lower_band: 923 }
    );
    assert!(!moved.is_new_bucket);
    assert_eq!(moved.candle.volume, 43);
    assert_eq!(moved.candle.high, 1200);
}

#[test]
fn twenty_flat_closes_then_a_higher_one_across_the_boundary() {
    let mut store = InstrumentStore::new(20, 2000, false).unwrap();
    for i in 0..20u64 {
        store.update(&tick("XYZ", 1000, 2, 60_000 + i * 100), Timeframe::OneMinute).unwrap();
    }
    let moved = store.update(&tick("XYZ", 1200, 3, 120_000), Timeframe::OneMinute).unwrap();
    assert_eq!(
        moved.indicator,
        IndicatorSnapshot { average: 1010, upper_band: 1097, lower_band: 923 }
    );
    assert!(moved.is_new_bucket);
    assert_eq!(moved.candle.volume, 3);
    assert_eq!(moved.finalized.unwrap().volume, 40);
}
