use indicator_engine::timeframe::{Timeframe, TimeframeSet};

#[test]
fn widths_are_one_five_and_thirty_minutes() {
    assert_eq!(Timeframe::OneMinute.width_millis(), 60_000);
    assert_eq!(Timeframe::FiveMinutes.width_millis(), 300_000);
    assert_eq!(Timeframe::ThirtyMinutes.width_millis(), 1_800_000);
}

#[test]
fn labels_round_trip() {
    assert_eq!(Timeframe::OneMinute.label(), "1min");
    assert_eq!(Timeframe::FiveMinutes.label(), "5min");
    assert_eq!(Timeframe::ThirtyMinutes.label(), "30min");
    assert_eq!(Timeframe::from_label("1min"), Timeframe::OneMinute);
    assert_eq!(Timeframe::from_label("5min"), Timeframe::FiveMinutes);
    assert_eq!(Timeframe::from_label("30min"), Timeframe::ThirtyMinutes);
}

#[test]
fn unknown_label_is_one_minute() {
    assert_eq!(Timeframe::from_label("2h"), Timeframe::OneMinute);
    assert_eq!(Timeframe::from_label(""), Timeframe::OneMinute);
}

#[test]
fn bucket_start_drops_the_remainder() {
    assert_eq!(Timeframe::OneMinute.bucket_start(0), 0);
    assert_eq!(Timeframe::OneMinute.bucket_start(59_999), 0);
    assert_eq!(Timeframe::OneMinute.bucket_start(60_000), 60_000);
    assert_eq!(Timeframe::OneMinute.bucket_start(1_700_000_123_456), 1_700_000_100_000);
    assert_eq!(Timeframe::FiveMinutes.bucket_start(1_700_000_123_456), 1_700_000_100_000);
    assert_eq!(Timeframe::ThirtyMinutes.bucket_start(1_700_000_123_456), 1_699_999_200_000);
    assert_eq!(Timeframe::ThirtyMinutes.bucket_start(u64::MAX), u64::MAX - u64::MAX % 1_800_000);
}

#[test]
fn bucket_start_is_its_own_bucket_start() {
    for ts in [0u64, 1, 59_999, 60_001, 1_700_000_123_456, u64::MAX] {
        for tf in [Timeframe::OneMinute, Timeframe::FiveMinutes, Timeframe::ThirtyMinutes] {
            let start = tf.bucket_start(ts);
            assert_eq!(tf.bucket_start(start), start);
            assert_eq!(start % tf.width_millis(), 0);
            assert!(start <= ts && ts - start < tf.width_millis());
        }
    }
}

#[test]
fn one_width_later_is_the_next_bucket() {
    for tf in [Timeframe::OneMinute, Timeframe::FiveMinutes, Timeframe::ThirtyMinutes] {
        let ts = 1_700_000_123_456u64;
        assert_eq!(tf.bucket_start(ts + tf.width_millis()), tf.bucket_start(ts) + tf.width_millis());
    }
}

#[test]
fn sets_list_their_members_shortest_first() {
    assert_eq!(
        TimeframeSet::all().to_vec(),
        vec![Timeframe::OneMinute, Timeframe::FiveMinutes, Timeframe::ThirtyMinutes]
    );
    assert_eq!(TimeframeSet::none().to_vec(), Vec::<Timeframe>::new());
    let set = TimeframeSet::none().with(Timeframe::ThirtyMinutes).with(Timeframe::OneMinute);
    assert_eq!(set.to_vec(), vec![Timeframe::OneMinute, Timeframe::ThirtyMinutes]);
    assert!(set.contains(Timeframe::OneMinute));
    assert!(!set.contains(Timeframe::FiveMinutes));
    assert!(set.contains(Timeframe::ThirtyMinutes));
}
