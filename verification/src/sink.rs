//! Where output goes: the cache keys, the time to live in the cache, and
//! the outbound topics.

use vstd::prelude::*;
use vstd::string::StringExecFns;
use crate::timeframe::Timeframe;

verus! {

/// How long a cached candle or indicator value lives, in seconds.
pub const CACHE_TTL_SECONDS: u32 = 86_400;

/// The cache key of the candle of an instrument and timeframe.
pub open spec fn candle_key_spec(instrument: Seq<char>, tf: Timeframe) -> Seq<char> {
    instrument + ":ohlcv:"@ + tf.label_spec()
}

/// The cache key of the indicator of an instrument and timeframe.
pub open spec fn indicator_key_spec(instrument: Seq<char>, tf: Timeframe) -> Seq<char> {
    instrument + ":indicators:"@ + tf.label_spec()
}

/// The outbound topic of the candles of a timeframe.
pub open spec fn candle_topic_spec(tf: Timeframe) -> Seq<char> {
    "ohlcv_"@ + tf.label_spec()
}

/// The cache key of the candle of an instrument and timeframe: the
/// instrument, `:ohlcv:` and the timeframe's name.
pub fn candle_key(instrument: &str, timeframe: Timeframe) -> (key: String)
    ensures
        key@ == candle_key_spec(instrument@, timeframe),
{
    let mut key = instrument.to_owned();
    key.append(":ohlcv:");
    key.append(timeframe.label());
    key
}

/// The cache key of the indicator of an instrument and timeframe: the
/// instrument, `:indicators:` and the timeframe's name.
pub fn indicator_key(instrument: &str, timeframe: Timeframe) -> (key: String)
    ensures
        key@ == indicator_key_spec(instrument@, timeframe),
{
    let mut key = instrument.to_owned();
    key.append(":indicators:");
    key.append(timeframe.label());
    key
}

/// The outbound topic of the candles of a timeframe: `ohlcv_` and the
/// timeframe's name.
pub fn candle_topic(timeframe: Timeframe) -> (topic: String)
    ensures
        topic@ == candle_topic_spec(timeframe),
{
    let mut topic = "ohlcv_".to_owned();
    topic.append(timeframe.label());
    topic
}

/// The inbound topic that ticks arrive on.
pub fn tick_topic() -> (topic: &'static str)
    ensures
        topic@ == "nse_ticks"@,
{
    "nse_ticks"
}

/// One write that an output event calls for.
#[derive(Debug)]
pub enum SinkWrite {
    /// Put the candle in the cache under `key`, to live `ttl_seconds`.
    CacheCandle { key: String, ttl_seconds: u32 },
    /// Put the indicator in the cache under `key`, to live `ttl_seconds`.
    CacheIndicator { key: String, ttl_seconds: u32 },
    /// Save the candle in the database.
    SaveCandle,
    /// Publish the candle on `topic`, partitioned by `partition_key`.
    PublishCandle { topic: String, partition_key: String },
}

/// What a [`SinkWrite`] holds, as mathematical values.
pub enum SinkWriteView {
    CacheCandle { key: Seq<char>, ttl_seconds: nat },
    CacheIndicator { key: Seq<char>, ttl_seconds: nat },
    SaveCandle,
    PublishCandle { topic: Seq<char>, partition_key: Seq<char> },
}

impl View for SinkWrite {
    type V = SinkWriteView;

    open spec fn view(&self) -> SinkWriteView {
        match self {
            SinkWrite::CacheCandle { key, ttl_seconds } => SinkWriteView::CacheCandle {
                key: key@,
                ttl_seconds: *ttl_seconds as nat,
            },
            SinkWrite::CacheIndicator { key, ttl_seconds } => SinkWriteView::CacheIndicator {
                key: key@,
                ttl_seconds: *ttl_seconds as nat,
            },
            SinkWrite::SaveCandle => SinkWriteView::SaveCandle,
            SinkWrite::PublishCandle { topic, partition_key } => SinkWriteView::PublishCandle {
                topic: topic@,
                partition_key: partition_key@,
            },
        }
    }
}

/// The writes that an event for `instrument` and `tf` calls for, in order.
pub open spec fn writes_spec(instrument: Seq<char>, tf: Timeframe) -> Seq<SinkWriteView> {
    seq![
        SinkWriteView::CacheCandle { key: candle_key_spec(instrument, tf), ttl_seconds: 86_400 },
        SinkWriteView::CacheIndicator {
            key: indicator_key_spec(instrument, tf),
            ttl_seconds: 86_400,
        },
        SinkWriteView::SaveCandle,
        SinkWriteView::PublishCandle {
            topic: candle_topic_spec(tf),
            partition_key: instrument,
        },
    ]
}

/// The views of the writes of `v`.
pub open spec fn write_views(v: Seq<SinkWrite>) -> Seq<SinkWriteView> {
    Seq::new(v.len(), |i: int| v[i]@)
}

/// Lists the writes that an output event calls for, in the order they are
/// made: the candle and the indicator to the cache, the candle to the
/// database, the candle to the outbound topic of its timeframe, with the
/// instrument as partition key.
pub fn writes_for(instrument: &str, timeframe: Timeframe) -> (writes: Vec<SinkWrite>)
    ensures
        write_views(writes@) == writes_spec(instrument@, timeframe),
{
    let mut writes: Vec<SinkWrite> = Vec::new();
    writes.push(
        SinkWrite::CacheCandle {
            key: candle_key(instrument, timeframe),
            ttl_seconds: CACHE_TTL_SECONDS,
        },
    );
    writes.push(
        SinkWrite::CacheIndicator {
            key: indicator_key(instrument, timeframe),
            ttl_seconds: CACHE_TTL_SECONDS,
        },
    );
    writes.push(SinkWrite::SaveCandle);
    writes.push(
        SinkWrite::PublishCandle {
            topic: candle_topic(timeframe),
            partition_key: instrument.to_owned(),
        },
    );
    assert(write_views(writes@) =~= writes_spec(instrument@, timeframe));
    writes
}

} // verus!
