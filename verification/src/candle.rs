//! Candles and the folding of ticks into them.

use vstd::prelude::*;
use crate::tick::{Tick, TickView};
use crate::timeframe::Timeframe;

verus! {

/// Open, high, low, close and volume of one instrument over one bucket.
#[derive(Debug)]
pub struct Candle {
    /// Instrument identifier.
    pub instrument: String,
    /// Price of the first tick of the bucket.
    pub open: u32,
    /// Highest price seen in the bucket.
    pub high: u32,
    /// Lowest price seen in the bucket.
    pub low: u32,
    /// Price of the latest tick folded in.
    pub close: u32,
    /// Sum of the volumes of the ticks folded in.
    pub volume: u64,
    /// Start of the bucket, in milliseconds since the Unix epoch.
    pub bucket_start_ms: u64,
    /// Tag of the exchange.
    pub exchange: String,
}

/// What a [`Candle`] holds, as mathematical values.
pub struct CandleView {
    pub instrument: Seq<char>,
    pub open: u32,
    pub high: u32,
    pub low: u32,
    pub close: u32,
    pub volume: nat,
    pub bucket_start_ms: nat,
    pub exchange: Seq<char>,
}

impl CandleView {
    /// The low is at most the open and the close, and these are at most the high.
    pub open spec fn ordered(self) -> bool {
        &&& self.low <= self.open <= self.high
        &&& self.low <= self.close <= self.high
    }
}

impl View for Candle {
    type V = CandleView;

    open spec fn view(&self) -> CandleView {
        CandleView {
            instrument: self.instrument@,
            open: self.open,
            high: self.high,
            low: self.low,
            close: self.close,
            volume: self.volume as nat,
            bucket_start_ms: self.bucket_start_ms as nat,
            exchange: self.exchange@,
        }
    }
}

impl Clone for Candle {
    fn clone(&self) -> (c: Candle)
        ensures
            c@ == self@,
    {
        Candle {
            instrument: self.instrument.clone(),
            open: self.open,
            high: self.high,
            low: self.low,
            close: self.close,
            volume: self.volume,
            bucket_start_ms: self.bucket_start_ms,
            exchange: self.exchange.clone(),
        }
    }
}

impl Candle {
    /// The low is at most the open and the close, and these are at most the high.
    pub open spec fn well_formed(&self) -> bool {
        self@.ordered()
    }

    /// Whether the prices are ordered as a candle's must be.
    pub fn is_well_formed(&self) -> (b: bool)
        ensures
            b == self.well_formed(),
    {
        self.low <= self.open && self.open <= self.high && self.low <= self.close && self.close
            <= self.high
    }
}

/// The view of an optional candle.
pub open spec fn candle_view(current: Option<Candle>) -> Option<CandleView> {
    match current {
        Some(c) => Some(c@),
        None => None,
    }
}

/// The candle that a bucket begins with: all four prices are the tick's.
pub open spec fn opened_by(tick: TickView, tf: Timeframe) -> CandleView {
    CandleView {
        instrument: tick.instrument,
        open: tick.price,
        high: tick.price,
        low: tick.price,
        close: tick.price,
        volume: tick.volume,
        bucket_start_ms: tf.bucket_of(tick.timestamp_ms),
        exchange: tick.exchange,
    }
}

/// A candle with one more tick folded in.
pub open spec fn extended_by(candle: CandleView, tick: TickView) -> CandleView {
    CandleView {
        high: if tick.price > candle.high { tick.price } else { candle.high },
        low: if tick.price < candle.low { tick.price } else { candle.low },
        close: tick.price,
        volume: candle.volume + tick.volume,
        ..candle
    }
}

/// Whether `tick` begins a bucket after `current`: there is no candle yet, or
/// the tick is not earlier than the candle's bucket and falls in another one.
/// A tick from before the current bucket is late and begins nothing.
pub open spec fn starts_bucket(current: Option<CandleView>, tick: TickView, tf: Timeframe) -> bool {
    match current {
        None => true,
        Some(c) => tick.timestamp_ms >= c.bucket_start_ms && tf.bucket_of(tick.timestamp_ms)
            != c.bucket_start_ms,
    }
}

/// The candle after `tick`, and whether the tick began a bucket.
pub open spec fn aggregate_spec(current: Option<CandleView>, tick: TickView, tf: Timeframe) -> (
    CandleView,
    bool,
) {
    if starts_bucket(current, tick, tf) {
        (opened_by(tick, tf), true)
    } else {
        (extended_by(current->0, tick), false)
    }
}

/// Folds one tick into the candle of its instrument and timeframe.
///
/// Without a current candle, or when the tick falls in a later bucket, a
/// candle is begun whose four prices are the tick's; the caller still holds
/// the finished one. Otherwise the current candle takes the tick: the high and
/// low widen to it, the close becomes it, the volume grows by the tick's. A
/// late tick, from before the current bucket, is taken by the current candle.
///
/// The summed volume must fit the candle's counter.
pub fn aggregate(current: Option<Candle>, tick: &Tick, timeframe: Timeframe) -> (r: (Candle, bool))
    requires
        !starts_bucket(candle_view(current), tick@, timeframe) ==> current->0.volume + tick.volume
            <= u64::MAX,
    ensures
        (r.0@, r.1) == aggregate_spec(candle_view(current), tick@, timeframe),
        candle_view(current) matches Some(c) && c.ordered() ==> r.0.well_formed(),
        current is None ==> r.0.well_formed(),
{
    let bucket = timeframe.bucket_start(tick.timestamp_ms);
    match current {
        Some(mut candle) => {
            if tick.timestamp_ms >= candle.bucket_start_ms && bucket != candle.bucket_start_ms {
                (open_candle(tick, bucket), true)
            } else {
                if tick.price > candle.high {
                    candle.high = tick.price;
                }
                if tick.price < candle.low {
                    candle.low = tick.price;
                }
                candle.close = tick.price;
                candle.volume = candle.volume + tick.volume;
                (candle, false)
            }
        },
        None => (open_candle(tick, bucket), true),
    }
}

fn open_candle(tick: &Tick, bucket: u64) -> (c: Candle)
    ensures
        c@ == (CandleView {
            instrument: tick@.instrument,
            open: tick@.price,
            high: tick@.price,
            low: tick@.price,
            close: tick@.price,
            volume: tick@.volume,
            bucket_start_ms: bucket as nat,
            exchange: tick@.exchange,
        }),
{
    Candle {
        instrument: tick.instrument.clone(),
        open: tick.price,
        high: tick.price,
        low: tick.price,
        close: tick.price,
        volume: tick.volume,
        bucket_start_ms: bucket,
        exchange: tick.exchange.clone(),
    }
}

/// The candle after folding `ticks` in, in order, beginning with `current`.
pub open spec fn folded(current: Option<CandleView>, ticks: Seq<TickView>, tf: Timeframe) -> Option<
    CandleView,
>
    decreases ticks.len(),
{
    if ticks.len() == 0 {
        current
    } else {
        Some(aggregate_spec(folded(current, ticks.drop_last(), tf), ticks.last(), tf).0)
    }
}

/// Sum of the volumes of `ticks`.
pub open spec fn total_volume(ticks: Seq<TickView>) -> nat
    decreases ticks.len(),
{
    if ticks.len() == 0 {
        0
    } else {
        total_volume(ticks.drop_last()) + ticks.last().volume
    }
}

/// Whether every tick of `ticks` falls in the bucket that begins at `bucket_start_ms`.
pub open spec fn all_in_bucket(ticks: Seq<TickView>, tf: Timeframe, bucket_start_ms: nat) -> bool {
    forall|i: int|
        0 <= i < ticks.len() ==> tf.bucket_of((#[trigger] ticks[i]).timestamp_ms)
            == bucket_start_ms
}

/// Ticks of one bucket, folded in order from nothing, give one candle for that
/// bucket: it opens at the first price and closes at the last, its high and
/// low bound every price folded in (so the high is at least the open and the
/// close, the low at most), and its volume is the sum of the ticks' volumes.
pub proof fn lemma_single_bucket(ticks: Seq<TickView>, tf: Timeframe, bucket_start_ms: nat)
    requires
        ticks.len() > 0,
        all_in_bucket(ticks, tf, bucket_start_ms),
    ensures
        folded(None, ticks, tf) matches Some(c) && {
            &&& c.ordered()
            &&& c.bucket_start_ms == bucket_start_ms
            &&& c.open == ticks[0].price
            &&& c.close == ticks.last().price
            &&& c.volume == total_volume(ticks)
            &&& c.instrument == ticks[0].instrument
            &&& forall|i: int| 0 <= i < ticks.len() ==> c.low <= (#[trigger] ticks[i]).price <= c.high
        },
    decreases ticks.len(),
{
    let head = ticks.drop_last();
    if head.len() == 0 {
        assert(folded(None, head, tf) == None::<CandleView>);
        assert(total_volume(head) == 0);
    } else {
        assert forall|i: int| 0 <= i < head.len() implies tf.bucket_of(
            (#[trigger] head[i]).timestamp_ms,
        ) == bucket_start_ms by {
            assert(head[i] == ticks[i]);
        }
        lemma_single_bucket(head, tf, bucket_start_ms);
        let before = folded(None, head, tf)->0;
        let after = folded(None, ticks, tf)->0;
        assert(!starts_bucket(Some(before), ticks.last(), tf));
        assert(after == extended_by(before, ticks.last()));
        assert forall|i: int| 0 <= i < ticks.len() implies after.low <= (#[trigger] ticks[i]).price
            <= after.high by {
            if i < head.len() {
                assert(head[i] == ticks[i]);
            }
        }
        assert(head[0] == ticks[0]);
    }
}

/// A tick that the current candle takes leaves its open and its bucket as
/// they were, never lowers its high or its volume, never raises its low,
/// and keeps its prices in order.
pub proof fn lemma_update_widens(current: CandleView, tick: TickView)
    ensures
        extended_by(current, tick).open == current.open,
        extended_by(current, tick).bucket_start_ms == current.bucket_start_ms,
        extended_by(current, tick).high >= current.high,
        extended_by(current, tick).low <= current.low,
        extended_by(current, tick).volume >= current.volume,
        extended_by(current, tick).close == tick.price,
        current.ordered() ==> extended_by(current, tick).ordered(),
{
}

/// A late tick, one from before the current bucket, never begins a bucket:
/// the current candle takes it, whatever bucket the tick's own time falls in.
pub proof fn lemma_late_tick_is_folded(current: CandleView, late: TickView, tf: Timeframe)
    requires
        late.timestamp_ms < current.bucket_start_ms,
    ensures
        aggregate_spec(Some(current), late, tf) == (extended_by(current, late), false),
        aggregate_spec(Some(current), late, tf).0.bucket_start_ms == current.bucket_start_ms,
        aggregate_spec(Some(current), late, tf).0.open == current.open,
{
}

/// A tick one bucket width after a tick of the current bucket begins the next
/// bucket: the candle that comes back opens and closes at that tick's price,
/// holds that tick's volume alone, and starts one width later. The candle
/// that was current is not changed by this; it is the finished one.
pub proof fn lemma_rollover(current: CandleView, earlier: TickView, later: TickView, tf: Timeframe)
    requires
        current.bucket_start_ms == tf.bucket_of(earlier.timestamp_ms),
        later.timestamp_ms == earlier.timestamp_ms + tf.width_ms(),
    ensures
        aggregate_spec(Some(current), earlier, tf).1 == false,
        aggregate_spec(Some(current), later, tf).1 == true,
        ({
            let next = aggregate_spec(Some(current), later, tf).0;
            &&& next.open == later.price
            &&& next.close == later.price
            &&& next.high == later.price
            &&& next.low == later.price
            &&& next.volume == later.volume
            &&& next.bucket_start_ms == current.bucket_start_ms + tf.width_ms()
        }),
{
    crate::timeframe::lemma_next_bucket(tf, earlier.timestamp_ms);
    crate::timeframe::lemma_bucket_boundary(tf, earlier.timestamp_ms);
}

} // verus!
