//! Warm-up: priming an indicator from historical candles before live ticks.

use vstd::prelude::*;
use crate::candle::{candle_view, Candle, CandleView};
use crate::indicator::{IndicatorView, RollingIndicator};
use crate::store::{EntryView, InstrumentStore, StoreView};
use crate::timeframe::Timeframe;

verus! {

/// The close prices of `candles`, in order.
pub open spec fn closes_of(candles: Seq<Candle>) -> Seq<u32> {
    Seq::new(candles.len(), |i: int| candles[i].close)
}

/// The candle that is still in progress at `now_ms`: the last of `candles`,
/// if its bucket is the one that holds `now_ms` and its prices are in order.
pub open spec fn in_progress(candles: Seq<Candle>, tf: Timeframe, now_ms: nat) -> Option<
    CandleView,
> {
    if candles.len() > 0 && candles.last().bucket_start_ms == tf.bucket_of(now_ms)
        && candles.last().well_formed() {
        Some(candles.last()@)
    } else {
        None
    }
}

/// Feeds the close of every candle of `history` to `indicator`, in order.
/// The snapshots along the way are dropped.
pub fn replay(indicator: &mut RollingIndicator, history: &Vec<Candle>)
    requires
        old(indicator).well_formed(),
    ensures
        final(indicator).well_formed(),
        final(indicator)@ == old(indicator)@.after_all(closes_of(history@)),
{
    let ghost start = indicator@;
    let ghost closes = closes_of(history@);
    let mut i: usize = 0;
    while i < history.len()
        invariant
            i <= history.len(),
            indicator.well_formed(),
            closes == closes_of(history@),
            indicator@ == start.after_all(closes.take(i as int)),
        decreases history.len() - i,
    {
        proof {
            assert(closes.take(i + 1).drop_last() =~= closes.take(i as int));
            assert(closes.take(i + 1).last() == history[i as int].close);
        }
        let _ = indicator.update(history[i].close);
        i = i + 1;
    }
    assert(closes.take(i as int) =~= closes);
}

/// The last candle of `history`, if its bucket is the one that holds
/// `now_ms` and its prices are in order.
pub fn candle_in_progress(history: &Vec<Candle>, timeframe: Timeframe, now_ms: u64) -> (r: Option<
    Candle,
>)
    ensures
        candle_view(r) == in_progress(history@, timeframe, now_ms as nat),
{
    if history.len() == 0 {
        return None;
    }
    let last = &history[history.len() - 1];
    if last.bucket_start_ms == timeframe.bucket_start(now_ms) && last.is_well_formed() {
        Some(last.clone())
    } else {
        None
    }
}

/// Primes the key from its historical candles, given oldest first: a fresh
/// indicator with the store's parameters is fed every close, and is
/// installed under the key together with the last candle, where that one is
/// still in progress at `now_ms`. The key is then ready for live ticks.
pub fn warm_up(
    store: &mut InstrumentStore,
    instrument: &String,
    timeframe: Timeframe,
    history: &Vec<Candle>,
    now_ms: u64,
)
    requires
        old(store).well_formed(),
    ensures
        final(store).well_formed(),
        final(store)@ == (StoreView {
            entries: old(store)@.entries.insert(
                (instrument@, timeframe),
                EntryView {
                    candle: in_progress(history@, timeframe, now_ms as nat),
                    indicator: IndicatorView::fresh(
                        old(store)@.window_size,
                        old(store)@.multiplier_milli,
                    ).after_all(closes_of(history@)),
                    primed: true,
                },
            ),
            ..old(store)@
        }),
{
    proof {
        store.lemma_slots();
    }
    let mut indicator = match RollingIndicator::new(
        store.window_size(),
        store.multiplier_milli(),
    ) {
        Ok(indicator) => indicator,
        Err(_) => {
            proof {
                assert(false);
            }
            vstd::pervasive::unreached()
        },
    };
    replay(&mut indicator, history);
    let current = candle_in_progress(history, timeframe, now_ms);
    store.seed(instrument, timeframe, indicator, current);
}

} // verus!
