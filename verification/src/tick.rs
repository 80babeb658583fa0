//! One market event.

use vstd::prelude::*;

verus! {

/// One trade report for an instrument at an instant.
#[derive(Debug)]
pub struct Tick {
    /// Instrument identifier.
    pub instrument: String,
    /// Last traded price, in minor units.
    pub price: u32,
    /// Volume traded since the previous tick.
    pub volume: u64,
    /// Event time, in milliseconds since the Unix epoch.
    pub timestamp_ms: u64,
    /// Tag of the exchange that reported the trade.
    pub exchange: String,
}

/// What a [`Tick`] holds, as mathematical values.
pub struct TickView {
    pub instrument: Seq<char>,
    pub price: u32,
    pub volume: nat,
    pub timestamp_ms: nat,
    pub exchange: Seq<char>,
}

impl View for Tick {
    type V = TickView;

    open spec fn view(&self) -> TickView {
        TickView {
            instrument: self.instrument@,
            price: self.price,
            volume: self.volume as nat,
            timestamp_ms: self.timestamp_ms as nat,
            exchange: self.exchange@,
        }
    }
}

impl Clone for Tick {
    fn clone(&self) -> (t: Tick)
        ensures
            t@ == self@,
    {
        Tick {
            instrument: self.instrument.clone(),
            price: self.price,
            volume: self.volume,
            timestamp_ms: self.timestamp_ms,
            exchange: self.exchange.clone(),
        }
    }
}

} // verus!
