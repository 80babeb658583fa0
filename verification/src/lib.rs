//! Streaming market-data core: per (instrument, timeframe) candle aggregation and
//! fixed-window rolling indicators, in exact integer arithmetic.
//!
//! Prices are unsigned integers in a minor unit chosen by the caller (for
//! example hundredths of a currency unit); instants are milliseconds since the
//! Unix epoch. Every function here is verified against its contract, but for
//! four small wrappers in `wire` that call `serde_json` and `chrono`.

pub mod timeframe;
pub mod tick;
pub mod candle;
pub mod stats;
pub mod indicator;
pub mod store;
pub mod warmup;
pub mod engine;
pub mod decimal;
pub mod wire;
pub mod sink;
pub mod config;
pub mod plan;
