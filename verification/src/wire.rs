//! Ticks as they arrive on the inbound channel: JSON objects whose price and
//! volume are plain decimal numbers and whose time is an RFC 3339 string.

use vstd::prelude::*;
use crate::decimal::{decimal_value, parse_decimal};
use crate::tick::{Tick, TickView};

verus! {

/// What `serde_json` finds under `key` in the JSON object `payload`, where
/// that is a string: the string. `None` where the payload is not JSON or not
/// an object, has no such key, or holds another kind of value there.
pub uninterp spec fn json_string_field(payload: Seq<u8>, key: Seq<char>) -> Option<Seq<char>>;

/// What `serde_json` finds under `key` in the JSON object `payload`, where
/// that is a number: the number as `serde_json` writes it. `None` where the
/// payload is not JSON or not an object, has no such key, or holds another
/// kind of value there.
pub uninterp spec fn json_number_field(payload: Seq<u8>, key: Seq<char>) -> Option<Seq<u8>>;

/// The instant that `chrono` reads from an RFC 3339 date and time, in
/// milliseconds since the Unix epoch; `None` where the text is not one.
pub uninterp spec fn rfc3339_millis(text: Seq<char>) -> Option<i64>;

/// The RFC 3339 date and time that `chrono` writes for an instant given in
/// milliseconds since the Unix epoch, in UTC; `None` where `chrono` cannot
/// hold the instant.
pub uninterp spec fn rfc3339_text(millis: i64) -> Option<Seq<char>>;

/// The view of an optional string.
pub open spec fn text_view(text: Option<String>) -> Option<Seq<char>> {
    match text {
        Some(t) => Some(t@),
        None => None,
    }
}

/// The view of an optional byte string.
pub open spec fn bytes_view(bytes: Option<Vec<u8>>) -> Option<Seq<u8>> {
    match bytes {
        Some(b) => Some(b@),
        None => None,
    }
}

/// Calls `serde_json::from_slice` for a `serde_json::Value` and
/// `Value::get`. Nothing is proved of it: the contract gives the outcome the
/// name `json_string_field`, a function of the payload and the key alone.
#[verifier::external_body]
fn read_string_field(payload: &[u8], key: &str) -> (r: Option<String>)
    ensures
        text_view(r) == json_string_field(payload@, key@),
{
    match serde_json::from_slice::<serde_json::Value>(payload) {
        Ok(document) => match document.get(key) {
            Some(serde_json::Value::String(text)) => Some(text.clone()),
            _ => None,
        },
        Err(_) => None,
    }
}

/// Calls `serde_json::from_slice` for a `serde_json::Value`, `Value::get`
/// and the `to_string` of `serde_json::Number`. Nothing is proved of it: the
/// contract gives the outcome the name `json_number_field`, a function of
/// the payload and the key alone.
#[verifier::external_body]
fn read_number_field(payload: &[u8], key: &str) -> (r: Option<Vec<u8>>)
    ensures
        bytes_view(r) == json_number_field(payload@, key@),
{
    match serde_json::from_slice::<serde_json::Value>(payload) {
        Ok(document) => match document.get(key) {
            Some(serde_json::Value::Number(number)) => Some(number.to_string().into_bytes()),
            _ => None,
        },
        Err(_) => None,
    }
}

/// Calls `chrono::DateTime::parse_from_rfc3339` and, on success,
/// `DateTime::timestamp_millis`. Nothing is proved of it: the contract gives
/// the outcome the name `rfc3339_millis`, a function of the text alone.
#[verifier::external_body]
fn parse_rfc3339(text: &str) -> (r: Option<i64>)
    ensures
        r == rfc3339_millis(text@),
{
    match chrono::DateTime::parse_from_rfc3339(text) {
        Ok(instant) => Some(instant.timestamp_millis()),
        Err(_) => None,
    }
}

/// Calls `chrono::DateTime::from_timestamp_millis` and, where that gives an
/// instant, `DateTime::to_rfc3339`. Nothing is proved of it: the contract
/// gives the outcome the name `rfc3339_text`, a function of the instant
/// alone.
#[verifier::external_body]
fn write_rfc3339(millis: i64) -> (r: Option<String>)
    ensures
        text_view(r) == rfc3339_text(millis),
{
    match chrono::DateTime::from_timestamp_millis(millis) {
        Some(instant) => Some(instant.to_rfc3339()),
        None => None,
    }
}

/// Why a record on the inbound channel is not a tick. Such a record is
/// dropped; it never stops the engine.
#[derive(Debug, Clone, Copy, PartialEq, Eq, Structural)]
pub enum MalformedTick {
    /// No instrument name, or an empty one.
    MissingInstrument,
    /// No price, or one that is not a plain decimal that fits a price.
    BadPrice,
    /// A volume that is not a plain decimal that fits a volume.
    BadVolume,
    /// No time, one that is not RFC 3339, or one before the Unix epoch.
    BadTimestamp,
}

/// The price that a decimal text gives in units of `10^-decimals`, where
/// there is a text, it is a plain decimal, and the value fits 32 bits.
pub open spec fn price_of(text: Option<Seq<u8>>, decimals: nat) -> Option<u32> {
    match text {
        Some(t) => match decimal_value(t, decimals) {
            Some(v) => if v <= u32::MAX {
                Some(v as u32)
            } else {
                None
            },
            None => None,
        },
        None => None,
    }
}

/// The volume that a decimal text gives, decimals dropped; one where there
/// is no text; nothing where the text is not a plain decimal or the value
/// does not fit 64 bits.
pub open spec fn volume_of(text: Option<Seq<u8>>) -> Option<u64> {
    match text {
        Some(t) => match decimal_value(t, 0) {
            Some(v) => if v <= u64::MAX {
                Some(v as u64)
            } else {
                None
            },
            None => None,
        },
        None => Some(1),
    }
}

/// The instant as milliseconds since the epoch, where there is one and it
/// is not before the epoch.
pub open spec fn instant_of(millis: Option<i64>) -> Option<u64> {
    match millis {
        Some(ms) => if ms >= 0 {
            Some(ms as u64)
        } else {
            None
        },
        None => None,
    }
}

/// The exchange tag of a record: the one given, or `NSE`.
pub open spec fn exchange_of(exchange: Option<Seq<char>>) -> Seq<char> {
    match exchange {
        Some(tag) => tag,
        None => "NSE"@,
    }
}

/// The tick that the fields of a record make, or why they make none. The
/// fields are looked at in the order instrument, price, volume, time, and
/// the first that is wrong is reported.
pub open spec fn tick_of_fields(
    instrument: Option<Seq<char>>,
    price: Option<Seq<u8>>,
    volume: Option<Seq<u8>>,
    millis: Option<i64>,
    exchange: Option<Seq<char>>,
    decimals: nat,
) -> Result<TickView, MalformedTick> {
    if instrument is None || instrument->0.len() == 0 {
        Err(MalformedTick::MissingInstrument)
    } else if price_of(price, decimals) is None {
        Err(MalformedTick::BadPrice)
    } else if volume_of(volume) is None {
        Err(MalformedTick::BadVolume)
    } else if instant_of(millis) is None {
        Err(MalformedTick::BadTimestamp)
    } else {
        Ok(
            TickView {
                instrument: instrument->0,
                price: price_of(price, decimals)->0,
                volume: volume_of(volume)->0 as nat,
                timestamp_ms: instant_of(millis)->0 as nat,
                exchange: exchange_of(exchange),
            },
        )
    }
}

/// The view of a tick or of the reason there is none.
pub open spec fn tick_result_view(r: Result<Tick, MalformedTick>) -> Result<
    TickView,
    MalformedTick,
> {
    match r {
        Ok(tick) => Ok(tick@),
        Err(e) => Err(e),
    }
}

/// Makes a tick from the fields of a record.
///
/// The instrument name must be there and not empty. The price must be a
/// plain decimal; it is kept to `price_decimals` decimals and must fit 32
/// bits. A volume that is absent counts as one; one that is given must be a
/// plain decimal and is kept without decimals. The time, in milliseconds
/// since the epoch, must be there and not before the epoch. An absent
/// exchange tag is taken as `NSE`.
pub fn tick_from_fields(
    instrument: Option<String>,
    price: Option<Vec<u8>>,
    volume: Option<Vec<u8>>,
    millis: Option<i64>,
    exchange: Option<String>,
    price_decimals: u8,
) -> (r: Result<Tick, MalformedTick>)
    ensures
        tick_result_view(r) == tick_of_fields(
            text_view(instrument),
            bytes_view(price),
            bytes_view(volume),
            millis,
            text_view(exchange),
            price_decimals as nat,
        ),
{
    let instrument = match instrument {
        Some(name) => name,
        None => {
            return Err(MalformedTick::MissingInstrument);
        },
    };
    if instrument.as_str().is_empty() {
        return Err(MalformedTick::MissingInstrument);
    }
    let price: u32 = match price {
        Some(text) => match parse_decimal(text.as_slice(), price_decimals) {
            Some(value) => {
                if value > 0xffff_ffff {
                    return Err(MalformedTick::BadPrice);
                }
                value as u32
            },
            None => {
                return Err(MalformedTick::BadPrice);
            },
        },
        None => {
            return Err(MalformedTick::BadPrice);
        },
    };
    let volume: u64 = match volume {
        Some(text) => match parse_decimal(text.as_slice(), 0) {
            Some(value) => {
                if value > 0xffff_ffff_ffff_ffff {
                    return Err(MalformedTick::BadVolume);
                }
                value as u64
            },
            None => {
                return Err(MalformedTick::BadVolume);
            },
        },
        None => 1,
    };
    let timestamp_ms: u64 = match millis {
        Some(ms) => {
            if ms < 0 {
                return Err(MalformedTick::BadTimestamp);
            }
            ms as u64
        },
        None => {
            return Err(MalformedTick::BadTimestamp);
        },
    };
    let exchange = match exchange {
        Some(tag) => tag,
        None => "NSE".to_owned(),
    };
    Ok(Tick { instrument, price, volume, timestamp_ms, exchange })
}

/// The fields of the record `payload` as the outside crates read them, made
/// into a tick.
pub open spec fn decoded(payload: Seq<u8>, decimals: nat) -> Result<TickView, MalformedTick> {
    tick_of_fields(
        json_string_field(payload, "tradingsymbol"@),
        json_number_field(payload, "ltp"@),
        json_number_field(payload, "volume"@),
        match json_string_field(payload, "timestamp"@) {
            Some(text) => rfc3339_millis(text),
            None => None,
        },
        json_string_field(payload, "exchange"@),
        decimals,
    )
}

/// Decodes one record of the inbound channel: a JSON object with the
/// instrument under `tradingsymbol`, the price under `ltp`, the volume under
/// `volume`, the time under `timestamp` and the exchange tag under
/// `exchange`. The fields are read by `serde_json` and the time by `chrono`;
/// what is made of them is what [`tick_from_fields`] makes.
pub fn decode_tick(payload: &[u8], price_decimals: u8) -> (r: Result<Tick, MalformedTick>)
    ensures
        tick_result_view(r) == decoded(payload@, price_decimals as nat),
{
    let instrument = read_string_field(payload, "tradingsymbol");
    let price = read_number_field(payload, "ltp");
    let volume = read_number_field(payload, "volume");
    let millis = match read_string_field(payload, "timestamp") {
        Some(text) => parse_rfc3339(text.as_str()),
        None => None,
    };
    let exchange = read_string_field(payload, "exchange");
    tick_from_fields(instrument, price, volume, millis, exchange, price_decimals)
}

/// The RFC 3339 text of an instant, where it can be written.
pub open spec fn instant_text(timestamp_ms: u64) -> Option<Seq<char>> {
    if timestamp_ms <= i64::MAX {
        rfc3339_text(timestamp_ms as i64)
    } else {
        None
    }
}

/// Writes an instant, such as the start of a candle's bucket, as an RFC
/// 3339 date and time in UTC; `None` where the instant is out of range.
pub fn format_instant(timestamp_ms: u64) -> (r: Option<String>)
    ensures
        text_view(r) == instant_text(timestamp_ms),
{
    if timestamp_ms > 0x7fff_ffff_ffff_ffff {
        return None;
    }
    write_rfc3339(timestamp_ms as i64)
}

} // verus!
