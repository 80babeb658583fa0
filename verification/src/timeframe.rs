//! Candle timeframes and the truncation of instants to bucket boundaries.

use vstd::prelude::*;

verus! {

/// The bucket widths that candles are kept for.
#[derive(Clone, Copy, Debug, PartialEq, Eq, Structural, Hash)]
pub enum Timeframe {
    OneMinute,
    FiveMinutes,
    ThirtyMinutes,
}

/// The latest whole multiple of `width_ms` that is not after `timestamp_ms`.
pub open spec fn truncate_to_width(timestamp_ms: nat, width_ms: nat) -> nat
    recommends
        width_ms > 0,
{
    (timestamp_ms - timestamp_ms % width_ms) as nat
}

impl Timeframe {
    /// Width of one bucket, in milliseconds.
    pub open spec fn width_ms(self) -> nat {
        match self {
            Timeframe::OneMinute => 60_000,
            Timeframe::FiveMinutes => 300_000,
            Timeframe::ThirtyMinutes => 1_800_000,
        }
    }

    /// The textual name of this timeframe.
    pub open spec fn label_spec(self) -> Seq<char> {
        match self {
            Timeframe::OneMinute => "1min"@,
            Timeframe::FiveMinutes => "5min"@,
            Timeframe::ThirtyMinutes => "30min"@,
        }
    }

    /// The timeframe that a textual name stands for; any name that is not
    /// `5min` or `30min` stands for one minute.
    pub open spec fn of_label(label: Seq<char>) -> Timeframe {
        if label == "5min"@ {
            Timeframe::FiveMinutes
        } else if label == "30min"@ {
            Timeframe::ThirtyMinutes
        } else {
            Timeframe::OneMinute
        }
    }

    /// Start of the bucket that holds `timestamp_ms`.
    pub open spec fn bucket_of(self, timestamp_ms: nat) -> nat {
        truncate_to_width(timestamp_ms, self.width_ms())
    }

    /// Width of one bucket, in milliseconds.
    pub fn width_millis(self) -> (w: u64)
        ensures
            w == self.width_ms(),
    {
        match self {
            Timeframe::OneMinute => 60_000,
            Timeframe::FiveMinutes => 300_000,
            Timeframe::ThirtyMinutes => 1_800_000,
        }
    }

    /// The textual name of this timeframe: `1min`, `5min` or `30min`.
    pub fn label(self) -> (s: &'static str)
        ensures
            s@ == self.label_spec(),
    {
        match self {
            Timeframe::OneMinute => "1min",
            Timeframe::FiveMinutes => "5min",
            Timeframe::ThirtyMinutes => "30min",
        }
    }

    /// Reads a textual name; an unknown name is taken as one minute.
    pub fn from_label(label: &str) -> (t: Timeframe)
        ensures
            t == Timeframe::of_label(label@),
    {
        let given = label.to_owned();
        if given == "5min".to_owned() {
            Timeframe::FiveMinutes
        } else if given == "30min".to_owned() {
            Timeframe::ThirtyMinutes
        } else {
            Timeframe::OneMinute
        }
    }

    /// Start of the bucket that holds `timestamp_ms`: the instant with its
    /// remainder modulo the bucket width dropped.
    pub fn bucket_start(self, timestamp_ms: u64) -> (b: u64)
        ensures
            b == self.bucket_of(timestamp_ms as nat),
    {
        let w = self.width_millis();
        timestamp_ms - timestamp_ms % w
    }
}

/// The timeframes that an engine keeps candles for.
#[derive(Clone, Copy, Debug, PartialEq, Eq, Structural)]
pub struct TimeframeSet {
    pub one_minute: bool,
    pub five_minutes: bool,
    pub thirty_minutes: bool,
}

impl TimeframeSet {
    /// Whether `tf` is in the set.
    pub open spec fn has(self, tf: Timeframe) -> bool {
        match tf {
            Timeframe::OneMinute => self.one_minute,
            Timeframe::FiveMinutes => self.five_minutes,
            Timeframe::ThirtyMinutes => self.thirty_minutes,
        }
    }

    /// The timeframes of the set, shortest first.
    pub open spec fn members(self) -> Seq<Timeframe> {
        let a = if self.one_minute {
            seq![Timeframe::OneMinute]
        } else {
            Seq::empty()
        };
        let b = if self.five_minutes {
            a.push(Timeframe::FiveMinutes)
        } else {
            a
        };
        if self.thirty_minutes {
            b.push(Timeframe::ThirtyMinutes)
        } else {
            b
        }
    }

    /// All three timeframes.
    pub fn all() -> (s: TimeframeSet)
        ensures
            s == (TimeframeSet { one_minute: true, five_minutes: true, thirty_minutes: true }),
    {
        TimeframeSet { one_minute: true, five_minutes: true, thirty_minutes: true }
    }

    /// No timeframe.
    pub fn none() -> (s: TimeframeSet)
        ensures
            s == (TimeframeSet { one_minute: false, five_minutes: false, thirty_minutes: false }),
    {
        TimeframeSet { one_minute: false, five_minutes: false, thirty_minutes: false }
    }

    /// The set with `tf` added.
    pub fn with(self, tf: Timeframe) -> (s: TimeframeSet)
        ensures
            forall|other: Timeframe| s.has(other) == (self.has(other) || other == tf),
    {
        match tf {
            Timeframe::OneMinute => TimeframeSet { one_minute: true, ..self },
            Timeframe::FiveMinutes => TimeframeSet { five_minutes: true, ..self },
            Timeframe::ThirtyMinutes => TimeframeSet { thirty_minutes: true, ..self },
        }
    }

    /// Whether `tf` is in the set.
    pub fn contains(self, tf: Timeframe) -> (b: bool)
        ensures
            b == self.has(tf),
    {
        match tf {
            Timeframe::OneMinute => self.one_minute,
            Timeframe::FiveMinutes => self.five_minutes,
            Timeframe::ThirtyMinutes => self.thirty_minutes,
        }
    }

    /// The timeframes of the set, shortest first.
    pub fn to_vec(self) -> (v: Vec<Timeframe>)
        ensures
            v@ == self.members(),
    {
        let mut v: Vec<Timeframe> = Vec::new();
        if self.one_minute {
            v.push(Timeframe::OneMinute);
        }
        if self.five_minutes {
            v.push(Timeframe::FiveMinutes);
        }
        if self.thirty_minutes {
            v.push(Timeframe::ThirtyMinutes);
        }
        v
    }
}

/// A bucket start is a whole multiple of the width, is not after the instant
/// and less than one width before it, and is its own bucket start.
pub proof fn lemma_bucket_boundary(tf: Timeframe, timestamp_ms: nat)
    ensures
        tf.bucket_of(timestamp_ms) % tf.width_ms() == 0,
        tf.bucket_of(timestamp_ms) <= timestamp_ms < tf.bucket_of(timestamp_ms) + tf.width_ms(),
        tf.bucket_of(tf.bucket_of(timestamp_ms)) == tf.bucket_of(timestamp_ms),
{
    match tf {
        Timeframe::OneMinute => {},
        Timeframe::FiveMinutes => {},
        Timeframe::ThirtyMinutes => {},
    }
}

/// An instant exactly one width later falls in the next bucket.
pub proof fn lemma_next_bucket(tf: Timeframe, timestamp_ms: nat)
    ensures
        tf.bucket_of(timestamp_ms + tf.width_ms()) == tf.bucket_of(timestamp_ms) + tf.width_ms(),
{
    match tf {
        Timeframe::OneMinute => {},
        Timeframe::FiveMinutes => {},
        Timeframe::ThirtyMinutes => {},
    }
}

} // verus!
