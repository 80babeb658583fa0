//! The instrument state store: for each (instrument, timeframe) pair the
//! candle in progress and the rolling indicator, changed one tick at a time.

use vstd::prelude::*;
use crate::candle::{aggregate, aggregate_spec, candle_view, starts_bucket, Candle, CandleView};
use crate::indicator::{
    IndicatorError, IndicatorSnapshot, IndicatorView, RollingIndicator, SnapshotView,
};
use crate::tick::{Tick, TickView};
use crate::timeframe::{Timeframe, TimeframeSet};

verus! {

/// Why the store refused an update.
#[derive(Debug, Clone, Copy, PartialEq, Eq, Structural)]
pub enum StoreError {
    /// Warm-up is mandatory and the key has not been seeded.
    KeyNotReady,
}

/// What identifies an entry: the instrument's name and the timeframe.
pub type KeyView = (Seq<char>, Timeframe);

/// The state kept for one (instrument, timeframe) pair.
#[derive(Debug)]
pub struct Entry {
    /// Instrument identifier.
    pub instrument: String,
    /// Timeframe of the candles.
    pub timeframe: Timeframe,
    /// The candle in progress, once a tick has arrived or warm-up left one.
    pub candle: Option<Candle>,
    /// The rolling indicator over the closes seen.
    pub indicator: RollingIndicator,
    /// Whether warm-up has seeded this entry.
    pub primed: bool,
}

/// What an [`Entry`] holds, as mathematical values.
pub struct EntryView {
    pub candle: Option<CandleView>,
    pub indicator: IndicatorView,
    pub primed: bool,
}

impl Entry {
    /// The key this entry is kept under.
    pub open spec fn key(&self) -> KeyView {
        (self.instrument@, self.timeframe)
    }
}

impl View for Entry {
    type V = EntryView;

    open spec fn view(&self) -> EntryView {
        EntryView {
            candle: candle_view(self.candle),
            indicator: self.indicator@,
            primed: self.primed,
        }
    }
}

/// What the store emits after a tick has been folded in.
#[derive(Debug)]
pub struct OutputEvent {
    /// Instrument identifier.
    pub instrument: String,
    /// Timeframe of the candle.
    pub timeframe: Timeframe,
    /// The candle in progress, after the tick.
    pub candle: Candle,
    /// The indicator, after the candle's close was fed to it.
    pub indicator: IndicatorSnapshot,
    /// Whether the tick began a bucket.
    pub is_new_bucket: bool,
    /// The candle that the tick finished: the one that was in progress when a
    /// tick began the next bucket.
    pub finalized: Option<Candle>,
}

/// What an [`OutputEvent`] holds, as mathematical values.
pub struct OutputEventView {
    pub instrument: Seq<char>,
    pub timeframe: Timeframe,
    pub candle: CandleView,
    pub indicator: SnapshotView,
    pub is_new_bucket: bool,
    pub finalized: Option<CandleView>,
}

impl View for OutputEvent {
    type V = OutputEventView;

    open spec fn view(&self) -> OutputEventView {
        OutputEventView {
            instrument: self.instrument@,
            timeframe: self.timeframe,
            candle: self.candle@,
            indicator: self.indicator@,
            is_new_bucket: self.is_new_bucket,
            finalized: candle_view(self.finalized),
        }
    }
}

/// Whether the candle, if there is one, has its prices in order.
pub open spec fn candle_ordered(candle: Option<CandleView>) -> bool {
    candle matches Some(c) ==> c.ordered()
}

/// The entry after `tick`: the candle takes the tick, and the indicator is
/// fed the close of that candle.
pub open spec fn entry_after(entry: EntryView, tick: TickView, tf: Timeframe) -> EntryView {
    let candle = aggregate_spec(entry.candle, tick, tf).0;
    EntryView {
        candle: Some(candle),
        indicator: entry.indicator.after(candle.close),
        primed: entry.primed,
    }
}

/// The event that folding `tick` into `entry` gives.
pub open spec fn event_of(entry: EntryView, tick: TickView, tf: Timeframe) -> OutputEventView {
    let step = aggregate_spec(entry.candle, tick, tf);
    OutputEventView {
        instrument: tick.instrument,
        timeframe: tf,
        candle: step.0,
        indicator: entry.indicator.after(step.0.close).snapshot(),
        is_new_bucket: step.1,
        finalized: if step.1 {
            entry.candle
        } else {
            None
        },
    }
}

/// What an [`InstrumentStore`] holds, as mathematical values.
pub struct StoreView {
    /// Window size of the indicators that the store makes.
    pub window_size: nat,
    /// Band multiplier, in thousandths, of the indicators that the store makes.
    pub multiplier_milli: nat,
    /// Whether a key must be seeded before it takes ticks.
    pub warmup_mandatory: bool,
    /// The entries, by key.
    pub entries: Map<KeyView, EntryView>,
}

impl StoreView {
    /// The entry that a key begins with when it is made on its first tick.
    pub open spec fn cold_entry(self) -> EntryView {
        EntryView {
            candle: None,
            indicator: IndicatorView::fresh(self.window_size, self.multiplier_milli),
            primed: false,
        }
    }

    /// The entry under `key`, or the one it would begin with.
    pub open spec fn entry_or_cold(self, key: KeyView) -> EntryView {
        if self.entries.contains_key(key) {
            self.entries[key]
        } else {
            self.cold_entry()
        }
    }

    /// Whether `key` may take ticks: always when warm-up is not mandatory,
    /// else once it has been seeded.
    pub open spec fn ready(self, key: KeyView) -> bool {
        !self.warmup_mandatory || (self.entries.contains_key(key) && self.entries[key].primed)
    }

    /// Whether the volume of the candle under the tick's key, with the
    /// tick's volume added, fits the candle's counter.
    pub open spec fn volume_fits(self, tick: TickView, tf: Timeframe) -> bool {
        let entry = self.entry_or_cold((tick.instrument, tf));
        !starts_bucket(entry.candle, tick, tf) ==> entry.candle->0.volume + tick.volume
            <= u64::MAX
    }

    /// The store after `tick` for timeframe `tf`: unchanged when the key is
    /// not ready, else with the key's entry advanced by the tick.
    pub open spec fn applied(self, tick: TickView, tf: Timeframe) -> StoreView {
        let key = (tick.instrument, tf);
        if self.ready(key) {
            StoreView {
                entries: self.entries.insert(key, entry_after(self.entry_or_cold(key), tick, tf)),
                ..self
            }
        } else {
            self
        }
    }

    /// What an update with `tick` for timeframe `tf` returns.
    pub open spec fn outcome(self, tick: TickView, tf: Timeframe) -> Result<
        OutputEventView,
        StoreError,
    > {
        let key = (tick.instrument, tf);
        if self.ready(key) {
            Ok(event_of(self.entry_or_cold(key), tick, tf))
        } else {
            Err(StoreError::KeyNotReady)
        }
    }

    /// The store after `tick` for `tf` when `watched`, else the store itself.
    pub open spec fn applied_if(self, watched: bool, tick: TickView, tf: Timeframe) -> StoreView {
        if watched {
            self.applied(tick, tf)
        } else {
            self
        }
    }

    /// The store after `tick` for every timeframe of `set`, shortest first.
    pub open spec fn applied_set(self, tick: TickView, set: TimeframeSet) -> StoreView {
        self.applied_if(set.one_minute, tick, Timeframe::OneMinute).applied_if(
            set.five_minutes,
            tick,
            Timeframe::FiveMinutes,
        ).applied_if(set.thirty_minutes, tick, Timeframe::ThirtyMinutes)
    }

    /// The store after the steps `steps`, each a tick and a timeframe, in order.
    pub open spec fn applied_all(self, steps: Seq<(TickView, Timeframe)>) -> StoreView
        decreases steps.len(),
    {
        if steps.len() == 0 {
            self
        } else {
            self.applied_all(steps.drop_last()).applied(steps.last().0, steps.last().1)
        }
    }
}

/// The key that a step goes to.
pub open spec fn key_of(step: (TickView, Timeframe)) -> KeyView {
    (step.0.instrument, step.1)
}

/// The steps of `steps` that go to `key`, in their order.
pub open spec fn steps_of_key(steps: Seq<(TickView, Timeframe)>, key: KeyView) -> Seq<
    (TickView, Timeframe),
>
    decreases steps.len(),
{
    if steps.len() == 0 {
        Seq::empty()
    } else if key_of(steps.last()) == key {
        steps_of_key(steps.drop_last(), key).push(steps.last())
    } else {
        steps_of_key(steps.drop_last(), key)
    }
}

/// Steps change neither the store's parameters nor its warm-up policy.
pub proof fn lemma_steps_keep_settings(store: StoreView, steps: Seq<(TickView, Timeframe)>)
    ensures
        store.applied_all(steps).window_size == store.window_size,
        store.applied_all(steps).multiplier_milli == store.multiplier_milli,
        store.applied_all(steps).warmup_mandatory == store.warmup_mandatory,
    decreases steps.len(),
{
    if steps.len() > 0 {
        lemma_steps_keep_settings(store, steps.drop_last());
    }
}

/// Keys do not interfere: after any interleaving of steps for many keys,
/// what the store holds under one key is what it would hold had only that
/// key's steps been applied, in the order they had among themselves.
pub proof fn lemma_keys_independent(
    store: StoreView,
    steps: Seq<(TickView, Timeframe)>,
    key: KeyView,
)
    ensures
        store.applied_all(steps).entries.contains_key(key) == store.applied_all(
            steps_of_key(steps, key),
        ).entries.contains_key(key),
        store.applied_all(steps).entries.contains_key(key) ==> store.applied_all(
            steps,
        ).entries[key] == store.applied_all(steps_of_key(steps, key)).entries[key],
    decreases steps.len(),
{
    if steps.len() > 0 {
        let head = steps.drop_last();
        let last = steps.last();
        lemma_keys_independent(store, head, key);
        lemma_steps_keep_settings(store, head);
        lemma_steps_keep_settings(store, steps_of_key(head, key));
        if key_of(last) == key {
            assert(steps_of_key(steps, key).drop_last() =~= steps_of_key(head, key));
        }
    }
}

/// Two stores with the same settings that agree on what they hold under a
/// key still agree on it after the same steps.
pub proof fn lemma_same_steps_same_entry(
    first: StoreView,
    second: StoreView,
    steps: Seq<(TickView, Timeframe)>,
    key: KeyView,
)
    requires
        first.window_size == second.window_size,
        first.multiplier_milli == second.multiplier_milli,
        first.warmup_mandatory == second.warmup_mandatory,
        first.entries.contains_key(key) == second.entries.contains_key(key),
        first.entries.contains_key(key) ==> first.entries[key] == second.entries[key],
    ensures
        first.applied_all(steps).entries.contains_key(key) == second.applied_all(
            steps,
        ).entries.contains_key(key),
        first.applied_all(steps).entries.contains_key(key) ==> first.applied_all(
            steps,
        ).entries[key] == second.applied_all(steps).entries[key],
    decreases steps.len(),
{
    if steps.len() > 0 {
        lemma_same_steps_same_entry(first, second, steps.drop_last(), key);
        lemma_steps_keep_settings(first, steps.drop_last());
        lemma_steps_keep_settings(second, steps.drop_last());
    }
}

/// Stores may be split by key: where two stores have the same settings and
/// agree on what they hold under a key, and each is given its own run of
/// steps, they agree on that key afterwards as long as the steps for that key
/// are the same in both runs, whatever else each run holds. So a store that
/// serves one key alone ends with what a store shared by many keys holds
/// for it.
pub proof fn lemma_shards_agree(
    first: StoreView,
    second: StoreView,
    first_steps: Seq<(TickView, Timeframe)>,
    second_steps: Seq<(TickView, Timeframe)>,
    key: KeyView,
)
    requires
        first.window_size == second.window_size,
        first.multiplier_milli == second.multiplier_milli,
        first.warmup_mandatory == second.warmup_mandatory,
        first.entries.contains_key(key) == second.entries.contains_key(key),
        first.entries.contains_key(key) ==> first.entries[key] == second.entries[key],
        steps_of_key(first_steps, key) == steps_of_key(second_steps, key),
    ensures
        first.applied_all(first_steps).entries.contains_key(key) == second.applied_all(
            second_steps,
        ).entries.contains_key(key),
        first.applied_all(first_steps).entries.contains_key(key) ==> first.applied_all(
            first_steps,
        ).entries[key] == second.applied_all(second_steps).entries[key],
{
    lemma_keys_independent(first, first_steps, key);
    lemma_keys_independent(second, second_steps, key);
    lemma_same_steps_same_entry(first, second, steps_of_key(first_steps, key), key);
}

/// A key that no step goes to is left as it was.
pub proof fn lemma_untouched_key(store: StoreView, steps: Seq<(TickView, Timeframe)>, key: KeyView)
    requires
        forall|i: int| 0 <= i < steps.len() ==> key_of(#[trigger] steps[i]) != key,
    ensures
        store.applied_all(steps).entries.contains_key(key) == store.entries.contains_key(key),
        store.entries.contains_key(key) ==> store.applied_all(steps).entries[key]
            == store.entries[key],
    decreases steps.len(),
{
    if steps.len() > 0 {
        let head = steps.drop_last();
        assert forall|i: int| 0 <= i < head.len() implies key_of(#[trigger] head[i]) != key by {
            assert(head[i] == steps[i]);
        }
        lemma_untouched_key(store, head, key);
        assert(key_of(steps[steps.len() - 1]) != key);
    }
}

/// A candle is handed out as finished exactly once: by the update whose tick
/// begins the next bucket, and by neither the update before it nor the one
/// after it. That update's candle opens and closes at the price of its tick.
pub proof fn lemma_finalized_once(
    entry: EntryView,
    first: TickView,
    second: TickView,
    third: TickView,
    tf: Timeframe,
)
    requires
        entry.candle matches Some(c) && c.bucket_start_ms == tf.bucket_of(first.timestamp_ms),
        second.timestamp_ms == first.timestamp_ms + tf.width_ms(),
        tf.bucket_of(third.timestamp_ms) == tf.bucket_of(second.timestamp_ms),
    ensures
        event_of(entry, first, tf).finalized is None,
        ({
            let e1 = entry_after(entry, first, tf);
            let e2 = entry_after(e1, second, tf);
            &&& event_of(e1, second, tf).is_new_bucket
            &&& event_of(e1, second, tf).finalized == e1.candle
            &&& e1.candle is Some
            &&& event_of(e1, second, tf).candle.open == second.price
            &&& event_of(e1, second, tf).candle.close == second.price
            &&& event_of(e2, third, tf).finalized is None
        }),
{
    let current = entry.candle->0;
    crate::candle::lemma_rollover(current, first, second, tf);
    let e1 = entry_after(entry, first, tf);
    assert(e1.candle->0.bucket_start_ms == current.bucket_start_ms);
    crate::candle::lemma_rollover(e1.candle->0, first, second, tf);
}

/// Whether some entry of `es` is kept under `key`.
pub open spec fn has_key(es: Seq<Entry>, key: KeyView) -> bool {
    exists|i: int| 0 <= i < es.len() && (#[trigger] es[i]).key() == key
}

/// A position in `es` of an entry kept under `key`.
pub open spec fn position_of(es: Seq<Entry>, key: KeyView) -> int {
    choose|i: int| 0 <= i < es.len() && (#[trigger] es[i]).key() == key
}

/// Whether no two entries of `es` share a key.
pub open spec fn distinct_keys(es: Seq<Entry>) -> bool {
    forall|i: int, j: int|
        0 <= i < es.len() && 0 <= j < es.len() && i != j ==> (#[trigger] es[i]).key() != (
        #[trigger] es[j]).key()
}

/// The entries of `es`, by key.
pub open spec fn entries_by_key(es: Seq<Entry>) -> Map<KeyView, EntryView> {
    Map::new(|key: KeyView| has_key(es, key), |key: KeyView| es[position_of(es, key)]@)
}

/// Replacing the entry at `i` by one with the same key replaces what the
/// map holds under that key and nothing else.
pub proof fn lemma_replace_entry(es: Seq<Entry>, i: int, e: Entry)
    requires
        distinct_keys(es),
        0 <= i < es.len(),
        e.key() == es[i].key(),
    ensures
        distinct_keys(es.update(i, e)),
        entries_by_key(es.update(i, e)) == entries_by_key(es).insert(e.key(), e@),
{
    let es2 = es.update(i, e);
    assert forall|a: int, b: int| 0 <= a < es2.len() && 0 <= b < es2.len() && a != b implies (
    #[trigger] es2[a]).key() != (#[trigger] es2[b]).key() by {
        assert(es2[a].key() == es[a].key());
        assert(es2[b].key() == es[b].key());
    }
    let m1 = entries_by_key(es2);
    let m2 = entries_by_key(es).insert(e.key(), e@);
    assert forall|key: KeyView| m1.contains_key(key) <==> m2.contains_key(key) by {
        if has_key(es2, key) {
            let j = position_of(es2, key);
            assert(es[j].key() == key);
        }
        if has_key(es, key) {
            let j = position_of(es, key);
            assert(es2[j].key() == key);
        }
        if key == e.key() {
            assert(es2[i].key() == key);
        }
    }
    assert forall|key: KeyView| m1.contains_key(key) implies m1[key] == m2[key] by {
        let j = position_of(es2, key);
        assert(es2[j].key() == key);
        if key == e.key() {
            assert(es2[i].key() == key);
            assert(j == i);
        } else {
            assert(j != i);
            assert(es[j].key() == key);
            let k = position_of(es, key);
            assert(es[k].key() == key);
            assert(k == j);
        }
    }
    assert(m1 =~= m2);
}

/// Appending an entry under a key that no entry has adds it to the map.
pub proof fn lemma_append_entry(es: Seq<Entry>, e: Entry)
    requires
        distinct_keys(es),
        !has_key(es, e.key()),
    ensures
        distinct_keys(es.push(e)),
        entries_by_key(es.push(e)) == entries_by_key(es).insert(e.key(), e@),
{
    let es2 = es.push(e);
    let last = es.len() as int;
    assert forall|a: int, b: int| 0 <= a < es2.len() && 0 <= b < es2.len() && a != b implies (
    #[trigger] es2[a]).key() != (#[trigger] es2[b]).key() by {
        if a < last {
            assert(es2[a] == es[a]);
        }
        if b < last {
            assert(es2[b] == es[b]);
        }
    }
    let m1 = entries_by_key(es2);
    let m2 = entries_by_key(es).insert(e.key(), e@);
    assert forall|key: KeyView| m1.contains_key(key) <==> m2.contains_key(key) by {
        if has_key(es2, key) {
            let j = position_of(es2, key);
            if j < last {
                assert(es[j].key() == key);
            }
        }
        if has_key(es, key) {
            let j = position_of(es, key);
            assert(es2[j].key() == key);
        }
        if key == e.key() {
            assert(es2[last].key() == key);
        }
    }
    assert forall|key: KeyView| m1.contains_key(key) implies m1[key] == m2[key] by {
        let j = position_of(es2, key);
        assert(es2[j].key() == key);
        if key == e.key() {
            assert(es2[last].key() == key);
            assert(j == last);
        } else {
            assert(j < last);
            assert(es[j].key() == key);
            let k = position_of(es, key);
            assert(es[k].key() == key);
            assert(es2[k].key() == key);
            assert(k == j);
        }
    }
    assert(m1 =~= m2);
}

/// For each (instrument, timeframe) pair, the candle in progress and the
/// rolling indicator. Entries are made on the first tick of a key or by
/// seeding, and are never removed.
#[derive(Debug)]
pub struct InstrumentStore {
    window_size: u16,
    multiplier_milli: u16,
    warmup_mandatory: bool,
    entries: Vec<Entry>,
}

impl View for InstrumentStore {
    type V = StoreView;

    closed spec fn view(&self) -> StoreView {
        StoreView {
            window_size: self.window_size as nat,
            multiplier_milli: self.multiplier_milli as nat,
            warmup_mandatory: self.warmup_mandatory,
            entries: entries_by_key(self.entries@),
        }
    }
}

impl InstrumentStore {
    /// The parameters are valid, no two entries share a key, every indicator
    /// is well formed, and every candle has its prices in order.
    pub closed spec fn well_formed(&self) -> bool {
        &&& self.window_size >= 2
        &&& self.multiplier_milli >= 1
        &&& distinct_keys(self.entries@)
        &&& forall|i: int|
            0 <= i < self.entries.len() ==> (#[trigger] self.entries[i]).indicator.well_formed()
        &&& forall|i: int|
            0 <= i < self.entries.len() ==> candle_ordered(
                candle_view((#[trigger] self.entries[i]).candle),
            )
    }

    /// Number of slots in use.
    pub closed spec fn slots(&self) -> nat {
        self.entries.len() as nat
    }

    /// The key of the entry in slot `slot`.
    pub closed spec fn key_at(&self, slot: int) -> KeyView {
        self.entries[slot].key()
    }

    /// The entry in slot `slot`.
    pub closed spec fn entry_at(&self, slot: int) -> Entry {
        self.entries[slot]
    }

    /// Every slot in use holds the entry that the view has under its key,
    /// and in a well-formed store every key of the view has a slot.
    pub proof fn lemma_slots(&self)
        requires
            self.well_formed(),
        ensures
            self@.window_size >= 2,
            self@.multiplier_milli >= 1,
            forall|slot: int|
                0 <= slot < self.slots() ==> self@.entries.contains_key(
                    #[trigger] self.key_at(slot),
                ) && self@.entries[self.key_at(slot)] == self.entry_at(slot)@,
            forall|key: KeyView|
                self@.entries.contains_key(key) ==> exists|slot: int|
                    0 <= slot < self.slots() && #[trigger] self.key_at(slot) == key,
            forall|key: KeyView|
                #[trigger] self@.entries.contains_key(key) ==> 2
                    <= self@.entries[key].indicator.window_size <= 0xffff && 1
                    <= self@.entries[key].indicator.multiplier_milli && self@.entries[key].indicator.window.len()
                    <= self@.entries[key].indicator.window_size && candle_ordered(
                    self@.entries[key].candle,
                ),
    {
        let es = self.entries@;
        assert forall|slot: int| 0 <= slot < self.slots() implies self@.entries.contains_key(
            #[trigger] self.key_at(slot),
        ) && self@.entries[self.key_at(slot)] == self.entry_at(slot)@ by {
            let key = es[slot].key();
            assert(has_key(es, key));
            let j = position_of(es, key);
            assert(es[j].key() == key);
            assert(j == slot);
        }
        assert forall|key: KeyView| self@.entries.contains_key(key) implies exists|slot: int|
            0 <= slot < self.slots() && #[trigger] self.key_at(slot) == key by {
            let j = position_of(es, key);
            assert(es[j].key() == key);
            assert(self.key_at(j) == key);
        }
        assert forall|key: KeyView| #[trigger] self@.entries.contains_key(key) implies 2
            <= self@.entries[key].indicator.window_size <= 0xffff && 1
            <= self@.entries[key].indicator.multiplier_milli && self@.entries[key].indicator.window.len()
            <= self@.entries[key].indicator.window_size && candle_ordered(
            self@.entries[key].candle,
        ) by {
            let j = position_of(es, key);
            assert(es[j].key() == key);
            es[j].indicator.lemma_well_formed();
            assert(candle_ordered(candle_view(es[j].candle)));
        }
    }

    /// Makes an empty store whose indicators take `window_size` samples and
    /// put their bands at `multiplier_milli` thousandths of a standard
    /// deviation. With `warmup_mandatory`, a key takes ticks only once it has
    /// been seeded.
    ///
    /// Fails on the parameters on which an indicator cannot be made.
    pub fn new(window_size: u16, multiplier_milli: u16, warmup_mandatory: bool) -> (r: Result<
        InstrumentStore,
        IndicatorError,
    >)
        ensures
            (window_size < 2 || multiplier_milli == 0) <==> r is Err,
            r matches Err(e) ==> e == IndicatorError::InvalidParameter,
            r matches Ok(store) ==> store.well_formed() && store@ == (StoreView {
                window_size: window_size as nat,
                multiplier_milli: multiplier_milli as nat,
                warmup_mandatory,
                entries: Map::empty(),
            }),
    {
        if window_size < 2 || multiplier_milli == 0 {
            return Err(IndicatorError::InvalidParameter);
        }
        let store = InstrumentStore {
            window_size,
            multiplier_milli,
            warmup_mandatory,
            entries: Vec::new(),
        };
        assert(store@.entries =~= Map::empty());
        Ok(store)
    }

    /// Window size of the indicators that the store makes.
    pub fn window_size(&self) -> (n: u16)
        ensures
            n == self@.window_size,
    {
        self.window_size
    }

    /// Band multiplier, in thousandths, of the indicators that the store makes.
    pub fn multiplier_milli(&self) -> (m: u16)
        ensures
            m == self@.multiplier_milli,
    {
        self.multiplier_milli
    }

    /// Whether a key must be seeded before it takes ticks.
    pub fn warmup_mandatory(&self) -> (b: bool)
        ensures
            b == self@.warmup_mandatory,
    {
        self.warmup_mandatory
    }

    /// Number of keys in the store.
    pub fn len(&self) -> (n: usize)
        ensures
            n == self.slots(),
    {
        self.entries.len()
    }

    /// The slot of the entry under the key, if there is one.
    pub fn find(&self, instrument: &String, timeframe: Timeframe) -> (r: Option<usize>)
        ensures
            r is Some <==> self@.entries.contains_key((instrument@, timeframe)),
            r matches Some(slot) ==> slot < self.slots() && self.key_at(slot as int) == (
                instrument@,
                timeframe,
            ),
    {
        let mut i: usize = 0;
        while i < self.entries.len()
            invariant
                i <= self.entries.len(),
                forall|j: int| 0 <= j < i ==> (#[trigger] self.entries[j]).key() != (
                    instrument@,
                    timeframe,
                ),
            decreases self.entries.len() - i,
        {
            if self.entries[i].timeframe == timeframe && self.entries[i].instrument == *instrument {
                return Some(i);
            }
            i = i + 1;
        }
        None
    }

    /// The entry in a slot in use.
    pub fn entry(&self, slot: usize) -> (e: &Entry)
        requires
            slot < self.slots(),
        ensures
            *e == self.entry_at(slot as int),
    {
        &self.entries[slot]
    }

    /// The entry under the key, if there is one.
    pub fn get(&self, instrument: &String, timeframe: Timeframe) -> (r: Option<&Entry>)
        requires
            self.well_formed(),
        ensures
            r is Some <==> self@.entries.contains_key((instrument@, timeframe)),
            r matches Some(e) ==> e@ == self@.entries[(instrument@, timeframe)] && e.key() == (
                instrument@,
                timeframe,
            ) && e.indicator.well_formed(),
    {
        proof {
            self.lemma_slots();
        }
        match self.find(instrument, timeframe) {
            Some(slot) => Some(&self.entries[slot]),
            None => None,
        }
    }

    /// The slot of the entry under the key; the entry is made, cold, when
    /// there is none. Slots already in use keep their keys.
    pub fn get_or_create(&mut self, instrument: &String, timeframe: Timeframe) -> (slot: usize)
        requires
            old(self).well_formed(),
        ensures
            final(self).well_formed(),
            slot < final(self).slots(),
            final(self).key_at(slot as int) == (instrument@, timeframe),
            final(self)@ == (StoreView {
                entries: if old(self)@.entries.contains_key((instrument@, timeframe)) {
                    old(self)@.entries
                } else {
                    old(self)@.entries.insert((instrument@, timeframe), old(self)@.cold_entry())
                },
                ..old(self)@
            }),
            old(self).slots() <= final(self).slots(),
            forall|s: int|
                0 <= s < old(self).slots() ==> final(self).key_at(s) == old(self).key_at(s),
    {
        match self.find(instrument, timeframe) {
            Some(slot) => {
                assert(self@.entries =~= old(self)@.entries);
                slot
            },
            None => {
                let indicator = match RollingIndicator::new(
                    self.window_size,
                    self.multiplier_milli,
                ) {
                    Ok(indicator) => indicator,
                    Err(_) => {
                        proof {
                            assert(false);
                        }
                        vstd::pervasive::unreached()
                    },
                };
                let entry = Entry {
                    instrument: instrument.clone(),
                    timeframe,
                    candle: None,
                    indicator,
                    primed: false,
                };
                proof {
                    lemma_append_entry(self.entries@, entry);
                }
                self.entries.push(entry);
                self.entries.len() - 1
            },
        }
    }

    /// Installs a primed indicator, and the candle in progress if warm-up
    /// left one, under the key, and marks the key as seeded. What the key
    /// held before is replaced. The candle's prices must be in order.
    pub fn seed(
        &mut self,
        instrument: &String,
        timeframe: Timeframe,
        indicator: RollingIndicator,
        current: Option<Candle>,
    )
        requires
            old(self).well_formed(),
            indicator.well_formed(),
            candle_ordered(candle_view(current)),
        ensures
            final(self).well_formed(),
            final(self)@ == (StoreView {
                entries: old(self)@.entries.insert(
                    (instrument@, timeframe),
                    EntryView { candle: candle_view(current), indicator: indicator@, primed: true },
                ),
                ..old(self)@
            }),
    {
        let entry = Entry {
            instrument: instrument.clone(),
            timeframe,
            candle: current,
            indicator,
            primed: true,
        };
        match self.find(instrument, timeframe) {
            Some(slot) => {
                proof {
                    lemma_replace_entry(self.entries@, slot as int, entry);
                }
                self.entries.set(slot, entry);
            },
            None => {
                proof {
                    lemma_append_entry(self.entries@, entry);
                }
                self.entries.push(entry);
            },
        }
    }

    /// Whether the key of `tick` for `timeframe` may take ticks.
    pub fn is_ready(&self, instrument: &String, timeframe: Timeframe) -> (b: bool)
        requires
            self.well_formed(),
        ensures
            b == self@.ready((instrument@, timeframe)),
    {
        if !self.warmup_mandatory {
            return true;
        }
        match self.get(instrument, timeframe) {
            Some(entry) => entry.primed,
            None => false,
        }
    }

    /// Whether the candle under the tick's key has room for the tick's volume.
    pub fn volume_fits(&self, tick: &Tick, timeframe: Timeframe) -> (b: bool)
        requires
            self.well_formed(),
        ensures
            b == self@.volume_fits(tick@, timeframe),
    {
        match self.get(&tick.instrument, timeframe) {
            Some(entry) => match &entry.candle {
                Some(candle) => {
                    let bucket = timeframe.bucket_start(tick.timestamp_ms);
                    if tick.timestamp_ms >= candle.bucket_start_ms && bucket
                        != candle.bucket_start_ms {
                        true
                    } else {
                        tick.volume <= u64::MAX - candle.volume
                    }
                },
                None => true,
            },
            None => true,
        }
    }

    /// Folds `tick` into the entry of its instrument for `timeframe` and
    /// returns the event to publish: the candle takes the tick, the
    /// indicator is fed the candle's close, and the candle that the tick
    /// finished, if it began a bucket, comes back as finalized.
    ///
    /// A key without an entry gets a cold one first. Where warm-up is
    /// mandatory, a key that has not been seeded is refused with
    /// `KeyNotReady` and the store is left as it was.
    ///
    /// The candle's volume with the tick's added must fit its counter.
    pub fn update(&mut self, tick: &Tick, timeframe: Timeframe) -> (r: Result<
        OutputEvent,
        StoreError,
    >)
        requires
            old(self).well_formed(),
            old(self)@.ready((tick@.instrument, timeframe)) ==> old(self)@.volume_fits(
                tick@,
                timeframe,
            ),
        ensures
            final(self).well_formed(),
            final(self)@ == old(self)@.applied(tick@, timeframe),
            event_view(r) == old(self)@.outcome(tick@, timeframe),
            r matches Ok(event) ==> event.candle.well_formed() && candle_ordered(
                candle_view(event.finalized),
            ),
    {
        if !self.is_ready(&tick.instrument, timeframe) {
            return Err(StoreError::KeyNotReady);
        }
        let slot = self.get_or_create(&tick.instrument, timeframe);
        proof {
            self.lemma_slots();
        }
        let ghost entries_mid = self.entries@;
        let entry = &mut self.entries[slot];
        let prior = entry.candle.take();
        let finished = copy_of(&prior);
        let (candle, is_new_bucket) = aggregate(prior, tick, timeframe);
        let snapshot = entry.indicator.update(candle.close);
        entry.candle = Some(candle.clone());
        proof {
            lemma_replace_entry(entries_mid, slot as int, self.entries[slot as int]);
            assert(self.entries@ =~= entries_mid.update(slot as int, self.entries[slot as int]));
            assert(self@.entries =~= old(self)@.applied(tick@, timeframe).entries);
        }
        Ok(
            OutputEvent {
                instrument: tick.instrument.clone(),
                timeframe,
                candle,
                indicator: snapshot,
                is_new_bucket,
                finalized: if is_new_bucket {
                    finished
                } else {
                    None
                },
            },
        )
    }

    /// Whether every candle that `tick` would go to has room for its volume.
    pub fn volume_fits_all(&self, tick: &Tick, watched: TimeframeSet) -> (b: bool)
        requires
            self.well_formed(),
        ensures
            b == (forall|tf: Timeframe| watched.has(tf) ==> self@.volume_fits(tick@, tf)),
    {
        let one = !watched.one_minute || self.volume_fits(tick, Timeframe::OneMinute);
        let five = !watched.five_minutes || self.volume_fits(tick, Timeframe::FiveMinutes);
        let thirty = !watched.thirty_minutes || self.volume_fits(tick, Timeframe::ThirtyMinutes);
        proof {
            assert(watched.has(Timeframe::OneMinute) == watched.one_minute);
            assert(watched.has(Timeframe::FiveMinutes) == watched.five_minutes);
            assert(watched.has(Timeframe::ThirtyMinutes) == watched.thirty_minutes);
        }
        one && five && thirty
    }

    /// Folds `tick` into the entry of its instrument for every watched
    /// timeframe, shortest first, and returns what each update gave.
    ///
    /// Every candle that the tick goes to must have room for its volume.
    pub fn update_all(&mut self, tick: &Tick, watched: TimeframeSet) -> (events: Vec<
        Result<OutputEvent, StoreError>,
    >)
        requires
            old(self).well_formed(),
            forall|tf: Timeframe| watched.has(tf) ==> old(self)@.volume_fits(tick@, tf),
        ensures
            final(self).well_formed(),
            final(self)@ == old(self)@.applied_set(tick@, watched),
            events.len() == watched.members().len(),
            forall|i: int|
                0 <= i < events.len() ==> event_view(#[trigger] events[i]) == old(self)@.outcome(
                    tick@,
                    watched.members()[i],
                ),
            forall|i: int|
                0 <= i < events.len() ==> ((#[trigger] events[i]) matches Ok(event)
                    ==> event.candle.well_formed() && candle_ordered(
                    candle_view(event.finalized),
                )),
    {
        let mut events: Vec<Result<OutputEvent, StoreError>> = Vec::new();
        let ghost start = self@;
        proof {
            assert(watched.has(Timeframe::OneMinute) == watched.one_minute);
            assert(watched.has(Timeframe::FiveMinutes) == watched.five_minutes);
            assert(watched.has(Timeframe::ThirtyMinutes) == watched.thirty_minutes);
        }
        if watched.one_minute {
            let r = self.update(tick, Timeframe::OneMinute);
            events.push(r);
        }
        let ghost after_one = self@;
        assert(after_one == start.applied_if(watched.one_minute, tick@, Timeframe::OneMinute));
        if watched.five_minutes {
            assert(after_one.outcome(tick@, Timeframe::FiveMinutes) == start.outcome(
                tick@,
                Timeframe::FiveMinutes,
            ));
            let r = self.update(tick, Timeframe::FiveMinutes);
            events.push(r);
        }
        let ghost after_five = self@;
        assert(after_five == after_one.applied_if(
            watched.five_minutes,
            tick@,
            Timeframe::FiveMinutes,
        ));
        if watched.thirty_minutes {
            assert(after_five.outcome(tick@, Timeframe::ThirtyMinutes) == start.outcome(
                tick@,
                Timeframe::ThirtyMinutes,
            ));
            let r = self.update(tick, Timeframe::ThirtyMinutes);
            events.push(r);
        }
        events
    }
}

/// The view of what an update returns.
pub open spec fn event_view(r: Result<OutputEvent, StoreError>) -> Result<
    OutputEventView,
    StoreError,
> {
    match r {
        Ok(event) => Ok(event@),
        Err(e) => Err(e),
    }
}

fn copy_of(candle: &Option<Candle>) -> (c: Option<Candle>)
    ensures
        candle_view(c) == candle_view(*candle),
{
    match candle {
        Some(inner) => Some(inner.clone()),
        None => None,
    }
}

} // verus!
