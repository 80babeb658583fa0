//! The rolling indicator: a moving average with bands at a multiple of the
//! standard deviation, over a bounded window of recent samples.

use vstd::prelude::*;
use crate::stats::{
    floor_sqrt, integer_sqrt, lemma_floor_sqrt, lemma_spread_nonnegative,
    lemma_square_monotonic, lemma_sums_bounded, lemma_sums_drop_first, lemma_sums_push,
    spread_of, sum_of, sum_sq_of,
};

verus! {

/// Why an indicator could not be made.
#[derive(Debug, Clone, Copy, PartialEq, Eq, Structural)]
pub enum IndicatorError {
    /// The window holds fewer than two samples, or the multiplier is zero.
    InvalidParameter,
}

/// The indicator's value after an update, in the unit of the samples.
#[derive(Debug, Clone, Copy, PartialEq, Eq, Structural)]
pub struct IndicatorSnapshot {
    /// Mean of the window, rounded down.
    pub average: i64,
    /// The average plus the band offset.
    pub upper_band: i64,
    /// The average less the band offset.
    pub lower_band: i64,
}

/// What an [`IndicatorSnapshot`] holds, as mathematical values.
pub struct SnapshotView {
    pub average: int,
    pub upper_band: int,
    pub lower_band: int,
}

impl View for IndicatorSnapshot {
    type V = SnapshotView;

    open spec fn view(&self) -> SnapshotView {
        SnapshotView {
            average: self.average as int,
            upper_band: self.upper_band as int,
            lower_band: self.lower_band as int,
        }
    }
}

/// The mean of `w`, rounded down.
pub open spec fn average_of(w: Seq<u32>) -> nat
    recommends
        w.len() > 0,
{
    sum_of(w) / w.len()
}

/// The multiplier, given in thousandths, times the population standard
/// deviation of `w`, rounded down: the largest `t` for which
/// `(1000 * len * t)^2` is at most `multiplier^2 * spread`.
pub open spec fn band_offset(w: Seq<u32>, multiplier_milli: nat) -> nat
    recommends
        w.len() > 0,
{
    floor_sqrt((multiplier_milli * multiplier_milli * spread_of(w)) as nat) / (1000 * w.len())
}

/// Average and bands of the window `w`.
pub open spec fn snapshot_of(w: Seq<u32>, multiplier_milli: nat) -> SnapshotView
    recommends
        w.len() > 0,
{
    SnapshotView {
        average: average_of(w) as int,
        upper_band: (average_of(w) + band_offset(w, multiplier_milli)) as int,
        lower_band: average_of(w) - band_offset(w, multiplier_milli),
    }
}

/// The window after one more sample: the sample is appended, and once the
/// window is at capacity the oldest sample leaves.
pub open spec fn advanced(w: Seq<u32>, capacity: nat, x: u32) -> Seq<u32> {
    if w.len() < capacity {
        w.push(x)
    } else {
        w.drop_first().push(x)
    }
}

/// The window after the samples `xs`, fed in order.
pub open spec fn fed(w: Seq<u32>, capacity: nat, xs: Seq<u32>) -> Seq<u32>
    decreases xs.len(),
{
    if xs.len() == 0 {
        w
    } else {
        advanced(fed(w, capacity, xs.drop_last()), capacity, xs.last())
    }
}

/// What a [`RollingIndicator`] is, as mathematical values: its two
/// parameters and the samples of its window, oldest first.
pub struct IndicatorView {
    pub window_size: nat,
    pub multiplier_milli: nat,
    pub window: Seq<u32>,
}

impl IndicatorView {
    /// An indicator with these parameters that has seen no sample.
    pub open spec fn fresh(window_size: nat, multiplier_milli: nat) -> IndicatorView {
        IndicatorView { window_size, multiplier_milli, window: Seq::empty() }
    }

    /// This indicator after the sample `x`.
    pub open spec fn after(self, x: u32) -> IndicatorView {
        IndicatorView { window: advanced(self.window, self.window_size, x), ..self }
    }

    /// This indicator after the samples `xs`, fed in order.
    pub open spec fn after_all(self, xs: Seq<u32>) -> IndicatorView {
        IndicatorView { window: fed(self.window, self.window_size, xs), ..self }
    }

    /// Average and bands over the current window.
    pub open spec fn snapshot(self) -> SnapshotView {
        snapshot_of(self.window, self.multiplier_milli)
    }
}

/// A moving average with bands, over the latest `window_size` samples.
///
/// The samples live in a ring; their sum and the sum of their squares are
/// kept beside it, so an update costs the same whatever the window size.
#[derive(Debug)]
pub struct RollingIndicator {
    multiplier_milli: u16,
    ring: Vec<u32>,
    next: usize,
    count: usize,
    sum: u64,
    sum_sq: u128,
}

impl View for RollingIndicator {
    type V = IndicatorView;

    closed spec fn view(&self) -> IndicatorView {
        IndicatorView {
            window_size: self.ring.len() as nat,
            multiplier_milli: self.multiplier_milli as nat,
            window: self.window(),
        }
    }
}

impl RollingIndicator {
    /// The samples of the window, oldest first.
    pub closed spec fn window(&self) -> Seq<u32> {
        if self.count < self.ring.len() {
            self.ring@.take(self.count as int)
        } else {
            self.ring@.subrange(self.next as int, self.ring.len() as int) + self.ring@.take(
                self.next as int,
            )
        }
    }

    /// The ring, its cursor and the running sums agree with the window.
    pub closed spec fn well_formed(&self) -> bool {
        &&& 2 <= self.ring.len() <= 0xffff
        &&& self.multiplier_milli >= 1
        &&& self.count <= self.ring.len()
        &&& self.next < self.ring.len()
        &&& self.count < self.ring.len() ==> self.next == self.count
        &&& self.sum == sum_of(self.window())
        &&& self.sum_sq == sum_sq_of(self.window())
    }

    /// A well-formed indicator has valid parameters and at most a full window.
    pub proof fn lemma_well_formed(&self)
        requires
            self.well_formed(),
        ensures
            2 <= self@.window_size <= 0xffff,
            1 <= self@.multiplier_milli <= 0xffff,
            self@.window.len() <= self@.window_size,
    {
    }

    /// Makes an indicator over the latest `window_size` samples, with bands
    /// at `multiplier_milli` thousandths of a standard deviation.
    ///
    /// Fails when the window would hold fewer than two samples or the
    /// multiplier is zero.
    pub fn new(window_size: u16, multiplier_milli: u16) -> (r: Result<
        RollingIndicator,
        IndicatorError,
    >)
        ensures
            (window_size < 2 || multiplier_milli == 0) <==> r is Err,
            r matches Err(e) ==> e == IndicatorError::InvalidParameter,
            r matches Ok(ind) ==> ind.well_formed() && ind@ == IndicatorView::fresh(
                window_size as nat,
                multiplier_milli as nat,
            ),
    {
        if window_size < 2 || multiplier_milli == 0 {
            return Err(IndicatorError::InvalidParameter);
        }
        let mut ring: Vec<u32> = Vec::new();
        let mut i: u16 = 0;
        while i < window_size
            invariant
                i <= window_size,
                ring.len() == i,
            decreases window_size - i,
        {
            ring.push(0);
            i = i + 1;
        }
        let ind = RollingIndicator { multiplier_milli, ring, next: 0, count: 0, sum: 0, sum_sq: 0 };
        assert(ind.window() =~= Seq::<u32>::empty());
        Ok(ind)
    }

    /// Number of samples the window holds when full.
    pub fn window_size(&self) -> (n: u16)
        requires
            self.well_formed(),
        ensures
            n == self@.window_size,
    {
        self.ring.len() as u16
    }

    /// The band multiplier, in thousandths.
    pub fn multiplier_milli(&self) -> (m: u16)
        ensures
            m == self@.multiplier_milli,
    {
        self.multiplier_milli
    }

    /// Number of samples now in the window.
    pub fn len(&self) -> (n: usize)
        requires
            self.well_formed(),
        ensures
            n == self@.window.len(),
    {
        self.count
    }

    /// Whether the window has reached its size.
    pub fn is_full(&self) -> (b: bool)
        requires
            self.well_formed(),
        ensures
            b == (self@.window.len() == self@.window_size),
    {
        self.count == self.ring.len()
    }

    /// Average and bands over the samples now in the window; `None` while
    /// there are none.
    pub fn snapshot(&self) -> (r: Option<IndicatorSnapshot>)
        requires
            self.well_formed(),
        ensures
            self@.window.len() == 0 <==> r is None,
            r matches Some(snap) ==> snap@ == self@.snapshot(),
    {
        if self.count == 0 {
            None
        } else {
            Some(self.measure())
        }
    }

    /// Takes one sample into the window and returns the average and bands
    /// over the window as it then stands. Before the window is full these
    /// are taken over the samples seen so far.
    pub fn update(&mut self, sample: u32) -> (snap: IndicatorSnapshot)
        requires
            old(self).well_formed(),
        ensures
            final(self).well_formed(),
            final(self)@ == old(self)@.after(sample),
            snap@ == final(self)@.snapshot(),
    {
        let cap = self.ring.len();
        let ghost before = self.window();
        let at = self.next;
        proof {
            lemma_sums_bounded(before);
            assert(sum_of(before) <= 0xffff * 0xffff_ffff) by (nonlinear_arith)
                requires
                    sum_of(before) <= before.len() * 0xffff_ffff,
                    before.len() <= 0xffff,
            ;
            assert(sum_sq_of(before) <= 0xffff * (0xffff_ffff * 0xffff_ffff)) by (nonlinear_arith)
                requires
                    sum_sq_of(before) <= before.len() * (0xffff_ffff * 0xffff_ffff),
                    before.len() <= 0xffff,
            ;
            assert((sample as nat) * (sample as nat) <= 0xffff_ffff * 0xffff_ffff)
                by (nonlinear_arith)
                requires
                    sample <= 0xffff_ffff,
            ;
        }
        let square = (sample as u128) * (sample as u128);
        if self.count < cap {
            self.ring.set(at, sample);
            self.sum = self.sum + sample as u64;
            self.sum_sq = self.sum_sq + square;
            self.count = self.count + 1;
            proof {
                lemma_sums_push(before, sample);
            }
        } else {
            let oldest = self.ring[at];
            proof {
                assert(before[0] == oldest);
                lemma_sums_drop_first(before);
                lemma_sums_push(before.drop_first(), sample);
            }
            let oldest_square = (oldest as u128) * (oldest as u128);
            self.ring.set(at, sample);
            self.sum = self.sum - oldest as u64 + sample as u64;
            self.sum_sq = self.sum_sq - oldest_square + square;
        }
        self.next = if at + 1 < cap {
            at + 1
        } else {
            0
        };
        assert(self.window() =~= advanced(before, cap as nat, sample));
        self.measure()
    }

    /// Average and bands over a window that holds at least one sample.
    fn measure(&self) -> (snap: IndicatorSnapshot)
        requires
            self.well_formed(),
            self.count > 0,
        ensures
            snap@ == self@.snapshot(),
    {
        let ghost w = self.window();
        let n = self.count as u128;
        let s = self.sum as u128;
        let q = self.sum_sq;
        let m = self.multiplier_milli as u128;
        proof {
            lemma_sums_bounded(w);
            lemma_spread_nonnegative(w);
            assert(n * q <= 0xffff * (0xffff * (0xffff_ffff * 0xffff_ffff))) by (nonlinear_arith)
                requires
                    q <= n * (0xffff_ffff * 0xffff_ffff),
                    n <= 0xffff,
            ;
            assert(s * s <= (0xffff * 0xffff_ffff) * (0xffff * 0xffff_ffff)) by (nonlinear_arith)
                requires
                    s <= n * 0xffff_ffff,
                    n <= 0xffff,
            ;
        }
        let spread = n * q - s * s;
        proof {
            assert(m * m <= 0xffff * 0xffff) by (nonlinear_arith)
                requires
                    m <= 0xffff,
            ;
            assert((m * m) * spread <= (0xffff * 0xffff) * (0xffff * (0xffff * (0xffff_ffff
                * 0xffff_ffff)))) by (nonlinear_arith)
                requires
                    m * m <= 0xffff * 0xffff,
                    0 <= spread <= 0xffff * (0xffff * (0xffff_ffff * 0xffff_ffff)),
            ;
            assert(s * s <= n * q);
        }
        let scaled = (m * m) * spread;
        let root = integer_sqrt(scaled) as u128;
        let offset = root / (1000 * n);
        let average = s / n;
        proof {
            let bound: nat = 0xffff * (0xffff * 0xffff_ffff);
            assert(bound * bound == (0xffff * 0xffff) * (0xffff * (0xffff * (0xffff_ffff
                * 0xffff_ffff)))) by (nonlinear_arith)
                requires
                    bound == 0xffff * (0xffff * 0xffff_ffff),
            ;
            if root > bound {
                lemma_square_monotonic(bound, root as nat);
            }
            assert(root <= bound);
            assert(1000 * offset <= root) by (nonlinear_arith)
                requires
                    offset == (root as int) / (1000 * n),
                    n >= 1,
            ;
            assert(average <= 0xffff_ffff) by (nonlinear_arith)
                requires
                    average == (s as int) / (n as int),
                    s <= n * 0xffff_ffff,
                    n >= 1,
            ;
        }
        IndicatorSnapshot {
            average: average as i64,
            upper_band: average as i64 + offset as i64,
            lower_band: average as i64 - offset as i64,
        }
    }
}

/// The band offset is the multiplier times the standard deviation, rounded
/// down: with `n` samples, the standard deviation is the square root of the
/// spread over `n`, so the offset `t` is the largest whole number with
/// `(1000 * n * t)^2` at most `multiplier^2 * spread`.
pub proof fn lemma_band_offset_is_floor(w: Seq<u32>, multiplier_milli: nat)
    requires
        w.len() > 0,
    ensures
        ({
            let t = band_offset(w, multiplier_milli);
            let n = w.len();
            let scaled = multiplier_milli * multiplier_milli * spread_of(w);
            &&& scaled >= 0
            &&& (1000 * n * t) * (1000 * n * t) <= scaled
            &&& scaled < (1000 * n * (t + 1)) * (1000 * n * (t + 1))
        }),
{
    lemma_spread_nonnegative(w);
    let n = w.len();
    let m2 = multiplier_milli * multiplier_milli;
    let scaled = m2 * spread_of(w);
    assert(scaled >= 0) by (nonlinear_arith)
        requires
            scaled == m2 * spread_of(w),
            m2 >= 0,
            spread_of(w) >= 0,
    ;
    let v = scaled as nat;
    lemma_floor_sqrt(v);
    let r = floor_sqrt(v);
    let d = 1000 * n;
    let t = r / d;
    assert(t == band_offset(w, multiplier_milli));
    assert(d * t <= r && r < d * (t + 1)) by (nonlinear_arith)
        requires
            t == r / d,
            d > 0,
    ;
    lemma_square_monotonic(d * t, r);
    lemma_square_monotonic(r + 1, d * (t + 1));
}

/// Feeding two runs of samples one after the other is feeding them as one run.
pub proof fn lemma_fed_concat(w: Seq<u32>, capacity: nat, xs: Seq<u32>, ys: Seq<u32>)
    ensures
        fed(fed(w, capacity, xs), capacity, ys) == fed(w, capacity, xs + ys),
    decreases ys.len(),
{
    if ys.len() == 0 {
        assert(xs + ys =~= xs);
    } else {
        lemma_fed_concat(w, capacity, xs, ys.drop_last());
        assert((xs + ys).drop_last() =~= xs + ys.drop_last());
        assert((xs + ys).last() == ys.last());
    }
}

/// A window never grows past its capacity.
pub proof fn lemma_fed_len(w: Seq<u32>, capacity: nat, xs: Seq<u32>)
    requires
        w.len() <= capacity,
        capacity > 0,
    ensures
        fed(w, capacity, xs).len() <= capacity,
        fed(w, capacity, xs).len() == if w.len() + xs.len() <= capacity {
            w.len() + xs.len()
        } else {
            capacity
        },
    decreases xs.len(),
{
    if xs.len() > 0 {
        lemma_fed_len(w, capacity, xs.drop_last());
    }
}

/// From an empty window, the window after any run of samples is the tail of
/// that run: its latest `capacity` samples, or all of them while there are
/// fewer. Nothing but the oldest sample ever leaves.
pub proof fn lemma_window_is_tail(capacity: nat, xs: Seq<u32>)
    requires
        capacity > 0,
    ensures
        fed(Seq::empty(), capacity, xs) == if xs.len() <= capacity {
            xs
        } else {
            xs.subrange(xs.len() - capacity, xs.len() as int)
        },
    decreases xs.len(),
{
    if xs.len() > 0 {
        let head = xs.drop_last();
        lemma_window_is_tail(capacity, head);
        let before = fed(Seq::empty(), capacity, head);
        if head.len() < capacity {
            assert(before.push(xs.last()) =~= xs);
        } else if head.len() == capacity {
            assert(head.drop_first().push(xs.last()) =~= xs.subrange(
                xs.len() - capacity,
                xs.len() as int,
            ));
        } else {
            assert(before.drop_first().push(xs.last()) =~= xs.subrange(
                xs.len() - capacity,
                xs.len() as int,
            ));
        }
    } else {
        assert(xs =~= Seq::<u32>::empty());
    }
}

/// Two indicators that agree in parameters and window, however each keeps
/// its samples, agree in state and in snapshot after every one of the same
/// samples fed in the same order. So do any two made with the same
/// parameters and fed from cold.
pub proof fn lemma_same_samples_same_snapshots(
    a: RollingIndicator,
    b: RollingIndicator,
    xs: Seq<u32>,
)
    requires
        a@ == b@,
    ensures
        forall|k: int|
            0 <= k <= xs.len() ==> {
                &&& (#[trigger] a@.after_all(xs.take(k))) == b@.after_all(xs.take(k))
                &&& a@.after_all(xs.take(k)).snapshot() == b@.after_all(xs.take(k)).snapshot()
            },
{
}

/// An indicator primed with a history and then fed live samples goes through
/// the states and snapshots of one fed the history and the live samples as a
/// single run.
pub proof fn lemma_primed_then_live(start: IndicatorView, history: Seq<u32>, live: Seq<u32>)
    ensures
        forall|k: int|
            0 <= k <= live.len() ==> {
                &&& (#[trigger] start.after_all(history).after_all(live.take(k)))
                    == start.after_all(history + live.take(k))
                &&& start.after_all(history).after_all(live.take(k)).snapshot() == start.after_all(
                    history + live.take(k),
                ).snapshot()
            },
{
    assert forall|k: int| 0 <= k <= live.len() implies (#[trigger] start.after_all(
        history,
    ).after_all(live.take(k))) == start.after_all(history + live.take(k)) by {
        lemma_fed_concat(start.window, start.window_size, history, live.take(k));
    }
}

} // verus!
