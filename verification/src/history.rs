//! The history of a task's metrics: snapshots over time, and what can be
//! read off them, such as the time that is left and the trend of a metric.
//!
//! Numbers are fixed-point: a progress or a metric value counts
//! millionths, so that 1.0 is written 1_000_000. Times are milliseconds
//! on a clock that the caller reads.

use crate::strmap::StrMap;
use crate::text::decimal;
use crate::text::last_items;
use crate::text::push_capped;
use crate::text::push_decimal;
use crate::text::push_str;
use crate::text::string_of;
use vstd::prelude::*;

verus! {

/// The number that stands for 1.0.
pub const UNIT: u32 = 1_000_000;

/// How many snapshots a history keeps.
pub const MAX_SNAPSHOTS: usize = 500;

/// Two progress values closer than this count as the same.
pub const PROGRESS_STEP: u32 = 1_000;

/// A snapshot is not repeated within this many milliseconds.
pub const QUIET_MILLIS: u64 = 1_000;

/// The longest time left that is reported: seven days, in milliseconds.
pub const MAX_ETA_MILLIS: u64 = 604_800_000;

/// The metrics of a task at one moment.
pub struct MetricSnapshot {
    /// When the snapshot was taken, in milliseconds.
    pub timestamp: u64,
    /// The progress, in millionths.
    pub progress: u32,
    /// The numeric metrics, in millionths, by name.
    pub metrics: StrMap<i64>,
}

/// The distance between two progress values.
pub open spec fn progress_gap(a: u32, b: u32) -> int {
    if a >= b {
        a - b
    } else {
        b - a
    }
}

/// The time from `then` to `now`; none where `now` is the earlier.
pub open spec fn millis_since(then: u64, now: u64) -> int {
    if now >= then {
        now - then
    } else {
        0
    }
}

/// Whether a snapshot with `progress` at the time `now` repeats the last
/// of `snaps`: the progress has not moved by a thousandth and less than a
/// second has passed.
pub open spec fn repeats(snaps: Seq<MetricSnapshot>, now: u64, progress: u32) -> bool {
    &&& snaps.len() > 0
    &&& progress_gap(snaps.last().progress, progress) < PROGRESS_STEP
    &&& millis_since(snaps.last().timestamp, now) < QUIET_MILLIS
}

/// The snapshots after `snap` was handed in: as before where it repeats
/// the last one, else with `snap` at the end and the oldest dropped where
/// there are more than five hundred.
pub open spec fn recorded(snaps: Seq<MetricSnapshot>, snap: MetricSnapshot) -> Seq<MetricSnapshot> {
    if repeats(snaps, snap.timestamp, snap.progress) {
        snaps
    } else {
        last_items(snaps.push(snap), MAX_SNAPSHOTS as int)
    }
}

/// The last `n` items of `s`, or all of them where there are no more.
pub open spec fn tail<T>(s: Seq<T>, n: int) -> Seq<T> {
    if n >= s.len() {
        s
    } else if n <= 0 {
        Seq::empty()
    } else {
        s.skip(s.len() - n)
    }
}

/// The values of the metric `name` in `snaps`, in order, from those
/// snapshots that have it.
pub open spec fn values_of(snaps: Seq<MetricSnapshot>, name: Seq<char>) -> Seq<i64>
    decreases snaps.len(),
{
    if snaps.len() == 0 {
        Seq::empty()
    } else if snaps.last().metrics.has(name) {
        values_of(snaps.drop_last(), name).push(snaps.last().metrics.at(name))
    } else {
        values_of(snaps.drop_last(), name)
    }
}

/// The sum of the values.
pub open spec fn sum(v: Seq<i64>) -> int
    decreases v.len(),
{
    if v.len() == 0 {
        0
    } else {
        sum(v.drop_last()) + v.last()
    }
}

/// The sum of the values, each times its index.
pub open spec fn weighted_sum(v: Seq<i64>) -> int
    decreases v.len(),
{
    if v.len() == 0 {
        0
    } else {
        weighted_sum(v.drop_last()) + (v.len() - 1) * v.last()
    }
}

/// The sum of the indices below `n`.
pub open spec fn index_sum(n: nat) -> int
    decreases n,
{
    if n == 0 {
        0
    } else {
        index_sum((n - 1) as nat) + (n - 1)
    }
}

/// The sum of the squares of the indices below `n`.
pub open spec fn index_square_sum(n: nat) -> int
    decreases n,
{
    if n == 0 {
        0
    } else {
        index_square_sum((n - 1) as nat) + (n - 1) * (n - 1)
    }
}

/// The numerator of the slope of the line fitted to the values against
/// their indices by least squares.
pub open spec fn slope_numerator(v: Seq<i64>) -> int {
    v.len() * weighted_sum(v) - index_sum(v.len()) * sum(v)
}

/// The denominator of that slope.
pub open spec fn slope_denominator(n: nat) -> int {
    n * index_square_sum(n) - index_sum(n) * index_sum(n)
}

/// The slope of the line fitted to the values, rounded down to a whole
/// number of millionths per step; none for fewer than two values.
pub open spec fn slope(v: Seq<i64>) -> Option<int> {
    if v.len() >= 2 && slope_denominator(v.len()) > 0 {
        Some(slope_numerator(v) / slope_denominator(v.len()))
    } else {
        None
    }
}

/// The least of the values, meaningful where there is one.
pub open spec fn least(v: Seq<i64>) -> int
    decreases v.len(),
{
    if v.len() <= 1 {
        v[0] as int
    } else if v.last() < least(v.drop_last()) {
        v.last() as int
    } else {
        least(v.drop_last())
    }
}

/// The greatest of the values, meaningful where there is one.
pub open spec fn greatest(v: Seq<i64>) -> int
    decreases v.len(),
{
    if v.len() <= 1 {
        v[0] as int
    } else if v.last() > greatest(v.drop_last()) {
        v.last() as int
    } else {
        greatest(v.drop_last())
    }
}

/// The time left, in milliseconds, by the snapshots: the progress still
/// to make, divided by the rate of progress over the last ten snapshots.
/// None where there are fewer than two snapshots, where the progress is
/// not between nought and one, where the progress or the clock has not
/// moved forward over those snapshots, or where the time left is nought
/// or more than seven days.
pub open spec fn time_left(snaps: Seq<MetricSnapshot>) -> Option<int> {
    if snaps.len() < 2 {
        None
    } else {
        let end = snaps.last();
        let start = tail(snaps, 10)[0];
        let gained = end.progress - start.progress;
        let passed = end.timestamp - start.timestamp;
        if end.progress == 0 || end.progress >= UNIT || gained <= 0 || passed <= 0 {
            None
        } else {
            let left = (UNIT - end.progress) * passed / gained;
            if 0 < left <= MAX_ETA_MILLIS {
                Some(left)
            } else {
                None
            }
        }
    }
}

/// The rate of progress over the last ten snapshots, in millionths per
/// second, rounded down; none where there are fewer than two snapshots
/// or the clock has not moved forward over them.
pub open spec fn rate_of(snaps: Seq<MetricSnapshot>) -> Option<int> {
    if snaps.len() < 2 {
        None
    } else {
        let end = snaps.last();
        let start = tail(snaps, 10)[0];
        let passed = end.timestamp - start.timestamp;
        if passed > 0 {
            Some((end.progress - start.progress) * 1000 / passed)
        } else {
            None
        }
    }
}

/// `a / b` rounded down, for a positive `b`.
fn floor_div(a: i128, b: i128) -> (q: i128)
    requires
        b > 0,
        -0x4000_0000_0000_0000_0000_0000_0000_0000 < a < 0x4000_0000_0000_0000_0000_0000_0000_0000,
        b < 0x4000_0000_0000_0000_0000_0000_0000_0000,
    ensures
        q == a as int / b as int,
{
    if a >= 0 {
        (a as u128 / b as u128) as i128
    } else {
        let up: u128 = (-a) as u128;
        let d: u128 = b as u128;
        let q: u128 = (up + d - 1) / d;
        proof {
            // -a = q' * d - r with 0 <= r < d, hence a = (-q') * d + r
            let r = q * d - up;
            assert(0 <= r < d && (a as int) == (-(q as int)) * (b as int) + r) by (nonlinear_arith)
                requires
                    q == (up + d - 1) / (d as int),
                    d > 0,
                    up == -(a as int),
                    d == b as int,
                    r == q * d - up,
            ;
            vstd::arithmetic::div_mod::lemma_fundamental_div_mod_converse(
                a as int,
                b as int,
                -(q as int),
                r as int,
            );
        }
        -(q as i128)
    }
}

/// The snapshots after the same progress was handed in at each of
/// `times`, one call after the other, with the metrics of `metrics`.
pub open spec fn recorded_all(
    snaps: Seq<MetricSnapshot>,
    progress: u32,
    times: Seq<u64>,
    metrics: Seq<StrMap<i64>>,
) -> Seq<MetricSnapshot>
    decreases times.len(),
{
    if times.len() == 0 {
        snaps
    } else {
        recorded(
            recorded_all(snaps, progress, times.drop_last(), metrics.drop_last()),
            MetricSnapshot { timestamp: times.last(), progress, metrics: metrics.last() },
        )
    }
}

/// After any number of calls with the same progress, made within one
/// second of the first on a clock that does not run backwards, the
/// history has grown by one snapshot at most.
pub proof fn lemma_record_dedup(
    snaps: Seq<MetricSnapshot>,
    progress: u32,
    times: Seq<u64>,
    metrics: Seq<StrMap<i64>>,
)
    requires
        times.len() == metrics.len(),
        forall|i: int, j: int| 0 <= i <= j < times.len() ==> (#[trigger] times[i]) <= (#[trigger] times[j]),
        forall|i: int| 0 <= i < times.len() ==> (#[trigger] times[i]) - times[0] < QUIET_MILLIS,
    ensures
        recorded_all(snaps, progress, times, metrics).len() <= snaps.len() + 1,
        recorded_all(snaps, progress, times, metrics) == snaps || {
            let after = recorded_all(snaps, progress, times, metrics);
            &&& after.len() > 0
            &&& after.last().progress == progress
            &&& times[0] <= after.last().timestamp
            &&& exists|k: int| 0 <= k < times.len() && after.last().timestamp == times[k]
        },
    decreases times.len(),
{
    if times.len() > 0 {
        let earlier = times.drop_last();
        lemma_record_dedup(snaps, progress, earlier, metrics.drop_last());
        let before = recorded_all(snaps, progress, earlier, metrics.drop_last());
        let snap = MetricSnapshot { timestamp: times.last(), progress, metrics: metrics.last() };
        let after = recorded(before, snap);
        if before != snaps {
            let k = choose|k: int| 0 <= k < earlier.len() && before.last().timestamp == earlier[k];
            assert(earlier[k] == times[k]);
            assert(times[k] <= times[times.len() - 1]);
            assert(repeats(before, snap.timestamp, snap.progress));
            assert(after.last().timestamp == times[k]);
        } else if !repeats(before, snap.timestamp, snap.progress) {
            assert(after.last() == snap);
            assert(after.last().timestamp == times[times.len() - 1]);
        }
    }
}

/// The history of the metrics of one task.
pub struct TaskMetricHistory {
    snapshots: Vec<MetricSnapshot>,
    started_at: u64,
}

impl TaskMetricHistory {
    /// The snapshots, oldest first.
    pub closed spec fn snaps(&self) -> Seq<MetricSnapshot> {
        self.snapshots@
    }

    /// When the history was begun, in milliseconds.
    pub closed spec fn started(&self) -> u64 {
        self.started_at
    }

    /// There are at most five hundred snapshots, and the metrics of each
    /// are a sound map.
    pub open spec fn wf(&self) -> bool {
        &&& self.snaps().len() <= MAX_SNAPSHOTS
        &&& forall|i: int| 0 <= i < self.snaps().len() ==> (#[trigger] self.snaps()[i]).metrics.wf()
    }

    /// An empty history, begun at the time `now`.
    pub fn new(now: u64) -> (h: Self)
        ensures
            h.wf(),
            h.snaps().len() == 0,
            h.started() == now,
    {
        TaskMetricHistory { snapshots: Vec::new(), started_at: now }
    }

    /// The snapshots, oldest first.
    pub fn snapshots(&self) -> (s: &Vec<MetricSnapshot>)
        ensures
            s@ == self.snaps(),
    {
        &self.snapshots
    }

    /// Takes in the progress and the metrics of the time `now`, unless
    /// they repeat the last snapshot.
    pub fn record(&mut self, now: u64, progress: u32, metrics: StrMap<i64>)
        requires
            old(self).wf(),
            metrics.wf(),
        ensures
            final(self).wf(),
            final(self).started() == old(self).started(),
            final(self).snaps() == recorded(
                old(self).snaps(),
                MetricSnapshot { timestamp: now, progress, metrics },
            ),
    {
        let n = self.snapshots.len();
        if n > 0 {
            let last = &self.snapshots[n - 1];
            let gap = if last.progress >= progress {
                last.progress - progress
            } else {
                progress - last.progress
            };
            let passed = if now >= last.timestamp {
                now - last.timestamp
            } else {
                0
            };
            if gap < PROGRESS_STEP && passed < QUIET_MILLIS {
                return ;
            }
        }
        let snap = MetricSnapshot { timestamp: now, progress, metrics };
        push_capped(&mut self.snapshots, snap, MAX_SNAPSHOTS);
        proof {
            let before = old(self).snaps().push(snap);
            assert forall|i: int| 0 <= i < self.snaps().len() implies (#[trigger] self.snaps()[i]).metrics.wf() by {
                if before.len() > MAX_SNAPSHOTS {
                    assert(self.snaps()[i] == before[before.len() - MAX_SNAPSHOTS + i]);
                } else {
                    assert(self.snaps()[i] == before[i]);
                }
            }
        }
    }

    /// The time since the history was begun, in milliseconds.
    pub fn elapsed(&self, now: u64) -> (ms: u64)
        ensures
            ms == millis_since(self.started(), now),
    {
        if now >= self.started_at {
            now - self.started_at
        } else {
            0
        }
    }

    /// The time left, in milliseconds, where it can be told. When it is
    /// told, the progress lies strictly between nought and one and has
    /// grown while the clock moved forward.
    pub fn estimate_remaining(&self) -> (r: Option<u64>)
        requires
            self.wf(),
        ensures
            match r {
                Some(ms) => time_left(self.snaps()) == Some(ms as int),
                None => time_left(self.snaps()) is None,
            },
            r is Some ==> {
                &&& 0 < self.snaps().last().progress < UNIT
                &&& self.snaps().last().progress > tail(self.snaps(), 10)[0].progress
                &&& self.snaps().last().timestamp > tail(self.snaps(), 10)[0].timestamp
                &&& 0 < r->0 <= MAX_ETA_MILLIS
            },
    {
        let n = self.snapshots.len();
        if n < 2 {
            return None;
        }
        let end = &self.snapshots[n - 1];
        let window: usize = if n < 10 {
            n
        } else {
            10
        };
        let start = &self.snapshots[n - window];
        assert(*start == tail(self.snaps(), 10)[0]);
        if end.progress == 0 || end.progress >= UNIT {
            return None;
        }
        if end.progress <= start.progress || end.timestamp <= start.timestamp {
            return None;
        }
        let gained: u128 = (end.progress - start.progress) as u128;
        let passed: u128 = (end.timestamp - start.timestamp) as u128;
        let ahead: u128 = (UNIT - end.progress) as u128;
        assert(ahead * passed <= 1_000_000 * 0xffff_ffff_ffff_ffff) by (nonlinear_arith)
            requires
                ahead <= 1_000_000,
                passed <= 0xffff_ffff_ffff_ffff,
        ;
        let left: u128 = ahead * passed / gained;
        if left > 0 && left <= MAX_ETA_MILLIS as u128 {
            Some(left as u64)
        } else {
            None
        }
    }

    /// The rate of progress, in millionths per second, where it can be
    /// told.
    pub fn progress_rate(&self) -> (r: Option<i64>)
        requires
            self.wf(),
        ensures
            match r {
                Some(rate) => rate_of(self.snaps()) == Some(rate as int),
                None => rate_of(self.snaps()) is None,
            },
    {
        let n = self.snapshots.len();
        if n < 2 {
            return None;
        }
        let end = &self.snapshots[n - 1];
        let window: usize = if n < 10 {
            n
        } else {
            10
        };
        let start = &self.snapshots[n - window];
        assert(*start == tail(self.snaps(), 10)[0]);
        if end.timestamp <= start.timestamp {
            return None;
        }
        let passed: i128 = (end.timestamp - start.timestamp) as i128;
        let gained: i128 = end.progress as i128 - start.progress as i128;
        let q = floor_div(gained * 1000, passed);
        proof {
            // the quotient is no larger than the dividend
            assert(-4_294_967_295_000 <= q <= 4_294_967_295_000) by (nonlinear_arith)
                requires
                    q == (gained * 1000) / (passed as int),
                    passed >= 1,
                    -4_294_967_295 <= gained <= 4_294_967_295,
            ;
        }
        Some(q as i64)
    }

    /// The values of the metric `name` in the last `last_n` snapshots,
    /// oldest first, from those snapshots that have it.
    pub fn metric_values(&self, name: &str, last_n: usize) -> (values: Vec<i64>)
        requires
            self.wf(),
        ensures
            values@ == values_of(tail(self.snaps(), last_n as int), name@),
            values@.len() <= last_n,
            values@.len() <= MAX_SNAPSHOTS,
    {
        let n = self.snapshots.len();
        let from: usize = if last_n >= n {
            0
        } else {
            n - last_n
        };
        let ghost window = tail(self.snaps(), last_n as int);
        assert(window =~= self.snaps().skip(from as int));
        let mut values: Vec<i64> = Vec::new();
        let mut i: usize = from;
        assert(window.take(0) =~= Seq::empty());
        while i < n
            invariant
                self.wf(),
                n == self.snaps().len(),
                from <= i <= n,
                window == self.snaps().skip(from as int),
                values@ == values_of(window.take(i - from), name@),
                values@.len() <= i - from,
            decreases n - i,
        {
            assert(window.take(i - from + 1).drop_last() =~= window.take(i - from));
            assert(window.take(i - from + 1).last() == self.snaps()[i as int]);
            match self.snapshots[i].metrics.get(name) {
                Some(v) => {
                    values.push(*v);
                },
                None => {},
            }
            i += 1;
        }
        assert(window.take(n - from) =~= window);
        values
    }

    /// The progress of the last `last_n` snapshots, oldest first.
    pub fn progress_values(&self, last_n: usize) -> (values: Vec<u32>)
        ensures
            values@ == tail(self.snaps(), last_n as int).map_values(|s: MetricSnapshot| s.progress),
    {
        let n = self.snapshots.len();
        let from: usize = if last_n >= n {
            0
        } else {
            n - last_n
        };
        let ghost window = tail(self.snaps(), last_n as int);
        assert(window =~= self.snaps().skip(from as int));
        let mut values: Vec<u32> = Vec::new();
        let mut i: usize = from;
        while i < n
            invariant
                n == self.snaps().len(),
                from <= i <= n,
                window == self.snaps().skip(from as int),
                values@ == window.take(i - from).map_values(|s: MetricSnapshot| s.progress),
            decreases n - i,
        {
            values.push(self.snapshots[i].progress);
            assert(values@ =~= window.take(i - from + 1).map_values(|s: MetricSnapshot| s.progress));
            i += 1;
        }
        assert(window.take(n - from) =~= window);
        values
    }

    /// Whether the metric `name` has plateaued: each of the last `window`
    /// snapshots has it, there is at least one, and its greatest and least
    /// value over them differ by less than `threshold`.
    pub fn is_plateaued(&self, name: &str, window: usize, threshold: i64) -> (b: bool)
        requires
            self.wf(),
        ensures
            b == {
                let values = values_of(tail(self.snaps(), window as int), name@);
                &&& window > 0
                &&& values.len() == window
                &&& greatest(values) - least(values) < threshold
            },
    {
        let values = self.metric_values(name, window);
        if values.len() < window || window == 0 {
            return false;
        }
        let mut low: i64 = values[0];
        let mut high: i64 = values[0];
        let mut i: usize = 1;
        assert(values@.take(1).drop_last() =~= Seq::<i64>::empty());
        while i < values.len()
            invariant
                1 <= i <= values@.len(),
                low == least(values@.take(i as int)),
                high == greatest(values@.take(i as int)),
                low <= high,
            decreases values@.len() - i,
        {
            assert(values@.take(i + 1).drop_last() =~= values@.take(i as int));
            if values[i] < low {
                low = values[i];
            }
            if values[i] > high {
                high = values[i];
            }
            i += 1;
        }
        assert(values@.take(values@.len() as int) =~= values@);
        (high as i128 - low as i128) < threshold as i128
    }

    /// The trend of the metric `name` over the last `window` snapshots:
    /// the slope of the line fitted to its values, in millionths per
    /// snapshot, rounded down. Below nought the metric falls. None where
    /// fewer than two of those snapshots have the metric.
    pub fn trend(&self, name: &str, window: usize) -> (r: Option<i128>)
        requires
            self.wf(),
        ensures
            match r {
                Some(t) => slope(values_of(tail(self.snaps(), window as int), name@)) == Some(t as int),
                None => slope(values_of(tail(self.snaps(), window as int), name@)) is None,
            },
    {
        let values = self.metric_values(name, window);
        let n = values.len();
        if n < 2 {
            return None;
        }
        let mut total: i128 = 0;
        let mut weighted: i128 = 0;
        let mut indices: i128 = 0;
        let mut squares: i128 = 0;
        let mut i: usize = 0;
        assert(values@.take(0) =~= Seq::<i64>::empty());
        while i < n
            invariant
                n == values@.len(),
                n <= MAX_SNAPSHOTS,
                i <= n,
                total == sum(values@.take(i as int)),
                weighted == weighted_sum(values@.take(i as int)),
                indices == index_sum(i as nat),
                squares == index_square_sum(i as nat),
                -(i * 0x8000_0000_0000_0000) <= total <= i * 0x8000_0000_0000_0000,
                -(i * 500 * 0x8000_0000_0000_0000) <= weighted <= i * 500 * 0x8000_0000_0000_0000,
                0 <= indices <= i * 500,
                0 <= squares <= i * 250_000,
            decreases n - i,
        {
            let y: i128 = values[i] as i128;
            let x: i128 = i as i128;
            assert(values@.take(i + 1).drop_last() =~= values@.take(i as int));
            assert(-(500 * 0x8000_0000_0000_0000) <= x * y <= 500 * 0x8000_0000_0000_0000) by (nonlinear_arith)
                requires
                    0 <= x <= 500,
                    -0x8000_0000_0000_0000 <= y <= 0x8000_0000_0000_0000,
            ;
            assert(0 <= x * x <= 250_000) by (nonlinear_arith)
                requires
                    0 <= x <= 500,
            ;
            total = total + y;
            weighted = weighted + x * y;
            indices = indices + x;
            squares = squares + x * x;
            i += 1;
        }
        assert(values@.take(n as int) =~= values@);
        let count: i128 = n as i128;
        assert(-(500 * 500 * 500 * 0x8000_0000_0000_0000) <= count * weighted <= 500 * 500 * 500
            * 0x8000_0000_0000_0000) by (nonlinear_arith)
            requires
                0 <= count <= 500,
                -(500 * 500 * 0x8000_0000_0000_0000) <= weighted <= 500 * 500 * 0x8000_0000_0000_0000,
        ;
        assert(-(250_000 * 500 * 0x8000_0000_0000_0000) <= indices * total <= 250_000 * 500
            * 0x8000_0000_0000_0000) by (nonlinear_arith)
            requires
                0 <= indices <= 250_000,
                -(500 * 0x8000_0000_0000_0000) <= total <= 500 * 0x8000_0000_0000_0000,
        ;
        assert(0 <= count * squares <= 500 * 125_000_000) by (nonlinear_arith)
            requires
                0 <= count <= 500,
                0 <= squares <= 125_000_000,
        ;
        assert(0 <= indices * indices <= 250_000 * 250_000) by (nonlinear_arith)
            requires
                0 <= indices <= 250_000,
        ;
        let numerator: i128 = count * weighted - indices * total;
        let denominator: i128 = count * squares - indices * indices;
        if denominator > 0 {
            Some(floor_div(numerator, denominator))
        } else {
            None
        }
    }

    /// The progress of the last snapshot; nought where there is none.
    pub fn current_progress(&self) -> (p: u32)
        ensures
            p == if self.snaps().len() > 0 {
                self.snaps().last().progress
            } else {
                0
            },
    {
        let n = self.snapshots.len();
        if n > 0 {
            self.snapshots[n - 1].progress
        } else {
            0
        }
    }

    /// The last value of the metric `name`, from the newest snapshot that
    /// has it.
    pub fn latest_metric(&self, name: &str) -> (r: Option<i64>)
        requires
            self.wf(),
        ensures
            match r {
                Some(v) => values_of(self.snaps(), name@).len() > 0 && v == values_of(
                    self.snaps(),
                    name@,
                ).last(),
                None => values_of(self.snaps(), name@).len() == 0,
            },
    {
        let mut i: usize = self.snapshots.len();
        assert(self.snaps().take(i as int) =~= self.snaps());
        while i > 0
            invariant
                self.wf(),
                i <= self.snaps().len(),
                values_of(self.snaps(), name@) == values_of(self.snaps().take(i as int), name@),
            decreases i,
        {
            assert(self.snaps().take(i as int).drop_last() =~= self.snaps().take(i - 1));
            assert(self.snaps().take(i as int).last() == self.snaps()[i - 1]);
            match self.snapshots[i - 1].metrics.get(name) {
                Some(v) => {
                    return Some(*v);
                },
                None => {},
            }
            i -= 1;
        }
        assert(self.snaps().take(0) =~= Seq::empty());
        None
    }
}

/// The time `total_secs`, in seconds, in words: seconds below a minute,
/// minutes and seconds below an hour, hours and minutes from there on,
/// with a blank between the two parts.
pub open spec fn eta_text(total_secs: u64) -> Seq<char> {
    if total_secs < 60 {
        decimal(total_secs as nat) + "s"@
    } else if total_secs < 3600 {
        decimal((total_secs / 60) as nat) + "m "@ + decimal((total_secs % 60) as nat) + "s"@
    } else {
        decimal((total_secs / 3600) as nat) + "h "@ + decimal(((total_secs % 3600) / 60) as nat) + "m"@
    }
}

/// The time `total_secs`, in seconds, in words.
pub fn format_eta(total_secs: u64) -> (s: String)
    ensures
        s@ == eta_text(total_secs),
{
    let mut out: Vec<char> = Vec::new();
    if total_secs < 60 {
        push_decimal(&mut out, total_secs);
        push_str(&mut out, "s");
    } else if total_secs < 3600 {
        push_decimal(&mut out, total_secs / 60);
        push_str(&mut out, "m ");
        push_decimal(&mut out, total_secs % 60);
        push_str(&mut out, "s");
    } else {
        push_decimal(&mut out, total_secs / 3600);
        push_str(&mut out, "h ");
        push_decimal(&mut out, (total_secs % 3600) / 60);
        push_str(&mut out, "m");
    }
    assert(out@ =~= eta_text(total_secs));
    string_of(&out)
}

} // verus!
