//! The cumulative volume delta: the running sum of buy volume less sell volume.
use crate::indicator::availability::{AvailabilityCause, IndicatorAvailability};
use crate::ordered;
use crate::ordered::sorted_keys;
use crate::units::Qty;
use std::collections::BTreeMap;
use vstd::prelude::*;

verus! {

/// How many bars in a row must have a delta before the sum is trustworthy.
pub const MIN_DIRECTIONAL_RUN: usize = 2;

/// One point of the line.
#[derive(Debug, Clone, Copy, PartialEq, Eq, Structural)]
pub struct CumulativeDeltaPoint {
    /// The time or the index of the bar.
    pub key: u64,
    /// Buy volume less sell volume of the bar.
    pub delta: Qty,
    /// The sum of the deltas from the oldest bar to this one.
    pub cumulative: i128,
    /// The bar is not the first one of a long enough run of bars that have a delta.
    pub reliable: bool,
}

/// Where the run of bars that have a delta begins, to which the bar `i` belongs.
pub open spec fn run_start(deltas: Seq<Qty>, i: int) -> int
    decreases i,
{
    if i > 0 && deltas[i - 1].units != 0 {
        run_start(deltas, i - 1)
    } else {
        i
    }
}

/// Where the run of bars that have a delta ends, to which the bar `i` belongs: the first bar after
/// it.
pub open spec fn run_end(deltas: Seq<Qty>, i: int) -> int
    decreases deltas.len() - i,
{
    if i < deltas.len() && deltas[i].units != 0 {
        run_end(deltas, i + 1)
    } else {
        i
    }
}

/// A bar is reliable where it belongs to a run of at least `min_run` bars that have a delta, and
/// is not the first of them.
pub open spec fn is_reliable(deltas: Seq<Qty>, min_run: int, i: int) -> bool {
    &&& deltas[i].units != 0
    &&& run_start(deltas, i) < i
    &&& run_end(deltas, i) - run_start(deltas, i) >= min_run
}

proof fn lemma_run(deltas: Seq<Qty>, start: int, end: int, i: int)
    requires
        0 <= start <= i < end <= deltas.len(),
        forall|j: int| start <= j < end ==> deltas[j].units != 0,
        start == 0 || deltas[start - 1].units == 0,
        end == deltas.len() || deltas[end].units == 0,
    ensures
        run_start(deltas, i) == start,
        run_end(deltas, i) == end,
    decreases i - start, end - i,
{
    lemma_run_start(deltas, start, i);
    lemma_run_end(deltas, end, i);
}

proof fn lemma_run_start(deltas: Seq<Qty>, start: int, i: int)
    requires
        0 <= start <= i < deltas.len(),
        forall|j: int| start <= j <= i ==> deltas[j].units != 0,
        start == 0 || deltas[start - 1].units == 0,
    ensures
        run_start(deltas, i) == start,
    decreases i - start,
{
    if i > start {
        lemma_run_start(deltas, start, i - 1);
    }
}

proof fn lemma_run_end(deltas: Seq<Qty>, end: int, i: int)
    requires
        0 <= i <= end <= deltas.len(),
        forall|j: int| i <= j < end ==> deltas[j].units != 0,
        end == deltas.len() || deltas[end].units == 0,
    ensures
        run_end(deltas, i) == end,
    decreases end - i,
{
    if i < end {
        lemma_run_end(deltas, end, i + 1);
    }
}

/// Which bars are reliable.
pub fn reliable_indices(deltas: &Vec<Qty>, min_run: usize) -> (r: Vec<bool>)
    ensures
        r@.len() == deltas@.len(),
        forall|i: int|
            0 <= i < r@.len() ==> #[trigger] r@[i] == is_reliable(deltas@, min_run as int, i),
{
    let n: usize = deltas.len();
    let mut r: Vec<bool> = Vec::new();
    let mut i: usize = 0;
    while i < n
        invariant
            i <= n,
            n == deltas@.len(),
            r@.len() == i,
            i == 0 || i == n || deltas@[i - 1].units == 0 || deltas@[i as int].units == 0,
            forall|j: int|
                0 <= j < i ==> #[trigger] r@[j] == is_reliable(deltas@, min_run as int, j),
        decreases n - i,
    {
        if deltas[i].units != 0 {
            let start: usize = i;
            let mut end: usize = i;
            while end < n && deltas[end].units != 0
                invariant
                    start <= end <= n,
                    n == deltas@.len(),
                    forall|j: int| start <= j < end ==> deltas@[j].units != 0,
                decreases n - end,
            {
                end += 1;
            }
            let long: bool = end - start >= min_run;
            let ghost before = r@;
            while i < end
                invariant
                    start <= i <= end <= n,
                    n == deltas@.len(),
                    start < end,
                    long == (end - start >= min_run),
                    r@.len() == i,
                    start == 0 || deltas@[start - 1].units == 0,
                    end == n || deltas@[end as int].units == 0,
                    forall|j: int| start <= j < end ==> deltas@[j].units != 0,
                    forall|j: int|
                        0 <= j < i ==> #[trigger] r@[j] == is_reliable(
                            deltas@,
                            min_run as int,
                            j,
                        ),
                decreases end - i,
            {
                proof {
                    lemma_run(deltas@, start as int, end as int, i as int);
                }
                r.push(i > start && long);
                i += 1;
            }
        } else {
            r.push(false);
            i += 1;
        }
    }
    r
}

/// The sum of the first `n` deltas.
pub open spec fn delta_sum(deltas: Seq<Qty>, n: int) -> int
    decreases n,
{
    if n <= 0 {
        0
    } else {
        delta_sum(deltas, n - 1) + deltas[n - 1].units
    }
}

proof fn lemma_delta_sum_bound(deltas: Seq<Qty>, n: int)
    requires
        0 <= n <= deltas.len(),
    ensures
        -(n * 0x8000_0000_0000_0000) <= delta_sum(deltas, n) <= n * 0x8000_0000_0000_0000,
    decreases n,
{
    if n > 0 {
        lemma_delta_sum_bound(deltas, n - 1);
    }
}

/// The deltas at `keys`, in order.
pub open spec fn deltas_at(m: Map<u64, Qty>, keys: Seq<u64>) -> Seq<Qty> {
    keys.map_values(|k: u64| m[k])
}

/// `points` is the line over the deltas of the bars at `keys`.
pub open spec fn is_line(
    m: Map<u64, Qty>,
    keys: Seq<u64>,
    points: Seq<CumulativeDeltaPoint>,
) -> bool {
    &&& points.len() == keys.len()
    &&& forall|i: int|
        0 <= i < points.len() ==> #[trigger] points[i] == (CumulativeDeltaPoint {
            key: keys[i],
            delta: m[keys[i]],
            cumulative: delta_sum(deltas_at(m, keys), i + 1) as i128,
            reliable: is_reliable(deltas_at(m, keys), MIN_DIRECTIONAL_RUN as int, i),
        })
}

/// `points` is the line over the deltas of all bars of `m`, from the oldest to the newest.
pub open spec fn is_line_of(m: Map<u64, Qty>, points: Seq<CumulativeDeltaPoint>) -> bool {
    exists|keys: Seq<u64>| #[trigger] ordered::are_keys(m, keys) && is_line(m, keys, points)
}

/// A bar's delta, and whether the exchange told which side its volume came from.
#[derive(Debug, Clone, Copy, PartialEq, Eq, Structural)]
pub struct BarDelta {
    pub key: u64,
    pub delta: Qty,
    pub directional: bool,
}

/// The deltas with those of `bars` put in, in order.
pub open spec fn with_bars(m: Map<u64, Qty>, bars: Seq<BarDelta>) -> Map<u64, Qty>
    decreases bars.len(),
{
    if bars.len() == 0 {
        m
    } else {
        with_bars(m, bars.drop_last()).insert(bars.last().key, bars.last().delta)
    }
}

/// One of the bars is directional.
pub open spec fn any_directional(bars: Seq<BarDelta>) -> bool {
    exists|i: int| 0 <= i < bars.len() && (#[trigger] bars[i]).directional
}

/// The indicator: the deltas of all bars, the line over them, and whether it can be shown.
pub struct CumulativeDeltaIndicator {
    pub delta: BTreeMap<u64, Qty>,
    pub data: Vec<CumulativeDeltaPoint>,
    pub availability: IndicatorAvailability,
}

impl CumulativeDeltaIndicator {
    /// The line is the one over the deltas.
    pub open spec fn wf(&self) -> bool {
        is_line_of(self.delta@, self.data@)
    }

    /// An indicator without data.
    pub fn new() -> (c: CumulativeDeltaIndicator)
        ensures
            c.wf(),
            c.delta@ == Map::<u64, Qty>::empty(),
            c.data@.len() == 0,
            c.availability == IndicatorAvailability::Unknown,
    {
        let c = CumulativeDeltaIndicator {
            delta: BTreeMap::new(),
            data: Vec::new(),
            availability: IndicatorAvailability::Unknown,
        };
        proof {
            let keys = Seq::<u64>::empty();
            assert(ordered::are_keys(c.delta@, keys));
            assert(is_line(c.delta@, keys, c.data@));
        }
        c
    }

    fn rebuild_cumulative(&mut self)
        ensures
            final(self).wf(),
            final(self).delta@ == old(self).delta@,
            final(self).availability == old(self).availability,
    {
        let keys: Vec<u64> = sorted_keys(&self.delta);
        let n: usize = keys.len();
        let mut deltas: Vec<Qty> = Vec::new();
        let mut i: usize = 0;
        while i < n
            invariant
                i <= n,
                n == keys@.len(),
                *self == *old(self),
                ordered::are_keys(self.delta@, keys@),
                deltas@.len() == i,
                forall|j: int| 0 <= j < i ==> #[trigger] deltas@[j] == self.delta@[keys@[j]],
            decreases n - i,
        {
            proof {
                assert(keys@.contains(keys@[i as int]));
            }
            let d: Qty = match self.delta.get(&keys[i]) {
                Some(d) => *d,
                None => Qty { units: 0 },
            };
            deltas.push(d);
            i += 1;
        }
        proof {
            assert(deltas@ =~= deltas_at(self.delta@, keys@));
        }
        let reliable: Vec<bool> = reliable_indices(&deltas, MIN_DIRECTIONAL_RUN);
        let mut data: Vec<CumulativeDeltaPoint> = Vec::new();
        let mut cumulative: i128 = 0;
        let mut j: usize = 0;
        while j < n
            invariant
                j <= n,
                n == keys@.len(),
                n == deltas@.len(),
                n == reliable@.len(),
                deltas@ == deltas_at(self.delta@, keys@),
                cumulative == delta_sum(deltas@, j as int),
                data@.len() == j,
                forall|i: int|
                    0 <= i < n ==> #[trigger] reliable@[i] == is_reliable(
                        deltas@,
                        MIN_DIRECTIONAL_RUN as int,
                        i,
                    ),
                forall|i: int|
                    0 <= i < j ==> #[trigger] data@[i] == (CumulativeDeltaPoint {
                        key: keys@[i],
                        delta: deltas@[i],
                        cumulative: delta_sum(deltas@, i + 1) as i128,
                        reliable: is_reliable(deltas@, MIN_DIRECTIONAL_RUN as int, i),
                    }),
            decreases n - j,
        {
            proof {
                lemma_delta_sum_bound(deltas@, j as int);
                lemma_delta_sum_bound(deltas@, j + 1);
            }
            cumulative = cumulative + deltas[j].units as i128;
            data.push(
                CumulativeDeltaPoint {
                    key: keys[j],
                    delta: deltas[j],
                    cumulative,
                    reliable: reliable[j],
                },
            );
            j += 1;
        }
        self.data = data;
        proof {
            assert(ordered::are_keys(self.delta@, keys@));
            assert(is_line(self.delta@, keys@, self.data@));
        }
    }

    fn put(&mut self, bars: &Vec<BarDelta>) -> (directional: bool)
        ensures
            final(self).delta@ == with_bars(old(self).delta@, bars@),
            final(self).availability == old(self).availability,
            directional == any_directional(bars@),
    {
        let mut directional: bool = false;
        let mut i: usize = 0;
        assert(bars@.take(0) =~= Seq::<BarDelta>::empty());
        while i < bars.len()
            invariant
                i <= bars@.len(),
                self.availability == old(self).availability,
                self.delta@ == with_bars(old(self).delta@, bars@.take(i as int)),
                directional == any_directional(bars@.take(i as int)),
            decreases bars@.len() - i,
        {
            let bar: BarDelta = bars[i];
            proof {
                let before = bars@.take(i as int);
                let after = bars@.take(i + 1);
                assert(after.drop_last() =~= before);
                assert(after.last() == bar);
                if any_directional(before) {
                    let j = choose|j: int|
                        0 <= j < before.len() && (#[trigger] before[j]).directional;
                    assert(after[j].directional);
                }
                if bar.directional {
                    assert(after[i as int].directional);
                }
                if any_directional(after) {
                    let j = choose|j: int|
                        0 <= j < after.len() && (#[trigger] after[j]).directional;
                    if j < i {
                        assert(before[j].directional);
                    }
                }
            }
            self.delta.insert(bar.key, bar.delta);
            if bar.directional {
                directional = true;
            }
            i += 1;
        }
        proof {
            assert(bars@.take(bars@.len() as int) =~= bars@);
        }
        directional
    }

    /// Starts over with the bars of a chart.
    pub fn rebuild_from_source(&mut self, bars: &Vec<BarDelta>)
        ensures
            final(self).wf(),
            final(self).delta@ == with_bars(Map::empty(), bars@),
            final(self).availability == (if bars@.len() == 0 {
                IndicatorAvailability::Unknown
            } else if any_directional(bars@) {
                IndicatorAvailability::Available
            } else {
                IndicatorAvailability::Unavailable(AvailabilityCause::TradeData)
            }),
    {
        self.delta = BTreeMap::new();
        let directional: bool = self.put(bars);
        self.availability = if bars.len() == 0 {
            IndicatorAvailability::Unknown
        } else if directional {
            IndicatorAvailability::Available
        } else {
            IndicatorAvailability::Unavailable(AvailabilityCause::TradeData)
        };
        self.rebuild_cumulative();
    }

    /// Puts bars in. One bar that is directional makes the indicator available; without any, it
    /// is unavailable as long as nothing else is known.
    pub fn on_insert_klines(&mut self, bars: &Vec<BarDelta>)
        ensures
            final(self).wf(),
            final(self).delta@ == with_bars(old(self).delta@, bars@),
            final(self).availability == (if any_directional(bars@) {
                IndicatorAvailability::Available
            } else if old(self).availability == IndicatorAvailability::Unknown && with_bars(
                old(self).delta@,
                bars@,
            ) != Map::<u64, Qty>::empty() {
                IndicatorAvailability::Unavailable(AvailabilityCause::TradeData)
            } else {
                old(self).availability
            }),
    {
        let directional: bool = self.put(bars);
        if directional {
            self.availability = IndicatorAvailability::Available;
        }
        let has_data: bool = !self.delta.is_empty();
        proof {
            let m = self.delta@;
            assert(m.dom().len() == 0 ==> m =~= Map::<u64, Qty>::empty());
        }
        if self.availability == IndicatorAvailability::Unknown && has_data {
            self.availability = IndicatorAvailability::Unavailable(AvailabilityCause::TradeData);
        }
        self.rebuild_cumulative();
    }

    /// Takes in the bars that trades have changed; with none of them nothing happens.
    pub fn on_insert_trades(&mut self, bars: &Vec<BarDelta>)
        requires
            old(self).wf(),
        ensures
            final(self).wf(),
            bars@.len() == 0 ==> *final(self) == *old(self),
            bars@.len() > 0 ==> final(self).delta@ == with_bars(old(self).delta@, bars@)
                && final(self).availability == IndicatorAvailability::Available,
    {
        if bars.len() == 0 {
            return ;
        }
        self.put(bars);
        self.availability = IndicatorAvailability::Available;
        self.rebuild_cumulative();
    }
}

/// The line changes from bar to bar by the delta of the bar.
pub proof fn line_moves_by_the_delta(
    m: Map<u64, Qty>,
    points: Seq<CumulativeDeltaPoint>,
    i: int,
)
    requires
        is_line_of(m, points),
        0 < i < points.len() <= u64::MAX,
    ensures
        points[i].cumulative == points[i - 1].cumulative + points[i].delta.units,
        points[i - 1].key < points[i].key,
{
    let keys = choose|keys: Seq<u64>| #[trigger]
        ordered::are_keys(m, keys) && is_line(m, keys, points);
    let d = deltas_at(m, keys);
    lemma_delta_sum_bound(d, i);
    lemma_delta_sum_bound(d, i + 1);
    assert(points[i].key == keys[i]);
    assert(points[i - 1].key == keys[i - 1]);
}

/// A bar that is reliable has a delta, and so has the bar before it.
pub proof fn reliable_bars_have_a_predecessor(deltas: Seq<Qty>, min_run: int, i: int)
    requires
        0 <= i < deltas.len(),
        is_reliable(deltas, min_run, i),
    ensures
        i > 0,
        deltas[i].units != 0,
        deltas[i - 1].units != 0,
{
}

} // verus!
