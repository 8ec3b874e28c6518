//! The bars of a kline chart: by time or by ticks, which of them are visible, and which of them a
//! cursor is on.
use crate::math;
use crate::ordered;
use crate::ordered::{greatest_in, keys_in};
use crate::units::{Kline, Price};
use std::collections::BTreeMap;
use vstd::prelude::*;

verus! {

/// The bars of a chart: by their time, or one after the other.
pub enum PlotData {
    TimeBased { datapoints: BTreeMap<u64, Kline> },
    /// Each bar is made of `interval` ticks.
    TickBased { interval: u16, datapoints: Vec<Kline> },
}

/// A bar that is drawn: where, and which one. Bars by ticks are counted back from the newest.
#[derive(Debug, Clone, Copy, PartialEq, Eq, Structural)]
pub struct VisibleBar {
    pub interval: u64,
    pub kline: Kline,
}

/// The bar at `interval`, counted back from the newest.
pub open spec fn bar_back(bars: Seq<Kline>, interval: int) -> Kline {
    bars[bars.len() - 1 - interval]
}

/// The bar of the tick at `at`, if there is one.
pub open spec fn bar_of_tick(bars: Seq<Kline>, ticks_per_bar: u16, at: u64) -> Option<Kline> {
    let i = at as int / ticks_per_bar as int;
    if i < bars.len() {
        Some(bar_back(bars, i))
    } else {
        None
    }
}

/// `r` is the bar of the greatest time from `lo` to `hi`, if there is one.
pub open spec fn is_last_bar_in(m: Map<u64, Kline>, lo: u64, hi: u64, r: Option<Kline>) -> bool {
    match r {
        None => ordered::is_greatest_in(m, lo, hi, None),
        Some(k) => exists|t: u64| #[trigger]
            m.contains_key(t) && ordered::is_greatest_in(m, lo, hi, Some(t)) && m[t] == k,
    }
}

/// `r` is the bar that a cursor at `at` is on, over bars by time: the one at that time, or else
/// the last one before it that is visible; right of what is visible, the last visible one; right
/// of all bars, the last one.
pub open spec fn is_hovered_bar(
    m: Map<u64, Kline>,
    at: u64,
    earliest: u64,
    latest: u64,
    r: Option<Kline>,
) -> bool {
    let last_visible = exists|t: u64| #[trigger]
        m.contains_key(t) && earliest <= t <= latest && t <= at;
    if m.contains_key(at) {
        r == Some(m[at])
    } else if earliest <= at && last_visible {
        is_last_bar_in(m, earliest, math::min_int(at as int, latest as int) as u64, r)
    } else if exists|t: u64| #[trigger] m.contains_key(t) && t >= at {
        r is None
    } else {
        is_last_bar_in(m, 0, u64::MAX, r)
    }
}

impl PlotData {
    pub open spec fn wf(&self) -> bool {
        self matches PlotData::TickBased { interval, .. } ==> interval > 0
    }

    /// Whether there are no bars.
    pub fn is_empty(&self) -> (r: bool)
        ensures
            r == (match self {
                PlotData::TimeBased { datapoints } => datapoints@ == Map::<u64, Kline>::empty(),
                PlotData::TickBased { datapoints, .. } => datapoints@.len() == 0,
            }),
    {
        match self {
            PlotData::TimeBased { datapoints } => {
                proof {
                    let m = datapoints@;
                    assert(m.dom().len() == 0 ==> m =~= Map::<u64, Kline>::empty());
                }
                datapoints.is_empty()
            },
            PlotData::TickBased { datapoints, .. } => datapoints.len() == 0,
        }
    }

    /// The times of bars by ticks, from the oldest.
    pub fn interval_keys(&self) -> (r: Option<Vec<u64>>)
        ensures
            match self {
                PlotData::TimeBased { .. } => r is None,
                PlotData::TickBased { datapoints, .. } => r matches Some(keys) && keys@
                    == datapoints@.map_values(|k: Kline| k.time),
            },
    {
        match self {
            PlotData::TimeBased { .. } => None,
            PlotData::TickBased { datapoints, .. } => {
                let mut keys: Vec<u64> = Vec::new();
                let mut i: usize = 0;
                while i < datapoints.len()
                    invariant
                        i <= datapoints@.len(),
                        keys@.len() == i,
                        forall|j: int| 0 <= j < i ==> #[trigger] keys@[j] == datapoints@[j].time,
                    decreases datapoints@.len() - i,
                {
                    keys.push(datapoints[i].time);
                    i += 1;
                }
                assert(keys@ =~= datapoints@.map_values(|k: Kline| k.time));
                Some(keys)
            },
        }
    }

    /// The bars from `earliest` to `latest`: by time from the oldest, by ticks from the newest.
    pub fn visible_bars(&self, earliest: u64, latest: u64) -> (r: Vec<VisibleBar>)
        ensures
            match self {
                PlotData::TimeBased { datapoints } => {
                    &&& forall|i: int, j: int|
                        0 <= i < j < r@.len() ==> r@[i].interval < r@[j].interval
                    &&& forall|i: int|
                        0 <= i < r@.len() ==> datapoints@.contains_key(
                            (#[trigger] r@[i]).interval,
                        ) && earliest <= r@[i].interval <= latest && r@[i].kline
                            == datapoints@[r@[i].interval]
                    &&& forall|t: u64| #[trigger]
                        datapoints@.contains_key(t) && earliest <= t <= latest ==> r@.contains(
                            VisibleBar { interval: t, kline: datapoints@[t] },
                        )
                },
                PlotData::TickBased { datapoints, .. } => {
                    let n = datapoints@.len() as int;
                    let first = earliest as int;
                    let end = math::min_int(latest + 1, n);
                    &&& r@.len() == math::max_int(end - first, 0)
                    &&& forall|i: int|
                        0 <= i < r@.len() ==> #[trigger] r@[i] == (VisibleBar {
                            interval: (first + i) as u64,
                            kline: bar_back(datapoints@, first + i),
                        })
                },
            },
    {
        let mut r: Vec<VisibleBar> = Vec::new();
        match self {
            PlotData::TimeBased { datapoints } => {
                let keys: Vec<u64> = keys_in(datapoints, earliest, latest);
                let mut i: usize = 0;
                while i < keys.len()
                    invariant
                        i <= keys@.len(),
                        ordered::are_keys_in(datapoints@, earliest, latest, keys@),
                        r@.len() == i,
                        forall|j: int|
                            0 <= j < i ==> #[trigger] r@[j] == (VisibleBar {
                                interval: keys@[j],
                                kline: datapoints@[keys@[j]],
                            }),
                    decreases keys@.len() - i,
                {
                    let t: u64 = keys[i];
                    assert(keys@.contains(t));
                    if let Some(kline) = datapoints.get(&t) {
                        r.push(VisibleBar { interval: t, kline: *kline });
                    }
                    i += 1;
                }
                proof {
                    assert forall|i: int| 0 <= i < r@.len() implies datapoints@.contains_key(
                        (#[trigger] r@[i]).interval,
                    ) && earliest <= r@[i].interval <= latest by {
                        assert(keys@.contains(keys@[i]));
                    }
                    assert forall|t: u64| #[trigger]
                        datapoints@.contains_key(t) && earliest <= t <= latest implies r@.contains(
                        VisibleBar { interval: t, kline: datapoints@[t] },
                    ) by {
                        assert(keys@.contains(t));
                        let j = keys@.index_of(t);
                        assert(r@[j] == (VisibleBar { interval: t, kline: datapoints@[t] }));
                    }
                }
            },
            PlotData::TickBased { datapoints, .. } => {
                let n: usize = datapoints.len();
                let mut i: u64 = earliest;
                while i < n as u64 && i <= latest
                    invariant
                        earliest <= i,
                        n == datapoints@.len(),
                        i <= math::max_int(math::min_int(latest + 1, n as int), earliest as int),
                        r@.len() == i - earliest,
                        forall|j: int|
                            0 <= j < r@.len() ==> #[trigger] r@[j] == (VisibleBar {
                                interval: (earliest + j) as u64,
                                kline: bar_back(datapoints@, earliest + j),
                            }),
                    decreases n - i,
                {
                    r.push(VisibleBar { interval: i, kline: datapoints[n - 1 - i as usize] });
                    i += 1;
                }
            },
        }
        r
    }

    fn last_bar(m: &BTreeMap<u64, Kline>, lo: u64, hi: u64) -> (r: Option<Kline>)
        ensures
            is_last_bar_in(m@, lo, hi, r),
    {
        match greatest_in(m, lo, hi) {
            Some(t) => {
                assert(m@.contains_key(t));
                match m.get(&t) {
                    Some(k) => Some(*k),
                    None => None,
                }
            },
            None => None,
        }
    }

    fn tick_bar(bars: &Vec<Kline>, interval: u16, at: u64) -> (r: Option<Kline>)
        requires
            interval > 0,
        ensures
            r == bar_of_tick(bars@, interval, at),
    {
        let i: u64 = at / interval as u64;
        let n: usize = bars.len();
        if i < n as u64 {
            Some(bars[n - 1 - i as usize])
        } else {
            None
        }
    }

    /// The bar that a cursor is on; without a cursor, the newest bar. Right of what is visible,
    /// where there is no bar at the cursor, what is visible has to be a range.
    pub fn crosshair_bar(&self, at: Option<u64>, earliest: u64, latest: u64) -> (r: Option<Kline>)
        requires
            self.wf(),
            self matches PlotData::TimeBased { datapoints } && at matches Some(x)
                && !datapoints@.contains_key(x) && x > latest ==> earliest <= latest,
        ensures
            match (self, at) {
                (PlotData::TimeBased { datapoints }, Some(at)) => is_hovered_bar(
                    datapoints@,
                    at,
                    earliest,
                    latest,
                    r,
                ),
                (PlotData::TimeBased { datapoints }, None) => is_last_bar_in(
                    datapoints@,
                    0,
                    u64::MAX,
                    r,
                ),
                (PlotData::TickBased { interval, datapoints }, Some(at)) => r == match bar_of_tick(
                    datapoints@,
                    *interval,
                    at,
                ) {
                    Some(k) => Some(k),
                    None => if at < earliest || at <= latest {
                        bar_of_tick(datapoints@, *interval, earliest)
                    } else {
                        None
                    },
                },
                (PlotData::TickBased { datapoints, .. }, None) => r == if datapoints@.len() == 0 {
                    None
                } else {
                    Some(datapoints@.last())
                },
            },
    {
        match self {
            PlotData::TimeBased { datapoints } => {
                let at: u64 = match at {
                    Some(at) => at,
                    None => {
                        return Self::last_bar(datapoints, 0, u64::MAX);
                    },
                };
                if let Some(k) = datapoints.get(&at) {
                    return Some(*k);
                }
                if earliest <= at {
                    let end: u64 = if at < latest {
                        at
                    } else {
                        latest
                    };
                    if let Some(k) = Self::last_bar(datapoints, earliest, end) {
                        return Some(k);
                    }
                }
                match greatest_in(datapoints, 0, u64::MAX) {
                    Some(last) => {
                        if at > last {
                            assert(datapoints@.contains_key(last));
                            match datapoints.get(&last) {
                                Some(k) => Some(*k),
                                None => None,
                            }
                        } else {
                            None
                        }
                    },
                    None => None,
                }
            },
            PlotData::TickBased { interval, datapoints } => {
                match at {
                    None => {
                        let n: usize = datapoints.len();
                        if n == 0 {
                            None
                        } else {
                            Some(datapoints[n - 1])
                        }
                    },
                    Some(at) => match Self::tick_bar(datapoints, *interval, at) {
                        Some(k) => Some(k),
                        None => {
                            if at < earliest || at <= latest {
                                Self::tick_bar(datapoints, *interval, earliest)
                            } else {
                                None
                            }
                        },
                    },
                }
            },
        }
    }
}

/// Whether a bar is drawn in the colour of a rise in the line of its prices: its change, as a part
/// of its open, is not negative.
pub fn change_rises(kline: &Kline) -> (r: bool)
    ensures
        r == (if kline.open.units > 0 {
            kline.close.units >= kline.open.units
        } else if kline.open.units < 0 {
            kline.close.units <= kline.open.units
        } else {
            kline.close.units > 0
        }),
{
    if kline.open.units > 0 {
        kline.close.units >= kline.open.units
    } else if kline.open.units < 0 {
        kline.close.units <= kline.open.units
    } else {
        kline.close.units > 0
    }
}

/// Whether the price has come back to a point of control.
#[derive(Debug, Clone, Copy, PartialEq, Eq, Structural)]
pub enum NPoc {
    Untracked,
    Naked,
    Filled { at: u64 },
}

/// The price at which most was traded in a bar.
#[derive(Debug, Clone, Copy, PartialEq, Eq, Structural)]
pub struct PointOfControl {
    pub price: Price,
    pub status: NPoc,
}

/// A bar's time and its point of control.
#[derive(Debug, Clone, Copy, PartialEq, Eq, Structural)]
pub struct BarPoc {
    pub time: u64,
    pub poc: Option<PointOfControl>,
}

/// A line from the bar of a point of control to where the price came back to it, or to the newest
/// bar.
#[derive(Debug, Clone, Copy, PartialEq, Eq, Structural)]
pub struct NpocLine {
    pub interval: u64,
    pub price: Price,
    /// Where the price came back.
    pub filled_at: Option<u64>,
}

/// The line of the bar `back` bars before the newest one, if it has one.
pub open spec fn npoc_line(bars: Seq<BarPoc>, by_time: bool, back: int) -> Option<NpocLine> {
    let bar = bars[bars.len() - 1 - back];
    let interval = if by_time {
        bar.time
    } else {
        back as u64
    };
    match bar.poc {
        None => None,
        Some(poc) => match poc.status {
            NPoc::Untracked => None,
            NPoc::Naked => Some(NpocLine { interval, price: poc.price, filled_at: None }),
            NPoc::Filled { at } => Some(
                NpocLine { interval, price: poc.price, filled_at: Some(at) },
            ),
        },
    }
}

/// The lines of the newest `n` bars, from the newest.
pub open spec fn spec_npoc_lines(bars: Seq<BarPoc>, by_time: bool, n: int) -> Seq<NpocLine>
    decreases n,
{
    if n <= 0 {
        Seq::empty()
    } else {
        let before = spec_npoc_lines(bars, by_time, n - 1);
        match npoc_line(bars, by_time, n - 1) {
            Some(line) => before.push(line),
            None => before,
        }
    }
}

/// The lines of the points of control of the newest `lookback` bars, from the newest.
pub fn npoc_lines(bars: &Vec<BarPoc>, by_time: bool, lookback: usize) -> (r: Vec<NpocLine>)
    ensures
        r@ == spec_npoc_lines(
            bars@,
            by_time,
            math::min_int(lookback as int, bars@.len() as int),
        ),
{
    let n: usize = bars.len();
    let take: usize = if lookback < n {
        lookback
    } else {
        n
    };
    let mut r: Vec<NpocLine> = Vec::new();
    let mut i: usize = 0;
    while i < take
        invariant
            i <= take,
            take <= n,
            n == bars@.len(),
            r@ == spec_npoc_lines(bars@, by_time, i as int),
        decreases take - i,
    {
        let bar: BarPoc = bars[n - 1 - i];
        let interval: u64 = if by_time {
            bar.time
        } else {
            i as u64
        };
        if let Some(poc) = bar.poc {
            match poc.status {
                NPoc::Untracked => {},
                NPoc::Naked => {
                    r.push(NpocLine { interval, price: poc.price, filled_at: None });
                },
                NPoc::Filled { at } => {
                    r.push(NpocLine { interval, price: poc.price, filled_at: Some(at) });
                },
            }
        }
        i += 1;
    }
    r
}

} // verus!
