//! The overlays of the heatmap, as sums: volume by price, resting depth by price, volume by time,
//! and the trades that are drawn as circles.
use crate::float_bits::F32Bits;
use crate::heatmap::view;
use crate::heatmap::view::y_bin_for_price_texture_aligned;
use crate::math;
use crate::math::{floor_div, u64_as_i64};
use crate::units::{Price, PriceStep, Qty};
use vstd::prelude::*;

verus! {

/// Trades at one price and on one side, within one bucket. `size` is what they are worth in the
/// currency that the size filter is given in.
#[derive(Debug, Clone, Copy, PartialEq, Eq, Structural)]
pub struct GroupedTrade {
    pub price: Price,
    pub qty: Qty,
    pub is_sell: bool,
    pub size: F32Bits,
}

/// The trades of one bucket.
#[derive(Debug, Clone)]
pub struct HeatmapDataPoint {
    pub time: u64,
    pub grouped_trades: Vec<GroupedTrade>,
    pub buy: Qty,
    pub sell: Qty,
}

/// One resting level of the book.
#[derive(Debug, Clone, Copy, PartialEq, Eq, Structural)]
pub struct DepthLevel {
    pub price: Price,
    pub qty: Qty,
    pub is_bid: bool,
}

/// The prices that are visible, and how they are binned into rows.
#[derive(Debug, Clone, Copy, PartialEq, Eq, Structural)]
pub struct PriceWindow {
    pub lowest: Price,
    pub highest: Price,
    pub base_price: Price,
    pub step: PriceStep,
    pub steps_per_y_bin: i64,
    pub y_anchor: Option<Price>,
}

/// Over which trades a volume profile is made.
#[derive(Debug, Clone, Copy, PartialEq, Eq, Structural)]
pub enum ProfileKind {
    VisibleRange,
    /// The latest so many buckets.
    FixedWindow(u32),
}

/// A row counted in bins, as far as it can be written down.
pub open spec fn clamp_i64(v: int) -> int {
    math::min_int(math::max_int(v, i64::MIN as int), i64::MAX as int)
}

impl PriceWindow {
    /// The row of a price.
    pub open spec fn bin(self, price: Price) -> int {
        clamp_i64(
            view::aligned_bin(
                price.units as int,
                self.base_price.units as int,
                self.step.units as int,
                self.steps_per_y_bin as int,
                match self.y_anchor {
                    Some(a) => Some(a.units as int),
                    None => None,
                },
            ),
        )
    }

    /// How many rows are visible; none or fewer where the prices are the wrong way round.
    pub open spec fn rows(self) -> int {
        self.bin(self.highest) - self.bin(self.lowest) + 1
    }

    /// The visible row of a price, counted from the lowest.
    pub open spec fn row(self, price: Price) -> int {
        self.bin(price) - self.bin(self.lowest)
    }

    pub fn y_bin(&self, price: Price) -> (r: i64)
        ensures
            r == self.bin(price),
    {
        y_bin_for_price_texture_aligned(
            price,
            self.base_price,
            self.step,
            self.steps_per_y_bin,
            self.y_anchor,
        )
    }
}

/// The trades of the first `n` points that lie between two times, in order.
pub open spec fn trades_between(
    points: Seq<HeatmapDataPoint>,
    n: int,
    earliest: u64,
    latest: u64,
) -> Seq<GroupedTrade>
    decreases n,
{
    if n <= 0 {
        Seq::empty()
    } else if earliest <= points[n - 1].time <= latest {
        trades_between(points, n - 1, earliest, latest) + points[n - 1].grouped_trades@
    } else {
        trades_between(points, n - 1, earliest, latest)
    }
}

/// The sizes of the trades of one side that fall into a row, added up.
pub open spec fn row_volume(ts: Seq<GroupedTrade>, win: PriceWindow, is_sell: bool, row: int) -> int
    decreases ts.len(),
{
    if ts.len() == 0 {
        0
    } else {
        row_volume(ts.drop_last(), win, is_sell, row) + if ts.last().is_sell == is_sell && win.row(
            ts.last().price,
        ) == row {
            ts.last().qty.units as int
        } else {
            0
        }
    }
}

/// The largest volume that a visible row has reached, both sides together, at any of the trades.
pub open spec fn peak_volume(ts: Seq<GroupedTrade>, win: PriceWindow) -> int
    decreases ts.len(),
{
    if ts.len() == 0 {
        0
    } else {
        let row = win.row(ts.last().price);
        let before = peak_volume(ts.drop_last(), win);
        if 0 <= row < win.rows() {
            math::max_int(
                before,
                row_volume(ts, win, false, row) + row_volume(ts, win, true, row),
            )
        } else {
            before
        }
    }
}

/// Volume by price: the bought and sold sizes of each visible row, from the lowest up.
#[derive(Debug, Clone)]
pub struct ProfileBins {
    /// The row of the first bin.
    pub min_bin: i64,
    pub buy: Vec<i128>,
    pub sell: Vec<i128>,
    pub max_total: i128,
}

/// The times between which a volume profile takes its trades.
pub open spec fn profile_span(
    kind: ProfileKind,
    earliest: u64,
    latest_vis: u64,
    latest_time: u64,
    aggr_time: u64,
) -> (int, int) {
    match kind {
        ProfileKind::VisibleRange => (earliest as int, latest_vis as int),
        ProfileKind::FixedWindow(n) => {
            let end = math::min_int(latest_time as int, latest_vis as int);
            (math::max_int(end - n * math::max_int(aggr_time as int, 1), 0), end)
        },
    }
}

/// The times between which a volume profile takes its trades.
pub fn compute_profile_span(
    kind: ProfileKind,
    earliest: u64,
    latest_vis: u64,
    latest_time: u64,
    aggr_time: u64,
) -> (r: (u64, u64))
    ensures
        (r.0 as int, r.1 as int) == profile_span(
            kind,
            earliest,
            latest_vis,
            latest_time,
            aggr_time,
        ),
{
    match kind {
        ProfileKind::VisibleRange => (earliest, latest_vis),
        ProfileKind::FixedWindow(n) => {
            let end: u64 = if latest_time < latest_vis {
                latest_time
            } else {
                latest_vis
            };
            let aggr: u64 = if aggr_time > 1 {
                aggr_time
            } else {
                1
            };
            proof {
                assert(0 <= n * aggr <= 0xffff_ffff * 0xffff_ffff_ffff_ffff) by (nonlinear_arith)
                    requires
                        0 <= n <= 0xffff_ffff,
                        0 <= aggr <= 0xffff_ffff_ffff_ffff,
                ;
            }
            let span: u128 = n as u128 * aggr as u128;
            if span > end as u128 {
                (0, end)
            } else {
                (end - span as u64, end)
            }
        },
    }
}

/// The bins hold the volume of the trades, row by row.
pub open spec fn profile_is(
    ts: Seq<GroupedTrade>,
    win: PriceWindow,
    buy: Seq<i128>,
    sell: Seq<i128>,
) -> bool {
    &&& buy.len() == win.rows()
    &&& sell.len() == win.rows()
    &&& forall|i: int|
        0 <= i < win.rows() ==> #[trigger] buy[i] == row_volume(ts, win, false, i)
    &&& forall|i: int|
        0 <= i < win.rows() ==> #[trigger] sell[i] == row_volume(ts, win, true, i)
}

/// The most trades that are added up.
pub const MAX_TRADES: u64 = 0x1000_0000_0000_0000;

proof fn lemma_row_volume_bounds(ts: Seq<GroupedTrade>, win: PriceWindow, is_sell: bool, row: int)
    ensures
        -(ts.len() * 0x8000_0000_0000_0000) <= row_volume(ts, win, is_sell, row) <= ts.len()
            * 0x8000_0000_0000_0000,
    decreases ts.len(),
{
    if ts.len() > 0 {
        lemma_row_volume_bounds(ts.drop_last(), win, is_sell, row);
    }
}

fn add_trade(
    win: PriceWindow,
    min_bin: i64,
    t: GroupedTrade,
    buy: &mut Vec<i128>,
    sell: &mut Vec<i128>,
    max_total: i128,
    Ghost(ts): Ghost<Seq<GroupedTrade>>,
) -> (peak: i128)
    requires
        min_bin == win.bin(win.lowest),
        win.rows() > 0,
        ts.len() < MAX_TRADES,
        profile_is(ts, win, old(buy)@, old(sell)@),
        max_total == peak_volume(ts, win),
    ensures
        profile_is(ts.push(t), win, final(buy)@, final(sell)@),
        peak == peak_volume(ts.push(t), win),
{
    let ghost after = ts.push(t);
    let ghost buy_before = buy@;
    let ghost sell_before = sell@;
    assert(after.drop_last() =~= ts);
    let row: i128 = win.y_bin(t.price) as i128 - min_bin as i128;
    let n: usize = buy.len();
    if row < 0 || row >= n as i128 {
        proof {
            assert forall|i: int| 0 <= i < win.rows() implies #[trigger] buy@[i] == row_volume(
                after,
                win,
                false,
                i,
            ) by {
                assert(buy_before[i] == row_volume(ts, win, false, i));
            }
            assert forall|i: int| 0 <= i < win.rows() implies #[trigger] sell@[i] == row_volume(
                after,
                win,
                true,
                i,
            ) by {
                assert(sell_before[i] == row_volume(ts, win, true, i));
            }
        }
        return max_total;
    }
    let i: usize = row as usize;
    proof {
        lemma_row_volume_bounds(ts, win, false, i as int);
        lemma_row_volume_bounds(ts, win, true, i as int);
        assert(buy@[i as int] == row_volume(ts, win, false, i as int));
        assert(sell@[i as int] == row_volume(ts, win, true, i as int));
    }
    if t.is_sell {
        let v: i128 = sell[i] + t.qty.units as i128;
        sell.set(i, v);
    } else {
        let v: i128 = buy[i] + t.qty.units as i128;
        buy.set(i, v);
    }
    proof {
        assert forall|k: int| 0 <= k < win.rows() implies #[trigger] buy@[k] == row_volume(
            after,
            win,
            false,
            k,
        ) by {
            assert(buy_before[k] == row_volume(ts, win, false, k));
        }
        assert forall|k: int| 0 <= k < win.rows() implies #[trigger] sell@[k] == row_volume(
            after,
            win,
            true,
            k,
        ) by {
            assert(sell_before[k] == row_volume(ts, win, true, k));
        }
        assert(buy@[i as int] == row_volume(after, win, false, i as int));
        assert(sell@[i as int] == row_volume(after, win, true, i as int));
    }
    let total: i128 = buy[i] + sell[i];
    if total > max_total {
        total
    } else {
        max_total
    }
}

/// Volume by price over the trades between two times; none where no row is visible or nothing
/// was traded in those that are.
pub fn volume_profile(
    points: &Vec<HeatmapDataPoint>,
    win: PriceWindow,
    earliest: u64,
    latest: u64,
) -> (r: Option<ProfileBins>)
    requires
        win.rows() <= usize::MAX,
        trades_between(points@, points@.len() as int, earliest, latest).len() <= MAX_TRADES,
    ensures
        ({
            let ts = trades_between(points@, points@.len() as int, earliest, latest);
            match r {
                None => win.rows() <= 0 || latest < earliest || peak_volume(ts, win) == 0,
                Some(p) => {
                    &&& win.rows() > 0 && earliest <= latest
                    &&& p.min_bin == win.bin(win.lowest)
                    &&& profile_is(ts, win, p.buy@, p.sell@)
                    &&& p.max_total == peak_volume(ts, win)
                    &&& p.max_total > 0
                },
            }
        }),
{
    let min_bin: i64 = win.y_bin(win.lowest);
    let max_bin: i64 = win.y_bin(win.highest);
    if max_bin < min_bin || latest < earliest {
        return None;
    }
    let rows: i128 = max_bin as i128 - min_bin as i128 + 1;
    let len: usize = rows as usize;
    let mut buy: Vec<i128> = vec![0i128; len];
    let mut sell: Vec<i128> = vec![0i128; len];
    let mut max_total: i128 = 0;
    let mut i: usize = 0;
    let ghost all = trades_between(points@, points@.len() as int, earliest, latest);
    while i < points.len()
        invariant
            i <= points@.len(),
            min_bin == win.bin(win.lowest),
            win.rows() > 0,
            all == trades_between(points@, points@.len() as int, earliest, latest),
            all.len() <= MAX_TRADES,
            profile_is(trades_between(points@, i as int, earliest, latest), win, buy@, sell@),
            max_total == peak_volume(trades_between(points@, i as int, earliest, latest), win),
        decreases points@.len() - i,
    {
        let p: &HeatmapDataPoint = &points[i];
        let ghost before = trades_between(points@, i as int, earliest, latest);
        if earliest <= p.time && p.time <= latest {
            let ghost own = p.grouped_trades@;
            proof {
                lemma_prefix_len(points@, i + 1, points@.len() as int, earliest, latest);
                assert(before + own.take(0) =~= before);
            }
            let mut j: usize = 0;
            while j < p.grouped_trades.len()
                invariant
                    j <= p.grouped_trades@.len(),
                    own == p.grouped_trades@,
                    min_bin == win.bin(win.lowest),
                    win.rows() > 0,
                    before.len() + own.len() <= MAX_TRADES,
                    profile_is(before + own.take(j as int), win, buy@, sell@),
                    max_total == peak_volume(before + own.take(j as int), win),
                decreases p.grouped_trades@.len() - j,
            {
                let t: GroupedTrade = p.grouped_trades[j];
                max_total = add_trade(
                    win,
                    min_bin,
                    t,
                    &mut buy,
                    &mut sell,
                    max_total,
                    Ghost(before + own.take(j as int)),
                );
                proof {
                    assert((before + own.take(j as int)).push(t) =~= before + own.take(j + 1));
                }
                j += 1;
            }
            proof {
                assert(own.take(own.len() as int) =~= own);
            }
        }
        i += 1;
    }
    proof {
        lemma_peak_not_negative(all, win);
    }
    if max_total == 0 {
        return None;
    }
    Some(ProfileBins { min_bin, buy, sell, max_total })
}

proof fn lemma_peak_not_negative(ts: Seq<GroupedTrade>, win: PriceWindow)
    ensures
        peak_volume(ts, win) >= 0,
    decreases ts.len(),
{
    if ts.len() > 0 {
        lemma_peak_not_negative(ts.drop_last(), win);
    }
}

proof fn lemma_prefix_len(points: Seq<HeatmapDataPoint>, n: int, m: int, earliest: u64, latest: u64)
    requires
        0 <= n <= m <= points.len(),
    ensures
        trades_between(points, n, earliest, latest).len() <= trades_between(
            points,
            m,
            earliest,
            latest,
        ).len(),
    decreases m - n,
{
    if n < m {
        lemma_prefix_len(points, n, m - 1, earliest, latest);
    }
}

/// Where no size is negative, the peak is the volume of the largest row, and no row has more.
pub proof fn peak_is_the_largest_row(ts: Seq<GroupedTrade>, win: PriceWindow, row: int)
    requires
        forall|i: int| 0 <= i < ts.len() ==> (#[trigger] ts[i]).qty.units >= 0,
        0 <= row < win.rows(),
    ensures
        row_volume(ts, win, false, row) >= 0,
        row_volume(ts, win, true, row) >= 0,
        row_volume(ts, win, false, row) + row_volume(ts, win, true, row) <= peak_volume(ts, win),
    decreases ts.len(),
{
    if ts.len() > 0 {
        assert forall|i: int| 0 <= i < ts.drop_last().len() implies (
        #[trigger] ts.drop_last()[i]).qty.units >= 0 by {
            assert(ts.drop_last()[i] == ts[i]);
        }
        peak_is_the_largest_row(ts.drop_last(), win, row);
        assert(ts[ts.len() - 1].qty.units >= 0);
    }
}

/// The sizes of the levels of one side that are in the price window and fall into a row.
pub open spec fn row_depth(ls: Seq<DepthLevel>, win: PriceWindow, is_bid: bool, row: int) -> int
    decreases ls.len(),
{
    if ls.len() == 0 {
        0
    } else {
        let l = ls.last();
        row_depth(ls.drop_last(), win, is_bid, row) + if l.is_bid == is_bid && win.lowest.units
            <= l.price.units <= win.highest.units && win.row(l.price) == row {
            l.qty.units as int
        } else {
            0
        }
    }
}

/// The largest depth that one side of a visible row has reached at any of the levels.
pub open spec fn peak_depth(ls: Seq<DepthLevel>, win: PriceWindow) -> int
    decreases ls.len(),
{
    if ls.len() == 0 {
        0
    } else {
        let l = ls.last();
        let before = peak_depth(ls.drop_last(), win);
        if win.lowest.units <= l.price.units <= win.highest.units && 0 <= win.row(l.price)
            < win.rows() {
            math::max_int(before, row_depth(ls, win, l.is_bid, win.row(l.price)))
        } else {
            before
        }
    }
}

/// Depth by price: the resting sizes of each visible row, from the lowest up.
#[derive(Debug, Clone)]
pub struct DepthBins {
    /// The row of the first bin.
    pub min_bin: i64,
    pub bid: Vec<i128>,
    pub ask: Vec<i128>,
    pub max_qty: i128,
}

/// The bins hold the depth of the levels, row by row.
pub open spec fn depth_is(
    ls: Seq<DepthLevel>,
    win: PriceWindow,
    bid: Seq<i128>,
    ask: Seq<i128>,
) -> bool {
    &&& bid.len() == win.rows()
    &&& ask.len() == win.rows()
    &&& forall|i: int| 0 <= i < win.rows() ==> #[trigger] bid[i] == row_depth(ls, win, true, i)
    &&& forall|i: int| 0 <= i < win.rows() ==> #[trigger] ask[i] == row_depth(ls, win, false, i)
}

proof fn lemma_row_depth_bounds(ls: Seq<DepthLevel>, win: PriceWindow, is_bid: bool, row: int)
    ensures
        -(ls.len() * 0x8000_0000_0000_0000) <= row_depth(ls, win, is_bid, row) <= ls.len()
            * 0x8000_0000_0000_0000,
    decreases ls.len(),
{
    if ls.len() > 0 {
        lemma_row_depth_bounds(ls.drop_last(), win, is_bid, row);
    }
}

proof fn lemma_peak_depth_not_negative(ls: Seq<DepthLevel>, win: PriceWindow)
    ensures
        peak_depth(ls, win) >= 0,
    decreases ls.len(),
{
    if ls.len() > 0 {
        lemma_peak_depth_not_negative(ls.drop_last(), win);
    }
}

/// Depth by price over the levels of the book; none where no row is visible or nothing rests in
/// those that are.
pub fn depth_profile(levels: &Vec<DepthLevel>, win: PriceWindow) -> (r: Option<DepthBins>)
    requires
        win.rows() <= usize::MAX,
        levels@.len() <= MAX_TRADES,
    ensures
        match r {
            None => win.rows() <= 0 || peak_depth(levels@, win) == 0,
            Some(p) => {
                &&& win.rows() > 0
                &&& p.min_bin == win.bin(win.lowest)
                &&& depth_is(levels@, win, p.bid@, p.ask@)
                &&& p.max_qty == peak_depth(levels@, win)
                &&& p.max_qty > 0
            },
        },
{
    let min_bin: i64 = win.y_bin(win.lowest);
    let max_bin: i64 = win.y_bin(win.highest);
    if max_bin < min_bin {
        return None;
    }
    let rows: i128 = max_bin as i128 - min_bin as i128 + 1;
    let len: usize = rows as usize;
    let mut bid: Vec<i128> = vec![0i128; len];
    let mut ask: Vec<i128> = vec![0i128; len];
    let mut max_qty: i128 = 0;
    let mut i: usize = 0;
    assert(levels@.take(0) =~= Seq::<DepthLevel>::empty());
    while i < levels.len()
        invariant
            i <= levels@.len(),
            levels@.len() <= MAX_TRADES,
            min_bin == win.bin(win.lowest),
            win.rows() > 0,
            len == win.rows(),
            depth_is(levels@.take(i as int), win, bid@, ask@),
            max_qty == peak_depth(levels@.take(i as int), win),
        decreases levels@.len() - i,
    {
        let l: DepthLevel = levels[i];
        let ghost before = levels@.take(i as int);
        let ghost after = levels@.take(i + 1);
        let ghost bid_before = bid@;
        let ghost ask_before = ask@;
        assert(after.drop_last() =~= before);
        assert(after.last() == l);
        let row: i128 = win.y_bin(l.price) as i128 - min_bin as i128;
        if win.lowest.units <= l.price.units && l.price.units <= win.highest.units && 0 <= row
            && row < len as i128 {
            let k: usize = row as usize;
            proof {
                lemma_row_depth_bounds(before, win, true, k as int);
                lemma_row_depth_bounds(before, win, false, k as int);
                assert(bid@[k as int] == row_depth(before, win, true, k as int));
                assert(ask@[k as int] == row_depth(before, win, false, k as int));
            }
            let v: i128 = if l.is_bid {
                let v: i128 = bid[k] + l.qty.units as i128;
                bid.set(k, v);
                v
            } else {
                let v: i128 = ask[k] + l.qty.units as i128;
                ask.set(k, v);
                v
            };
            assert(v == row_depth(after, win, l.is_bid, k as int));
            if v > max_qty {
                max_qty = v;
            }
        }
        proof {
            assert forall|k: int| 0 <= k < win.rows() implies #[trigger] bid@[k] == row_depth(
                after,
                win,
                true,
                k,
            ) by {
                assert(bid_before[k] == row_depth(before, win, true, k));
            }
            assert forall|k: int| 0 <= k < win.rows() implies #[trigger] ask@[k] == row_depth(
                after,
                win,
                false,
                k,
            ) by {
                assert(ask_before[k] == row_depth(before, win, false, k));
            }
        }
        i += 1;
    }
    proof {
        assert(levels@.take(levels@.len() as int) =~= levels@);
        lemma_peak_depth_not_negative(levels@, win);
    }
    if max_qty == 0 {
        return None;
    }
    Some(DepthBins { min_bin, bid, ask, max_qty })
}

/// A trade that is drawn as a circle, with its bucket.
#[derive(Debug, Clone, Copy, PartialEq, Eq, Structural)]
pub struct VisibleTrade {
    pub bucket: i64,
    pub trade: GroupedTrade,
}

/// The trades that are drawn as circles, and the largest size that was traded in the window.
#[derive(Debug, Clone)]
pub struct Circles {
    pub visible: Vec<VisibleTrade>,
    pub max_qty: i64,
}

/// The price is in the window.
pub open spec fn price_shows(t: GroupedTrade, win: PriceWindow) -> bool {
    win.lowest.units <= t.price.units <= win.highest.units
}

/// The trade passes a size filter: it is not as small as the filter, or as nothing where the
/// filter is negative.
pub open spec fn passes_filter(t: GroupedTrade, filter: F32Bits) -> bool {
    !t.size.spec_le(filter.spec_max(F32Bits { bits: 0 }))
}

/// The circles of one bucket: its trades in the price window that pass the size filter.
pub open spec fn bucket_circles(
    ts: Seq<GroupedTrade>,
    bucket: i64,
    win: PriceWindow,
    filter: F32Bits,
) -> Seq<VisibleTrade>
    decreases ts.len(),
{
    if ts.len() == 0 {
        Seq::empty()
    } else {
        let before = bucket_circles(ts.drop_last(), bucket, win, filter);
        if price_shows(ts.last(), win) && passes_filter(ts.last(), filter) {
            before.push(VisibleTrade { bucket, trade: ts.last() })
        } else {
            before
        }
    }
}

/// The circles of the first `n` points between two times, in order.
pub open spec fn circles_between(
    points: Seq<HeatmapDataPoint>,
    n: int,
    earliest: u64,
    latest: u64,
    aggr: u64,
    win: PriceWindow,
    filter: F32Bits,
) -> Seq<VisibleTrade>
    decreases n,
{
    if n <= 0 {
        Seq::empty()
    } else {
        let before = circles_between(points, n - 1, earliest, latest, aggr, win, filter);
        let p = points[n - 1];
        if earliest <= p.time <= latest {
            before + bucket_circles(
                p.grouped_trades@,
                math::wrap_i64(p.time as int / aggr as int) as i64,
                win,
                filter,
            )
        } else {
            before
        }
    }
}

/// The largest size among the trades that are in the price window, whether or not they pass the
/// size filter; 0 where none is.
pub open spec fn largest_trade(ts: Seq<GroupedTrade>, win: PriceWindow) -> int
    decreases ts.len(),
{
    if ts.len() == 0 {
        0
    } else {
        let before = largest_trade(ts.drop_last(), win);
        if price_shows(ts.last(), win) {
            math::max_int(before, ts.last().qty.units as int)
        } else {
            before
        }
    }
}

/// The trades that are drawn as circles; none where nothing in the window has a size or nothing
/// passes the size filter.
pub fn circles(
    points: &Vec<HeatmapDataPoint>,
    win: PriceWindow,
    earliest: u64,
    latest: u64,
    aggr_time: u64,
    filter: F32Bits,
) -> (r: Option<Circles>)
    requires
        aggr_time > 0,
    ensures
        ({
            let ts = trades_between(points@, points@.len() as int, earliest, latest);
            let shown = circles_between(
                points@,
                points@.len() as int,
                earliest,
                latest,
                aggr_time,
                win,
                filter,
            );
            match r {
                None => largest_trade(ts, win) == 0 || shown.len() == 0,
                Some(c) => {
                    &&& c.visible@ == shown && shown.len() > 0
                    &&& c.max_qty == largest_trade(ts, win) && c.max_qty > 0
                },
            }
        }),
{
    let floor: F32Bits = filter.max(F32Bits { bits: 0 });
    let mut visible: Vec<VisibleTrade> = Vec::new();
    let mut max_qty: i64 = 0;
    let mut i: usize = 0;
    while i < points.len()
        invariant
            i <= points@.len(),
            aggr_time > 0,
            floor == filter.spec_max(F32Bits { bits: 0 }),
            visible@ == circles_between(
                points@,
                i as int,
                earliest,
                latest,
                aggr_time,
                win,
                filter,
            ),
            max_qty == largest_trade(trades_between(points@, i as int, earliest, latest), win),
            max_qty >= 0,
        decreases points@.len() - i,
    {
        let p: &HeatmapDataPoint = &points[i];
        if earliest <= p.time && p.time <= latest {
            let bucket: i64 = u64_as_i64(p.time / aggr_time);
            let ghost own = p.grouped_trades@;
            let ghost before = trades_between(points@, i as int, earliest, latest);
            let ghost shown = visible@;
            proof {
                assert(before + own.take(0) =~= before);
                assert(shown + bucket_circles(own.take(0), bucket, win, filter) =~= shown);
            }
            let mut j: usize = 0;
            while j < p.grouped_trades.len()
                invariant
                    j <= p.grouped_trades@.len(),
                    own == p.grouped_trades@,
                    floor == filter.spec_max(F32Bits { bits: 0 }),
                    visible@ == shown + bucket_circles(own.take(j as int), bucket, win, filter),
                    max_qty == largest_trade(before + own.take(j as int), win),
                    max_qty >= 0,
                decreases p.grouped_trades@.len() - j,
            {
                let t: GroupedTrade = p.grouped_trades[j];
                proof {
                    assert(own.take(j + 1).drop_last() =~= own.take(j as int));
                    assert((before + own.take(j + 1)).drop_last() =~= before + own.take(j as int));
                    assert((before + own.take(j + 1)).last() == t);
                }
                if win.lowest.units <= t.price.units && t.price.units <= win.highest.units {
                    if t.qty.units > max_qty {
                        max_qty = t.qty.units;
                    }
                    if !t.size.le(floor) {
                        visible.push(VisibleTrade { bucket, trade: t });
                    }
                }
                proof {
                    assert(visible@ =~= shown + bucket_circles(
                        own.take(j + 1),
                        bucket,
                        win,
                        filter,
                    ));
                }
                j += 1;
            }
            proof {
                assert(own.take(own.len() as int) =~= own);
            }
        }
        i += 1;
    }
    if max_qty == 0 || visible.len() == 0 {
        return None;
    }
    Some(Circles { visible, max_qty })
}

/// One bar of volume by time: the buckets `x0_bin..x1_bin`, counted from the reference, with
/// what was bought and sold in them.
#[derive(Debug, Clone, Copy, PartialEq, Eq, Structural)]
pub struct VolumeBar {
    pub x0_bin: i32,
    pub x1_bin: i32,
    pub buy: i128,
    pub sell: i128,
}

/// Volume by time.
#[derive(Debug, Clone)]
pub struct VolumeStrip {
    pub bars: Vec<VolumeBar>,
    pub max_total: i128,
}

/// The most buckets that share a bar.
pub const MAX_COLS_PER_X_BIN: i64 = 4096;

/// How many buckets share a bar: `wanted`, but at least one and at most the limit. Where there
/// is no telling how wide a bucket is, `wanted` is `None`.
pub fn clamp_cols_per_x_bin(wanted: Option<i64>) -> (r: i64)
    ensures
        r == (match wanted {
            None => 1,
            Some(n) => math::min_int(math::max_int(n as int, 1), MAX_COLS_PER_X_BIN as int),
        }),
        1 <= r <= MAX_COLS_PER_X_BIN,
{
    match wanted {
        None => 1,
        Some(n) => if n < 1 {
            1
        } else if n > MAX_COLS_PER_X_BIN {
            MAX_COLS_PER_X_BIN
        } else {
            n
        },
    }
}

/// The bucket of a time.
pub open spec fn bucket_of(t: u64, aggr: u64) -> int {
    math::wrap_i64(t as int / aggr as int)
}

/// What was bought (or sold) at the first `n` points between two times whose bucket falls into
/// bar `bin`.
pub open spec fn bar_volume(
    points: Seq<HeatmapDataPoint>,
    n: int,
    earliest: u64,
    latest: u64,
    aggr: u64,
    cols: int,
    bin: int,
    is_sell: bool,
) -> int
    decreases n,
{
    if n <= 0 {
        0
    } else {
        let p = points[n - 1];
        bar_volume(points, n - 1, earliest, latest, aggr, cols, bin, is_sell) + if earliest
            <= p.time <= latest && bucket_of(p.time, aggr) / cols == bin {
            (if is_sell {
                p.sell.units
            } else {
                p.buy.units
            }) as int
        } else {
            0
        }
    }
}

/// A column counted from the reference, as far as it can be written down.
pub open spec fn clamp_i32(v: int) -> int {
    math::min_int(math::max_int(v, i32::MIN as int), i32::MAX as int)
}

/// The bars of the first `n` bins from `min_bin` on: those in which something was traded.
pub open spec fn bars_of(
    buys: Seq<i128>,
    sells: Seq<i128>,
    n: int,
    min_bin: int,
    cols: int,
    latest_bucket: int,
    ref_bucket: int,
) -> Seq<VolumeBar>
    decreases n,
{
    if n <= 0 {
        Seq::empty()
    } else {
        let before = bars_of(buys, sells, n - 1, min_bin, cols, latest_bucket, ref_bucket);
        let start = (min_bin + n - 1) * cols;
        let end = math::min_int(start + cols, latest_bucket + 1);
        if buys[n - 1] + sells[n - 1] != 0 && end > start {
            before.push(
                VolumeBar {
                    x0_bin: clamp_i32(start - ref_bucket) as i32,
                    x1_bin: clamp_i32(end - ref_bucket) as i32,
                    buy: buys[n - 1],
                    sell: sells[n - 1],
                },
            )
        } else {
            before
        }
    }
}

/// The largest total of the first `n` bins, or 0.
pub open spec fn largest_bin(buys: Seq<i128>, sells: Seq<i128>, n: int) -> int
    decreases n,
{
    if n <= 0 {
        0
    } else {
        math::max_int(largest_bin(buys, sells, n - 1), buys[n - 1] + sells[n - 1])
    }
}

fn clamp_to_i32(v: i128) -> (r: i32)
    ensures
        r == clamp_i32(v as int),
{
    if v > i32::MAX as i128 {
        i32::MAX
    } else if v < i32::MIN as i128 {
        i32::MIN
    } else {
        v as i32
    }
}

/// The bins hold the volume of the points, bar by bar.
pub open spec fn strip_is(
    points: Seq<HeatmapDataPoint>,
    n: int,
    earliest: u64,
    latest: u64,
    aggr: u64,
    cols: int,
    min_bin: int,
    buys: Seq<i128>,
    sells: Seq<i128>,
) -> bool {
    &&& buys.len() == sells.len()
    &&& forall|b: int|
        0 <= b < buys.len() ==> #[trigger] buys[b] == bar_volume(
            points,
            n,
            earliest,
            latest,
            aggr,
            cols,
            min_bin + b,
            false,
        )
    &&& forall|b: int|
        0 <= b < sells.len() ==> #[trigger] sells[b] == bar_volume(
            points,
            n,
            earliest,
            latest,
            aggr,
            cols,
            min_bin + b,
            true,
        )
}

proof fn lemma_bar_bounds(
    points: Seq<HeatmapDataPoint>,
    n: int,
    earliest: u64,
    latest: u64,
    aggr: u64,
    cols: int,
    bin: int,
    is_sell: bool,
)
    requires
        n >= 0,
    ensures
        -(n * 0x8000_0000_0000_0000) <= bar_volume(
            points,
            n,
            earliest,
            latest,
            aggr,
            cols,
            bin,
            is_sell,
        ) <= n * 0x8000_0000_0000_0000,
    decreases n,
{
    if n > 0 {
        lemma_bar_bounds(points, n - 1, earliest, latest, aggr, cols, bin, is_sell);
    }
}

/// Volume by time between two times, `cols` buckets to a bar; none where there are no buckets or
/// nothing was traded.
pub fn volume_strip(
    points: &Vec<HeatmapDataPoint>,
    earliest: u64,
    latest: u64,
    aggr_time: u64,
    cols: i64,
    ref_bucket: i64,
) -> (r: Option<VolumeStrip>)
    requires
        aggr_time > 0,
        1 <= cols <= MAX_COLS_PER_X_BIN,
        points@.len() <= MAX_TRADES,
        usize::MAX > bucket_of(latest, aggr_time) / cols as int - bucket_of(earliest, aggr_time)
            / cols as int,
    ensures
        ({
            let min_bin = bucket_of(earliest, aggr_time) / cols as int;
            let max_bin = bucket_of(latest, aggr_time) / cols as int;
            match r {
                None => max_bin < min_bin || exists|buys: Seq<i128>, sells: Seq<i128>| #[trigger]
                    strip_is(
                        points@,
                        points@.len() as int,
                        earliest,
                        latest,
                        aggr_time,
                        cols as int,
                        min_bin,
                        buys,
                        sells,
                    ) && buys.len() == max_bin - min_bin + 1 && largest_bin(
                        buys,
                        sells,
                        buys.len() as int,
                    ) == 0,
                Some(strip) => max_bin >= min_bin && exists|buys: Seq<i128>, sells: Seq<i128>|
                    #[trigger] strip_is(
                        points@,
                        points@.len() as int,
                        earliest,
                        latest,
                        aggr_time,
                        cols as int,
                        min_bin,
                        buys,
                        sells,
                    ) && buys.len() == max_bin - min_bin + 1 && strip.max_total == largest_bin(
                        buys,
                        sells,
                        buys.len() as int,
                    ) && strip.max_total > 0 && strip.bars@ == bars_of(
                        buys,
                        sells,
                        buys.len() as int,
                        min_bin,
                        cols as int,
                        bucket_of(latest, aggr_time),
                        ref_bucket as int,
                    ),
            }
        }),
{
    let start_bucket: i64 = u64_as_i64(earliest / aggr_time);
    let latest_bucket: i64 = u64_as_i64(latest / aggr_time);
    let min_bin: i128 = floor_div(start_bucket as i128, cols);
    let max_bin: i128 = floor_div(latest_bucket as i128, cols);
    if max_bin < min_bin {
        return None;
    }
    let len: usize = (max_bin - min_bin + 1) as usize;
    let mut buys: Vec<i128> = vec![0i128; len];
    let mut sells: Vec<i128> = vec![0i128; len];
    let mut i: usize = 0;
    while i < points.len()
        invariant
            i <= points@.len(),
            points@.len() <= MAX_TRADES,
            aggr_time > 0,
            1 <= cols <= MAX_COLS_PER_X_BIN,
            buys@.len() == len,
            -0x1_0000_0000_0000_0000 <= min_bin <= 0x1_0000_0000_0000_0000,
            strip_is(
                points@,
                i as int,
                earliest,
                latest,
                aggr_time,
                cols as int,
                min_bin as int,
                buys@,
                sells@,
            ),
        decreases points@.len() - i,
    {
        let p: &HeatmapDataPoint = &points[i];
        let ghost buys_before = buys@;
        let ghost sells_before = sells@;
        if earliest <= p.time && p.time <= latest {
            let bucket: i64 = u64_as_i64(p.time / aggr_time);
            let bin: i128 = floor_div(bucket as i128, cols);
            let idx: i128 = bin - min_bin;
            if 0 <= idx && idx < len as i128 {
                let k: usize = idx as usize;
                proof {
                    lemma_bar_bounds(
                        points@,
                        i as int,
                        earliest,
                        latest,
                        aggr_time,
                        cols as int,
                        min_bin + k,
                        false,
                    );
                    lemma_bar_bounds(
                        points@,
                        i as int,
                        earliest,
                        latest,
                        aggr_time,
                        cols as int,
                        min_bin + k,
                        true,
                    );
                    assert(buys@[k as int] == bar_volume(
                        points@,
                        i as int,
                        earliest,
                        latest,
                        aggr_time,
                        cols as int,
                        min_bin + k,
                        false,
                    ));
                    assert(sells@[k as int] == bar_volume(
                        points@,
                        i as int,
                        earliest,
                        latest,
                        aggr_time,
                        cols as int,
                        min_bin + k,
                        true,
                    ));
                }
                let b: i128 = buys[k] + p.buy.units as i128;
                let s: i128 = sells[k] + p.sell.units as i128;
                buys.set(k, b);
                sells.set(k, s);
            }
        }
        proof {
            assert forall|b: int| 0 <= b < buys@.len() implies #[trigger] buys@[b] == bar_volume(
                points@,
                i + 1,
                earliest,
                latest,
                aggr_time,
                cols as int,
                min_bin + b,
                false,
            ) by {
                assert(buys_before[b] == bar_volume(
                    points@,
                    i as int,
                    earliest,
                    latest,
                    aggr_time,
                    cols as int,
                    min_bin + b,
                    false,
                ));
            }
            assert forall|b: int| 0 <= b < sells@.len() implies #[trigger] sells@[b] == bar_volume(
                points@,
                i + 1,
                earliest,
                latest,
                aggr_time,
                cols as int,
                min_bin + b,
                true,
            ) by {
                assert(sells_before[b] == bar_volume(
                    points@,
                    i as int,
                    earliest,
                    latest,
                    aggr_time,
                    cols as int,
                    min_bin + b,
                    true,
                ));
            }
        }
        i += 1;
    }
    let mut bars: Vec<VolumeBar> = Vec::new();
    let mut max_total: i128 = 0;
    let mut k: usize = 0;
    while k < len
        invariant
            k <= len,
            buys@.len() == len,
            sells@.len() == len,
            points@.len() <= MAX_TRADES,
            1 <= cols <= MAX_COLS_PER_X_BIN,
            -0x1_0000_0000_0000_0000 <= min_bin <= 0x1_0000_0000_0000_0000,
            strip_is(
                points@,
                points@.len() as int,
                earliest,
                latest,
                aggr_time,
                cols as int,
                min_bin as int,
                buys@,
                sells@,
            ),
            max_total == largest_bin(buys@, sells@, k as int),
            bars@ == bars_of(
                buys@,
                sells@,
                k as int,
                min_bin as int,
                cols as int,
                latest_bucket as int,
                ref_bucket as int,
            ),
        decreases len - k,
    {
        proof {
            lemma_bar_bounds(
                points@,
                points@.len() as int,
                earliest,
                latest,
                aggr_time,
                cols as int,
                min_bin + k,
                false,
            );
            lemma_bar_bounds(
                points@,
                points@.len() as int,
                earliest,
                latest,
                aggr_time,
                cols as int,
                min_bin + k,
                true,
            );
            assert(buys@[k as int] == bar_volume(
                points@,
                points@.len() as int,
                earliest,
                latest,
                aggr_time,
                cols as int,
                min_bin + k,
                false,
            ));
            assert(sells@[k as int] == bar_volume(
                points@,
                points@.len() as int,
                earliest,
                latest,
                aggr_time,
                cols as int,
                min_bin + k,
                true,
            ));
            assert(-(0x2_0000_0000_0000_0000 * 4096) <= (min_bin + k) * cols
                <= 0x2_0000_0000_0000_0000 * 4096) by (nonlinear_arith)
                requires
                    -0x2_0000_0000_0000_0000 <= min_bin + k <= 0x2_0000_0000_0000_0000,
                    1 <= cols <= 4096,
            ;
        }
        let total: i128 = buys[k] + sells[k];
        if total > max_total {
            max_total = total;
        }
        let start: i128 = (min_bin + k as i128) * cols as i128;
        let next: i128 = start + cols as i128;
        let limit: i128 = latest_bucket as i128 + 1;
        let end: i128 = if next < limit {
            next
        } else {
            limit
        };
        if total != 0 && end > start {
            bars.push(
                VolumeBar {
                    x0_bin: clamp_to_i32(start - ref_bucket as i128),
                    x1_bin: clamp_to_i32(end - ref_bucket as i128),
                    buy: buys[k],
                    sell: sells[k],
                },
            );
        }
        k += 1;
    }
    proof {
        assert(strip_is(
            points@,
            points@.len() as int,
            earliest,
            latest,
            aggr_time,
            cols as int,
            min_bin as int,
            buys@,
            sells@,
        ));
        lemma_largest_not_negative(buys@, sells@, len as int);
    }
    if max_total == 0 {
        return None;
    }
    Some(VolumeStrip { bars, max_total })
}

proof fn lemma_largest_not_negative(buys: Seq<i128>, sells: Seq<i128>, n: int)
    ensures
        largest_bin(buys, sells, n) >= 0,
    decreases n,
{
    if n > 0 {
        lemma_largest_not_negative(buys, sells, n - 1);
    }
}

impl VolumeBar {
    /// How much more was traded on one side than on the other.
    pub fn imbalance(&self) -> (r: i128)
        requires
            -0x4000_0000_0000_0000_0000_0000_0000_0000 <= self.buy
                <= 0x3fff_ffff_ffff_ffff_ffff_ffff_ffff_ffff,
            -0x4000_0000_0000_0000_0000_0000_0000_0000 <= self.sell
                <= 0x3fff_ffff_ffff_ffff_ffff_ffff_ffff_ffff,
        ensures
            r == math::abs(self.buy - self.sell),
    {
        if self.buy >= self.sell {
            self.buy - self.sell
        } else {
            self.sell - self.buy
        }
    }
}

} // verus!
