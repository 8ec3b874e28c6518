//! What holds of the overlays, said of the levels, trades and points that they are made of:
//! nothing in sight is lost, nothing is counted twice, and every sum stands where its parts do.
use crate::float_bits::F32Bits;
use crate::heatmap::depth_grid;
use crate::heatmap::overlay;
use crate::heatmap::overlay::{
    DepthLevel, GroupedTrade, HeatmapDataPoint, PriceWindow, ProfileKind, VisibleTrade, VolumeBar,
};
use crate::units::Price;
use vstd::prelude::*;

verus! {

/// The bins added up.
pub open spec fn total(bins: Seq<i128>) -> int
    decreases bins.len(),
{
    if bins.len() == 0 {
        0
    } else {
        bins[0] + total(bins.drop_first())
    }
}

proof fn lemma_total_ends(bins: Seq<i128>)
    requires
        bins.len() > 0,
    ensures
        total(bins) == total(bins.drop_last()) + bins.last(),
    decreases bins.len(),
{
    if bins.len() > 1 {
        lemma_total_ends(bins.drop_first());
        assert(bins.drop_first().drop_last() =~= bins.drop_last().drop_first());
    } else {
        assert(bins.drop_first() =~= Seq::<i128>::empty());
        assert(bins.drop_last() =~= Seq::<i128>::empty());
    }
}

proof fn lemma_total_push(bins: Seq<i128>, v: i128)
    ensures
        total(bins.push(v)) == total(bins) + v,
{
    lemma_total_ends(bins.push(v));
    assert(bins.push(v).drop_last() =~= bins);
}

/// The row of a price is one of those between the lowest and the highest price of the window.
pub open spec fn row_in_sight(win: PriceWindow, price: Price) -> bool {
    win.bin(win.lowest) <= win.bin(price) <= win.bin(win.highest)
}

/// A level of one side rests in the window.
pub open spec fn rests_in_sight(l: DepthLevel, win: PriceWindow, is_bid: bool) -> bool {
    &&& l.is_bid == is_bid
    &&& win.lowest.units <= l.price.units <= win.highest.units
    &&& row_in_sight(win, l.price)
}

/// The quantities of the levels of one side that rest in the window, added up.
pub open spec fn resting(ls: Seq<DepthLevel>, win: PriceWindow, is_bid: bool) -> int
    decreases ls.len(),
{
    if ls.len() == 0 {
        0
    } else {
        (if rests_in_sight(ls[0], win, is_bid) {
            ls[0].qty.units as int
        } else {
            0
        }) + resting(ls.drop_first(), win, is_bid)
    }
}

proof fn lemma_resting_ends(ls: Seq<DepthLevel>, win: PriceWindow, is_bid: bool)
    requires
        ls.len() > 0,
    ensures
        resting(ls, win, is_bid) == resting(ls.drop_last(), win, is_bid) + if rests_in_sight(
            ls.last(),
            win,
            is_bid,
        ) {
            ls.last().qty.units as int
        } else {
            0
        },
    decreases ls.len(),
{
    if ls.len() > 1 {
        lemma_resting_ends(ls.drop_first(), win, is_bid);
        assert(ls.drop_first().drop_last() =~= ls.drop_last().drop_first());
    } else {
        assert(ls.drop_first() =~= Seq::<DepthLevel>::empty());
        assert(ls.drop_last() =~= Seq::<DepthLevel>::empty());
    }
}

/// One more level raises the bin of its row by its quantity, on its side, and leaves every other
/// bin as it was; a level that does not rest in the window changes nothing.
pub proof fn one_more_level_raises_its_bin(
    ls: Seq<DepthLevel>,
    l: DepthLevel,
    win: PriceWindow,
    bid: Seq<i128>,
    ask: Seq<i128>,
    bid_after: Seq<i128>,
    ask_after: Seq<i128>,
)
    requires
        overlay::depth_is(ls, win, bid, ask),
        overlay::depth_is(ls.push(l), win, bid_after, ask_after),
    ensures
        ({
            let row = win.bin(l.price) - win.bin(win.lowest);
            &&& bid_after.len() == bid.len() && ask_after.len() == ask.len()
            &&& forall|i: int|
                0 <= i < bid.len() ==> #[trigger] bid_after[i] == bid[i] + if rests_in_sight(
                    l,
                    win,
                    true,
                ) && i == row {
                    l.qty.units as int
                } else {
                    0
                }
            &&& forall|i: int|
                0 <= i < ask.len() ==> #[trigger] ask_after[i] == ask[i] + if rests_in_sight(
                    l,
                    win,
                    false,
                ) && i == row {
                    l.qty.units as int
                } else {
                    0
                }
        }),
{
    assert(ls.push(l).drop_last() =~= ls);
    assert forall|i: int| 0 <= i < bid.len() implies #[trigger] bid_after[i] == bid[i]
        + if rests_in_sight(l, win, true) && i == win.bin(l.price) - win.bin(win.lowest) {
        l.qty.units as int
    } else {
        0
    } by {
        assert(bid[i] == overlay::row_depth(ls, win, true, i));
        assert(bid_after[i] == overlay::row_depth(ls.push(l), win, true, i));
    }
    assert forall|i: int| 0 <= i < ask.len() implies #[trigger] ask_after[i] == ask[i]
        + if rests_in_sight(l, win, false) && i == win.bin(l.price) - win.bin(win.lowest) {
        l.qty.units as int
    } else {
        0
    } by {
        assert(ask[i] == overlay::row_depth(ls, win, false, i));
        assert(ask_after[i] == overlay::row_depth(ls.push(l), win, false, i));
    }
}

/// A book without levels has nothing in its bins.
pub proof fn no_levels_no_depth(win: PriceWindow, bid: Seq<i128>, ask: Seq<i128>)
    requires
        overlay::depth_is(Seq::empty(), win, bid, ask),
    ensures
        forall|i: int| 0 <= i < bid.len() ==> #[trigger] bid[i] == 0,
        forall|i: int| 0 <= i < ask.len() ==> #[trigger] ask[i] == 0,
{
}

/// The depth of the first `n` rows, added up.
spec fn rows_of_depth(ls: Seq<DepthLevel>, win: PriceWindow, is_bid: bool, n: int) -> int
    decreases n,
{
    if n <= 0 {
        0
    } else {
        rows_of_depth(ls, win, is_bid, n - 1) + overlay::row_depth(ls, win, is_bid, n - 1)
    }
}

proof fn lemma_rows_of_depth_step(ls: Seq<DepthLevel>, win: PriceWindow, is_bid: bool, n: int)
    requires
        ls.len() > 0,
        n >= 0,
    ensures
        rows_of_depth(ls, win, is_bid, n) == rows_of_depth(ls.drop_last(), win, is_bid, n)
            + if ls.last().is_bid == is_bid && win.lowest.units <= ls.last().price.units
            <= win.highest.units && 0 <= win.row(ls.last().price) < n {
            ls.last().qty.units as int
        } else {
            0
        },
    decreases n,
{
    if n > 0 {
        lemma_rows_of_depth_step(ls, win, is_bid, n - 1);
    }
}

proof fn lemma_rows_of_depth(ls: Seq<DepthLevel>, win: PriceWindow, is_bid: bool)
    requires
        win.rows() >= 0,
    ensures
        rows_of_depth(ls, win, is_bid, win.rows()) == resting(ls, win, is_bid),
    decreases ls.len(),
{
    if ls.len() > 0 {
        lemma_rows_of_depth(ls.drop_last(), win, is_bid);
        lemma_rows_of_depth_step(ls, win, is_bid, win.rows());
        lemma_resting_ends(ls, win, is_bid);
    } else {
        lemma_no_rows_of_depth(ls, win, is_bid, win.rows());
    }
}

proof fn lemma_no_rows_of_depth(ls: Seq<DepthLevel>, win: PriceWindow, is_bid: bool, n: int)
    requires
        ls.len() == 0,
    ensures
        rows_of_depth(ls, win, is_bid, n) == 0,
    decreases n,
{
    if n > 0 {
        lemma_no_rows_of_depth(ls, win, is_bid, n - 1);
    }
}

proof fn lemma_total_is_rows_of_depth(
    ls: Seq<DepthLevel>,
    win: PriceWindow,
    is_bid: bool,
    bins: Seq<i128>,
    n: int,
)
    requires
        0 <= n <= bins.len(),
        forall|i: int|
            0 <= i < bins.len() ==> #[trigger] bins[i] == overlay::row_depth(ls, win, is_bid, i),
    ensures
        total(bins.take(n)) == rows_of_depth(ls, win, is_bid, n),
    decreases n,
{
    if n > 0 {
        lemma_total_is_rows_of_depth(ls, win, is_bid, bins, n - 1);
        lemma_total_push(bins.take(n - 1), bins[n - 1]);
        assert(bins.take(n) =~= bins.take(n - 1).push(bins[n - 1]));
    } else {
        assert(bins.take(0) =~= Seq::<i128>::empty());
    }
}

/// Nothing that rests in the window is lost or counted twice: the bins of each side add up to the
/// quantities of its levels in the window.
pub proof fn depth_bins_add_up(
    ls: Seq<DepthLevel>,
    win: PriceWindow,
    bid: Seq<i128>,
    ask: Seq<i128>,
)
    requires
        overlay::depth_is(ls, win, bid, ask),
    ensures
        total(bid) == resting(ls, win, true),
        total(ask) == resting(ls, win, false),
{
    lemma_rows_of_depth(ls, win, true);
    lemma_rows_of_depth(ls, win, false);
    lemma_total_is_rows_of_depth(ls, win, true, bid, bid.len() as int);
    lemma_total_is_rows_of_depth(ls, win, false, ask, ask.len() as int);
    assert(bid.take(bid.len() as int) =~= bid);
    assert(ask.take(ask.len() as int) =~= ask);
}

/// Where no size is negative, no bin is deeper than the peak.
pub proof fn no_bin_is_above_the_peak(ls: Seq<DepthLevel>, win: PriceWindow, is_bid: bool, row: int)
    requires
        forall|i: int| 0 <= i < ls.len() ==> (#[trigger] ls[i]).qty.units >= 0,
        0 <= row < win.rows(),
    ensures
        0 <= overlay::row_depth(ls, win, is_bid, row) <= overlay::peak_depth(ls, win),
    decreases ls.len(),
{
    if ls.len() > 0 {
        assert forall|i: int| 0 <= i < ls.drop_last().len() implies (
        #[trigger] ls.drop_last()[i]).qty.units >= 0 by {
            assert(ls.drop_last()[i] == ls[i]);
        }
        no_bin_is_above_the_peak(ls.drop_last(), win, is_bid, row);
        assert(ls[ls.len() - 1].qty.units >= 0);
    }
}

/// Where no size is negative, the peak is the depth of a bin, which is found.
pub proof fn the_peak_is_a_bin(ls: Seq<DepthLevel>, win: PriceWindow) -> (found: (bool, int))
    requires
        forall|i: int| 0 <= i < ls.len() ==> (#[trigger] ls[i]).qty.units >= 0,
        overlay::peak_depth(ls, win) > 0,
    ensures
        0 <= found.1 < win.rows(),
        overlay::row_depth(ls, win, found.0, found.1) == overlay::peak_depth(ls, win),
    decreases ls.len(),
{
    let l = ls.last();
    let before = ls.drop_last();
    assert forall|i: int| 0 <= i < before.len() implies (#[trigger] before[i]).qty.units >= 0 by {
        assert(before[i] == ls[i]);
    }
    assert(ls[ls.len() - 1].qty.units >= 0);
    if overlay::peak_depth(ls, win) == overlay::peak_depth(before, win) {
        let f = the_peak_is_a_bin(before, win);
        if overlay::row_depth(ls, win, f.0, f.1) == overlay::row_depth(before, win, f.0, f.1) {
            f
        } else {
            assert(l.is_bid == f.0 && win.row(l.price) == f.1);
            f
        }
    } else {
        (l.is_bid, win.row(l.price))
    }
}

/// A trade of one side falls into a row in sight.
pub open spec fn traded_in_sight(t: GroupedTrade, win: PriceWindow, is_sell: bool) -> bool {
    t.is_sell == is_sell && row_in_sight(win, t.price)
}

/// The sizes of the trades of one side in sight, added up.
pub open spec fn traded(ts: Seq<GroupedTrade>, win: PriceWindow, is_sell: bool) -> int
    decreases ts.len(),
{
    if ts.len() == 0 {
        0
    } else {
        (if traded_in_sight(ts[0], win, is_sell) {
            ts[0].qty.units as int
        } else {
            0
        }) + traded(ts.drop_first(), win, is_sell)
    }
}

proof fn lemma_traded_ends(ts: Seq<GroupedTrade>, win: PriceWindow, is_sell: bool)
    requires
        ts.len() > 0,
    ensures
        traded(ts, win, is_sell) == traded(ts.drop_last(), win, is_sell) + if traded_in_sight(
            ts.last(),
            win,
            is_sell,
        ) {
            ts.last().qty.units as int
        } else {
            0
        },
    decreases ts.len(),
{
    if ts.len() > 1 {
        lemma_traded_ends(ts.drop_first(), win, is_sell);
        assert(ts.drop_first().drop_last() =~= ts.drop_last().drop_first());
    } else {
        assert(ts.drop_first() =~= Seq::<GroupedTrade>::empty());
        assert(ts.drop_last() =~= Seq::<GroupedTrade>::empty());
    }
}

proof fn lemma_traded_joins(
    a: Seq<GroupedTrade>,
    b: Seq<GroupedTrade>,
    win: PriceWindow,
    is_sell: bool,
)
    ensures
        traded(a + b, win, is_sell) == traded(a, win, is_sell) + traded(b, win, is_sell),
    decreases a.len(),
{
    if a.len() == 0 {
        assert(a + b =~= b);
    } else {
        lemma_traded_joins(a.drop_first(), b, win, is_sell);
        assert((a + b).drop_first() =~= a.drop_first() + b);
    }
}

/// One more trade raises the bin of its row by its size, on its side, and leaves every other bin
/// as it was.
pub proof fn one_more_trade_raises_its_bin(
    ts: Seq<GroupedTrade>,
    t: GroupedTrade,
    win: PriceWindow,
    buy: Seq<i128>,
    sell: Seq<i128>,
    buy_after: Seq<i128>,
    sell_after: Seq<i128>,
)
    requires
        overlay::profile_is(ts, win, buy, sell),
        overlay::profile_is(ts.push(t), win, buy_after, sell_after),
    ensures
        ({
            let row = win.bin(t.price) - win.bin(win.lowest);
            &&& buy_after.len() == buy.len() && sell_after.len() == sell.len()
            &&& forall|i: int|
                0 <= i < buy.len() ==> #[trigger] buy_after[i] == buy[i] + if !t.is_sell && i
                    == row {
                    t.qty.units as int
                } else {
                    0
                }
            &&& forall|i: int|
                0 <= i < sell.len() ==> #[trigger] sell_after[i] == sell[i] + if t.is_sell && i
                    == row {
                    t.qty.units as int
                } else {
                    0
                }
        }),
{
    assert(ts.push(t).drop_last() =~= ts);
    assert forall|i: int| 0 <= i < buy.len() implies #[trigger] buy_after[i] == buy[i]
        + if !t.is_sell && i == win.bin(t.price) - win.bin(win.lowest) {
        t.qty.units as int
    } else {
        0
    } by {
        assert(buy[i] == overlay::row_volume(ts, win, false, i));
        assert(buy_after[i] == overlay::row_volume(ts.push(t), win, false, i));
    }
    assert forall|i: int| 0 <= i < sell.len() implies #[trigger] sell_after[i] == sell[i]
        + if t.is_sell && i == win.bin(t.price) - win.bin(win.lowest) {
        t.qty.units as int
    } else {
        0
    } by {
        assert(sell[i] == overlay::row_volume(ts, win, true, i));
        assert(sell_after[i] == overlay::row_volume(ts.push(t), win, true, i));
    }
}

/// The volume of the first `n` rows, added up.
spec fn rows_of_volume(ts: Seq<GroupedTrade>, win: PriceWindow, is_sell: bool, n: int) -> int
    decreases n,
{
    if n <= 0 {
        0
    } else {
        rows_of_volume(ts, win, is_sell, n - 1) + overlay::row_volume(ts, win, is_sell, n - 1)
    }
}

proof fn lemma_rows_of_volume_step(ts: Seq<GroupedTrade>, win: PriceWindow, is_sell: bool, n: int)
    requires
        ts.len() > 0,
        n >= 0,
    ensures
        rows_of_volume(ts, win, is_sell, n) == rows_of_volume(ts.drop_last(), win, is_sell, n)
            + if ts.last().is_sell == is_sell && 0 <= win.row(ts.last().price) < n {
            ts.last().qty.units as int
        } else {
            0
        },
    decreases n,
{
    if n > 0 {
        lemma_rows_of_volume_step(ts, win, is_sell, n - 1);
    }
}

proof fn lemma_no_rows_of_volume(ts: Seq<GroupedTrade>, win: PriceWindow, is_sell: bool, n: int)
    requires
        ts.len() == 0,
    ensures
        rows_of_volume(ts, win, is_sell, n) == 0,
    decreases n,
{
    if n > 0 {
        lemma_no_rows_of_volume(ts, win, is_sell, n - 1);
    }
}

proof fn lemma_rows_of_volume(ts: Seq<GroupedTrade>, win: PriceWindow, is_sell: bool)
    requires
        win.rows() >= 0,
    ensures
        rows_of_volume(ts, win, is_sell, win.rows()) == traded(ts, win, is_sell),
    decreases ts.len(),
{
    if ts.len() > 0 {
        lemma_rows_of_volume(ts.drop_last(), win, is_sell);
        lemma_rows_of_volume_step(ts, win, is_sell, win.rows());
        lemma_traded_ends(ts, win, is_sell);
    } else {
        lemma_no_rows_of_volume(ts, win, is_sell, win.rows());
    }
}

proof fn lemma_total_is_rows_of_volume(
    ts: Seq<GroupedTrade>,
    win: PriceWindow,
    is_sell: bool,
    bins: Seq<i128>,
    n: int,
)
    requires
        0 <= n <= bins.len(),
        forall|i: int|
            0 <= i < bins.len() ==> #[trigger] bins[i] == overlay::row_volume(ts, win, is_sell, i),
    ensures
        total(bins.take(n)) == rows_of_volume(ts, win, is_sell, n),
    decreases n,
{
    if n > 0 {
        lemma_total_is_rows_of_volume(ts, win, is_sell, bins, n - 1);
        lemma_total_push(bins.take(n - 1), bins[n - 1]);
        assert(bins.take(n) =~= bins.take(n - 1).push(bins[n - 1]));
    } else {
        assert(bins.take(0) =~= Seq::<i128>::empty());
    }
}

/// The sizes that one side traded in sight, over the points from `i` on that lie between two
/// times.
pub open spec fn traded_between(
    points: Seq<HeatmapDataPoint>,
    i: int,
    earliest: u64,
    latest: u64,
    win: PriceWindow,
    is_sell: bool,
) -> int
    decreases points.len() - i,
{
    if i >= points.len() {
        0
    } else {
        (if earliest <= points[i].time <= latest {
            traded(points[i].grouped_trades@, win, is_sell)
        } else {
            0
        }) + traded_between(points, i + 1, earliest, latest, win, is_sell)
    }
}

proof fn lemma_traded_between(
    points: Seq<HeatmapDataPoint>,
    n: int,
    earliest: u64,
    latest: u64,
    win: PriceWindow,
    is_sell: bool,
)
    requires
        0 <= n <= points.len(),
    ensures
        traded(overlay::trades_between(points, n, earliest, latest), win, is_sell) + traded_between(
            points,
            n,
            earliest,
            latest,
            win,
            is_sell,
        ) == traded_between(points, 0, earliest, latest, win, is_sell),
    decreases n,
{
    if n > 0 {
        lemma_traded_between(points, n - 1, earliest, latest, win, is_sell);
        if earliest <= points[n - 1].time <= latest {
            lemma_traded_joins(
                overlay::trades_between(points, n - 1, earliest, latest),
                points[n - 1].grouped_trades@,
                win,
                is_sell,
            );
        }
    }
}

/// No trade in sight is lost or counted twice: the bins of each side of a volume profile add up to
/// the sizes that traded in sight at the points between the two times.
pub proof fn profile_bins_add_up(
    points: Seq<HeatmapDataPoint>,
    earliest: u64,
    latest: u64,
    win: PriceWindow,
    buy: Seq<i128>,
    sell: Seq<i128>,
)
    requires
        overlay::profile_is(
            overlay::trades_between(points, points.len() as int, earliest, latest),
            win,
            buy,
            sell,
        ),
    ensures
        total(buy) == traded_between(points, 0, earliest, latest, win, false),
        total(sell) == traded_between(points, 0, earliest, latest, win, true),
{
    let ts = overlay::trades_between(points, points.len() as int, earliest, latest);
    lemma_traded_between(points, points.len() as int, earliest, latest, win, false);
    lemma_traded_between(points, points.len() as int, earliest, latest, win, true);
    lemma_rows_of_volume(ts, win, false);
    lemma_rows_of_volume(ts, win, true);
    lemma_total_is_rows_of_volume(ts, win, false, buy, buy.len() as int);
    lemma_total_is_rows_of_volume(ts, win, true, sell, sell.len() as int);
    assert(buy.take(buy.len() as int) =~= buy);
    assert(sell.take(sell.len() as int) =~= sell);
}

/// Where no size is negative, the peak of a volume profile is the volume of a row, which is found.
pub proof fn the_peak_is_a_row(ts: Seq<GroupedTrade>, win: PriceWindow) -> (row: int)
    requires
        forall|i: int| 0 <= i < ts.len() ==> (#[trigger] ts[i]).qty.units >= 0,
        overlay::peak_volume(ts, win) > 0,
    ensures
        0 <= row < win.rows(),
        overlay::row_volume(ts, win, false, row) + overlay::row_volume(ts, win, true, row)
            == overlay::peak_volume(ts, win),
    decreases ts.len(),
{
    let t = ts.last();
    let before = ts.drop_last();
    assert forall|i: int| 0 <= i < before.len() implies (#[trigger] before[i]).qty.units >= 0 by {
        assert(before[i] == ts[i]);
    }
    assert(ts[ts.len() - 1].qty.units >= 0);
    if overlay::peak_volume(ts, win) == overlay::peak_volume(before, win) {
        the_peak_is_a_row(before, win)
    } else {
        win.row(t.price)
    }
}

/// A window of so many buckets ends at the latest time in sight and spans that many buckets, as far
/// as time reaches back.
pub proof fn fixed_windows_span_their_buckets(
    n: u32,
    earliest: u64,
    latest_vis: u64,
    latest_time: u64,
    aggr_time: u64,
)
    requires
        aggr_time > 0,
    ensures
        ({
            let span = overlay::profile_span(
                ProfileKind::FixedWindow(n),
                earliest,
                latest_vis,
                latest_time,
                aggr_time,
            );
            &&& span.1 <= latest_time && span.1 <= latest_vis && (span.1 == latest_time || span.1
                == latest_vis)
            &&& 0 <= span.0 <= span.1
            &&& span.0 > 0 ==> span.1 - span.0 == n * aggr_time
            &&& span.1 - span.0 <= n * aggr_time
        }),
{
    assert(n * aggr_time >= 0) by (nonlinear_arith);
}

/// The rows of an overlay are those of the texture: two prices are as many rows apart as the
/// texture's anchor puts between them.
pub proof fn overlay_rows_follow_the_texture(win: PriceWindow, p: Price, q: Price, anchor: Price)
    requires
        win.y_anchor == Some(anchor),
        i64::MIN < win.bin(p) < i64::MAX,
        i64::MIN < win.bin(q) < i64::MAX,
    ensures
        win.bin(p) - win.bin(q) == depth_grid::price_row(
            p.units as int,
            anchor.units as int,
            win.step.units as int,
            win.steps_per_y_bin as int,
        ) - depth_grid::price_row(
            q.units as int,
            anchor.units as int,
            win.step.units as int,
            win.steps_per_y_bin as int,
        ),
{
}

/// The base price is row 0.
pub proof fn rows_count_from_the_base(win: PriceWindow)
    ensures
        win.bin(win.base_price) == 0,
{
    vstd::arithmetic::div_mod::lemma_div_basics(
        crate::math::max_int(win.step.units as int, 1),
    );
    vstd::arithmetic::div_mod::lemma_div_basics(
        crate::math::max_int(win.steps_per_y_bin as int, 1),
    );
}

/// A trade is drawn as a circle: its price is in the window, and it is larger than the filter and
/// than nothing.
pub open spec fn is_circle(t: GroupedTrade, win: PriceWindow, filter: F32Bits) -> bool {
    &&& win.lowest.units <= t.price.units <= win.highest.units
    &&& !t.size.spec_le(filter)
    &&& !t.size.spec_le(F32Bits { bits: 0 })
}

/// How many of the first `n` trades are drawn as circles.
pub open spec fn circles_in(
    ts: Seq<GroupedTrade>,
    n: int,
    win: PriceWindow,
    filter: F32Bits,
) -> nat
    decreases n,
{
    if n <= 0 {
        0
    } else {
        circles_in(ts, n - 1, win, filter) + if is_circle(ts[n - 1], win, filter) {
            1nat
        } else {
            0nat
        }
    }
}

/// How many trades of the first `n` points between two times are drawn as circles.
pub open spec fn circles_until(
    points: Seq<HeatmapDataPoint>,
    n: int,
    earliest: u64,
    latest: u64,
    win: PriceWindow,
    filter: F32Bits,
) -> nat
    decreases n,
{
    if n <= 0 {
        0
    } else {
        let ts = points[n - 1].grouped_trades@;
        circles_until(points, n - 1, earliest, latest, win, filter) + if earliest <= points[n
            - 1].time <= latest {
            circles_in(ts, ts.len() as int, win, filter)
        } else {
            0nat
        }
    }
}

proof fn lemma_bucket_circles(
    ts: Seq<GroupedTrade>,
    bucket: i64,
    win: PriceWindow,
    filter: F32Bits,
    j: int,
    n: int,
)
    requires
        0 <= n <= ts.len(),
    ensures
        overlay::bucket_circles(ts.take(n), bucket, win, filter).len() == circles_in(
            ts,
            n,
            win,
            filter,
        ),
        0 <= j < n && is_circle(ts[j], win, filter) ==> {
            let k = circles_in(ts, j, win, filter) as int;
            &&& k < circles_in(ts, n, win, filter)
            &&& overlay::bucket_circles(ts.take(n), bucket, win, filter)[k] == (VisibleTrade {
                bucket,
                trade: ts[j],
            })
        },
    decreases n,
{
    if n > 0 {
        lemma_bucket_circles(ts, bucket, win, filter, j, n - 1);
        assert(ts.take(n).drop_last() =~= ts.take(n - 1));
        assert(ts.take(n).last() == ts[n - 1]);
    }
}

proof fn lemma_circles_between(
    points: Seq<HeatmapDataPoint>,
    n: int,
    earliest: u64,
    latest: u64,
    aggr: u64,
    win: PriceWindow,
    filter: F32Bits,
    i: int,
    j: int,
)
    requires
        0 <= n <= points.len(),
        aggr > 0,
        latest as int / aggr as int <= i64::MAX,
    ensures
        overlay::circles_between(points, n, earliest, latest, aggr, win, filter).len()
            == circles_until(points, n, earliest, latest, win, filter),
        0 <= i < n && earliest <= points[i].time <= latest && 0 <= j
            < points[i].grouped_trades@.len() && is_circle(
            points[i].grouped_trades@[j],
            win,
            filter,
        ) ==> {
            let k = circles_until(points, i, earliest, latest, win, filter) + circles_in(
                points[i].grouped_trades@,
                j,
                win,
                filter,
            );
            let c = overlay::circles_between(points, n, earliest, latest, aggr, win, filter);
            &&& k < c.len()
            &&& c[k as int].trade == points[i].grouped_trades@[j]
            &&& c[k as int].bucket == points[i].time as int / aggr as int
        },
    decreases n,
{
    if n > 0 {
        lemma_circles_between(points, n - 1, earliest, latest, aggr, win, filter, i, j);
        let p = points[n - 1];
        let ts = p.grouped_trades@;
        if earliest <= p.time <= latest {
            vstd::arithmetic::div_mod::lemma_div_is_ordered(
                p.time as int,
                latest as int,
                aggr as int,
            );
            vstd::arithmetic::div_mod::lemma_div_pos_is_pos(p.time as int, aggr as int);
            let bucket = crate::math::wrap_i64(p.time as int / aggr as int) as i64;
            lemma_bucket_circles(ts, bucket, win, filter, j, ts.len() as int);
            assert(ts.take(ts.len() as int) =~= ts);
        }
    }
}

/// Circles are complete and in order: each trade between the two times that is to be drawn is
/// drawn, in the bucket of its time, at the place that the number of such trades before it gives.
pub proof fn every_large_trade_is_a_circle(
    points: Seq<HeatmapDataPoint>,
    earliest: u64,
    latest: u64,
    aggr: u64,
    win: PriceWindow,
    filter: F32Bits,
    i: int,
    j: int,
)
    requires
        aggr > 0,
        latest as int / aggr as int <= i64::MAX,
        0 <= i < points.len(),
        earliest <= points[i].time <= latest,
        0 <= j < points[i].grouped_trades@.len(),
        is_circle(points[i].grouped_trades@[j], win, filter),
    ensures
        ({
            let k = circles_until(points, i, earliest, latest, win, filter) + circles_in(
                points[i].grouped_trades@,
                j,
                win,
                filter,
            );
            let c = overlay::circles_between(
                points,
                points.len() as int,
                earliest,
                latest,
                aggr,
                win,
                filter,
            );
            &&& k < c.len()
            &&& c[k as int].trade == points[i].grouped_trades@[j]
            &&& c[k as int].bucket == points[i].time as int / aggr as int
        }),
{
    lemma_circles_between(
        points,
        points.len() as int,
        earliest,
        latest,
        aggr,
        win,
        filter,
        i,
        j,
    );
}

/// Nothing else is drawn as a circle.
pub proof fn only_large_trades_are_circles(
    points: Seq<HeatmapDataPoint>,
    earliest: u64,
    latest: u64,
    aggr: u64,
    win: PriceWindow,
    filter: F32Bits,
)
    requires
        aggr > 0,
        latest as int / aggr as int <= i64::MAX,
    ensures
        overlay::circles_between(
            points,
            points.len() as int,
            earliest,
            latest,
            aggr,
            win,
            filter,
        ).len() == circles_until(points, points.len() as int, earliest, latest, win, filter),
{
    lemma_circles_between(
        points,
        points.len() as int,
        earliest,
        latest,
        aggr,
        win,
        filter,
        0,
        0,
    );
}

/// The largest size is that of a trade in the window, or nothing, and no trade in the window is
/// larger, whatever the size filter.
pub proof fn largest_trade_is_the_maximum(ts: Seq<GroupedTrade>, win: PriceWindow)
    ensures
        forall|i: int|
            #![trigger ts[i]]
            0 <= i < ts.len() && win.lowest.units <= ts[i].price.units <= win.highest.units
                ==> ts[i].qty.units <= overlay::largest_trade(ts, win),
        overlay::largest_trade(ts, win) == 0 || exists|i: int|
            #![trigger ts[i]]
            0 <= i < ts.len() && win.lowest.units <= ts[i].price.units <= win.highest.units
                && ts[i].qty.units == overlay::largest_trade(ts, win),
    decreases ts.len(),
{
    if ts.len() > 0 {
        let before = ts.drop_last();
        largest_trade_is_the_maximum(before, win);
        assert forall|i: int|
            #![trigger ts[i]]
            0 <= i < ts.len() && win.lowest.units <= ts[i].price.units
                <= win.highest.units implies ts[i].qty.units <= overlay::largest_trade(ts, win) by {
            if i < before.len() {
                assert(before[i] == ts[i]);
            }
        }
        if overlay::largest_trade(ts, win) == overlay::largest_trade(before, win) {
            if overlay::largest_trade(before, win) != 0 {
                let i = choose|i: int|
                    #![trigger before[i]]
                    0 <= i < before.len() && win.lowest.units <= before[i].price.units
                        <= win.highest.units && before[i].qty.units == overlay::largest_trade(
                        before,
                        win,
                    );
                assert(ts[i] == before[i]);
            }
        } else {
            assert(ts[ts.len() - 1].qty.units == overlay::largest_trade(ts, win));
        }
    }
}

/// What one side traded at the points from `i` on that lie between two times and in the buckets
/// from `from` up to but not including `until`.
pub open spec fn volume_within(
    points: Seq<HeatmapDataPoint>,
    i: int,
    earliest: u64,
    latest: u64,
    aggr: u64,
    from: int,
    until: int,
    is_sell: bool,
) -> int
    decreases points.len() - i,
{
    if i >= points.len() {
        0
    } else {
        let p = points[i];
        volume_within(points, i + 1, earliest, latest, aggr, from, until, is_sell) + if earliest
            <= p.time <= latest && from <= p.time as int / aggr as int && until > p.time as int
            / aggr as int {
            if is_sell {
                p.sell.units as int
            } else {
                p.buy.units as int
            }
        } else {
            0
        }
    }
}

proof fn lemma_bar_is_a_stretch(
    points: Seq<HeatmapDataPoint>,
    n: int,
    earliest: u64,
    latest: u64,
    aggr: u64,
    cols: int,
    bin: int,
    until: int,
    is_sell: bool,
)
    requires
        0 <= n <= points.len(),
        aggr > 0,
        cols > 0,
        latest as int / aggr as int <= i64::MAX,
        until == bin * cols + cols || (until == latest as int / aggr as int + 1 && until <= bin
            * cols + cols),
    ensures
        overlay::bar_volume(points, n, earliest, latest, aggr, cols, bin, is_sell) + volume_within(
            points,
            n,
            earliest,
            latest,
            aggr,
            bin * cols,
            until,
            is_sell,
        ) == volume_within(points, 0, earliest, latest, aggr, bin * cols, until, is_sell),
    decreases n,
{
    if n > 0 {
        lemma_bar_is_a_stretch(
            points,
            n - 1,
            earliest,
            latest,
            aggr,
            cols,
            bin,
            until,
            is_sell,
        );
        let t = points[n - 1].time;
        let bucket = t as int / aggr as int;
        if earliest <= t <= latest {
            vstd::arithmetic::div_mod::lemma_div_is_ordered(t as int, latest as int, aggr as int);
            vstd::arithmetic::div_mod::lemma_div_pos_is_pos(t as int, aggr as int);
            vstd::arithmetic::div_mod::lemma_fundamental_div_mod(bucket, cols);
            vstd::arithmetic::div_mod::lemma_mod_bound(bucket, cols);
            let q = bucket / cols;
            assert(q == bin <==> bin * cols <= bucket < bin * cols + cols) by (nonlinear_arith)
                requires
                    bucket == cols * q + bucket % cols,
                    0 <= bucket % cols < cols,
                    cols > 0,
            ;
        }
    }
}

/// Bar `k` is made of bin `b`.
spec fn is_bar_of(
    bar: VolumeBar,
    buys: Seq<i128>,
    sells: Seq<i128>,
    b: int,
    min_bin: int,
    cols: int,
    latest_bucket: int,
    ref_bucket: int,
) -> bool {
    let start = (min_bin + b) * cols;
    let end = crate::math::min_int(start + cols, latest_bucket + 1);
    &&& start < end
    &&& bar.x0_bin == overlay::clamp_i32(start - ref_bucket)
    &&& bar.x1_bin == overlay::clamp_i32(end - ref_bucket)
    &&& bar.buy == buys[b]
    &&& bar.sell == sells[b]
}

proof fn lemma_bars_of(
    buys: Seq<i128>,
    sells: Seq<i128>,
    n: int,
    min_bin: int,
    cols: int,
    latest_bucket: int,
    ref_bucket: int,
    k: int,
) -> (b: int)
    requires
        0 <= n <= buys.len(),
        buys.len() == sells.len(),
        0 <= k < overlay::bars_of(buys, sells, n, min_bin, cols, latest_bucket, ref_bucket).len(),
    ensures
        0 <= b < n,
        is_bar_of(
            overlay::bars_of(buys, sells, n, min_bin, cols, latest_bucket, ref_bucket)[k],
            buys,
            sells,
            b,
            min_bin,
            cols,
            latest_bucket,
            ref_bucket,
        ),
    decreases n,
{
    let before = overlay::bars_of(buys, sells, n - 1, min_bin, cols, latest_bucket, ref_bucket);
    if k < before.len() {
        lemma_bars_of(buys, sells, n - 1, min_bin, cols, latest_bucket, ref_bucket, k)
    } else {
        n - 1
    }
}

proof fn lemma_bin_has_a_bar(
    buys: Seq<i128>,
    sells: Seq<i128>,
    n: int,
    min_bin: int,
    cols: int,
    latest_bucket: int,
    ref_bucket: int,
    b: int,
) -> (k: int)
    requires
        0 <= b < n <= buys.len(),
        buys.len() == sells.len(),
        cols > 0,
        buys[b] + sells[b] != 0,
        (min_bin + b) * cols <= latest_bucket,
    ensures
        0 <= k < overlay::bars_of(buys, sells, n, min_bin, cols, latest_bucket, ref_bucket).len(),
        is_bar_of(
            overlay::bars_of(buys, sells, n, min_bin, cols, latest_bucket, ref_bucket)[k],
            buys,
            sells,
            b,
            min_bin,
            cols,
            latest_bucket,
            ref_bucket,
        ),
    decreases n,
{
    let before = overlay::bars_of(buys, sells, n - 1, min_bin, cols, latest_bucket, ref_bucket);
    if b < n - 1 {
        lemma_bin_has_a_bar(buys, sells, n - 1, min_bin, cols, latest_bucket, ref_bucket, b)
    } else {
        before.len() as int
    }
}

/// A bar of volume by time holds what was bought and sold in its own buckets, which it counts from
/// the reference.
pub proof fn bars_hold_what_traded_in_them(
    points: Seq<HeatmapDataPoint>,
    earliest: u64,
    latest: u64,
    aggr: u64,
    cols: int,
    ref_bucket: int,
    min_bin: int,
    buys: Seq<i128>,
    sells: Seq<i128>,
    k: int,
)
    requires
        aggr > 0,
        cols > 0,
        latest as int / aggr as int <= i64::MAX,
        overlay::strip_is(
            points,
            points.len() as int,
            earliest,
            latest,
            aggr,
            cols,
            min_bin,
            buys,
            sells,
        ),
        0 <= k < overlay::bars_of(
            buys,
            sells,
            buys.len() as int,
            min_bin,
            cols,
            latest as int / aggr as int,
            ref_bucket,
        ).len(),
        i32::MIN < overlay::bars_of(
            buys,
            sells,
            buys.len() as int,
            min_bin,
            cols,
            latest as int / aggr as int,
            ref_bucket,
        )[k].x0_bin,
        overlay::bars_of(
            buys,
            sells,
            buys.len() as int,
            min_bin,
            cols,
            latest as int / aggr as int,
            ref_bucket,
        )[k].x1_bin < i32::MAX,
    ensures
        ({
            let bar = overlay::bars_of(
                buys,
                sells,
                buys.len() as int,
                min_bin,
                cols,
                latest as int / aggr as int,
                ref_bucket,
            )[k];
            let from = bar.x0_bin + ref_bucket;
            let until = bar.x1_bin + ref_bucket;
            &&& from < until <= from + cols
            &&& bar.buy == volume_within(points, 0, earliest, latest, aggr, from, until, false)
            &&& bar.sell == volume_within(points, 0, earliest, latest, aggr, from, until, true)
        }),
{
    let latest_bucket = latest as int / aggr as int;
    let b = lemma_bars_of(
        buys,
        sells,
        buys.len() as int,
        min_bin,
        cols,
        latest_bucket,
        ref_bucket,
        k,
    );
    let start = (min_bin + b) * cols;
    let end = crate::math::min_int(start + cols, latest_bucket + 1);
    lemma_bar_is_a_stretch(
        points,
        points.len() as int,
        earliest,
        latest,
        aggr,
        cols,
        min_bin + b,
        end,
        false,
    );
    lemma_bar_is_a_stretch(
        points,
        points.len() as int,
        earliest,
        latest,
        aggr,
        cols,
        min_bin + b,
        end,
        true,
    );
    assert(buys[b] == overlay::bar_volume(
        points,
        points.len() as int,
        earliest,
        latest,
        aggr,
        cols,
        min_bin + b,
        false,
    ));
    assert(sells[b] == overlay::bar_volume(
        points,
        points.len() as int,
        earliest,
        latest,
        aggr,
        cols,
        min_bin + b,
        true,
    ));
}

proof fn lemma_bar_holds_its_points(
    points: Seq<HeatmapDataPoint>,
    n: int,
    earliest: u64,
    latest: u64,
    aggr: u64,
    cols: int,
    bin: int,
    is_sell: bool,
    i: int,
)
    requires
        0 <= n <= points.len(),
        forall|j: int|
            0 <= j < points.len() ==> (#[trigger] points[j]).buy.units >= 0 && points[j].sell.units
                >= 0,
    ensures
        overlay::bar_volume(points, n, earliest, latest, aggr, cols, bin, is_sell) >= 0,
        0 <= i < n && earliest <= points[i].time <= latest && overlay::bucket_of(
            points[i].time,
            aggr,
        ) / cols == bin ==> overlay::bar_volume(
            points,
            n,
            earliest,
            latest,
            aggr,
            cols,
            bin,
            is_sell,
        ) >= if is_sell {
            points[i].sell.units
        } else {
            points[i].buy.units
        },
    decreases n,
{
    if n > 0 {
        lemma_bar_holds_its_points(
            points,
            n - 1,
            earliest,
            latest,
            aggr,
            cols,
            bin,
            is_sell,
            i,
        );
        assert(points[n - 1].buy.units >= 0 && points[n - 1].sell.units >= 0);
    }
}

/// No volume is left out: where no size is negative, every point between the two times at which
/// something traded lies in the buckets of a bar, which is found.
pub proof fn every_point_lies_in_a_bar(
    points: Seq<HeatmapDataPoint>,
    earliest: u64,
    latest: u64,
    aggr: u64,
    cols: int,
    ref_bucket: int,
    buys: Seq<i128>,
    sells: Seq<i128>,
    i: int,
) -> (k: int)
    requires
        aggr > 0,
        cols > 0,
        latest as int / aggr as int <= i64::MAX,
        forall|j: int|
            0 <= j < points.len() ==> (#[trigger] points[j]).buy.units >= 0 && points[j].sell.units
                >= 0,
        overlay::strip_is(
            points,
            points.len() as int,
            earliest,
            latest,
            aggr,
            cols,
            earliest as int / aggr as int / cols,
            buys,
            sells,
        ),
        buys.len() == latest as int / aggr as int / cols - earliest as int / aggr as int / cols + 1,
        0 <= i < points.len(),
        earliest <= points[i].time <= latest,
        points[i].buy.units + points[i].sell.units > 0,
        i32::MIN <= earliest as int / aggr as int - cols - ref_bucket,
        latest as int / aggr as int + 1 - ref_bucket <= i32::MAX,
    ensures
        ({
            let bars = overlay::bars_of(
                buys,
                sells,
                buys.len() as int,
                earliest as int / aggr as int / cols,
                cols,
                latest as int / aggr as int,
                ref_bucket,
            );
            &&& 0 <= k < bars.len()
            &&& bars[k].x0_bin <= points[i].time as int / aggr as int - ref_bucket < bars[k].x1_bin
        }),
{
    let a = aggr as int;
    let t = points[i].time as int;
    let first = earliest as int / a;
    let last = latest as int / a;
    let bucket = t / a;
    vstd::arithmetic::div_mod::lemma_div_is_ordered(earliest as int, t, a);
    vstd::arithmetic::div_mod::lemma_div_is_ordered(t, latest as int, a);
    vstd::arithmetic::div_mod::lemma_div_pos_is_pos(earliest as int, a);
    vstd::arithmetic::div_mod::lemma_div_is_ordered(first, bucket, cols);
    vstd::arithmetic::div_mod::lemma_div_is_ordered(bucket, last, cols);
    let min_bin = first / cols;
    let bin = bucket / cols;
    let b = bin - min_bin;
    vstd::arithmetic::div_mod::lemma_fundamental_div_mod(bucket, cols);
    vstd::arithmetic::div_mod::lemma_mod_bound(bucket, cols);
    assert((min_bin + b) * cols <= bucket < (min_bin + b) * cols + cols) by (nonlinear_arith)
        requires
            bucket == cols * bin + bucket % cols,
            0 <= bucket % cols < cols,
            min_bin + b == bin,
    ;
    lemma_bar_holds_its_points(
        points,
        points.len() as int,
        earliest,
        latest,
        aggr,
        cols,
        bin,
        false,
        i,
    );
    lemma_bar_holds_its_points(
        points,
        points.len() as int,
        earliest,
        latest,
        aggr,
        cols,
        bin,
        true,
        i,
    );
    assert(buys[b] == overlay::bar_volume(
        points,
        points.len() as int,
        earliest,
        latest,
        aggr,
        cols,
        min_bin + b,
        false,
    ));
    assert(sells[b] == overlay::bar_volume(
        points,
        points.len() as int,
        earliest,
        latest,
        aggr,
        cols,
        min_bin + b,
        true,
    ));
    lemma_bin_has_a_bar(buys, sells, buys.len() as int, min_bin, cols, last, ref_bucket, b)
}

/// The largest total of a strip is that of a bin, or nothing, and no bin has more.
pub proof fn largest_bin_is_the_maximum(buys: Seq<i128>, sells: Seq<i128>, n: int)
    requires
        0 <= n <= buys.len(),
        buys.len() == sells.len(),
    ensures
        forall|b: int|
            #![trigger buys[b]]
            0 <= b < n ==> buys[b] + sells[b] <= overlay::largest_bin(buys, sells, n),
        overlay::largest_bin(buys, sells, n) == 0 || exists|b: int|
            #![trigger buys[b]]
            0 <= b < n && buys[b] + sells[b] == overlay::largest_bin(buys, sells, n),
    decreases n,
{
    if n > 0 {
        largest_bin_is_the_maximum(buys, sells, n - 1);
        if overlay::largest_bin(buys, sells, n) != overlay::largest_bin(buys, sells, n - 1) {
            assert(buys[n - 1] + sells[n - 1] == overlay::largest_bin(buys, sells, n));
        }
    }
}

} // verus!
