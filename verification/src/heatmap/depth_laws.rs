//! What holds of the depth ring across its operations: the renderer's texture stays in step
//! with the ring, late snapshots are harmless, and every cell is the maximum that it stands for.
use crate::heatmap::depth_grid;
use crate::heatmap::depth_grid::{DepthRun, HeatmapUpload, RebuildWindow, RingView, ScaledLevel};
use crate::heatmap::side_grid;
use crate::heatmap::side_grid::GRID_TEX_H;
use vstd::prelude::*;

verus! {

/// What a texture of bids holds after `up` has been copied into it.
pub open spec fn bids_after_upload(tex: Seq<u32>, up: Option<HeatmapUpload>) -> Seq<u32> {
    match up {
        None => tex,
        Some(HeatmapUpload::Full { width, height, bid, ask }) => bid@,
        Some(HeatmapUpload::Cols { width, height, cols }) => Seq::new(
            tex.len(),
            |p: int|
                if exists|i: int| 0 <= i < cols@.len() && #[trigger] cols@[i].x == p % width as int {
                    let i = choose|i: int|
                        0 <= i < cols@.len() && #[trigger] cols@[i].x == p % width as int;
                    cols@[i].bid_col@[p / width as int]
                } else {
                    tex[p]
                },
        ),
    }
}

/// What a texture of asks holds after `up` has been copied into it.
pub open spec fn asks_after_upload(tex: Seq<u32>, up: Option<HeatmapUpload>) -> Seq<u32> {
    match up {
        None => tex,
        Some(HeatmapUpload::Full { width, height, bid, ask }) => ask@,
        Some(HeatmapUpload::Cols { width, height, cols }) => Seq::new(
            tex.len(),
            |p: int|
                if exists|i: int| 0 <= i < cols@.len() && #[trigger] cols@[i].x == p % width as int {
                    let i = choose|i: int|
                        0 <= i < cols@.len() && #[trigger] cols@[i].x == p % width as int;
                    cols@[i].ask_col@[p / width as int]
                } else {
                    tex[p]
                },
        ),
    }
}

/// A texture that agrees with the ring on every column that is not waiting to be uploaded
/// agrees with all of it after the upload.
pub proof fn upload_brings_texture_up_to_date(
    ring: RingView,
    force_full: bool,
    up: Option<HeatmapUpload>,
    bids: Seq<u32>,
    asks: Seq<u32>,
)
    requires
        ring.width > 0,
        ring.bid.len() == ring.width * GRID_TEX_H,
        ring.ask.len() == ring.width * GRID_TEX_H,
        ring.synced(bids, ring.bid),
        ring.synced(asks, ring.ask),
        depth_grid::is_upload(ring, force_full, up),
    ensures
        bids_after_upload(bids, up) == ring.bid,
        asks_after_upload(asks, up) == ring.ask,
{
    if !force_full && !ring.full_dirty {
        let w = ring.width;
        assert forall|p: int| 0 <= p < w * GRID_TEX_H implies bids_after_upload(bids, up)[p]
            == ring.bid[p] && asks_after_upload(asks, up)[p] == ring.ask[p] by {
            side_grid::lemma_at_covers(w, GRID_TEX_H as int, p);
            let x = p % w;
            let y = p / w;
            assert(ring.bid_col(x)[y] == ring.bid[p]);
            assert(ring.ask_col(x)[y] == ring.ask[p]);
            if !ring.dirty.contains(x) {
                assert(side_grid::column(bids, w, x) == side_grid::column(ring.bid, w, x));
                assert(side_grid::column(asks, w, x) == side_grid::column(ring.ask, w, x));
                assert(side_grid::column(bids, w, x)[y] == bids[p]);
                assert(side_grid::column(asks, w, x)[y] == asks[p]);
            }
        }
        assert(bids_after_upload(bids, up) =~= ring.bid);
        assert(asks_after_upload(asks, up) =~= ring.ask);
    }
}

/// A snapshot marks every column that it changes: a texture that was in step with the ring but
/// for the waiting columns still is.
pub proof fn snapshot_marks_what_it_changes(
    ring: RingView,
    bucket: int,
    bid_col: Seq<u32>,
    ask_col: Seq<u32>,
    after: RingView,
    bids: Seq<u32>,
    asks: Seq<u32>,
)
    requires
        ring.width > 0,
        ring.bid.len() == after.bid.len(),
        ring.ask.len() == after.ask.len(),
        ring.snapshot_written(bucket, bid_col, ask_col, after),
        ring.synced(bids, ring.bid),
        ring.synced(asks, ring.ask),
    ensures
        after.synced(bids, after.bid),
        after.synced(asks, after.ask),
{
    if !after.full_dirty {
        let w = ring.width;
        assert forall|x: int| 0 <= x < w && !after.dirty.contains(x) implies #[trigger]
            side_grid::column(bids, w, x) == side_grid::column(after.bid, w, x) by {
            assert(!ring.dirty.contains(x));
            assert(after.bid_col(x) == ring.column_after(ring.bid, bucket, bid_col, x));
        }
        assert forall|x: int| 0 <= x < w && !after.dirty.contains(x) implies #[trigger]
            side_grid::column(asks, w, x) == side_grid::column(after.ask, w, x) by {
            assert(!ring.dirty.contains(x));
            assert(after.ask_col(x) == ring.column_after(ring.ask, bucket, ask_col, x));
        }
    }
}

/// A late snapshot that neither rebins nor recenters leaves the ring as it was.
pub proof fn late_snapshot_changes_nothing(
    ring: RingView,
    target: int,
    step_units: int,
    bucket: int,
)
    requires
        ring.late(bucket),
        !depth_grid::wants_recenter(ring, target, step_units),
    ensures
        ring.rebinned(ring.steps).recentered(target, step_units) == ring,
        ring.rebinned(ring.steps).recentered(target, step_units).late(bucket),
{
}

/// Writing the same snapshot of one bucket again changes no cell.
pub proof fn repeated_snapshot_changes_no_cell(
    ring: RingView,
    bucket: int,
    bid_col: Seq<u32>,
    ask_col: Seq<u32>,
    once: RingView,
    twice: RingView,
)
    requires
        ring.width > 0,
        ring.snapshot_written(bucket, bid_col, ask_col, once),
        once.snapshot_written(bucket, bid_col, ask_col, twice),
    ensures
        forall|x: int|
            0 <= x < ring.width ==> #[trigger] twice.bid_col(x) == once.bid_col(x)
                && twice.ask_col(x) == once.ask_col(x),
{
    assert forall|x: int| 0 <= x < ring.width implies #[trigger] twice.bid_col(x) == once.bid_col(
        x,
    ) && twice.ask_col(x) == once.ask_col(x) by {
        assert(twice.bid_col(x) == once.column_after(once.bid, bucket, bid_col, x));
        assert(twice.ask_col(x) == once.column_after(once.ask, bucket, ask_col, x));
        assert(once.bid_col(x) == ring.column_after(ring.bid, bucket, bid_col, x));
        assert(once.ask_col(x) == ring.column_after(ring.ask, bucket, ask_col, x));
    }
}

/// A missed bucket shows in each row what the last observation showed there, or nothing.
pub proof fn gaps_carry_the_last_observation(
    ring: RingView,
    bucket: int,
    bid_col: Seq<u32>,
    ask_col: Seq<u32>,
    after: RingView,
    x: int,
    y: int,
)
    requires
        0 <= x < ring.width,
        0 <= y < GRID_TEX_H,
        bid_col.len() == GRID_TEX_H,
        ask_col.len() == GRID_TEX_H,
        ring.snapshot_written(bucket, bid_col, ask_col, after),
        ring.in_gap(bucket, x),
        x != depth_grid::ring_x(bucket, ring.width),
    ensures
        after.bid_col(x)[y] == if bid_col[y] > 0 {
            ring.bid_col(depth_grid::ring_x(ring.last_bucket->0, ring.width))[y]
        } else {
            0
        },
        after.ask_col(x)[y] == if ask_col[y] > 0 {
            ring.ask_col(depth_grid::ring_x(ring.last_bucket->0, ring.width))[y]
        } else {
            0
        },
{
    assert(after.bid_col(x) == ring.column_after(ring.bid, bucket, bid_col, x));
    assert(after.ask_col(x) == ring.column_after(ring.ask, bucket, ask_col, x));
}

/// The cell of a snapshot's column is the largest size among the levels of its row, or 0 where
/// there is none.
pub proof fn snapshot_cell_is_row_maximum(
    levels: Seq<ScaledLevel>,
    n: nat,
    anchor: int,
    step_units: int,
    steps: int,
    y: int,
)
    requires
        n <= levels.len(),
        0 <= y < GRID_TEX_H,
    ensures
        depth_grid::scattered(levels, n, anchor, step_units, steps).len() == GRID_TEX_H,
        forall|i: int|
            #![trigger levels[i]]
            0 <= i < n && depth_grid::price_row(
                levels[i].price.units as int,
                anchor,
                step_units,
                steps,
            ) == y ==> levels[i].qty <= depth_grid::scattered(levels, n, anchor, step_units, steps)[y],
        depth_grid::scattered(levels, n, anchor, step_units, steps)[y] > 0 ==> exists|i: int|
            #![trigger levels[i]]
            0 <= i < n && depth_grid::price_row(
                levels[i].price.units as int,
                anchor,
                step_units,
                steps,
            ) == y && levels[i].qty == depth_grid::scattered(levels, n, anchor, step_units, steps)[y],
    decreases n,
{
    if n > 0 {
        let m = (n - 1) as nat;
        snapshot_cell_is_row_maximum(levels, m, anchor, step_units, steps, y);
        let before = depth_grid::scattered(levels, m, anchor, step_units, steps);
        let after = depth_grid::scattered(levels, n, anchor, step_units, steps);
        if after[y] > 0 {
            if after[y] == before[y] {
                let i = choose|i: int|
                    #![trigger levels[i]]
                    0 <= i < m && depth_grid::price_row(
                        levels[i].price.units as int,
                        anchor,
                        step_units,
                        steps,
                    ) == y && levels[i].qty == before[y];
                assert(levels[i].qty == after[y]);
            } else {
                assert(levels[n - 1].qty == after[y]);
            }
        }
    }
}

/// The cell of a rebuilt column is the largest size among the runs that show in it, or 0 where
/// none does.
pub proof fn rebuilt_cell_is_run_maximum(
    win: RebuildWindow,
    runs: Seq<DepthRun>,
    n: nat,
    is_bid: bool,
    x: int,
    y: int,
)
    requires
        n <= runs.len(),
    ensures
        forall|i: int|
            #![trigger runs[i]]
            0 <= i < n && win.shows(runs[i], is_bid, x, y) ==> runs[i].qty <= win.largest(
                runs,
                n,
                is_bid,
                x,
                y,
            ),
        win.largest(runs, n, is_bid, x, y) > 0 ==> exists|i: int|
            #![trigger runs[i]]
            0 <= i < n && win.shows(runs[i], is_bid, x, y) && runs[i].qty == win.largest(
                runs,
                n,
                is_bid,
                x,
                y,
            ),
    decreases n,
{
    if n > 0 {
        let m = (n - 1) as nat;
        rebuilt_cell_is_run_maximum(win, runs, m, is_bid, x, y);
        let before = win.largest(runs, m, is_bid, x, y);
        let after = win.largest(runs, n, is_bid, x, y);
        if after > 0 {
            if after == before {
                let i = choose|i: int|
                    #![trigger runs[i]]
                    0 <= i < m && win.shows(runs[i], is_bid, x, y) && runs[i].qty == before;
                assert(runs[i].qty == after);
            } else {
                assert(runs[n - 1].qty == after);
            }
        }
    }
}

/// What rests in the book during some of bucket `b` of length `aggr`.
pub open spec fn rests_during(run: DepthRun, b: int, aggr: int) -> bool {
    run.start_time < run.until_time && b * aggr < run.until_time && run.start_time < (b + 1) * aggr
}

/// The cells of one side of a ring.
pub open spec fn side(ring: RingView, is_bid: bool) -> Seq<u32> {
    if is_bid {
        ring.bid
    } else {
        ring.ask
    }
}

proof fn lemma_bucket_of(t: int, aggr: int, b: int)
    requires
        aggr > 0,
        t >= 0,
    ensures
        b * aggr <= t <==> b <= t / aggr,
        t < (b + 1) * aggr <==> t / aggr <= b,
{
    let q = t / aggr;
    vstd::arithmetic::div_mod::lemma_fundamental_div_mod(t, aggr);
    vstd::arithmetic::div_mod::lemma_mod_bound(t, aggr);
    assert(t == aggr * q + t % aggr);
    assert(b * aggr <= t <==> b <= q) by (nonlinear_arith)
        requires
            aggr > 0,
            t == aggr * q + t % aggr,
            0 <= t % aggr < aggr,
    ;
    assert(t < (b + 1) * aggr <==> q <= b) by (nonlinear_arith)
        requires
            aggr > 0,
            t == aggr * q + t % aggr,
            0 <= t % aggr < aggr,
    ;
}

proof fn lemma_rests_is_shown(win: RebuildWindow, run: DepthRun, b: int)
    requires
        win.width > 0,
        win.aggr > 0,
        0 <= win.oldest_time <= win.latest_time < u64::MAX,
        win.latest_time / win.aggr <= i64::MAX,
        win.oldest_time / win.aggr <= b <= win.latest_time / win.aggr,
        rests_during(run, b, win.aggr),
    ensures
        win.shows(
            run,
            run.is_bid,
            b % win.width,
            depth_grid::price_row(run.price.units as int, win.base, win.step_units, win.steps),
        ),
{
    let a = win.aggr;
    let o = win.oldest_time / a;
    let l = win.latest_time / a;
    vstd::arithmetic::div_mod::lemma_div_pos_is_pos(win.oldest_time, a);
    lemma_bucket_of(win.oldest_time, a, o);
    lemma_bucket_of(win.latest_time, a, l);
    vstd::arithmetic::div_mod::lemma_div_is_ordered(win.oldest_time, win.latest_time, a);
    assert(o * a >= 0) by (nonlinear_arith)
        requires
            o >= 0,
            a > 0,
    ;
    let rs = win.run_start(run);
    let re = win.run_end(run);
    assert(o * a < (b + 1) * a) by (nonlinear_arith)
        requires
            o <= b,
            a > 0,
    ;
    assert(b * a <= l * a && l * a + a == (l + 1) * a) by (nonlinear_arith)
        requires
            b <= l,
            a > 0,
    ;
    assert(rs < (b + 1) * a);
    assert(b * a < re);
    lemma_bucket_of(rs, a, b);
    assert(b * a >= 0) by (nonlinear_arith)
        requires
            b >= 0,
            a > 0,
    ;
    lemma_bucket_of(re - 1, a, b);
    assert(run.start_time < re) by {
        assert(l * a <= win.latest_time);
        if run.start_time >= l * a + a {
            assert(b * a + a <= l * a + a) by (nonlinear_arith)
                requires
                    b <= l,
                    a > 0,
            ;
            assert((b + 1) * a == b * a + a) by (nonlinear_arith);
        }
    }
    assert(rs < re) by {
        assert(o * a <= b * a) by (nonlinear_arith)
            requires
                o <= b,
                a > 0,
        ;
    }
    vstd::arithmetic::div_mod::lemma_div_pos_is_pos(rs, a);
    vstd::arithmetic::div_mod::lemma_div_pos_is_pos(re - 1, a);
    lemma_bucket_of(re - 1, a, l);
    assert((re - 1) / a <= l);
    assert(depth_grid::ring_x(b, win.width) == b % win.width);
    assert(depth_grid::covers(
        crate::math::max_int(crate::math::wrap_i64(rs / a), win.oldest_bucket()),
        crate::math::min_int(crate::math::wrap_i64((re - 1) / a), win.latest_bucket()),
        win.width,
        b % win.width,
    ));
}

/// After a rebuild an order of the history shows for as long as it rested in the book: in every
/// bucket between the oldest and the latest one that it overlaps, the cell of its side in the
/// bucket's column and its price's row is at least its size.
pub proof fn rebuilt_orders_show_while_they_rest(
    ring: RingView,
    hist: Seq<DepthRun>,
    oldest_time: u64,
    latest_time: u64,
    base: int,
    step_units: int,
    steps_per_y_bin: int,
    after: RingView,
    i: int,
    b: int,
)
    requires
        ring.width > 0,
        ring.aggr > 0,
        ring.rebuilt_from(
            hist,
            oldest_time,
            latest_time,
            base,
            step_units,
            steps_per_y_bin,
            after,
        ),
        oldest_time <= latest_time < u64::MAX,
        latest_time as int / ring.aggr <= i64::MAX,
        0 <= i < hist.len(),
        oldest_time as int / ring.aggr <= b <= latest_time as int / ring.aggr,
        rests_during(hist[i], b, ring.aggr),
        0 <= depth_grid::price_row(
            hist[i].price.units as int,
            base,
            step_units,
            crate::math::max_int(steps_per_y_bin, 1),
        ) < GRID_TEX_H,
    ensures
        hist[i].qty <= side(after, hist[i].is_bid)[depth_grid::price_row(
            hist[i].price.units as int,
            base,
            step_units,
            crate::math::max_int(steps_per_y_bin, 1),
        ) * ring.width + b % ring.width],
{
    let win = RebuildWindow {
        width: ring.width,
        aggr: ring.aggr,
        oldest_time: oldest_time as int,
        latest_time: latest_time as int,
        base,
        step_units,
        steps: crate::math::max_int(steps_per_y_bin, 1),
    };
    let run = hist[i];
    let y = depth_grid::price_row(run.price.units as int, base, step_units, win.steps);
    let x = b % ring.width;
    vstd::arithmetic::div_mod::lemma_mod_bound(b, ring.width);
    lemma_window_is_not_empty(win);
    lemma_rests_is_shown(win, run, b);
    rebuilt_cell_is_run_maximum(win, hist, hist.len(), run.is_bid, x, y);
    lemma_rebuilt_cell(ring, hist, oldest_time, latest_time, base, step_units, steps_per_y_bin, after, run.is_bid, x, y);
}

proof fn lemma_window_is_not_empty(win: RebuildWindow)
    requires
        win.aggr > 0,
        0 <= win.oldest_time <= win.latest_time,
        win.latest_time / win.aggr <= i64::MAX,
    ensures
        win.oldest_bucket() <= win.latest_bucket(),
        win.oldest_bucket() == win.oldest_time / win.aggr,
        win.latest_bucket() == win.latest_time / win.aggr,
{
    vstd::arithmetic::div_mod::lemma_div_pos_is_pos(win.oldest_time, win.aggr);
    vstd::arithmetic::div_mod::lemma_div_is_ordered(win.oldest_time, win.latest_time, win.aggr);
}

proof fn lemma_rebuilt_cell(
    ring: RingView,
    hist: Seq<DepthRun>,
    oldest_time: u64,
    latest_time: u64,
    base: int,
    step_units: int,
    steps_per_y_bin: int,
    after: RingView,
    is_bid: bool,
    x: int,
    y: int,
)
    requires
        ring.width > 0,
        ring.aggr > 0,
        ring.rebuilt_from(
            hist,
            oldest_time,
            latest_time,
            base,
            step_units,
            steps_per_y_bin,
            after,
        ),
        oldest_time <= latest_time,
        latest_time as int / ring.aggr <= i64::MAX,
        0 <= x < ring.width,
        0 <= y < GRID_TEX_H,
    ensures
        side(after, is_bid)[y * ring.width + x] == (RebuildWindow {
            width: ring.width,
            aggr: ring.aggr,
            oldest_time: oldest_time as int,
            latest_time: latest_time as int,
            base,
            step_units,
            steps: crate::math::max_int(steps_per_y_bin, 1),
        }).largest(hist, hist.len(), is_bid, x, y),
{
    let win = RebuildWindow {
        width: ring.width,
        aggr: ring.aggr,
        oldest_time: oldest_time as int,
        latest_time: latest_time as int,
        base,
        step_units,
        steps: crate::math::max_int(steps_per_y_bin, 1),
    };
    lemma_window_is_not_empty(win);
    if is_bid {
        assert(after.bid_col(x) == win.rebuilt(hist, hist.len(), true, x));
        assert(after.bid_col(x)[y] == win.largest(hist, hist.len(), true, x, y));
    } else {
        assert(after.ask_col(x) == win.rebuilt(hist, hist.len(), false, x));
        assert(after.ask_col(x)[y] == win.largest(hist, hist.len(), false, x, y));
    }
}

/// Run `i` of the history explains a cell of size `qty`: it is of that side, price row and size,
/// and rests in the book during a bucket of the column, between the oldest and the latest one.
pub open spec fn explains_cell(
    run: DepthRun,
    b: int,
    aggr: int,
    is_bid: bool,
    qty: u32,
) -> bool {
    run.is_bid == is_bid && run.qty == qty && rests_during(run, b, aggr)
}

/// After a rebuild nothing shows that did not rest in the book: a cell that is not empty holds the
/// size of an order of its side and row that overlaps a bucket of its column.
pub proof fn rebuilt_cells_are_orders(
    ring: RingView,
    hist: Seq<DepthRun>,
    oldest_time: u64,
    latest_time: u64,
    base: int,
    step_units: int,
    steps_per_y_bin: int,
    after: RingView,
    is_bid: bool,
    x: int,
    y: int,
) -> (found: (int, int))
    requires
        ring.width > 0,
        ring.aggr > 0,
        ring.rebuilt_from(
            hist,
            oldest_time,
            latest_time,
            base,
            step_units,
            steps_per_y_bin,
            after,
        ),
        oldest_time <= latest_time,
        latest_time as int / ring.aggr <= i64::MAX,
        0 <= x < ring.width,
        0 <= y < GRID_TEX_H,
        side(after, is_bid)[y * ring.width + x] > 0,
    ensures
        0 <= found.0 < hist.len(),
        oldest_time as int / ring.aggr <= found.1 <= latest_time as int / ring.aggr,
        found.1 % ring.width == x,
        explains_cell(
            hist[found.0],
            found.1,
            ring.aggr,
            is_bid,
            side(after, is_bid)[y * ring.width + x],
        ),
        depth_grid::price_row(
            hist[found.0].price.units as int,
            base,
            step_units,
            crate::math::max_int(steps_per_y_bin, 1),
        ) == y,
{
    let win = RebuildWindow {
        width: ring.width,
        aggr: ring.aggr,
        oldest_time: oldest_time as int,
        latest_time: latest_time as int,
        base,
        step_units,
        steps: crate::math::max_int(steps_per_y_bin, 1),
    };
    let a = ring.aggr;
    lemma_window_is_not_empty(win);
    lemma_rebuilt_cell(ring, hist, oldest_time, latest_time, base, step_units, steps_per_y_bin, after, is_bid, x, y);
    rebuilt_cell_is_run_maximum(win, hist, hist.len(), is_bid, x, y);
    let q = side(after, is_bid)[y * ring.width + x];
    let i = choose|i: int|
        #![trigger hist[i]]
        0 <= i < hist.len() && win.shows(hist[i], is_bid, x, y) && hist[i].qty == q;
    let run = hist[i];
    let rs = win.run_start(run);
    let re = win.run_end(run);
    let b0 = crate::math::max_int(crate::math::wrap_i64(rs / a), win.oldest_bucket());
    let b1 = crate::math::min_int(crate::math::wrap_i64((re - 1) / a), win.latest_bucket());
    let b = choose|b: int| b0 <= b <= b1 && #[trigger] depth_grid::ring_x(b, ring.width) == x;
    let l = latest_time as int / a;
    lemma_bucket_of(latest_time as int, a, l);
    assert(l * a + a == (l + 1) * a) by (nonlinear_arith);
    vstd::arithmetic::div_mod::lemma_div_pos_is_pos(rs, a);
    vstd::arithmetic::div_mod::lemma_div_pos_is_pos(re - 1, a);
    lemma_bucket_of(re - 1, a, l);
    lemma_bucket_of(rs, a, b);
    lemma_bucket_of(re - 1, a, b);
    vstd::arithmetic::div_mod::lemma_div_is_ordered(rs, re - 1, a);
    (i, b)
}

proof fn lemma_floor(a: int, b: int)
    requires
        b > 0,
    ensures
        (a / b) * b <= a < (a / b) * b + b,
{
    vstd::arithmetic::div_mod::lemma_fundamental_div_mod(a, b);
    vstd::arithmetic::div_mod::lemma_mod_bound(a, b);
    assert(b * (a / b) == (a / b) * b) by (nonlinear_arith);
}

/// Rows are bins of equal height around the anchor, which lies at half the height of the grid: at
/// or above it, row `half + r` holds the prices from `r` bins above the anchor to `r + 1`; below
/// it, whole steps are rounded down first and whole bins towards the anchor.
pub proof fn rows_are_bins_around_the_anchor(price: int, anchor: int, step: int, steps: int)
    requires
        step > 0,
        steps > 0,
    ensures
        ({
            let r = depth_grid::price_row(price, anchor, step, steps) - GRID_TEX_H as int / 2;
            let bin = step * steps;
            if price >= anchor {
                0 <= r && anchor + r * bin <= price < anchor + (r + 1) * bin
            } else {
                r <= 0 && anchor + (r - 1) * bin + step <= price < anchor + r * bin + step
            }
        }),
{
    let s = (price - anchor) / step;
    let r = crate::math::trunc_div(s, steps);
    let bin = step * steps;
    lemma_floor(price - anchor, step);
    if price >= anchor {
        vstd::arithmetic::div_mod::lemma_div_pos_is_pos(price - anchor, step);
        lemma_floor(s, steps);
        vstd::arithmetic::div_mod::lemma_div_pos_is_pos(s, steps);
        assert(r * bin <= price - anchor < (r + 1) * bin) by (nonlinear_arith)
            requires
                bin == step * steps,
                step > 0,
                steps > 0,
                r * steps <= s < r * steps + steps,
                s * step <= price - anchor < s * step + step,
        ;
    } else {
        assert(s < 0) by (nonlinear_arith)
            requires
                s * step <= price - anchor,
                price < anchor,
                step > 0,
        ;
        let q = (-s) / steps;
        lemma_floor(-s, steps);
        vstd::arithmetic::div_mod::lemma_div_pos_is_pos(-s, steps);
        assert((-q - 1) * bin + step <= price - anchor < (-q) * bin + step) by (nonlinear_arith)
            requires
                bin == step * steps,
                step > 0,
                steps > 0,
                q * steps <= -s < q * steps + steps,
                s * step <= price - anchor < s * step + step,
        ;
    }
}

/// The anchor stays while the target is within a quarter of the grid's height, and moves to the
/// target once it is further away, above or below.
pub proof fn anchor_follows_what_drifts_away(ring: RingView, target: int, step: int)
    requires
        step > 0,
        ring.steps > 0,
        ring.anchor is Some,
    ensures
        ({
            let anchor = ring.anchor->0;
            let bin = step * ring.steps;
            let quarter = GRID_TEX_H as int / 4;
            let after = ring.recentered(target, step);
            let far = target >= anchor + (quarter + 1) * bin || target < anchor - (quarter + 1) * bin
                + step;
            &&& depth_grid::wants_recenter(ring, target, step) <==> far
            &&& after.anchor == if far {
                Some(target)
            } else {
                Some(anchor)
            }
            &&& !far ==> after.bid == ring.bid && after.ask == ring.ask && after.last_bucket
                == ring.last_bucket
        }),
{
    let anchor = ring.anchor->0;
    let bin = step * ring.steps;
    let quarter = GRID_TEX_H as int / 4;
    rows_are_bins_around_the_anchor(target, anchor, step, ring.steps);
    let r = depth_grid::price_row(target, anchor, step, ring.steps) - GRID_TEX_H as int / 2;
    assert(step <= bin) by (nonlinear_arith)
        requires
            bin == step * ring.steps,
            step > 0,
            ring.steps > 0,
    ;
    assert(bin <= (quarter + 1) * bin) by (nonlinear_arith)
        requires
            bin > 0,
            quarter >= 0,
    ;
    if r > quarter {
        assert((quarter + 1) * bin <= r * bin) by (nonlinear_arith)
            requires
                quarter + 1 <= r,
                bin > 0,
        ;
    } else {
        assert((r + 1) * bin <= (quarter + 1) * bin) by (nonlinear_arith)
            requires
                r + 1 <= quarter + 1,
                bin > 0,
        ;
    }
    if r < -quarter {
        assert(r * bin <= -((quarter + 1) * bin)) by (nonlinear_arith)
            requires
                r <= -(quarter + 1),
                bin > 0,
        ;
    } else {
        assert((r - 1) * bin >= -((quarter + 1) * bin)) by (nonlinear_arith)
            requires
                r - 1 >= -(quarter + 1),
                bin > 0,
        ;
    }
}

/// A snapshot that is not late shows the book: in the column of its bucket each cell is at least
/// the size of every level of its side that falls into its row, and a cell that is not empty
/// holds the size of one of them.
pub proof fn snapshot_shows_the_book(
    ring: RingView,
    bids: Seq<ScaledLevel>,
    asks: Seq<ScaledLevel>,
    t: u64,
    step: int,
    target: int,
    steps: int,
    after: RingView,
    is_bid: bool,
    levels: Seq<ScaledLevel>,
    y: int,
)
    requires
        ring.width > 0,
        ring.aggr > 0,
        ring.ingested(bids, asks, t, step, target, steps, after),
        t as int / ring.aggr <= i64::MAX,
        ring.last_bucket matches Some(prev) ==> prev <= t as int / ring.aggr,
        levels == (if is_bid {
            bids
        } else {
            asks
        }),
        0 <= y < GRID_TEX_H,
    ensures
        after.anchor is Some,
        after.last_bucket == Some(t as int / ring.aggr),
        forall|i: int|
            #![trigger levels[i]]
            0 <= i < levels.len() && depth_grid::price_row(
                levels[i].price.units as int,
                after.anchor->0,
                step,
                crate::math::max_int(steps, 1),
            ) == y ==> levels[i].qty <= side(after, is_bid)[y * ring.width + (t as int / ring.aggr)
                % ring.width],
        side(after, is_bid)[y * ring.width + (t as int / ring.aggr) % ring.width] > 0 ==> exists|
            i: int,
        |
            #![trigger levels[i]]
            0 <= i < levels.len() && depth_grid::price_row(
                levels[i].price.units as int,
                after.anchor->0,
                step,
                crate::math::max_int(steps, 1),
            ) == y && levels[i].qty == side(after, is_bid)[y * ring.width + (t as int / ring.aggr)
                % ring.width],
{
    let n = crate::math::max_int(steps, 1);
    let ready = ring.rebinned(n).recentered(target, step);
    let bucket = t as int / ring.aggr;
    let w = ring.width;
    let x = bucket % w;
    vstd::arithmetic::div_mod::lemma_mod_bound(bucket, w);
    snapshot_cell_is_row_maximum(levels, levels.len(), ready.anchor->0, step, n, y);
    assert(depth_grid::ring_x(bucket, w) == x);
    let bid_col = depth_grid::scattered(bids, bids.len(), ready.anchor->0, step, n);
    let ask_col = depth_grid::scattered(asks, asks.len(), ready.anchor->0, step, n);
    assert(after.bid_col(x) == ready.column_after(ready.bid, bucket, bid_col, x));
    assert(after.ask_col(x) == ready.column_after(ready.ask, bucket, ask_col, x));
    assert(after.bid_col(x)[y] == after.bid[y * w + x]);
    assert(after.ask_col(x)[y] == after.ask[y * w + x]);
    let cell = side(after, is_bid)[y * w + x];
    assert(cell == depth_grid::scattered(levels, levels.len(), ready.anchor->0, step, n)[y]);
    assert(after.anchor == ready.anchor);
}

proof fn lemma_columns_differ(a: int, b: int, w: int)
    requires
        w > 0,
        a < b < a + w,
    ensures
        a % w != b % w,
{
    vstd::arithmetic::div_mod::lemma_fundamental_div_mod(a, w);
    vstd::arithmetic::div_mod::lemma_fundamental_div_mod(b, w);
    if a % w == b % w {
        assert(false) by (nonlinear_arith)
            requires
                a == w * (a / w) + a % w,
                b == w * (b / w) + b % w,
                a % w == b % w,
                a < b < a + w,
        ;
    }
}

/// A snapshot leaves the past alone: while the bins stay the same, what the ring shows of an
/// earlier bucket that is still within its width does not change.
pub proof fn snapshot_keeps_the_past(
    ring: RingView,
    bids: Seq<ScaledLevel>,
    asks: Seq<ScaledLevel>,
    t: u64,
    step: int,
    target: int,
    steps: int,
    after: RingView,
    is_bid: bool,
    b: int,
    y: int,
)
    requires
        ring.width > 0,
        ring.aggr > 0,
        ring.ingested(bids, asks, t, step, target, steps, after),
        t as int / ring.aggr <= i64::MAX,
        ring.anchor is Some,
        after.anchor == ring.anchor,
        ring.steps == crate::math::max_int(steps, 1),
        ring.last_bucket is Some,
        ring.last_bucket->0 <= t as int / ring.aggr,
        t as int / ring.aggr - ring.width < b <= ring.last_bucket->0,
        b < t as int / ring.aggr,
        0 <= y < GRID_TEX_H,
    ensures
        side(after, is_bid)[y * ring.width + b % ring.width] == side(
            ring,
            is_bid,
        )[y * ring.width + b % ring.width],
{
    let bucket = t as int / ring.aggr;
    let prev = ring.last_bucket->0;
    let w = ring.width;
    let x = b % w;
    vstd::arithmetic::div_mod::lemma_mod_bound(b, w);
    assert(ring.recentered(target, step) == ring) by {
        if target == ring.anchor->0 {
            lemma_no_offset(target, step, ring.steps);
        }
    }
    lemma_columns_differ(b, bucket, w);
    assert(!ring.in_gap(bucket, x)) by {
        if bucket - prev <= w {
            if b == prev {
                depth_grid::lemma_gap_distance(prev, w, 0, x);
            } else {
                let d = b + w - prev;
                vstd::arithmetic::div_mod::lemma_mod_add_multiples_vanish(b, w);
                assert(depth_grid::ring_x(prev + d, w) == x);
                depth_grid::lemma_gap_distance(prev, w, d, x);
            }
        }
    }
    let bid_col = depth_grid::scattered(bids, bids.len(), ring.anchor->0, step, ring.steps);
    let ask_col = depth_grid::scattered(asks, asks.len(), ring.anchor->0, step, ring.steps);
    assert(after.bid_col(x) == ring.column_after(ring.bid, bucket, bid_col, x));
    assert(after.ask_col(x) == ring.column_after(ring.ask, bucket, ask_col, x));
    assert(after.bid_col(x)[y] == after.bid[y * w + x]);
    assert(after.ask_col(x)[y] == after.ask[y * w + x]);
    assert(side_grid::column(ring.bid, w, x)[y] == ring.bid[y * w + x]);
    assert(side_grid::column(ring.ask, w, x)[y] == ring.ask[y * w + x]);
}

proof fn lemma_no_offset(anchor: int, step: int, steps: int)
    ensures
        depth_grid::delta_bins(anchor, anchor, step, steps) == 0,
{
    vstd::arithmetic::div_mod::lemma_div_basics(crate::math::max_int(step, 1));
    vstd::arithmetic::div_mod::lemma_div_basics(crate::math::max_int(steps, 1));
}

/// A bucket that was missed between two snapshots shows in each row what the earlier snapshot
/// showed there, as long as the later one still has something in that row.
pub proof fn missed_buckets_repeat_the_last_seen(
    ring: RingView,
    bids: Seq<ScaledLevel>,
    asks: Seq<ScaledLevel>,
    t: u64,
    step: int,
    target: int,
    steps: int,
    after: RingView,
    is_bid: bool,
    b: int,
    y: int,
)
    requires
        ring.width > 0,
        ring.aggr > 0,
        ring.ingested(bids, asks, t, step, target, steps, after),
        t as int / ring.aggr <= i64::MAX,
        ring.anchor is Some,
        after.anchor == ring.anchor,
        ring.steps == crate::math::max_int(steps, 1),
        ring.last_bucket is Some,
        ring.last_bucket->0 < b < t as int / ring.aggr,
        t as int / ring.aggr <= ring.last_bucket->0 + ring.width,
        0 <= y < GRID_TEX_H,
    ensures
        ({
            let w = ring.width;
            let cells = side(after, is_bid);
            let now = cells[y * w + (t as int / ring.aggr) % w];
            cells[y * w + b % w] == if now > 0 {
                side(ring, is_bid)[y * w + ring.last_bucket->0 % w]
            } else {
                0
            }
        }),
{
    let bucket = t as int / ring.aggr;
    let prev = ring.last_bucket->0;
    let w = ring.width;
    let x = b % w;
    vstd::arithmetic::div_mod::lemma_mod_bound(b, w);
    vstd::arithmetic::div_mod::lemma_mod_bound(bucket, w);
    vstd::arithmetic::div_mod::lemma_mod_bound(prev, w);
    assert(ring.recentered(target, step) == ring) by {
        if target == ring.anchor->0 {
            lemma_no_offset(target, step, ring.steps);
        }
    }
    lemma_columns_differ(b, bucket, w);
    assert(depth_grid::ring_x(prev + (b - prev), w) == x);
    depth_grid::lemma_gap_distance(prev, w, b - prev, x);
    let xb = bucket % w;
    let xp = prev % w;
    let bid_col = depth_grid::scattered(bids, bids.len(), ring.anchor->0, step, ring.steps);
    let ask_col = depth_grid::scattered(asks, asks.len(), ring.anchor->0, step, ring.steps);
    snapshot_cell_is_row_maximum(bids, bids.len(), ring.anchor->0, step, ring.steps, y);
    snapshot_cell_is_row_maximum(asks, asks.len(), ring.anchor->0, step, ring.steps, y);
    assert(after.bid_col(x) == ring.column_after(ring.bid, bucket, bid_col, x));
    assert(after.ask_col(x) == ring.column_after(ring.ask, bucket, ask_col, x));
    assert(after.bid_col(xb) == ring.column_after(ring.bid, bucket, bid_col, xb));
    assert(after.ask_col(xb) == ring.column_after(ring.ask, bucket, ask_col, xb));
    assert(after.bid_col(x)[y] == after.bid[y * w + x]);
    assert(after.ask_col(x)[y] == after.ask[y * w + x]);
    assert(after.bid_col(xb)[y] == after.bid[y * w + xb]);
    assert(after.ask_col(xb)[y] == after.ask[y * w + xb]);
    assert(side_grid::column(ring.bid, w, xp)[y] == ring.bid[y * w + xp]);
    assert(side_grid::column(ring.ask, w, xp)[y] == ring.ask[y * w + xp]);
}

/// A snapshot of a time before the latest that the ring has seen changes no cell, unless the rows
/// were laid out anew.
pub proof fn late_books_are_not_drawn(
    ring: RingView,
    bids: Seq<ScaledLevel>,
    asks: Seq<ScaledLevel>,
    t: u64,
    step: int,
    target: int,
    after: RingView,
)
    requires
        ring.ingested(bids, asks, t, step, target, ring.steps, after),
        ring.steps > 0,
        ring.aggr > 0,
        ring.width > 0,
        ring.last_bucket is Some,
        !depth_grid::wants_recenter(ring, target, step),
        t < i64::MAX,
        t as int / ring.aggr < ring.last_bucket->0,
    ensures
        after == ring,
{
    vstd::arithmetic::div_mod::lemma_div_is_ordered_by_denominator(t as int, 1, ring.aggr);
    vstd::arithmetic::div_mod::lemma_div_pos_is_pos(t as int, ring.aggr);
}

/// An upload has the size of the texture, and holds whole columns.
pub proof fn uploads_have_the_size_of_the_texture(
    ring: RingView,
    force_full: bool,
    up: Option<HeatmapUpload>,
)
    requires
        depth_grid::is_upload(ring, force_full, up),
    ensures
        match up {
            None => ring.width == 0 || !force_full && !ring.full_dirty,
            Some(HeatmapUpload::Full { width, height, bid, ask }) => {
                &&& width == ring.width && height == 2048
                &&& bid@ == ring.bid && ask@ == ring.ask
            },
            Some(HeatmapUpload::Cols { width, height, cols }) => {
                &&& width == ring.width && height == 2048
                &&& forall|i: int|
                    #![trigger cols@[i]]
                    0 <= i < cols@.len() ==> cols@[i].bid_col@.len() == height
                        && cols@[i].ask_col@.len() == height
            },
        },
{
}

} // verus!
