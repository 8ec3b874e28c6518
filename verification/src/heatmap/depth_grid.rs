//! The depth ring: the recent history of the order book, one column per time bucket
//! and one row per price bin, kept in a texture-shaped ring buffer.
use crate::heatmap::side_grid;
use crate::heatmap::side_grid::{SideGrid, GRID_TEX_H};
use crate::math;
use crate::math::{div_to_zero, floor_div, next_power_of_two, rem_floor, u64_as_i64};
use crate::units::{Price, PriceStep};
use std::sync::Arc;
use vstd::arithmetic::div_mod::*;
use vstd::arithmetic::power2::*;
use vstd::prelude::*;

verus! {

/// How many aggregated time buckets the ring keeps.
pub const GRID_HORIZON_BUCKETS: u32 = 4800;

/// The width of a ring that is laid out: the horizon, rounded up to a power of two.
pub const GRID_TEX_W: u32 = 8192;

/// A price level with its size scaled to a grid value; 0 where the level is not shown.
#[derive(Debug, Clone, Copy, PartialEq, Eq, Structural)]
pub struct ScaledLevel {
    pub price: Price,
    pub qty: u32,
}

/// A stretch of time over which one level rested in the book, with its size scaled to a
/// grid value; 0 where the level is not shown.
#[derive(Debug, Clone, Copy, PartialEq, Eq, Structural)]
pub struct DepthRun {
    pub price: Price,
    pub is_bid: bool,
    pub start_time: u64,
    pub until_time: u64,
    pub qty: u32,
}

/// The new cells of one ring column.
#[derive(Debug, Clone)]
pub struct HeatmapColumnCpu {
    pub x: u32,
    pub bid_col: Arc<Vec<u32>>,
    pub ask_col: Arc<Vec<u32>>,
}

/// What the renderer has to copy to bring its texture up to date.
#[derive(Debug, Clone)]
pub enum HeatmapUpload {
    Full { width: u32, height: u32, bid: Arc<Vec<u32>>, ask: Arc<Vec<u32>> },
    Cols { width: u32, height: u32, cols: Arc<Vec<HeatmapColumnCpu>> },
}

/// The ring buffer of the order book's history.
#[derive(Debug, Clone)]
pub struct GridRing {
    horizon_buckets: u32,
    tex_w: u32,
    tex_h: u32,
    aggr_time_ms: u64,
    last_bucket: Option<i64>,
    y_anchor: Option<Price>,
    bid: SideGrid,
    ask: SideGrid,
    steps_per_y_bin: i64,
    full_dirty: bool,
    dirty_cols: Vec<u32>,
}

/// What a ring holds: its layout, its position in time and price, its cells, and which
/// columns the renderer has not seen yet.
pub struct RingView {
    pub width: int,
    pub aggr: int,
    pub last_bucket: Option<int>,
    pub anchor: Option<int>,
    pub steps: int,
    pub bid: Seq<u32>,
    pub ask: Seq<u32>,
    pub full_dirty: bool,
    pub dirty: Set<int>,
}

impl RingView {
    /// A ring that has seen nothing and is not laid out yet.
    pub open spec fn fresh() -> RingView {
        RingView {
            width: 0,
            aggr: 0,
            last_bucket: None,
            anchor: None,
            steps: 1,
            bid: Seq::empty(),
            ask: Seq::empty(),
            full_dirty: false,
            dirty: Set::empty(),
        }
    }
}

/// How many y-bins `price` lies above `anchor`: whole steps rounded down, whole bins
/// rounded towards zero.
pub open spec fn delta_bins(price: int, anchor: int, step_units: int, steps: int) -> int {
    math::trunc_div((price - anchor) / math::max_int(step_units, 1), math::max_int(steps, 1))
}

/// The row of the grid in which `price` falls, with the anchor at half height.
pub open spec fn price_row(price: int, anchor: int, step_units: int, steps: int) -> int {
    GRID_TEX_H as int / 2 + delta_bins(price, anchor, step_units, steps)
}

/// The column of a bucket in a ring of width `w`.
pub open spec fn ring_x(bucket: int, w: int) -> int {
    bucket % w
}

/// How many buckets after `prev` the ring first comes to column `x`.
pub open spec fn gap_distance(x: int, prev: int, w: int) -> int {
    (x - prev) % w
}

pub proof fn lemma_gap_distance(prev: int, w: int, d: int, x: int)
    requires
        0 <= d < w,
        0 <= x < w,
    ensures
        x == ring_x(prev + d, w) <==> gap_distance(x, prev, w) == d,
        0 <= gap_distance(x, prev, w) < w,
{
    let q = (prev + d) / w;
    let r = (prev + d) % w;
    lemma_fundamental_div_mod(prev + d, w);
    lemma_fundamental_div_mod(x - prev, w);
    lemma_mod_bound(prev + d, w);
    lemma_mod_bound(x - prev, w);
    if x == r {
        assert(x - prev == (-q) * w + d) by (nonlinear_arith)
            requires
                prev + d == w * q + x,
        ;
        lemma_fundamental_div_mod_converse(x - prev, w, -q, d);
    }
    if gap_distance(x, prev, w) == d {
        let k = (x - prev) / w;
        assert(prev + d == (-k) * w + x) by (nonlinear_arith)
            requires
                x - prev == w * k + d,
        ;
        lemma_fundamental_div_mod_converse(prev + d, w, -k, x);
    }
}

/// The column of a bucket is not among those of the buckets that were missed before it.
proof fn lemma_own_column(prev: int, w: int, bucket: int, x: int)
    requires
        prev < bucket <= prev + w,
        x == ring_x(bucket, w),
    ensures
        !(0 < gap_distance(x, prev, w) < bucket - prev),
{
    lemma_mod_bound(bucket, w);
    if bucket == prev + w {
        assert(bucket % w == prev % w) by {
            lemma_mod_add_multiples_vanish(prev, w);
        }
        lemma_gap_distance(prev, w, 0, x);
    } else {
        lemma_gap_distance(prev, w, bucket - prev, x);
    }
}

proof fn lemma_empty_column(w: int, x: int)
    requires
        0 <= x < w,
    ensures
        side_grid::column(empty_cells(w), w, x) == side_grid::empty_column(),
{
    assert forall|y: int| 0 <= y < GRID_TEX_H implies side_grid::column(empty_cells(w), w, x)[y] == 0 by {
        side_grid::lemma_at_bounds(w, GRID_TEX_H as int, x, y);
    }
    assert(side_grid::column(empty_cells(w), w, x) =~= side_grid::empty_column());
}

/// The grid column of the first `n` levels: in each row the largest of the sizes that fall
/// into it.
pub open spec fn scattered(
    levels: Seq<ScaledLevel>,
    n: nat,
    anchor: int,
    step_units: int,
    steps: int,
) -> Seq<u32>
    decreases n,
{
    if n == 0 {
        side_grid::empty_column()
    } else {
        let c = scattered(levels, (n - 1) as nat, anchor, step_units, steps);
        let level = levels[n - 1];
        let row = price_row(level.price.units as int, anchor, step_units, steps);
        if 0 <= row < GRID_TEX_H {
            c.update(row, math::max_u32(c[row], level.qty))
        } else {
            c
        }
    }
}

/// One of the buckets `b0..=b1` has its column at `x`.
pub open spec fn covers(b0: int, b1: int, w: int, x: int) -> bool {
    exists|b: int| b0 <= b <= b1 && #[trigger] ring_x(b, w) == x
}

proof fn lemma_covers_step(b0: int, b: int, w: int, x: int)
    requires
        b0 <= b,
    ensures
        covers(b0, b, w, x) == (covers(b0, b - 1, w, x) || x == ring_x(b, w)),
{
    if covers(b0, b - 1, w, x) {
        let c = choose|c: int| b0 <= c <= b - 1 && #[trigger] ring_x(c, w) == x;
        assert(b0 <= c <= b && ring_x(c, w) == x);
    }
    if x == ring_x(b, w) {
        assert(covers(b0, b, w, x));
    }
    if covers(b0, b, w, x) {
        let c = choose|c: int| b0 <= c <= b && #[trigger] ring_x(c, w) == x;
        if c < b {
            assert(b0 <= c <= b - 1 && ring_x(c, w) == x);
        }
    }
}

/// `col` with row `y` raised to at least `q`.
pub open spec fn raised(col: Seq<u32>, y: int, q: u32) -> Seq<u32> {
    col.update(y, math::max_u32(col[y], q))
}

/// The ring is always laid out at the same width.
proof fn lemma_layout_width(r: int)
    requires
        math::is_next_power_of_two(GRID_HORIZON_BUCKETS as int, r),
    ensures
        r == GRID_TEX_W,
{
    lemma2_to64();
    assert(pow2(13) == GRID_TEX_W);
    assert(r <= GRID_TEX_W);
    let k = choose|k: nat| r == #[trigger] pow2(k);
    if k < 13 {
        if k < 12 {
            lemma_pow2_strictly_increases(k, 12);
        }
    }
    if k > 13 {
        lemma_pow2_strictly_increases(13, k);
    }
}

proof fn lemma_div_magnitudes(t: int, d: int)
    requires
        t >= 0,
        d > 0,
    ensures
        0 <= (t / d) * d <= t,
{
    lemma_fundamental_div_mod(t, d);
    lemma_mod_bound(t, d);
    lemma_div_pos_is_pos(t, d);
    assert((t / d) * d == d * (t / d)) by (nonlinear_arith);
    assert((t / d) * d >= 0) by (nonlinear_arith)
        requires
            t / d >= 0,
            d > 0,
    ;
}

/// The stretch of history, and the binning, of a rebuild.
pub struct RebuildWindow {
    pub width: int,
    pub aggr: int,
    pub oldest_time: int,
    pub latest_time: int,
    pub base: int,
    pub step_units: int,
    pub steps: int,
}

impl RebuildWindow {
    pub open spec fn oldest_bucket(self) -> int {
        math::wrap_i64(self.oldest_time / self.aggr)
    }

    pub open spec fn latest_bucket(self) -> int {
        math::wrap_i64(self.latest_time / self.aggr)
    }

    /// The start of the oldest bucket.
    pub open spec fn oldest_aligned(self) -> int {
        (self.oldest_time / self.aggr) * self.aggr
    }

    /// The end of the latest bucket, as far as it can be written down.
    pub open spec fn window_end(self) -> int {
        math::min_int((self.latest_time / self.aggr) * self.aggr + self.aggr, u64::MAX as int)
    }

    /// The part of a run that lies in the window, first and last instant.
    pub open spec fn run_start(self, run: DepthRun) -> int {
        math::max_int(run.start_time as int, self.oldest_aligned())
    }

    pub open spec fn run_end(self, run: DepthRun) -> int {
        math::min_int(run.until_time as int, self.window_end())
    }

    /// The run shows in column `x` and row `y` of its side.
    pub open spec fn shows(self, run: DepthRun, is_bid: bool, x: int, y: int) -> bool {
        &&& run.is_bid == is_bid
        &&& y == price_row(run.price.units as int, self.base, self.step_units, self.steps)
        &&& self.run_start(run) < self.run_end(run)
        &&& covers(
            math::max_int(math::wrap_i64(self.run_start(run) / self.aggr), self.oldest_bucket()),
            math::min_int(math::wrap_i64((self.run_end(run) - 1) / self.aggr), self.latest_bucket()),
            self.width,
            x,
        )
    }

    /// The largest size among the first `n` runs that show in one cell, or 0.
    pub open spec fn largest(
        self,
        runs: Seq<DepthRun>,
        n: nat,
        is_bid: bool,
        x: int,
        y: int,
    ) -> u32
        decreases n,
    {
        if n == 0 {
            0
        } else {
            let m = self.largest(runs, (n - 1) as nat, is_bid, x, y);
            if self.shows(runs[n - 1], is_bid, x, y) {
                math::max_u32(m, runs[n - 1].qty)
            } else {
                m
            }
        }
    }

    /// Column `x` of one side: in each row the largest of the sizes that show in it.
    pub open spec fn rebuilt(self, runs: Seq<DepthRun>, n: nat, is_bid: bool, x: int) -> Seq<u32> {
        Seq::new(GRID_TEX_H as nat, |y: int| self.largest(runs, n, is_bid, x, y))
    }
}

/// A grid of width `w` in which nothing is present.
pub open spec fn empty_cells(w: int) -> Seq<u32> {
    Seq::new((w * GRID_TEX_H) as nat, |i: int| 0u32)
}

impl RingView {
    pub open spec fn bid_col(self, x: int) -> Seq<u32> {
        side_grid::column(self.bid, self.width, x)
    }

    pub open spec fn ask_col(self, x: int) -> Seq<u32> {
        side_grid::column(self.ask, self.width, x)
    }

    /// The ring without contents and without a position in time, to be uploaded whole.
    pub open spec fn cleared(self) -> RingView {
        RingView {
            last_bucket: None,
            bid: empty_cells(self.width),
            ask: empty_cells(self.width),
            full_dirty: true,
            dirty: Set::empty(),
            ..self
        }
    }

    /// The ring after a change of the number of steps per bin, which drops what was binned
    /// otherwise.
    pub open spec fn rebinned(self, steps: int) -> RingView {
        if self.steps == steps {
            self
        } else {
            RingView { steps, anchor: None, ..self.cleared() }
        }
    }

    /// The ring after its anchor has followed `target`: it moves, and the contents are
    /// dropped, once `target` is more than a quarter of the height away.
    pub open spec fn recentered(self, target: int, step_units: int) -> RingView {
        match self.anchor {
            None => RingView { anchor: Some(target), ..self },
            Some(anchor) => if math::abs(delta_bins(target, anchor, step_units, self.steps))
                > GRID_TEX_H as int / 4 {
                RingView { anchor: Some(target), ..self.cleared() }
            } else {
                self
            },
        }
    }

    /// `bucket` is earlier than what the ring has already seen.
    pub open spec fn late(self, bucket: int) -> bool {
        self.last_bucket matches Some(prev) && bucket < prev
    }

    /// `bucket` is so far ahead that nothing of the ring's contents remains.
    pub open spec fn jumps_past(self, bucket: int) -> bool {
        self.last_bucket matches Some(prev) && bucket - prev > self.width
    }

    /// Column `x` belongs to a bucket between the last one seen and `bucket`.
    pub open spec fn in_gap(self, bucket: int, x: int) -> bool {
        self.last_bucket matches Some(prev) && bucket - prev <= self.width && 0 < gap_distance(
            x,
            prev,
            self.width,
        ) < bucket - prev
    }

    /// One side's column `x` after a snapshot for `bucket` whose own column is `current`.
    ///
    /// A missed bucket carries the previous observation forward, in the rows where something
    /// is still present.
    pub open spec fn column_after(
        self,
        cells: Seq<u32>,
        bucket: int,
        current: Seq<u32>,
        x: int,
    ) -> Seq<u32> {
        if x == ring_x(bucket, self.width) {
            current
        } else if self.jumps_past(bucket) {
            side_grid::empty_column()
        } else if self.in_gap(bucket, x) {
            side_grid::masked(
                side_grid::column(cells, self.width, ring_x(self.last_bucket->0, self.width)),
                side_grid::presence(current),
            )
        } else {
            side_grid::column(cells, self.width, x)
        }
    }

    /// One side's column `x` after the ring has moved on to `bucket`, for every `x` but the
    /// column of `bucket` itself.
    pub open spec fn carried(self, cells: Seq<u32>, bucket: int, x: int) -> Seq<u32> {
        if self.jumps_past(bucket) {
            side_grid::empty_column()
        } else if self.in_gap(bucket, x) {
            side_grid::column(cells, self.width, ring_x(self.last_bucket->0, self.width))
        } else {
            side_grid::column(cells, self.width, x)
        }
    }

    /// The columns that the renderer has to fetch after a snapshot for `bucket`.
    pub open spec fn dirty_after(self, bucket: int) -> Set<int> {
        if self.full_dirty || self.jumps_past(bucket) {
            Set::empty()
        } else {
            self.dirty.union(
                Set::new(
                    |x: int|
                        0 <= x < self.width && (x == ring_x(bucket, self.width) || self.in_gap(
                            bucket,
                            x,
                        )),
                ),
            )
        }
    }

    /// `after` is this ring once a snapshot for `bucket`, with the columns `bids` and `asks`,
    /// has been written.
    pub open spec fn snapshot_written(
        self,
        bucket: int,
        bids: Seq<u32>,
        asks: Seq<u32>,
        after: RingView,
    ) -> bool {
        &&& after.width == self.width
        &&& after.aggr == self.aggr
        &&& after.steps == self.steps
        &&& after.anchor == self.anchor
        &&& after.last_bucket == Some(bucket)
        &&& after.full_dirty == (self.full_dirty || self.jumps_past(bucket))
        &&& after.dirty == self.dirty_after(bucket)
        &&& forall|x: int|
            0 <= x < self.width ==> #[trigger] after.bid_col(x) == self.column_after(
                self.bid,
                bucket,
                bids,
                x,
            )
        &&& forall|x: int|
            0 <= x < self.width ==> #[trigger] after.ask_col(x) == self.column_after(
                self.ask,
                bucket,
                asks,
                x,
            )
    }

    /// The ring laid out for buckets of `aggr_time_ms`, at least one millisecond. A change of
    /// layout empties it.
    pub open spec fn laid_out(self, aggr_time_ms: int) -> RingView {
        let aggr = math::max_int(aggr_time_ms, 1);
        if self.aggr == aggr {
            self
        } else {
            RingView {
                width: GRID_TEX_W as int,
                aggr,
                last_bucket: None,
                bid: empty_cells(GRID_TEX_W as int),
                ask: empty_cells(GRID_TEX_W as int),
                full_dirty: true,
                dirty: Set::empty(),
                ..self
            }
        }
    }

    /// `after` is what a rebuild from `hist`, binned around `base`, makes of this ring.
    pub open spec fn rebuilt_from(
        self,
        hist: Seq<DepthRun>,
        oldest_time: u64,
        latest_time: u64,
        base: int,
        step_units: int,
        steps_per_y_bin: int,
        after: RingView,
    ) -> bool {
        let win = RebuildWindow {
            width: self.width,
            aggr: self.aggr,
            oldest_time: oldest_time as int,
            latest_time: latest_time as int,
            base,
            step_units,
            steps: math::max_int(steps_per_y_bin, 1),
        };
        let cleared = RingView { steps: win.steps, anchor: Some(win.base), ..self.cleared() };
        if self.width == 0 {
            after == self
        } else if win.latest_bucket() < win.oldest_bucket() {
            after == cleared
        } else {
            &&& after == (RingView {
                bid: after.bid,
                ask: after.ask,
                last_bucket: Some(win.latest_bucket()),
                ..cleared
            })
            &&& forall|x: int|
                0 <= x < win.width ==> #[trigger] after.bid_col(x) == win.rebuilt(
                    hist,
                    hist.len(),
                    true,
                    x,
                )
            &&& forall|x: int|
                0 <= x < win.width ==> #[trigger] after.ask_col(x) == win.rebuilt(
                    hist,
                    hist.len(),
                    false,
                    x,
                )
        }
    }

    /// `after` is this ring once it has taken in a snapshot of the book.
    pub open spec fn ingested(
        self,
        bids: Seq<ScaledLevel>,
        asks: Seq<ScaledLevel>,
        rounded_t_ms: u64,
        step_units: int,
        recenter_target: int,
        steps_per_y_bin: int,
        after: RingView,
    ) -> bool {
        let steps = math::max_int(steps_per_y_bin, 1);
        let rebinned = self.rebinned(steps);
        let ready = rebinned.recentered(recenter_target, step_units);
        let bucket = math::wrap_i64(rounded_t_ms as int / ready.aggr);
        if rebinned.width == 0 {
            after == rebinned
        } else if ready.late(bucket) {
            after == ready
        } else {
            ready.snapshot_written(
                bucket,
                scattered(bids, bids.len(), ready.anchor->0, step_units, steps),
                scattered(asks, asks.len(), ready.anchor->0, step_units, steps),
                after,
            )
        }
    }

    /// `tex` agrees with `cells` on every column that is not waiting to be uploaded.
    pub open spec fn synced(self, tex: Seq<u32>, cells: Seq<u32>) -> bool {
        self.full_dirty || (tex.len() == cells.len() && forall|x: int|
            0 <= x < self.width && !self.dirty.contains(x) ==> #[trigger] side_grid::column(
                tex,
                self.width,
                x,
            ) == side_grid::column(cells, self.width, x))
    }
}

/// `target` lies more than a quarter of the height from the anchor, or there is none.
pub open spec fn wants_recenter(ring: RingView, target: int, step_units: int) -> bool {
    match ring.anchor {
        None => true,
        Some(anchor) => math::abs(delta_bins(target, anchor, step_units, ring.steps))
            > GRID_TEX_H as int / 4,
    }
}

/// `up` is what the renderer has to copy from a ring that is `ring`: the whole of it, or the
/// columns that wait, in ascending order and each once, or nothing.
pub open spec fn is_upload(ring: RingView, force_full: bool, up: Option<HeatmapUpload>) -> bool {
    if ring.width == 0 {
        up is None
    } else if force_full || ring.full_dirty {
        up matches Some(HeatmapUpload::Full { width, height, bid, ask }) && width == ring.width
            && height == GRID_TEX_H && bid@ == ring.bid && ask@ == ring.ask
    } else if ring.dirty == Set::<int>::empty() {
        up is None
    } else {
        up matches Some(HeatmapUpload::Cols { width, height, cols }) && width == ring.width
            && height == GRID_TEX_H && are_dirty_columns(ring, cols@)
    }
}

/// `cols` are the columns of `ring` that wait, in ascending order and each once.
pub open spec fn are_dirty_columns(ring: RingView, cols: Seq<HeatmapColumnCpu>) -> bool {
    &&& forall|i: int, j: int| 0 <= i < j < cols.len() ==> cols[i].x < cols[j].x
    &&& forall|x: int|
        ring.dirty.contains(x) <==> exists|i: int|
            0 <= i < cols.len() && #[trigger] cols[i].x == x
    &&& forall|i: int|
        #![trigger cols[i]]
        0 <= i < cols.len() ==> {
            &&& cols[i].x < ring.width
            &&& cols[i].bid_col@ == ring.bid_col(cols[i].x as int)
            &&& cols[i].ask_col@ == ring.ask_col(cols[i].x as int)
        }
}

impl View for GridRing {
    type V = RingView;

    closed spec fn view(&self) -> RingView {
        RingView {
            width: self.tex_w as int,
            aggr: self.aggr_time_ms as int,
            last_bucket: match self.last_bucket {
                Some(b) => Some(b as int),
                None => None,
            },
            anchor: match self.y_anchor {
                Some(p) => Some(p.units as int),
                None => None,
            },
            steps: self.steps_per_y_bin as int,
            bid: self.bid.cells@,
            ask: self.ask.cells@,
            full_dirty: self.full_dirty,
            dirty: Set::new(|x: int| exists|i: int| 0 <= i < self.dirty_cols@.len() && #[trigger]
                self.dirty_cols@[i] == x),
        }
    }
}

impl GridRing {
    /// The buffers fit the layout, and every cached maximum is that of its cells.
    pub closed spec fn wf(&self) -> bool {
        &&& self.horizon_buckets == GRID_HORIZON_BUCKETS
        &&& self.tex_h == GRID_TEX_H
        &&& self.tex_w == 0 || self.tex_w == GRID_TEX_W
        &&& self.tex_w == 0 <==> self.aggr_time_ms == 0
        &&& self.steps_per_y_bin >= 1
        &&& self.bid.wf(self.tex_w as int)
        &&& self.ask.wf(self.tex_w as int)
        &&& self.full_dirty ==> self.dirty_cols@.len() == 0
        &&& forall|i: int| 0 <= i < self.dirty_cols@.len() ==> self.dirty_cols@[i] < self.tex_w
    }

    /// A ring holds one cell for each column and row, of bids and of asks; it is as wide as the
    /// texture once it is laid out, and only columns that it has wait to be uploaded.
    pub proof fn cells_fill_the_layout(&self)
        requires
            self.wf(),
        ensures
            self@.width == 0 || self@.width == GRID_TEX_W,
            self@.width == 0 <==> self@.aggr == 0,
            self@.steps >= 1,
            self@.bid.len() == self@.width * GRID_TEX_H,
            self@.ask.len() == self@.width * GRID_TEX_H,
            self@.full_dirty ==> self@.dirty == Set::<int>::empty(),
            forall|x: int| self@.dirty.contains(x) ==> 0 <= x < self@.width,
    {
        if self.full_dirty {
            assert(self@.dirty =~= Set::<int>::empty());
        }
    }

    /// A ring that has no layout yet.
    pub fn new() -> (ring: GridRing)
        ensures
            ring.wf(),
            ring@ == RingView::fresh(),
    {
        let ring = GridRing {
            horizon_buckets: GRID_HORIZON_BUCKETS,
            tex_w: 0,
            tex_h: GRID_TEX_H as u32,
            aggr_time_ms: 0,
            last_bucket: None,
            y_anchor: None,
            bid: SideGrid::empty(),
            ask: SideGrid::empty(),
            steps_per_y_bin: 1,
            full_dirty: false,
            dirty_cols: Vec::new(),
        };
        proof {
            assert(ring@.dirty =~= Set::<int>::empty());
        }
        ring
    }

    fn mark_full_dirty(&mut self)
        ensures
            final(self)@ == (RingView { full_dirty: true, dirty: Set::empty(), ..old(self)@ }),
            old(self).wf() ==> final(self).wf(),
            final(self).bid == old(self).bid,
            final(self).ask == old(self).ask,
            final(self).tex_w == old(self).tex_w,
    {
        self.full_dirty = true;
        self.dirty_cols.clear();
        proof {
            assert(self@.dirty =~= Set::<int>::empty());
        }
    }

    fn mark_dirty(&mut self, x: u32)
        requires
            old(self).wf(),
            x < old(self).tex_w,
        ensures
            final(self).wf(),
            final(self)@ == (RingView {
                dirty: if old(self)@.full_dirty {
                    Set::empty()
                } else {
                    old(self)@.dirty.insert(x as int)
                },
                ..old(self)@
            }),
            final(self).bid == old(self).bid,
            final(self).ask == old(self).ask,
            final(self).tex_w == old(self).tex_w,
    {
        let ghost before = *self;
        if !self.full_dirty {
            self.dirty_cols.push(x);
            proof {
                assert forall|c: int| #[trigger] self@.dirty.contains(c)
                    == before@.dirty.insert(x as int).contains(c) by {
                    if before@.dirty.contains(c) {
                        let i = choose|i: int| 0 <= i < before.dirty_cols@.len() && #[trigger]
                            before.dirty_cols@[i] == c;
                        assert(self.dirty_cols@[i] == c);
                    }
                    if c == x {
                        assert(self.dirty_cols@[self.dirty_cols@.len() - 1] == c);
                    }
                    if self@.dirty.contains(c) {
                        let i = choose|i: int| 0 <= i < self.dirty_cols@.len() && #[trigger]
                            self.dirty_cols@[i] == c;
                        if i < before.dirty_cols@.len() {
                            assert(before.dirty_cols@[i] == c);
                        }
                    }
                }
                assert(self@.dirty =~= before@.dirty.insert(x as int));
            }
        } else {
            proof {
                assert(self@.dirty =~= Set::<int>::empty());
            }
        }
    }

    fn clear_all(&mut self)
        requires
            old(self).wf(),
        ensures
            final(self).wf(),
            final(self)@ == (RingView { last_bucket: old(self)@.last_bucket, ..old(self)@.cleared() }),
            final(self).tex_w == old(self).tex_w,
    {
        let w: usize = self.tex_w as usize;
        self.bid.clear_all(w);
        self.ask.clear_all(w);
        self.mark_full_dirty();
    }

    fn clear_column(&mut self, x: u32)
        requires
            old(self).wf(),
            x < old(self).tex_w,
        ensures
            final(self).wf(),
            final(self)@ == (RingView {
                bid: final(self)@.bid,
                ask: final(self)@.ask,
                dirty: if old(self)@.full_dirty {
                    Set::empty()
                } else {
                    old(self)@.dirty.insert(x as int)
                },
                ..old(self)@
            }),
            forall|x2: int|
                0 <= x2 < old(self).tex_w ==> #[trigger] final(self)@.bid_col(x2) == if x2 == x {
                    side_grid::empty_column()
                } else {
                    old(self)@.bid_col(x2)
                },
            forall|x2: int|
                0 <= x2 < old(self).tex_w ==> #[trigger] final(self)@.ask_col(x2) == if x2 == x {
                    side_grid::empty_column()
                } else {
                    old(self)@.ask_col(x2)
                },
    {
        let ghost before = *self;
        let w: usize = self.tex_w as usize;
        self.bid.clear_column(w, x as usize);
        self.ask.clear_column(w, x as usize);
        let ghost mid = *self;
        self.mark_dirty(x);
        proof {
            assert(mid@.dirty == before@.dirty);
            assert forall|x2: int| 0 <= x2 < w implies #[trigger] self@.bid_col(x2) == if x2 == x {
                side_grid::empty_column()
            } else {
                before@.bid_col(x2)
            } by {
                assert(self@.bid_col(x2) == self.bid.col(w as int, x2));
                assert(before@.bid_col(x2) == before.bid.col(w as int, x2));
            }
            assert forall|x2: int| 0 <= x2 < w implies #[trigger] self@.ask_col(x2) == if x2 == x {
                side_grid::empty_column()
            } else {
                before@.ask_col(x2)
            } by {
                assert(self@.ask_col(x2) == self.ask.col(w as int, x2));
                assert(before@.ask_col(x2) == before.ask.col(w as int, x2));
            }
        }
    }

    fn copy_column(&mut self, from_x: u32, to_x: u32)
        requires
            old(self).wf(),
            from_x < old(self).tex_w,
            to_x < old(self).tex_w,
            from_x != to_x,
        ensures
            final(self).wf(),
            final(self)@ == (RingView {
                bid: final(self)@.bid,
                ask: final(self)@.ask,
                dirty: if old(self)@.full_dirty {
                    Set::empty()
                } else {
                    old(self)@.dirty.insert(to_x as int)
                },
                ..old(self)@
            }),
            forall|x2: int|
                0 <= x2 < old(self).tex_w ==> #[trigger] final(self)@.bid_col(x2) == if x2
                    == to_x {
                    old(self)@.bid_col(from_x as int)
                } else {
                    old(self)@.bid_col(x2)
                },
            forall|x2: int|
                0 <= x2 < old(self).tex_w ==> #[trigger] final(self)@.ask_col(x2) == if x2
                    == to_x {
                    old(self)@.ask_col(from_x as int)
                } else {
                    old(self)@.ask_col(x2)
                },
    {
        let ghost before = *self;
        let w: usize = self.tex_w as usize;
        self.bid.copy_column(w, from_x as usize, to_x as usize);
        self.ask.copy_column(w, from_x as usize, to_x as usize);
        let ghost mid = *self;
        self.mark_dirty(to_x);
        proof {
            assert(mid@.dirty == before@.dirty);
            assert forall|x2: int| 0 <= x2 < w implies #[trigger] self@.bid_col(x2) == if x2
                == to_x {
                before@.bid_col(from_x as int)
            } else {
                before@.bid_col(x2)
            } by {
                assert(self@.bid_col(x2) == self.bid.col(w as int, x2));
                assert(before@.bid_col(x2) == before.bid.col(w as int, x2));
            }
            assert forall|x2: int| 0 <= x2 < w implies #[trigger] self@.ask_col(x2) == if x2
                == to_x {
                before@.ask_col(from_x as int)
            } else {
                before@.ask_col(x2)
            } by {
                assert(self@.ask_col(x2) == self.ask.col(w as int, x2));
                assert(before@.ask_col(x2) == before.ask.col(w as int, x2));
            }
        }
    }

    /// How many y-bins `price` lies above `anchor`.
    fn price_delta_y_bins(&self, price: Price, anchor: Price, step_units: i64) -> (r: i128)
        requires
            self.wf(),
        ensures
            r == delta_bins(
                price.units as int,
                anchor.units as int,
                step_units as int,
                self@.steps,
            ),
            -0x1_0000_0000_0000_0000 <= r <= 0x1_0000_0000_0000_0000,
    {
        let step: i64 = if step_units > 1 {
            step_units
        } else {
            1
        };
        let delta: i128 = price.units as i128 - anchor.units as i128;
        let delta_steps: i128 = floor_div(delta, step);
        div_to_zero(delta_steps, self.steps_per_y_bin)
    }

    fn scatter_side(
        &mut self,
        side: &Vec<ScaledLevel>,
        x: u32,
        anchor: Price,
        step_units: i64,
        is_bid: bool,
    )
        requires
            old(self).wf(),
            x < old(self).tex_w,
            (if is_bid {
                old(self)@.bid_col(x as int)
            } else {
                old(self)@.ask_col(x as int)
            }) == side_grid::empty_column(),
        ensures
            final(self).wf(),
            final(self)@ == (if is_bid {
                RingView { bid: final(self)@.bid, ..old(self)@ }
            } else {
                RingView { ask: final(self)@.ask, ..old(self)@ }
            }),
            forall|x2: int|
                0 <= x2 < old(self).tex_w ==> #[trigger] final(self)@.bid_col(x2) == if x2 == x
                    && is_bid {
                    scattered(
                        side@,
                        side@.len(),
                        anchor.units as int,
                        step_units as int,
                        old(self)@.steps,
                    )
                } else {
                    old(self)@.bid_col(x2)
                },
            forall|x2: int|
                0 <= x2 < old(self).tex_w ==> #[trigger] final(self)@.ask_col(x2) == if x2 == x
                    && !is_bid {
                    scattered(
                        side@,
                        side@.len(),
                        anchor.units as int,
                        step_units as int,
                        old(self)@.steps,
                    )
                } else {
                    old(self)@.ask_col(x2)
                },
    {
        let w: usize = self.tex_w as usize;
        let ghost before = *self;
        let ghost steps = self@.steps;
        let half_h: i128 = (GRID_TEX_H / 2) as i128;
        let mut i: usize = 0;
        while i < side.len()
            invariant
                i <= side@.len(),
                before.wf(),
                self.wf(),
                self.tex_w == before.tex_w,
                w == before.tex_w,
                x < w,
                half_h == GRID_TEX_H as int / 2,
                steps == before@.steps,
                self@ == (if is_bid {
                    RingView { bid: self@.bid, ..before@ }
                } else {
                    RingView { ask: self@.ask, ..before@ }
                }),
                forall|x2: int|
                    0 <= x2 < w ==> #[trigger] self@.bid_col(x2) == if x2 == x && is_bid {
                        scattered(
                            side@,
                            i as nat,
                            anchor.units as int,
                            step_units as int,
                            steps,
                        )
                    } else {
                        before@.bid_col(x2)
                    },
                forall|x2: int|
                    0 <= x2 < w ==> #[trigger] self@.ask_col(x2) == if x2 == x && !is_bid {
                        scattered(
                            side@,
                            i as nat,
                            anchor.units as int,
                            step_units as int,
                            steps,
                        )
                    } else {
                        before@.ask_col(x2)
                    },
            decreases side@.len() - i,
        {
            let level: ScaledLevel = side[i];
            let y: i128 = half_h + self.price_delta_y_bins(level.price, anchor, step_units);
            let ghost prev = *self;
            if 0 <= y && y < GRID_TEX_H as i128 {
                if is_bid {
                    self.bid.raise(w, x as usize, y as usize, level.qty);
                } else {
                    self.ask.raise(w, x as usize, y as usize, level.qty);
                }
            }
            proof {
                assert(self@.dirty == prev@.dirty);
                assert forall|x2: int| 0 <= x2 < w implies #[trigger] self@.bid_col(x2) == if x2
                    == x && is_bid {
                    scattered(
                        side@,
                        (i + 1) as nat,
                        anchor.units as int,
                        step_units as int,
                        steps,
                    )
                } else {
                    before@.bid_col(x2)
                } by {
                    assert(self@.bid_col(x2) == self.bid.col(w as int, x2));
                    assert(prev@.bid_col(x2) == prev.bid.col(w as int, x2));
                }
                assert forall|x2: int| 0 <= x2 < w implies #[trigger] self@.ask_col(x2) == if x2
                    == x && !is_bid {
                    scattered(
                        side@,
                        (i + 1) as nat,
                        anchor.units as int,
                        step_units as int,
                        steps,
                    )
                } else {
                    before@.ask_col(x2)
                } by {
                    assert(self@.ask_col(x2) == self.ask.col(w as int, x2));
                    assert(prev@.ask_col(x2) == prev.ask.col(w as int, x2));
                }
            }
            i += 1;
        }
    }

    /// Moves the ring on to `new_bucket`: missed buckets carry the previous observation
    /// forward, and a jump past the whole ring empties it.
    fn advance_and_fill_columns(&mut self, new_bucket: i64)
        requires
            old(self).wf(),
            old(self)@.width > 0,
            !old(self)@.late(new_bucket as int),
        ensures
            final(self).wf(),
            final(self)@.width == old(self)@.width,
            final(self)@.aggr == old(self)@.aggr,
            final(self)@.steps == old(self)@.steps,
            final(self)@.anchor == old(self)@.anchor,
            final(self)@.last_bucket == Some(new_bucket as int),
            final(self)@.full_dirty == (old(self)@.full_dirty || old(self)@.jumps_past(
                new_bucket as int,
            )),
            old(self)@.full_dirty || old(self)@.jumps_past(new_bucket as int) ==> final(
                self)@.dirty == Set::<int>::empty(),
            !final(self)@.full_dirty ==> final(self)@.dirty.insert(
                ring_x(new_bucket as int, old(self)@.width),
            ) == old(self)@.dirty_after(new_bucket as int),
            forall|x: int|
                0 <= x < old(self)@.width && x != ring_x(new_bucket as int, old(self)@.width)
                    ==> #[trigger] final(self)@.bid_col(x) == old(self)@.carried(
                    old(self)@.bid,
                    new_bucket as int,
                    x,
                ),
            forall|x: int|
                0 <= x < old(self)@.width && x != ring_x(new_bucket as int, old(self)@.width)
                    ==> #[trigger] final(self)@.ask_col(x) == old(self)@.carried(
                    old(self)@.ask,
                    new_bucket as int,
                    x,
                ),
    {
        let ghost before = *self;
        let w: u32 = self.tex_w;
        let ghost target_x = ring_x(new_bucket as int, w as int);
        let prev: i64 = match self.last_bucket {
            None => {
                self.clear_column(rem_floor(new_bucket, w));
                let ghost cleared = *self;
                self.last_bucket = Some(new_bucket);
                proof {
                    assert forall|x: int| 0 <= x < w && x != target_x implies #[trigger]
                        self@.bid_col(x) == before@.bid_col(x) by {
                        assert(self@.bid_col(x) == cleared@.bid_col(x));
                    }
                    assert forall|x: int| 0 <= x < w && x != target_x implies #[trigger]
                        self@.ask_col(x) == before@.ask_col(x) by {
                        assert(self@.ask_col(x) == cleared@.ask_col(x));
                    }
                    assert(self@.dirty.insert(target_x) =~= before@.dirty_after(new_bucket as int)
                        || self@.full_dirty);
                }
                return ;
            },
            Some(prev) => prev,
        };
        if new_bucket <= prev {
            proof {
                assert(self@.dirty.insert(target_x) =~= before@.dirty_after(new_bucket as int)
                    || self@.full_dirty);
                if self@.full_dirty {
                    assert(self@.dirty =~= Set::<int>::empty());
                }
            }
            return ;
        }
        let jump: i128 = new_bucket as i128 - prev as i128;
        if jump > w as i128 {
            self.clear_all();
            self.last_bucket = Some(new_bucket);
            proof {
                assert forall|x: int| 0 <= x < w implies #[trigger] self@.bid_col(x)
                    == side_grid::empty_column() by {
                    lemma_empty_column(w as int, x);
                }
                assert forall|x: int| 0 <= x < w implies #[trigger] self@.ask_col(x)
                    == side_grid::empty_column() by {
                    lemma_empty_column(w as int, x);
                }
            }
            return ;
        }
        let mut from_x: u32 = rem_floor(prev, w);
        let ghost prev_x = from_x as int;
        let mut b: i64 = prev + 1;
        proof {
            if self@.full_dirty {
                assert(self@.dirty =~= Set::<int>::empty());
            }
            assert forall|x: int| 0 <= x < w implies #[trigger] gap_distance(x, prev as int, w as int) >= 0 by {}
            assert(!self@.full_dirty ==> self@.dirty =~= before@.dirty.union(
                Set::new(
                    |x: int| 0 <= x < w && 0 < gap_distance(x, prev as int, w as int) < b - prev,
                ),
            ));
        }
        while b < new_bucket
            invariant
                prev < b <= new_bucket,
                jump == new_bucket - prev,
                jump <= w,
                before.wf(),
                self.wf(),
                w == before.tex_w,
                w > 0,
                self@ == (RingView { bid: self@.bid, ask: self@.ask, dirty: self@.dirty, ..before@ }),
                from_x == ring_x(b - 1, w as int),
                from_x < w,
                prev_x == ring_x(prev as int, w as int),
                self@.full_dirty ==> self@.dirty == Set::<int>::empty(),
                !self@.full_dirty ==> self@.dirty == before@.dirty.union(
                    Set::new(
                        |x: int|
                            0 <= x < w && 0 < gap_distance(x, prev as int, w as int) < b - prev,
                    ),
                ),
                forall|x: int|
                    0 <= x < w ==> #[trigger] self@.bid_col(x) == if 0 < gap_distance(
                        x,
                        prev as int,
                        w as int,
                    ) < b - prev {
                        before@.bid_col(prev_x)
                    } else {
                        before@.bid_col(x)
                    },
                forall|x: int|
                    0 <= x < w ==> #[trigger] self@.ask_col(x) == if 0 < gap_distance(
                        x,
                        prev as int,
                        w as int,
                    ) < b - prev {
                        before@.ask_col(prev_x)
                    } else {
                        before@.ask_col(x)
                    },
            decreases new_bucket - b,
        {
            let to_x: u32 = rem_floor(b, w);
            let ghost step = *self;
            proof {
                lemma_gap_distance(prev as int, w as int, b - prev, to_x as int);
                lemma_gap_distance(prev as int, w as int, b - 1 - prev, from_x as int);
                assert(step@.bid_col(from_x as int) == before@.bid_col(prev_x)) by {
                    lemma_gap_distance(prev as int, w as int, 0, from_x as int);
                }
                assert(step@.ask_col(from_x as int) == before@.ask_col(prev_x)) by {
                    lemma_gap_distance(prev as int, w as int, 0, from_x as int);
                }
            }
            self.copy_column(from_x, to_x);
            proof {
                assert forall|x: int| 0 <= x < w implies (x == to_x) == (#[trigger] gap_distance(
                    x,
                    prev as int,
                    w as int,
                ) == b - prev) by {
                    lemma_gap_distance(prev as int, w as int, b - prev, x);
                }
                assert forall|x: int| 0 <= x < w implies #[trigger] self@.bid_col(x) == if 0
                    < gap_distance(x, prev as int, w as int) < b + 1 - prev {
                    before@.bid_col(prev_x)
                } else {
                    before@.bid_col(x)
                } by {
                    let d = gap_distance(x, prev as int, w as int);
                    assert(step@.bid_col(x) == if 0 < d < b - prev {
                        before@.bid_col(prev_x)
                    } else {
                        before@.bid_col(x)
                    });
                }
                assert forall|x: int| 0 <= x < w implies #[trigger] self@.ask_col(x) == if 0
                    < gap_distance(x, prev as int, w as int) < b + 1 - prev {
                    before@.ask_col(prev_x)
                } else {
                    before@.ask_col(x)
                } by {
                    let d = gap_distance(x, prev as int, w as int);
                    assert(step@.ask_col(x) == if 0 < d < b - prev {
                        before@.ask_col(prev_x)
                    } else {
                        before@.ask_col(x)
                    });
                }
                if !self@.full_dirty {
                    assert(self@.dirty =~= before@.dirty.union(
                        Set::new(
                            |x: int|
                                0 <= x < w && 0 < gap_distance(x, prev as int, w as int) < b + 1
                                    - prev,
                        ),
                    ));
                }
            }
            from_x = to_x;
            b += 1;
        }
        let ghost filled = *self;
        self.last_bucket = Some(new_bucket);
        proof {
            assert forall|x: int| 0 <= x < w implies before@.in_gap(new_bucket as int, x) == (0
                < #[trigger] gap_distance(x, prev as int, w as int) < new_bucket - prev) by {}
            if !self@.full_dirty {
                assert(self@.dirty.insert(target_x) =~= before@.dirty_after(new_bucket as int));
            }
            assert forall|x: int|
                0 <= x < w && x != target_x implies #[trigger] self@.bid_col(x) == before@.carried(
                before@.bid,
                new_bucket as int,
                x,
            ) by {
                assert(self@.bid_col(x) == filled@.bid_col(x));
                let d = gap_distance(x, prev as int, w as int);
                assert(before@.in_gap(new_bucket as int, x) == (0 < d < new_bucket - prev));
            }
            assert forall|x: int|
                0 <= x < w && x != target_x implies #[trigger] self@.ask_col(x) == before@.carried(
                before@.ask,
                new_bucket as int,
                x,
            ) by {
                assert(self@.ask_col(x) == filled@.ask_col(x));
                let d = gap_distance(x, prev as int, w as int);
                assert(before@.in_gap(new_bucket as int, x) == (0 < d < new_bucket - prev));
            }
        }
    }

    /// Keeps a carried row only where the current column has something in it too.
    fn retain_current_presence_in_carried_gap(
        &mut self,
        prev_bucket: i64,
        new_bucket: i64,
        current_x: u32,
    )
        requires
            old(self).wf(),
            old(self)@.width > 0,
            prev_bucket < new_bucket,
            new_bucket - prev_bucket <= old(self)@.width,
            current_x == ring_x(new_bucket as int, old(self)@.width),
            current_x < old(self)@.width,
            old(self)@.full_dirty || forall|x: int|
                0 <= x < old(self)@.width && 0 < #[trigger] gap_distance(
                    x,
                    prev_bucket as int,
                    old(self)@.width,
                ) < new_bucket - prev_bucket ==> old(self)@.dirty.contains(x),
        ensures
            final(self).wf(),
            final(self)@ == (RingView {
                bid: final(self)@.bid,
                ask: final(self)@.ask,
                ..old(self)@
            }),
            forall|x: int|
                0 <= x < old(self)@.width ==> #[trigger] final(self)@.bid_col(x) == if 0
                    < gap_distance(x, prev_bucket as int, old(self)@.width) < new_bucket
                    - prev_bucket {
                    side_grid::masked(
                        old(self)@.bid_col(x),
                        side_grid::presence(old(self)@.bid_col(current_x as int)),
                    )
                } else {
                    old(self)@.bid_col(x)
                },
            forall|x: int|
                0 <= x < old(self)@.width ==> #[trigger] final(self)@.ask_col(x) == if 0
                    < gap_distance(x, prev_bucket as int, old(self)@.width) < new_bucket
                    - prev_bucket {
                    side_grid::masked(
                        old(self)@.ask_col(x),
                        side_grid::presence(old(self)@.ask_col(current_x as int)),
                    )
                } else {
                    old(self)@.ask_col(x)
                },
    {
        let ghost before = *self;
        let w: u32 = self.tex_w;
        let has_bid: Vec<bool> = self.bid.column_presence(w as usize, current_x as usize);
        let has_ask: Vec<bool> = self.ask.column_presence(w as usize, current_x as usize);
        let mut b: i64 = prev_bucket + 1;
        proof {
            assert forall|x: int| 0 <= x < w implies #[trigger] gap_distance(
                x,
                prev_bucket as int,
                w as int,
            ) >= 0 by {}
            assert(before@.bid_col(current_x as int) == before.bid.col(w as int, current_x as int));
            assert(before@.ask_col(current_x as int) == before.ask.col(w as int, current_x as int));
        }
        while b < new_bucket
            invariant
                prev_bucket < b <= new_bucket,
                new_bucket - prev_bucket <= w,
                before.wf(),
                self.wf(),
                w == before.tex_w,
                w > 0,
                has_bid@ == side_grid::presence(before@.bid_col(current_x as int)),
                has_ask@ == side_grid::presence(before@.ask_col(current_x as int)),
                before@.full_dirty || forall|x: int|
                    0 <= x < w && 0 < #[trigger] gap_distance(x, prev_bucket as int, w as int)
                        < new_bucket - prev_bucket ==> before@.dirty.contains(x),
                self@ == (RingView { bid: self@.bid, ask: self@.ask, ..before@ }),
                forall|x: int|
                    0 <= x < w ==> #[trigger] self@.bid_col(x) == if 0 < gap_distance(
                        x,
                        prev_bucket as int,
                        w as int,
                    ) < b - prev_bucket {
                        side_grid::masked(before@.bid_col(x), has_bid@)
                    } else {
                        before@.bid_col(x)
                    },
                forall|x: int|
                    0 <= x < w ==> #[trigger] self@.ask_col(x) == if 0 < gap_distance(
                        x,
                        prev_bucket as int,
                        w as int,
                    ) < b - prev_bucket {
                        side_grid::masked(before@.ask_col(x), has_ask@)
                    } else {
                        before@.ask_col(x)
                    },
            decreases new_bucket - b,
        {
            let x: u32 = rem_floor(b, w);
            let ghost step = *self;
            let bid_changed: bool = self.bid.retain_rows(w as usize, x as usize, &has_bid);
            let ask_changed: bool = self.ask.retain_rows(w as usize, x as usize, &has_ask);
            let ghost masked_ring = *self;
            proof {
                assert(masked_ring@.dirty == step@.dirty);
                lemma_gap_distance(prev_bucket as int, w as int, b - prev_bucket, x as int);
            }
            if bid_changed || ask_changed {
                self.mark_dirty(x);
                proof {
                    if self@.full_dirty {
                        assert(masked_ring@.dirty =~= Set::<int>::empty());
                    } else {
                        assert(before@.dirty.contains(x as int));
                        assert(self@.dirty =~= before@.dirty);
                    }
                }
            }
            proof {
                assert forall|c: int| 0 <= c < w implies #[trigger] self@.bid_col(c) == if 0
                    < gap_distance(c, prev_bucket as int, w as int) < b + 1 - prev_bucket {
                    side_grid::masked(before@.bid_col(c), has_bid@)
                } else {
                    before@.bid_col(c)
                } by {
                    lemma_gap_distance(prev_bucket as int, w as int, b - prev_bucket, c);
                    assert(self@.bid_col(c) == masked_ring.bid.col(w as int, c));
                    assert(step@.bid_col(c) == step.bid.col(w as int, c));
                }
                assert forall|c: int| 0 <= c < w implies #[trigger] self@.ask_col(c) == if 0
                    < gap_distance(c, prev_bucket as int, w as int) < b + 1 - prev_bucket {
                    side_grid::masked(before@.ask_col(c), has_ask@)
                } else {
                    before@.ask_col(c)
                } by {
                    lemma_gap_distance(prev_bucket as int, w as int, b - prev_bucket, c);
                    assert(self@.ask_col(c) == masked_ring.ask.col(w as int, c));
                    assert(step@.ask_col(c) == step.ask.col(w as int, c));
                }
            }
            b += 1;
        }
    }

    /// Updates the ring for a snapshot of the book at `rounded_t_ms`.
    ///
    /// A change of binning or a target price far from the anchor empties the ring first. A
    /// snapshot of a bucket that is already past changes nothing more.
    pub fn ingest_snapshot(
        &mut self,
        bids: &Vec<ScaledLevel>,
        asks: &Vec<ScaledLevel>,
        rounded_t_ms: u64,
        step: PriceStep,
        recenter_target: Price,
        steps_per_y_bin: i64,
    )
        requires
            old(self).wf(),
        ensures
            final(self).wf(),
            old(self)@.ingested(
                bids@,
                asks@,
                rounded_t_ms,
                step.units as int,
                recenter_target.units as int,
                steps_per_y_bin as int,
                final(self)@,
            ),
    {
        let steps: i64 = if steps_per_y_bin > 1 {
            steps_per_y_bin
        } else {
            1
        };
        let ghost start = *self;
        if self.steps_per_y_bin != steps {
            self.clear_all();
            self.steps_per_y_bin = steps;
            self.last_bucket = None;
            self.y_anchor = None;
        }
        let ghost rebinned = *self;
        assert(rebinned@ == start@.rebinned(steps as int));
        if self.tex_w == 0 {
            return ;
        }
        let anchor: Price = match self.y_anchor {
            None => {
                self.y_anchor = Some(recenter_target);
                recenter_target
            },
            Some(anchor) => {
                let delta: i128 = self.price_delta_y_bins(recenter_target, anchor, step.units);
                let threshold: i128 = (GRID_TEX_H / 4) as i128;
                if delta > threshold || -delta > threshold {
                    self.clear_all();
                    self.y_anchor = Some(recenter_target);
                    self.last_bucket = None;
                    recenter_target
                } else {
                    anchor
                }
            },
        };
        let ghost ready = *self;
        assert(ready@ == rebinned@.recentered(recenter_target.units as int, step.units as int));
        assert(ready@.anchor == Some(anchor.units as int));

        let bucket: i64 = u64_as_i64(rounded_t_ms / self.aggr_time_ms);
        let x: u32 = rem_floor(bucket, self.tex_w);
        let prev_bucket: Option<i64> = self.last_bucket;
        if let Some(prev) = prev_bucket {
            if bucket < prev {
                return ;
            }
        }
        self.advance_and_fill_columns(bucket);
        let ghost advanced = *self;
        self.clear_column(x);
        let ghost cleared = *self;
        self.scatter_side(bids, x, anchor, step.units, true);
        let ghost half = *self;
        assert(half@.ask_col(x as int) == cleared@.ask_col(x as int));
        self.scatter_side(asks, x, anchor, step.units, false);
        let ghost current = *self;
        let ghost bid_col = scattered(
            bids@,
            bids@.len(),
            anchor.units as int,
            step.units as int,
            steps as int,
        );
        let ghost ask_col = scattered(
            asks@,
            asks@.len(),
            anchor.units as int,
            step.units as int,
            steps as int,
        );
        proof {
            assert forall|c: int| 0 <= c < ready@.width implies #[trigger] current@.bid_col(c) == if c
                == x {
                bid_col
            } else {
                ready@.carried(ready@.bid, bucket as int, c)
            } by {
                assert(half@.bid_col(c) == if c == x {
                    bid_col
                } else {
                    cleared@.bid_col(c)
                });
                if c != x {
                    assert(cleared@.bid_col(c) == advanced@.bid_col(c));
                }
            }
            assert forall|c: int| 0 <= c < ready@.width implies #[trigger] current@.ask_col(c) == if c
                == x {
                ask_col
            } else {
                ready@.carried(ready@.ask, bucket as int, c)
            } by {
                assert(half@.ask_col(c) == cleared@.ask_col(c));
                if c != x {
                    assert(cleared@.ask_col(c) == advanced@.ask_col(c));
                }
            }
            assert(current@.dirty == ready@.dirty_after(bucket as int));
        }
        if let Some(prev) = prev_bucket {
            let jump: i128 = bucket as i128 - prev as i128;
            if jump > 1 && jump <= self.tex_w as i128 {
                proof {
                    assert forall|c: int|
                        0 <= c < ready@.width && 0 < #[trigger] gap_distance(
                            c,
                            prev as int,
                            ready@.width,
                        ) < bucket - prev implies ready@.in_gap(bucket as int, c) by {}
                    assert(current@.full_dirty || forall|c: int|
                        0 <= c < ready@.width && 0 < #[trigger] gap_distance(
                            c,
                            prev as int,
                            ready@.width,
                        ) < bucket - prev ==> current@.dirty.contains(c));
                }
                self.retain_current_presence_in_carried_gap(prev, bucket, x);
            }
        }
        proof {
            assert forall|c: int| 0 <= c < ready@.width implies #[trigger] self@.bid_col(c)
                == ready@.column_after(ready@.bid, bucket as int, bid_col, c) by {
                assert(current@.bid_col(c) == current@.bid_col(c));
                assert(current@.bid_col(x as int) == bid_col);
                if let Some(prev) = ready@.last_bucket {
                    if bucket - prev <= ready@.width && bucket > prev {
                        lemma_gap_distance(prev, ready@.width, (bucket - prev) % ready@.width, c);
                        lemma_own_column(prev, ready@.width, bucket as int, x as int);
                    }
                }
            }
            assert forall|c: int| 0 <= c < ready@.width implies #[trigger] self@.ask_col(c)
                == ready@.column_after(ready@.ask, bucket as int, ask_col, c) by {
                assert(current@.ask_col(x as int) == ask_col);
                assert(current@.ask_col(c) == current@.ask_col(c));
                if let Some(prev) = ready@.last_bucket {
                    if bucket - prev <= ready@.width && bucket > prev {
                        lemma_own_column(prev, ready@.width, bucket as int, x as int);
                    }
                }
            }
        }
    }

    /// Lays the ring out for buckets of `aggr_time_ms` (at least one millisecond). A change of
    /// layout empties the ring.
    pub fn ensure_layout(&mut self, aggr_time_ms: u64)
        requires
            old(self).wf(),
        ensures
            final(self).wf(),
            final(self)@ == old(self)@.laid_out(aggr_time_ms as int),
    {
        let aggr: u64 = if aggr_time_ms > 1 {
            aggr_time_ms
        } else {
            1
        };
        let tex_w: u32 = next_power_of_two(self.horizon_buckets);
        proof {
            lemma_layout_width(tex_w as int);
        }
        if self.aggr_time_ms == aggr && self.tex_w == tex_w {
            return ;
        }
        self.aggr_time_ms = aggr;
        self.tex_w = tex_w;
        self.last_bucket = None;
        self.bid = SideGrid::zeroed(tex_w as usize);
        self.ask = SideGrid::zeroed(tex_w as usize);
        self.mark_full_dirty();
    }

    /// Rebuilds the whole ring from the history of the book between `oldest_time` and
    /// `latest_time`, binned around `base_price`.
    pub fn rebuild_from_historical(
        &mut self,
        hist: &Vec<DepthRun>,
        oldest_time: u64,
        latest_time: u64,
        base_price: Price,
        step: PriceStep,
        steps_per_y_bin: i64,
    )
        requires
            old(self).wf(),
        ensures
            final(self).wf(),
            old(self)@.rebuilt_from(
                hist@,
                oldest_time,
                latest_time,
                base_price.units as int,
                step.units as int,
                steps_per_y_bin as int,
                final(self)@,
            ),
    {
        if self.tex_w == 0 {
            return ;
        }
        self.clear_all();
        self.steps_per_y_bin = if steps_per_y_bin > 1 {
            steps_per_y_bin
        } else {
            1
        };
        self.y_anchor = Some(base_price);
        self.last_bucket = None;

        let w: u32 = self.tex_w;
        let aggr: u64 = self.aggr_time_ms;
        let ghost win = RebuildWindow {
            width: w as int,
            aggr: aggr as int,
            oldest_time: oldest_time as int,
            latest_time: latest_time as int,
            base: base_price.units as int,
            step_units: step.units as int,
            steps: self@.steps,
        };
        proof {
            lemma_div_magnitudes(oldest_time as int, aggr as int);
            lemma_div_magnitudes(latest_time as int, aggr as int);
        }
        let oldest_bucket: i64 = u64_as_i64(oldest_time / aggr);
        let latest_bucket: i64 = u64_as_i64(latest_time / aggr);
        let oldest_aligned: u64 = (oldest_time / aggr) * aggr;
        let latest_aligned: u64 = (latest_time / aggr) * aggr;
        if latest_bucket < oldest_bucket {
            return ;
        }
        let window_end: u64 = latest_aligned.saturating_add(aggr);
        let half_h: i128 = (GRID_TEX_H / 2) as i128;
        let ghost cleared = *self;
        proof {
            assert forall|x: int| 0 <= x < w implies #[trigger] self@.bid_col(x) == win.rebuilt(
                hist@,
                0,
                true,
                x,
            ) by {
                lemma_empty_column(w as int, x);
                assert(win.rebuilt(hist@, 0, true, x) =~= side_grid::empty_column());
            }
            assert forall|x: int| 0 <= x < w implies #[trigger] self@.ask_col(x) == win.rebuilt(
                hist@,
                0,
                false,
                x,
            ) by {
                lemma_empty_column(w as int, x);
                assert(win.rebuilt(hist@, 0, false, x) =~= side_grid::empty_column());
            }
        }
        let mut i: usize = 0;
        while i < hist.len()
            invariant
                i <= hist@.len(),
                self.wf(),
                self.tex_w == w,
                w > 0,
                aggr > 0,
                half_h == GRID_TEX_H as int / 2,
                win.width == w,
                win.aggr == aggr,
                win.oldest_time == oldest_time,
                win.latest_time == latest_time,
                win.base == base_price.units,
                win.step_units == step.units,
                win.steps == self@.steps,
                oldest_bucket == win.oldest_bucket(),
                latest_bucket == win.latest_bucket(),
                oldest_aligned == win.oldest_aligned(),
                window_end == win.window_end(),
                self@ == (RingView { bid: self@.bid, ask: self@.ask, ..cleared@ }),
                forall|x: int|
                    0 <= x < w ==> #[trigger] self@.bid_col(x) == win.rebuilt(
                        hist@,
                        i as nat,
                        true,
                        x,
                    ),
                forall|x: int|
                    0 <= x < w ==> #[trigger] self@.ask_col(x) == win.rebuilt(
                        hist@,
                        i as nat,
                        false,
                        x,
                    ),
            decreases hist@.len() - i,
        {
            let run: DepthRun = hist[i];
            let ghost prev = *self;
            let y: i128 = half_h + self.price_delta_y_bins(run.price, base_price, step.units);
            let start: u64 = if run.start_time > oldest_aligned {
                run.start_time
            } else {
                oldest_aligned
            };
            let end: u64 = if run.until_time < window_end {
                run.until_time
            } else {
                window_end
            };
            if 0 <= y && y < GRID_TEX_H as i128 && start < end && run.qty != 0 {
                let first: i64 = u64_as_i64(start / aggr);
                let last: i64 = u64_as_i64((end - 1) / aggr);
                let b0: i64 = if first > oldest_bucket {
                    first
                } else {
                    oldest_bucket
                };
                let b1: i64 = if last < latest_bucket {
                    last
                } else {
                    latest_bucket
                };
                if b0 <= b1 {
                    self.raise_buckets(run.is_bid, b0, b1, y as usize, run.qty);
                }
            }
            proof {
                assert forall|x: int| 0 <= x < w implies #[trigger] self@.bid_col(x)
                    == win.rebuilt(hist@, (i + 1) as nat, true, x) by {
                    assert(prev@.bid_col(x) == win.rebuilt(hist@, i as nat, true, x));
                    assert(self@.bid_col(x) =~= win.rebuilt(hist@, (i + 1) as nat, true, x));
                }
                assert forall|x: int| 0 <= x < w implies #[trigger] self@.ask_col(x)
                    == win.rebuilt(hist@, (i + 1) as nat, false, x) by {
                    assert(prev@.ask_col(x) == win.rebuilt(hist@, i as nat, false, x));
                    assert(self@.ask_col(x) =~= win.rebuilt(hist@, (i + 1) as nat, false, x));
                }
            }
            i += 1;
        }
        let ghost built = *self;
        self.last_bucket = Some(latest_bucket);
        self.mark_full_dirty();
        proof {
            assert forall|x: int| 0 <= x < w implies #[trigger] self@.bid_col(x) == win.rebuilt(
                hist@,
                hist@.len(),
                true,
                x,
            ) by {
                assert(self@.bid_col(x) == built@.bid_col(x));
            }
            assert forall|x: int| 0 <= x < w implies #[trigger] self@.ask_col(x) == win.rebuilt(
                hist@,
                hist@.len(),
                false,
                x,
            ) by {
                assert(self@.ask_col(x) == built@.ask_col(x));
            }
        }
    }

    /// Raises row `y` to at least `qty` in the columns of the buckets `b0..=b1`.
    fn raise_buckets(&mut self, is_bid: bool, b0: i64, b1: i64, y: usize, qty: u32)
        requires
            old(self).wf(),
            old(self)@.width > 0,
            b0 <= b1,
            y < GRID_TEX_H,
        ensures
            final(self).wf(),
            final(self).tex_w == old(self).tex_w,
            final(self)@ == (RingView {
                bid: final(self)@.bid,
                ask: final(self)@.ask,
                ..old(self)@
            }),
            forall|x: int|
                0 <= x < old(self)@.width ==> #[trigger] final(self)@.bid_col(x) == if is_bid
                    && covers(b0 as int, b1 as int, old(self)@.width, x) {
                    raised(old(self)@.bid_col(x), y as int, qty)
                } else {
                    old(self)@.bid_col(x)
                },
            forall|x: int|
                0 <= x < old(self)@.width ==> #[trigger] final(self)@.ask_col(x) == if !is_bid
                    && covers(b0 as int, b1 as int, old(self)@.width, x) {
                    raised(old(self)@.ask_col(x), y as int, qty)
                } else {
                    old(self)@.ask_col(x)
                },
    {
        let ghost before = *self;
        let w: u32 = self.tex_w;
        let mut b: i64 = b0;
        loop
            invariant_except_break
                b0 <= b <= b1,
                forall|x: int|
                    0 <= x < w ==> #[trigger] self@.bid_col(x) == if is_bid && covers(
                        b0 as int,
                        b - 1,
                        w as int,
                        x,
                    ) {
                        raised(before@.bid_col(x), y as int, qty)
                    } else {
                        before@.bid_col(x)
                    },
                forall|x: int|
                    0 <= x < w ==> #[trigger] self@.ask_col(x) == if !is_bid && covers(
                        b0 as int,
                        b - 1,
                        w as int,
                        x,
                    ) {
                        raised(before@.ask_col(x), y as int, qty)
                    } else {
                        before@.ask_col(x)
                    },
            invariant
                before.wf(),
                self.wf(),
                w == before.tex_w,
                self.tex_w == w,
                w > 0,
                y < GRID_TEX_H,
                self@ == (RingView { bid: self@.bid, ask: self@.ask, ..before@ }),
            ensures
                forall|x: int|
                    0 <= x < w ==> #[trigger] self@.bid_col(x) == if is_bid && covers(
                        b0 as int,
                        b1 as int,
                        w as int,
                        x,
                    ) {
                        raised(before@.bid_col(x), y as int, qty)
                    } else {
                        before@.bid_col(x)
                    },
                forall|x: int|
                    0 <= x < w ==> #[trigger] self@.ask_col(x) == if !is_bid && covers(
                        b0 as int,
                        b1 as int,
                        w as int,
                        x,
                    ) {
                        raised(before@.ask_col(x), y as int, qty)
                    } else {
                        before@.ask_col(x)
                    },
            decreases b1 - b,
        {
            let x: u32 = rem_floor(b, w);
            let ghost prev = *self;
            if is_bid {
                self.bid.raise(w as usize, x as usize, y, qty);
            } else {
                self.ask.raise(w as usize, x as usize, y, qty);
            }
            proof {
                assert(self@.dirty == prev@.dirty);
                assert forall|c: int| 0 <= c < w implies covers(b0 as int, b as int, w as int, c)
                    == (#[trigger] covers(b0 as int, b - 1, w as int, c) || c == x) by {
                    lemma_covers_step(b0 as int, b as int, w as int, c);
                }
                assert forall|c: int| 0 <= c < w implies #[trigger] self@.bid_col(c) == if is_bid
                    && covers(b0 as int, b as int, w as int, c) {
                    raised(before@.bid_col(c), y as int, qty)
                } else {
                    before@.bid_col(c)
                } by {
                    assert(covers(b0 as int, b as int, w as int, c) == (covers(
                        b0 as int,
                        b - 1,
                        w as int,
                        c,
                    ) || c == x));
                    assert(self@.bid_col(c) == self.bid.col(w as int, c));
                    assert(prev@.bid_col(c) == prev.bid.col(w as int, c));
                    assert(self@.bid_col(c) =~= if is_bid && covers(
                        b0 as int,
                        b as int,
                        w as int,
                        c,
                    ) {
                        raised(before@.bid_col(c), y as int, qty)
                    } else {
                        before@.bid_col(c)
                    });
                }
                assert forall|c: int| 0 <= c < w implies #[trigger] self@.ask_col(c) == if !is_bid
                    && covers(b0 as int, b as int, w as int, c) {
                    raised(before@.ask_col(c), y as int, qty)
                } else {
                    before@.ask_col(c)
                } by {
                    assert(covers(b0 as int, b as int, w as int, c) == (covers(
                        b0 as int,
                        b - 1,
                        w as int,
                        c,
                    ) || c == x));
                    assert(self@.ask_col(c) == self.ask.col(w as int, c));
                    assert(prev@.ask_col(c) == prev.ask.col(w as int, c));
                    assert(self@.ask_col(c) =~= if !is_bid && covers(
                        b0 as int,
                        b as int,
                        w as int,
                        c,
                    ) {
                        raised(before@.ask_col(c), y as int, qty)
                    } else {
                        before@.ask_col(c)
                    });
                }
            }
            if b == b1 {
                break ;
            }
            b += 1;
        }
    }

    pub fn bids_len(&self) -> (n: usize)
        ensures
            n == self@.bid.len(),
    {
        self.bid.cells.len()
    }

    pub fn asks_len(&self) -> (n: usize)
        ensures
            n == self@.ask.len(),
    {
        self.ask.cells.len()
    }

    /// The bid cell at the row-major position `idx`.
    pub fn get_bid(&self, idx: usize) -> (r: Option<u32>)
        ensures
            r == (if idx < self@.bid.len() {
                Some(self@.bid[idx as int])
            } else {
                None
            }),
    {
        if idx < self.bid.cells.len() {
            Some(self.bid.cells[idx])
        } else {
            None
        }
    }

    /// The ask cell at the row-major position `idx`.
    pub fn get_ask(&self, idx: usize) -> (r: Option<u32>)
        ensures
            r == (if idx < self@.ask.len() {
                Some(self@.ask[idx as int])
            } else {
                None
            }),
    {
        if idx < self.ask.cells.len() {
            Some(self.ask.cells[idx])
        } else {
            None
        }
    }

    /// Both cells at `idx`; `None` if `idx` is beyond the end of either buffer.
    pub fn get_pair(&self, idx: usize) -> (r: Option<(u32, u32)>)
        ensures
            r == (if idx < self@.bid.len() && idx < self@.ask.len() {
                Some((self@.bid[idx as int], self@.ask[idx as int]))
            } else {
                None
            }),
    {
        match (self.get_bid(idx), self.get_ask(idx)) {
            (Some(b), Some(a)) => Some((b, a)),
            _ => None,
        }
    }

    pub fn tex_w(&self) -> (w: u32)
        ensures
            w == self@.width,
    {
        self.tex_w
    }

    pub fn tex_h(&self) -> (h: u32)
        requires
            self.wf(),
        ensures
            h == GRID_TEX_H,
    {
        self.tex_h
    }

    /// The price at half height, if the ring has one.
    pub fn y_anchor_price(&self) -> (p: Option<Price>)
        ensures
            (match p {
                Some(p) => Some(p.units as int),
                None => None,
            }) == self@.anchor,
    {
        self.y_anchor
    }

    pub fn steps_per_y_bin(&self) -> (r: i64)
        requires
            self.wf(),
        ensures
            r == self@.steps,
            r >= 1,
    {
        self.steps_per_y_bin
    }

    /// Makes the next upload a full one, as after the renderer has lost its texture.
    pub fn force_full_upload(&mut self)
        requires
            old(self).wf(),
        ensures
            final(self).wf(),
            final(self)@ == (RingView { full_dirty: true, dirty: Set::empty(), ..old(self)@ }),
    {
        self.mark_full_dirty();
    }

    /// The column of `bucket`, or 0 if the ring is not laid out yet.
    pub fn ring_x_for_bucket(&self, bucket: i64) -> (x: u32)
        ensures
            x == (if self@.width == 0 {
                0
            } else {
                ring_x(bucket as int, self@.width)
            }),
    {
        if self.tex_w == 0 {
            return 0;
        }
        rem_floor(bucket, self.tex_w)
    }

    /// The y-bin at which the texture starts, counted from `base_price`.
    pub fn heatmap_y_start_bin(&self, base_price: Price, step: PriceStep) -> (r: i128)
        requires
            self.wf(),
        ensures
            r == (match self@.anchor {
                None => -(GRID_TEX_H as int / 2),
                Some(anchor) => -(GRID_TEX_H as int / 2) - delta_bins(
                    base_price.units as int,
                    anchor,
                    step.units as int,
                    self@.steps,
                ),
            }),
    {
        let half_h: i128 = (GRID_TEX_H / 2) as i128;
        match self.y_anchor {
            None => -half_h,
            Some(anchor) => -half_h - self.price_delta_y_bins(base_price, anchor, step.units),
        }
    }

    /// Whether `target` has drifted more than a quarter of the height from the anchor. A ring
    /// without an anchor always wants one.
    pub fn should_recenter(&self, target: Price, step: PriceStep) -> (r: bool)
        requires
            self.wf(),
        ensures
            r == wants_recenter(self@, target.units as int, step.units as int),
    {
        match self.y_anchor {
            None => true,
            Some(anchor) => {
                let delta: i128 = self.price_delta_y_bins(target, anchor, step.units);
                let margin: i128 = (GRID_TEX_H / 4) as i128;
                delta > margin || -delta > margin
            },
        }
    }

    /// Whether the ring has to be rebuilt from history.
    pub fn should_full_rebuild(
        &self,
        prev_steps_per_y_bin: i64,
        new_steps_per_y_bin: i64,
        recenter_target: Price,
        step: PriceStep,
        force_full_rebuild: bool,
    ) -> (r: bool)
        requires
            self.wf(),
        ensures
            r == (math::max_int(prev_steps_per_y_bin as int, 1) != math::max_int(
                new_steps_per_y_bin as int,
                1,
            ) || force_full_rebuild || wants_recenter(
                self@,
                recenter_target.units as int,
                step.units as int,
            )),
    {
        let prev: i64 = if prev_steps_per_y_bin > 1 {
            prev_steps_per_y_bin
        } else {
            1
        };
        let next: i64 = if new_steps_per_y_bin > 1 {
            new_steps_per_y_bin
        } else {
            1
        };
        prev != next || force_full_rebuild || self.should_recenter(recenter_target, step)
    }

    /// The stretch of time that fills the ring's horizon up to `latest_time_ms`.
    pub fn horizon_time_window_ms(&self, latest_time_ms: u64, aggr_time_ms: u64) -> (r: (u64, u64))
        requires
            self.wf(),
        ensures
            r.1 == latest_time_ms,
            r.0 == math::max_int(
                latest_time_ms - GRID_HORIZON_BUCKETS * math::max_int(aggr_time_ms as int, 1),
                0,
            ),
    {
        let aggr: u64 = if aggr_time_ms > 1 {
            aggr_time_ms
        } else {
            1
        };
        let horizon: u64 = self.horizon_buckets as u64;
        let span: Option<u64> = horizon.checked_mul(aggr);
        let oldest: u64 = match span {
            Some(span) => latest_time_ms.saturating_sub(span),
            None => 0,
        };
        (oldest, latest_time_ms)
    }

    /// The highest and lowest price that fit the texture's height around `anchor`.
    pub fn rebuild_price_bounds(
        &self,
        anchor: Price,
        step: PriceStep,
        steps_per_y_bin: i64,
    ) -> (r: (Price, Price))
        requires
            self.wf(),
        ensures
            ({
                let half_steps = math::min_int(
                    (GRID_TEX_H as int / 2) * math::max_int(steps_per_y_bin as int, 1),
                    i64::MAX as int,
                );
                let delta = math::min_int(
                    half_steps * math::max_int(step.units as int, 1),
                    i64::MAX as int,
                );
                &&& r.0.units == math::min_int(anchor.units + delta, i64::MAX as int)
                &&& r.1.units == math::max_int(anchor.units - delta, i64::MIN as int)
            }),
    {
        let steps: i128 = if steps_per_y_bin > 1 {
            steps_per_y_bin as i128
        } else {
            1
        };
        let step_units: i128 = if step.units > 1 {
            step.units as i128
        } else {
            1
        };
        let top: i128 = i64::MAX as i128;
        let bottom: i128 = i64::MIN as i128;
        let wide: i128 = (GRID_TEX_H / 2) as i128 * steps;
        let half_steps: i128 = if wide < top {
            wide
        } else {
            top
        };
        proof {
            assert(0 <= half_steps * step_units <= 0x7fff_ffff_ffff_ffff * 0x7fff_ffff_ffff_ffff)
                by (nonlinear_arith)
                requires
                    0 <= half_steps <= 0x7fff_ffff_ffff_ffff,
                    0 <= step_units <= 0x7fff_ffff_ffff_ffff,
            ;
        }
        let span: i128 = half_steps * step_units;
        let delta: i128 = if span < top {
            span
        } else {
            top
        };
        let high: i128 = anchor.units as i128 + delta;
        let low: i128 = anchor.units as i128 - delta;
        let highest: i64 = if high < top {
            high as i64
        } else {
            i64::MAX
        };
        let lowest: i64 = if low > bottom {
            low as i64
        } else {
            i64::MIN
        };
        (Price::from_units(highest), Price::from_units(lowest))
    }

    /// The columns that changed since the last call, in ascending order and each once.
    fn drain_dirty_columns(&mut self) -> (out: Vec<u32>)
        requires
            old(self).wf(),
            !old(self)@.full_dirty,
        ensures
            final(self).wf(),
            final(self)@ == (RingView { dirty: Set::empty(), ..old(self)@ }),
            forall|i: int, j: int| 0 <= i < j < out@.len() ==> out@[i] < out@[j],
            forall|i: int| 0 <= i < out@.len() ==> out@[i] < old(self)@.width,
            forall|x: int|
                old(self)@.dirty.contains(x) <==> exists|i: int|
                    0 <= i < out@.len() && #[trigger] out@[i] == x,
    {
        let ghost before = *self;
        let w: usize = self.tex_w as usize;
        let mut marks: Vec<bool> = vec![false; w];
        let mut i: usize = 0;
        while i < self.dirty_cols.len()
            invariant
                i <= self.dirty_cols@.len(),
                *self == before,
                self.wf(),
                marks@.len() == w,
                w == self.tex_w,
                forall|x: int|
                    0 <= x < w ==> (#[trigger] marks@[x] <==> exists|k: int|
                        0 <= k < i && #[trigger] self.dirty_cols@[k] == x),
            decreases self.dirty_cols@.len() - i,
        {
            let x: usize = self.dirty_cols[i] as usize;
            let ghost prev = marks@;
            marks.set(x, true);
            proof {
                assert forall|c: int| 0 <= c < w implies (#[trigger] marks@[c] <==> exists|k: int|
                    0 <= k < i + 1 && #[trigger] self.dirty_cols@[k] == c) by {
                    if c == x {
                        assert(self.dirty_cols@[i as int] == c);
                    } else if prev[c] {
                        let k = choose|k: int| 0 <= k < i && #[trigger] self.dirty_cols@[k] == c;
                        assert(self.dirty_cols@[k] == c);
                    }
                }
            }
            i += 1;
        }
        let mut out: Vec<u32> = Vec::new();
        let mut x: usize = 0;
        while x < w
            invariant
                x <= w,
                w == before.tex_w,
                marks@.len() == w,
                forall|i: int, j: int| 0 <= i < j < out@.len() ==> out@[i] < out@[j],
                forall|i: int| 0 <= i < out@.len() ==> out@[i] < x,
                forall|c: int|
                    0 <= c < x ==> (#[trigger] marks@[c] <==> exists|i: int|
                        0 <= i < out@.len() && #[trigger] out@[i] == c),
            decreases w - x,
        {
            let ghost prev = out@;
            if marks[x] {
                out.push(x as u32);
            }
            proof {
                assert forall|c: int| 0 <= c < x + 1 implies (#[trigger] marks@[c] <==> exists|i: int|
                    0 <= i < out@.len() && #[trigger] out@[i] == c) by {
                    if c == x {
                        if marks@[c] {
                            assert(out@[out@.len() - 1] == c);
                        }
                    } else {
                        if marks@[c] {
                            let i = choose|i: int| 0 <= i < prev.len() && #[trigger] prev[i] == c;
                            assert(out@[i] == c);
                        }
                        if exists|i: int| 0 <= i < out@.len() && #[trigger] out@[i] == c {
                            let i = choose|i: int| 0 <= i < out@.len() && #[trigger] out@[i] == c;
                            assert(i < prev.len());
                            assert(prev[i] == c);
                        }
                    }
                }
            }
            x += 1;
        }
        self.dirty_cols.clear();
        proof {
            assert(self@.dirty =~= Set::<int>::empty());
            assert forall|c: int|
                before@.dirty.contains(c) <==> exists|i: int|
                    0 <= i < out@.len() && #[trigger] out@[i] == c by {
                if before@.dirty.contains(c) {
                    let k = choose|k: int| 0 <= k < before.dirty_cols@.len() && #[trigger]
                        before.dirty_cols@[k] == c;
                    assert(before.dirty_cols@[k] < w);
                    assert(marks@[c]);
                }
                if exists|i: int| 0 <= i < out@.len() && #[trigger] out@[i] == c {
                    let i = choose|i: int| 0 <= i < out@.len() && #[trigger] out@[i] == c;
                    assert(marks@[c]);
                }
            }
        }
        out
    }

    /// What the renderer has to copy since the last upload, all of it if `force_full`.
    pub fn upload_to_scene(&mut self, force_full: bool) -> (up: Option<HeatmapUpload>)
        requires
            old(self).wf(),
        ensures
            final(self).wf(),
            old(self)@.width == 0 ==> final(self)@ == old(self)@,
            old(self)@.width != 0 ==> final(self)@ == (RingView {
                full_dirty: false,
                dirty: Set::empty(),
                ..old(self)@
            }),
            is_upload(old(self)@, force_full, up),
    {
        let ghost before = *self;
        if self.tex_w == 0 {
            return None;
        }
        if force_full || self.full_dirty {
            self.full_dirty = false;
            self.dirty_cols.clear();
            proof {
                assert(self@.dirty =~= Set::<int>::empty());
            }
            let bid: Vec<u32> = self.bid.cells.clone();
            let ask: Vec<u32> = self.ask.cells.clone();
            proof {
                assert(bid@ =~= before@.bid);
                assert(ask@ =~= before@.ask);
            }
            return Some(
                HeatmapUpload::Full {
                    width: self.tex_w,
                    height: self.tex_h,
                    bid: Arc::new(bid),
                    ask: Arc::new(ask),
                },
            );
        }
        let xs: Vec<u32> = self.drain_dirty_columns();
        if xs.len() == 0 {
            proof {
                assert forall|c: int| !before@.dirty.contains(c) by {
                    if before@.dirty.contains(c) {
                        let i = choose|i: int| 0 <= i < xs@.len() && #[trigger] xs@[i] == c;
                        assert(false);
                    }
                }
                assert(before@.dirty =~= Set::<int>::empty());
            }
            return None;
        }
        let w: usize = self.tex_w as usize;
        let mut cols: Vec<HeatmapColumnCpu> = Vec::with_capacity(xs.len());
        let mut i: usize = 0;
        while i < xs.len()
            invariant
                i <= xs@.len(),
                self.wf(),
                w == self.tex_w,
                self@ == (RingView { dirty: Set::empty(), ..before@ }),
                forall|k: int| 0 <= k < xs@.len() ==> xs@[k] < w,
                cols@.len() == i,
                forall|k: int|
                    #![trigger cols@[k]]
                    0 <= k < i ==> cols@[k].x == xs@[k] && cols@[k].bid_col@ == before@.bid_col(
                        xs@[k] as int,
                    ) && cols@[k].ask_col@ == before@.ask_col(xs@[k] as int),
            decreases xs@.len() - i,
        {
            let x: u32 = xs[i];
            let bid_col: Vec<u32> = self.bid.extract_column(w, x as usize);
            let ask_col: Vec<u32> = self.ask.extract_column(w, x as usize);
            proof {
                assert(bid_col@ == before@.bid_col(x as int));
                assert(ask_col@ == before@.ask_col(x as int));
            }
            cols.push(
                HeatmapColumnCpu { x, bid_col: Arc::new(bid_col), ask_col: Arc::new(ask_col) },
            );
            i += 1;
        }
        proof {
            assert(xs@[0] == cols@[0].x);
            assert(before@.dirty.contains(xs@[0] as int)) by {
                assert(exists|k: int| 0 <= k < xs@.len() && #[trigger] xs@[k] == xs@[0]);
            }
            assert forall|x: int|
                before@.dirty.contains(x) <==> exists|k: int|
                    0 <= k < cols@.len() && #[trigger] cols@[k].x == x by {
                if before@.dirty.contains(x) {
                    let k = choose|k: int| 0 <= k < xs@.len() && #[trigger] xs@[k] == x;
                    assert(cols@[k].x == x);
                }
                if exists|k: int| 0 <= k < cols@.len() && #[trigger] cols@[k].x == x {
                    let k = choose|k: int| 0 <= k < cols@.len() && #[trigger] cols@[k].x == x;
                    assert(xs@[k] == x);
                }
            }
            assert forall|a: int, b: int| 0 <= a < b < cols@.len() implies cols@[a].x
                < cols@[b].x by {
                assert(xs@[a] < xs@[b]);
            }
            assert(before@.dirty != Set::<int>::empty()) by {
                assert(before@.dirty.contains(xs@[0] as int));
            }
            assert(are_dirty_columns(before@, cols@));
        }
        Some(
            HeatmapUpload::Cols { width: self.tex_w, height: self.tex_h, cols: Arc::new(cols) },
        )
    }
}

impl Default for GridRing {
    fn default() -> (ring: GridRing)
        ensures
            ring.wf(),
            ring@ == RingView::fresh(),
    {
        GridRing::new()
    }
}

} // verus!
