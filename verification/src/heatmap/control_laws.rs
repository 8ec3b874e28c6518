//! What holds of how the heatmap is controlled, said of the cells, prices and inputs themselves:
//! the cached maxima are those of the cells, a rebuild reads every price that it can show, and a
//! picture that is paused stays within the data.
use super::controller;
use super::controller::{HeatmapShader, Message, VisualConfig};
use super::depth_grid;
use super::depth_grid::{DepthRun, HeatmapUpload, RingView};
use super::layout;
use super::layout::Attribute;
use super::scene;
use super::scene::Scene;
use super::side_grid;
use super::side_grid::{SideGrid, GRID_TEX_H};
use super::view::{Anchor, RebuildPolicy};
use crate::math;
use crate::units::{Price, PriceStep};
use vstd::prelude::*;

verus! {

/// No cell of a column is above the maximum that is kept for it, and the maximum is that of a
/// cell.
pub proof fn column_maxima_are_those_of_the_cells(g: SideGrid, w: int, x: int, y: int) -> (top: int)
    requires
        g.wf(w),
        0 <= x < w,
        0 <= y < GRID_TEX_H,
    ensures
        g.cells@[y * w + x] <= g.col_max@[x],
        0 <= top < GRID_TEX_H,
        g.cells@[top * w + x] == g.col_max@[x],
{
    assert(g.column_stats(w, x));
    let col = g.col(w, x);
    math::lemma_max_bounds(col);
    assert(col[y] == g.cells@[side_grid::at(w, x, y)]);
    let top = lemma_max_is_found(col);
    assert(col[top] == g.cells@[side_grid::at(w, x, top)]);
    top
}

proof fn lemma_max_is_found(s: Seq<u32>) -> (i: int)
    requires
        s.len() > 0,
    ensures
        0 <= i < s.len(),
        s[i] == math::seq_max(s),
    decreases s.len(),
{
    let rest = s.drop_last();
    assert(rest.len() == 0 ==> math::seq_max(rest) == 0);
    if rest.len() == 0 || s.last() > math::seq_max(rest) {
        s.len() - 1
    } else {
        lemma_max_is_found(rest)
    }
}

/// No cell of sixteen rows of a column is above the maximum that is kept for them, and the maximum
/// is that of a cell among them.
pub proof fn block_maxima_are_those_of_the_cells(g: SideGrid, w: int, x: int, y: int) -> (top: int)
    requires
        g.wf(w),
        0 <= x < w,
        0 <= y < GRID_TEX_H,
    ensures
        g.cells@[y * w + x] <= g.block_max@[y / 16 * w + x],
        y / 16 == top / 16,
        0 <= top < GRID_TEX_H,
        g.cells@[top * w + x] == g.block_max@[y / 16 * w + x],
{
    assert(g.column_stats(w, x));
    let col = g.col(w, x);
    let by = y / 16;
    assert(g.block_max@[side_grid::at(w, x, by)] == math::seq_max(side_grid::block(col, by)));
    let b = side_grid::block(col, by);
    math::lemma_max_bounds(b);
    assert(b[y - by * 16] == col[y]);
    assert(col[y] == g.cells@[side_grid::at(w, x, y)]);
    let i = lemma_max_is_found(b);
    let top = by * 16 + i;
    assert(b[i] == col[top]);
    assert(col[top] == g.cells@[side_grid::at(w, x, top)]);
    top
}

/// Cells are empty where nothing is present, and as they were elsewhere; what a column holds is
/// what is present in it.
pub proof fn masks_take_only_what_is_absent(col: Seq<u32>, present: Seq<bool>, y: int)
    requires
        present.len() == col.len(),
        0 <= y < col.len(),
    ensures
        side_grid::masked(col, present).len() == col.len(),
        present[y] ==> side_grid::masked(col, present)[y] == col[y],
        !present[y] ==> side_grid::masked(col, present)[y] == 0,
        side_grid::presence(col)[y] <==> col[y] != 0,
        side_grid::masked(col, side_grid::presence(col)) == col,
{
    assert(side_grid::masked(col, side_grid::presence(col)) =~= col);
}

/// A rebuild reads every price that the texture shows above its lowest row, where half the height
/// of the texture can be written down.
pub proof fn rebuilds_read_what_they_show(
    price: i64,
    target: Price,
    step: PriceStep,
    steps: int,
    highest: Price,
    lowest: Price,
)
    requires
        controller::price_bounds_are(target, step, steps, highest, lowest),
        step.units > 0,
        steps > 0,
        1024 * (step.units * steps) <= i64::MAX,
        0 < depth_grid::price_row(
            price as int,
            target.units as int,
            step.units as int,
            steps,
        ) < GRID_TEX_H,
    ensures
        lowest.units <= price <= highest.units,
{
    super::depth_laws::rows_are_bins_around_the_anchor(
        price as int,
        target.units as int,
        step.units as int,
        steps,
    );
    let r = depth_grid::price_row(price as int, target.units as int, step.units as int, steps)
        - GRID_TEX_H as int / 2;
    let bin = step.units * steps;
    let half = 1024 * steps;
    assert(bin > 0) by (nonlinear_arith)
        requires
            bin == step.units * steps,
            step.units > 0,
            steps > 0,
    ;
    assert(half * step.units == 1024 * bin && half <= half * step.units) by (nonlinear_arith)
        requires
            bin == step.units * steps,
            half == 1024 * steps,
            half > 0,
            step.units > 0,
    ;
    let above = (r + 1) * bin;
    let below = (r - 1) * bin;
    let reach = 1024 * bin;
    assert(above <= reach && below + reach >= 0) by (nonlinear_arith)
        requires
            -1024 < r < 1024,
            bin > 0,
            above == (r + 1) * bin,
            below == (r - 1) * bin,
            reach == 1024 * bin,
    ;
    assert(math::min_int((GRID_TEX_H as int / 2) * steps, i64::MAX as int) == half);
    assert(math::max_int(step.units as int, 1) == step.units);
    let delta = half * step.units;
    assert(delta == reach);
    assert(reach <= i64::MAX);
    assert(highest.units == math::min_int(target.units + delta, i64::MAX as int));
    assert(lowest.units == math::max_int(target.units - delta, i64::MIN as int));
    if price >= target.units {
        assert(price < target.units + above);
        assert(price <= target.units + delta);
    } else {
        assert(target.units + below + step.units <= price);
        assert(-reach <= below);
        assert(target.units - delta <= price);
    }
}

/// A picture that is paused stays within the data; one that is live is not held back.
pub proof fn paused_pictures_stay_within_the_data(anchor: Anchor, latest: u64)
    ensures
        controller::drawn_time(anchor, latest) <= anchor.spec_time(),
        anchor is Live ==> controller::drawn_time(anchor, latest) == anchor.spec_time(),
        anchor is Paused && latest > 0 ==> controller::drawn_time(anchor, latest) <= latest,
        anchor.spec_time() <= latest ==> controller::drawn_time(anchor, latest)
            == anchor.spec_time(),
{
}

/// A price axis follows the market only while the picture is live.
pub proof fn paused_axes_do_not_move(anchor: Anchor, a: Option<Price>, b: Option<Price>)
    ensures
        anchor is Paused ==> controller::drawn_base(anchor, a) == controller::drawn_base(anchor, b),
        anchor is Live ==> controller::drawn_base(anchor, a) == a,
{
}

/// What moves the camera moves it in time or changes the rows, and the two zooms along the price
/// axis alone never bring the live edge back.
pub proof fn cameras_move_in_time_or_in_price(m: Message)
    ensures
        m.moves_camera() <==> m.moves_in_time() || m.changes_rows(),
        m.moves_in_time() && m.changes_rows() <==> m == Message::ZoomAt,
        m.changes_rows() && !m.moves_in_time() <==> m == Message::ScrolledAxisY || m
            == Message::AxisYDoubleClicked,
        !m.moves_camera() <==> m == Message::BoundsChanged || m == Message::CursorMoved,
{
}

/// A wish for a rebuild from history is used up once, and changes nothing else of when the next
/// rebuild comes.
pub proof fn wishes_are_used_up(p: RebuildPolicy)
    ensures
        !controller::unforced(p).forces(),
        !p.forces() ==> controller::unforced(p) == p,
        controller::unforced(p) is Idle <==> p is Idle,
        p is Debounced ==> controller::unforced(p)->last_input == p->last_input,
        controller::forced_policy().forces(),
{
}

/// A heatmap without a frame for three quarters of a second has stalled, and none has before its
/// first frame.
pub proof fn frames_come_within_three_quarters_of_a_second(h: HeatmapShader, now: u64)
    ensures
        h.last_tick is None ==> !h.stalled(now),
        h.last_tick is Some && now >= h.last_tick->0 ==> (h.stalled(now) <==> now - h.last_tick->0
            >= 750_000_000),
        h.last_tick is Some && now < h.last_tick->0 ==> !h.stalled(now),
{
}

/// The rows stay where they are while the user interacts, and otherwise follow the center of the
/// screen.
pub proof fn rows_stay_while_the_user_interacts(h: HeatmapShader, base: Price, a: Price, b: Price)
    ensures
        h.rebuild_policy is Debounced ==> h.recenter_target(base, a) == h.recenter_target(base, b),
        h.rebuild_policy is Debounced && h.depth_grid@.anchor is Some ==> h.recenter_target(base, a)
            == h.depth_grid@.anchor->0,
        h.rebuild_policy is Debounced && h.depth_grid@.anchor is None ==> h.recenter_target(base, a)
            == base.units,
        h.rebuild_policy !is Debounced ==> h.recenter_target(base, a) == a.units,
{
}

/// A ring that is laid out for other buckets is empty, has seen nothing and is uploaded whole; one
/// that is laid out for the same ones stays as it is.
pub proof fn other_buckets_empty_the_ring(ring: RingView, aggr: int, i: int)
    requires
        aggr > 0,
    ensures
        ring.laid_out(ring.aggr) == ring || ring.aggr < 1,
        ring.laid_out(aggr).aggr == aggr,
        aggr != ring.aggr ==> {
            let after = ring.laid_out(aggr);
            &&& after.full_dirty
            &&& after.last_bucket is None
            &&& after.bid.len() == after.width * GRID_TEX_H == after.ask.len()
            &&& 0 <= i < after.bid.len() ==> after.bid[i] == 0 && after.ask[i] == 0
            &&& after.anchor == ring.anchor && after.steps == ring.steps
        },
{
}

/// Settings are the same just if their filters are the same numbers and their scales are equal; so
/// settings are not the same where a filter is no number.
pub proof fn settings_are_compared_as_numbers(a: VisualConfig, b: VisualConfig)
    ensures
        a.same_as(b) ==> b.same_as(a) && a.trade_size_scale == b.trade_size_scale,
        a.trade_size_filter.is_nan() || a.order_size_filter.is_nan() ==> !a.same_as(a),
        !a.trade_size_filter.is_nan() && !a.order_size_filter.is_nan() ==> a.same_as(a),
        !a.same_as(b) && a.trade_size_scale == b.trade_size_scale ==> a.trade_size_filter
            != b.trade_size_filter || a.order_size_filter != b.order_size_filter
            || a.trade_size_filter.is_nan() || a.order_size_filter.is_nan(),
        a.same_as(b) ==> a.trade_size_filter.bits == b.trade_size_filter.bits
            || a.trade_size_filter.magnitude() == 0 && b.trade_size_filter.magnitude() == 0,
        a.same_as(b) ==> a.order_size_filter.bits == b.order_size_filter.bits
            || a.order_size_filter.magnitude() == 0 && b.order_size_filter.magnitude() == 0,
{
}

/// The attributes of a layout start on words, end within the instance, and go to the places of the
/// shader from one on, each to its own.
pub proof fn attributes_start_on_words(attributes: Seq<Attribute>, stride: int, i: int, j: int)
    requires
        layout::is_layout(attributes, stride),
        0 <= i < attributes.len(),
        0 <= j < attributes.len(),
    ensures
        attributes[i].offset % 4 == 0,
        attributes[i].offset + 4 <= stride,
        attributes[i].location - attributes[j].location == i - j,
        attributes[0].location == 1,
        stride % 4 == 0,
{
}

/// What had changed of a ring waits for the renderer under a generation of its own, one after the
/// generation before it; the ring itself then waits for nothing.
pub proof fn changes_wait_under_their_own_generation(
    ring: RingView,
    force_full: bool,
    before: Scene,
    ring_after: RingView,
    after: Scene,
)
    requires
        scene::is_handed_over(ring, force_full, before, ring_after, after),
        ring.width > 0,
    ensures
        !ring_after.full_dirty && ring_after.dirty == Set::<int>::empty(),
        ring_after.bid == ring.bid && ring_after.ask == ring.ask,
        force_full || ring.full_dirty || ring.dirty != Set::<int>::empty() ==> {
            &&& after.heatmap_upload is Some
            &&& (after.heatmap_upload->0).0 == after.heatmap_tex_gen
            &&& before.heatmap_tex_gen < u64::MAX ==> after.heatmap_tex_gen
                == before.heatmap_tex_gen + 1
            &&& after.heatmap_tex_gen != before.heatmap_tex_gen
            &&& force_full || ring.full_dirty ==> (after.heatmap_upload->0).1 is Full
        },
        !force_full && !ring.full_dirty && ring.dirty == Set::<int>::empty() ==> after == before,
{
}

/// A ring that was rebuilt from history is uploaded whole, keeps its size, and has its anchor where
/// it was asked to be.
pub proof fn rebuilt_rings_are_uploaded_whole(
    ring: RingView,
    hist: Seq<DepthRun>,
    oldest: u64,
    latest: u64,
    base: int,
    step: int,
    steps: int,
    after: RingView,
    up: Option<HeatmapUpload>,
)
    requires
        ring.rebuilt_from(hist, oldest, latest, base, step, steps, after),
        ring.width > 0,
        depth_grid::is_upload(after, false, up),
    ensures
        up is Some && up->0 is Full,
        after.width == ring.width,
        after.aggr == ring.aggr,
        after.anchor == Some(base),
        steps > 0 ==> after.steps == steps,
{
}

/// A ring whose bins change their height is empty and uploaded whole, and looks for a new anchor;
/// one whose bins keep it stays as it is.
pub proof fn other_bins_empty_the_ring(ring: RingView, steps: int, i: int)
    ensures
        ring.rebinned(ring.steps) == ring,
        ring.rebinned(steps).steps == steps,
        steps != ring.steps ==> {
            let after = ring.rebinned(steps);
            &&& after.full_dirty
            &&& after.last_bucket is None
            &&& after.anchor is None
            &&& after.width == ring.width && after.aggr == ring.aggr
            &&& 0 <= i < after.bid.len() ==> after.bid[i] == 0
            &&& 0 <= i < after.ask.len() ==> after.ask[i] == 0
        },
{
}

/// After a stall the texture is uploaded whole before anything is written, and without one the ring
/// stays as it is; either way no cell changes while the buckets stay the same.
pub proof fn stalls_bring_the_whole_texture(h: HeatmapShader, now: u64, aggr: u64)
    requires
        aggr > 0,
        h.depth_grid@.aggr == aggr,
    ensures
        ({
            let ready = h.ring_ready(now, aggr);
            &&& h.last_tick is Some && now - h.last_tick->0 >= 750_000_000 ==> ready.full_dirty
            &&& h.last_tick is None || now - h.last_tick->0 < 750_000_000 ==> ready == h.depth_grid@
            &&& ready.bid == h.depth_grid@.bid && ready.ask == h.depth_grid@.ask
        }),
{
}

} // verus!
