use flowsurface::heatmap::controller::{
    cleanup_before, depth_cleanup_before, HeatmapIndicator, HeatmapShader, InputOutcome, Message, ViewFacts,
    VisualConfig,
};
use flowsurface::float_bits::F32Bits;
use flowsurface::heatmap::depth_grid::{DepthRun, HeatmapUpload, ScaledLevel};
use flowsurface::heatmap::overlay::ProfileKind;
use flowsurface::heatmap::scene::{place_texture, DrawOp};
use flowsurface::heatmap::view::{FollowStateChange, RebuildPolicy};
use flowsurface::kline_chart::study::HeatmapStudy;
use flowsurface::units::{Price, PriceStep};

const MS: u64 = 1_000_000;

fn price(units: i64) -> Price {
    Price { units }
}

fn book(qty: u32) -> (Vec<ScaledLevel>, Vec<ScaledLevel>) {
    (
        vec![ScaledLevel { price: price(1000), qty }],
        vec![ScaledLevel { price: price(1010), qty }],
    )
}

fn bits(v: f32) -> F32Bits {
    F32Bits { bits: v.to_bits() }
}

fn config() -> VisualConfig {
    VisualConfig {
        trade_size_filter: bits(0.0),
        order_size_filter: bits(0.0),
        trade_size_scale: Some(100),
    }
}

fn shader() -> HeatmapShader {
    HeatmapShader::new(PriceStep { units: 10 }, 7, Vec::new(), Vec::new(), config())
}

fn feed(h: &mut HeatmapShader, t: u64, now: u64) {
    let (bids, asks) = book(5);
    h.insert_depth(&bids, &asks, Some(price(1000)), t, 100, price(1000), now);
}

#[test]
fn the_first_snapshot_sets_everything_up() {
    let mut h = shader();
    let (bids, asks) = book(5);
    let out = h.insert_depth(&bids, &asks, Some(price(1000)), 1234, 100, price(1000), 0);
    assert_eq!(h.latest_time, Some(1200));
    assert_eq!(h.base_price, Some(price(1000)));
    assert_eq!(h.data_gen, 2);
    assert_eq!(h.anchor.scroll_ref_bucket(), 12);
    assert_eq!(h.depth_grid.tex_w(), 8192);
    assert!(out.base_changed);
    assert_eq!(out.cleanup_before, None);
    assert!(matches!(h.rebuild_policy, RebuildPolicy::Immediate { .. }));
}

#[test]
fn a_paused_heatmap_keeps_its_ring() {
    let mut h = shader();
    feed(&mut h, 1000, 0);
    assert_eq!(h.tick(0, 100, false), Some(FollowStateChange::PausedFromLive));
    h.depth_grid.upload_to_scene(true);
    h.resume_rebuilt();
    feed(&mut h, 2000, MS);
    assert!(h.depth_grid.upload_to_scene(false).is_none());
    assert_eq!(h.rebuild_policy, RebuildPolicy::Idle);
    assert_eq!(h.latest_time, Some(2000));
    assert!(h.try_resume(true));
    assert!(!h.try_resume(true));
    assert_eq!(
        h.rebuild_policy,
        RebuildPolicy::Immediate { force_rebuild_from_historical: true }
    );
}

#[test]
fn a_stall_uploads_everything_again() {
    let mut h = shader();
    feed(&mut h, 1000, 0);
    h.tick(0, 100, true);
    h.depth_grid.upload_to_scene(true);
    feed(&mut h, 1100, 749 * MS);
    assert!(matches!(
        h.depth_grid.upload_to_scene(false),
        Some(HeatmapUpload::Cols { .. })
    ));
    feed(&mut h, 1200, 750 * MS);
    assert!(matches!(
        h.depth_grid.upload_to_scene(false),
        Some(HeatmapUpload::Full { .. })
    ));
}

#[test]
fn old_data_goes_now_and_then() {
    assert_eq!(cleanup_before(1_000_000, 8192, 100), 180_800);
    assert_eq!(cleanup_before(1_000, 8192, 100), 0);
    assert_eq!(depth_cleanup_before(400, Some(700)), 700);
    assert_eq!(depth_cleanup_before(400, None), 400);
    let mut h = shader();
    let mut last = None;
    for i in 0..63u64 {
        let (bids, asks) = book(5);
        let out = h.insert_depth(
            &bids,
            &asks,
            Some(price(1000)),
            1_000_000 + i * 100,
            100,
            price(1000),
            0,
        );
        last = out.cleanup_before;
    }
    assert_eq!(h.data_gen, 64);
    assert_eq!(last, Some(187_000));
}

#[test]
fn a_rebuild_reads_the_history() {
    let mut h = shader();
    assert!(h.plan_rebuild(1, price(1000), 100).is_none());
    feed(&mut h, 1_000_000, 0);
    let plan = h.plan_rebuild(2, price(1000), 100).unwrap();
    let span = plan.from_history.unwrap();
    assert_eq!((span.oldest, span.newest), (520_000, 1_000_000));
    assert_eq!(plan.latest, 1_000_000);
    assert_eq!(h.steps_per_y_bin, 2);
    let runs = vec![DepthRun {
        price: price(1000),
        is_bid: true,
        start_time: 999_900,
        until_time: 1_000_000,
        qty: 11,
    }];
    let placed = h.finish_rebuild(&plan, &runs, price(1000), price(1000), 100).unwrap();
    assert_eq!(placed.tex_w, 8192);
    assert_eq!(placed.latest_x_ring, (10_000 % 8192) as u32);
    assert!(h.scene.heatmap_upload.is_some());
    let again = h.plan_rebuild(2, price(1000), 100).unwrap();
    assert!(again.from_history.is_none());
}

#[test]
fn frames_rebuild_what_the_policy_asks() {
    let mut h = shader();
    assert!(h.begin_frame(0, price(1000), 100).is_none());
    feed(&mut h, 1_000, 0);
    h.tick(0, 100, true);
    let plan = h.begin_frame(0, price(1000), 100).unwrap();
    assert!(plan.full && !plan.overlays);
    assert_eq!(plan.origin_buckets, 0);
    h.end_frame(&plan);
    assert_eq!(h.rebuild_policy, RebuildPolicy::Idle);
    h.mark_input(10 * MS);
    let plan = h.begin_frame(20 * MS, price(1000), 100).unwrap();
    assert!(plan.overlays && !plan.full);
    h.end_frame(&plan);
    assert!(h.is_interacting());
    let plan = h.begin_frame(300 * MS, price(1000), 100).unwrap();
    assert!(plan.overlays && plan.full);
}

#[test]
fn interaction_keeps_the_rows() {
    let mut h = shader();
    feed(&mut h, 1_000, 0);
    assert!(h.y_bins_changed(3));
    assert_eq!(h.overlay_steps(3), 3);
    h.mark_input(0);
    assert!(!h.y_bins_changed(3));
    assert_eq!(h.overlay_steps(3), 1);
    assert_eq!(h.norm_generation(1_000, 100), h.data_gen);
    h.resume_rebuilt();
    assert_eq!(h.norm_generation(1_000, 100), 11);
    h.bounds_changed();
    assert!(matches!(h.rebuild_policy, RebuildPolicy::Immediate { .. }));
}

#[test]
fn an_empty_view_is_cleared() {
    let mut h = shader();
    feed(&mut h, 1_000, 0);
    h.clear_view();
    assert_eq!(h.scene.draw_list.len(), 1);
    assert_eq!(h.scene.draw_list[0].op, DrawOp::Heatmap);
    assert!(h.scene.heatmap_upload.is_none());
    assert!(h.view_times().is_some());
}

fn facts(has_viewport: bool, x0_visible: bool) -> ViewFacts {
    ViewFacts { has_viewport, can_zoom: true, x0_visible }
}

#[test]
fn input_waits_for_the_user_to_finish() {
    let mut h = shader();
    feed(&mut h, 1_000, 0);
    let out = h.update(Message::PanDeltaPx, facts(true, true));
    assert_eq!(
        out,
        InputOutcome {
            happened: true,
            resumed: false,
            rebuild_all: false,
            rebuild_overlays: true,
            check_y_bins: false,
        }
    );
    h.finish_update(Message::PanDeltaPx, out, 5);
    assert!(matches!(h.rebuild_policy, RebuildPolicy::Debounced { last_input: 5, .. }));
    let out = h.update(Message::ScrolledAxisY, facts(false, false));
    assert!(out.check_y_bins && out.rebuild_overlays && !out.rebuild_all);
    let out = h.update(Message::CursorMoved, facts(false, false));
    assert!(out.happened && !out.rebuild_overlays);
    h.finish_update(Message::CursorMoved, out, 9);
    assert!(matches!(h.rebuild_policy, RebuildPolicy::Debounced { last_input: 5, .. }));
    let out = h.update(Message::BoundsChanged, facts(true, false));
    assert!(out.rebuild_all && !out.resumed);
    assert!(matches!(h.rebuild_policy, RebuildPolicy::Immediate { .. }));
}

#[test]
fn input_at_the_live_edge_resumes() {
    let mut h = shader();
    feed(&mut h, 1_000, 0);
    h.tick(0, 100, false);
    assert!(!h.update(Message::PauseBtnClicked, facts(false, true)).happened);
    let stuck = ViewFacts { has_viewport: true, can_zoom: false, x0_visible: true };
    assert!(!h.update(Message::ZoomAt, stuck).happened);
    assert!(h.anchor.is_paused());
    assert!(!h.update(Message::ScrolledAxisX, facts(true, false)).resumed);
    assert!(!h.update(Message::AxisYDoubleClicked, facts(true, true)).resumed);
    let out = h.update(Message::PauseBtnClicked, facts(true, true));
    assert!(out.resumed && out.rebuild_all && !h.anchor.is_paused());
    h.resume_rebuilt();
    h.finish_update(Message::PauseBtnClicked, out, 7);
    assert_eq!(h.rebuild_policy, RebuildPolicy::Idle);
}

#[test]
fn filters_of_orders_rebuild_the_ring() {
    let mut h = shader();
    let a = config();
    let out = h.set_visual_config(a, 3);
    assert!(!out.changed && !out.rebuild_overlays);
    let zero = VisualConfig { order_size_filter: bits(-0.0), ..a };
    assert!(!h.set_visual_config(zero, 3).changed);
    assert_eq!(h.visual_config(), a);
    let c = VisualConfig { trade_size_scale: None, ..a };
    let out = h.set_visual_config(c, 3);
    assert!(out.changed && out.rebuild_overlays);
    assert_eq!(h.rebuild_policy, RebuildPolicy::Idle);
    let gen = h.data_gen;
    let b = VisualConfig { order_size_filter: bits(2.5), ..c };
    assert!(h.set_visual_config(b, 3).rebuild_overlays);
    assert_eq!(h.visual_config(), b);
    assert_eq!(h.data_gen, gen + 1);
    assert_eq!(
        h.rebuild_policy,
        RebuildPolicy::Debounced { last_input: 3, force_rebuild_from_historical: true }
    );
}

#[test]
fn overlays_can_be_chosen() {
    let mut h = shader();
    assert_eq!(h.tick_size(), PriceStep { units: 10 });
    assert!(!h.shows_volume());
    h.toggle_indicator(HeatmapIndicator::Volume);
    assert!(h.shows_volume());
    h.toggle_indicator(HeatmapIndicator::Volume);
    assert!(h.indicators.is_empty());
    assert_eq!(h.volume_profile(), None);
    let study = HeatmapStudy::VolumeProfile(ProfileKind::VisibleRange);
    assert!(!h.configure_study(study));
    assert!(h.toggle_study(study, true));
    assert!(h.configure_study(HeatmapStudy::VolumeProfile(ProfileKind::FixedWindow(5))));
    assert_eq!(h.volume_profile(), Some(ProfileKind::FixedWindow(5)));
    assert!(h.toggle_study(study, false));
    assert_eq!(h.volume_profile(), None);
}

#[test]
fn a_texture_follows_the_base_price() {
    let mut h = shader();
    assert!(place_texture(&h.depth_grid, price(1000), h.step, 1_000, 100, 0).is_none());
    feed(&mut h, 1_000, 0);
    let placed = place_texture(&h.depth_grid, price(1030), h.step, 1_200, 100, 7).unwrap();
    assert_eq!(placed.latest_rel_bucket, 5);
    assert_eq!(placed.latest_x_ring, 12);
    assert_eq!(placed.tex_w, 8192);
    let half = i128::from(placed.tex_h / 2);
    assert_eq!(placed.y_start_bin, -half - 3);
    assert_eq!(h.depth_grid.heatmap_y_start_bin(price(1030), h.step), -half - 3);
    assert_eq!(h.depth_grid.asks_len(), h.depth_grid.bids_len());
    let generation = h.scene.heatmap_tex_gen;
    assert!(h.scene.sync_heatmap_upload_from_grid(&mut h.depth_grid, true));
    assert_eq!(h.scene.heatmap_tex_gen, generation + 1);
    h.resume_rebuilt();
    h.check_recenter(price(1010));
    assert_eq!(h.rebuild_policy, RebuildPolicy::Idle);
    h.check_recenter(price(1_000_000_000));
    assert_eq!(
        h.rebuild_policy,
        RebuildPolicy::Immediate { force_rebuild_from_historical: true }
    );
}
