use flowsurface::heatmap::view::{
    clamp_steps_per_y_bin, compute_time_window, millis_between, round_time_to_bucket,
    y_bin_for_price_texture_aligned, Anchor, DepthNormCache, ExchangeClock, FollowStateChange,
    NormKey, Phase, RebuildPolicy,
};
use flowsurface::units::{Price, PriceStep};

const MS: u64 = 1_000_000;

#[test]
fn times_round_down_to_buckets() {
    assert_eq!(round_time_to_bucket(1234, 100), 1200);
    assert_eq!(round_time_to_bucket(1200, 100), 1200);
    assert_eq!(round_time_to_bucket(99, 100), 0);
}

#[test]
fn a_live_anchor_pauses_and_resumes() {
    let mut a = Anchor::default();
    assert!(!a.is_paused());
    assert_eq!(
        a.tick_live_and_auto_follow(1234, 100, true, Some(Price { units: 7 })),
        FollowStateChange::Unchanged
    );
    assert_eq!(a.render_latest_time(), 1200);
    assert_eq!(a.x_phase_bucket(), Phase::of(34, 100));
    assert_eq!(
        a.tick_live_and_auto_follow(1300, 100, false, Some(Price { units: 7 })),
        FollowStateChange::PausedFromLive
    );
    assert!(a.is_paused());
    assert_eq!(a.effective_base_price(Some(Price { units: 9 })), Some(Price { units: 7 }));
    let frozen = a.render_latest_time();
    a.tick_live_and_auto_follow(9000, 100, false, Some(Price { units: 9 }));
    assert_eq!(a.render_latest_time(), frozen);
    assert_eq!(
        a.tick_live_and_auto_follow(9000, 100, true, Some(Price { units: 9 })),
        FollowStateChange::ResumedToLive
    );
    assert_eq!(a.effective_base_price(Some(Price { units: 9 })), Some(Price { units: 9 }));
}

#[test]
fn drawn_time_does_not_go_back() {
    let mut a = Anchor::default();
    a.tick_live_and_auto_follow(5000, 100, true, None);
    a.tick_live_and_auto_follow(4000, 100, true, None);
    assert_eq!(a.render_latest_time(), 5000);
}

#[test]
fn the_reference_bucket_is_set_once() {
    let mut a = Anchor::default();
    let (r, d, _) = a.sync_scroll_ref_and_origin_x(40);
    assert_eq!((r, d), (40, 0));
    let (r, d, _) = a.sync_scroll_ref_and_origin_x(45);
    assert_eq!((r, d), (40, 5));
}

#[test]
fn rebuilds_wait_for_the_user() {
    let p = RebuildPolicy::default();
    assert_eq!(p.decide(0, 250), (false, false, RebuildPolicy::Idle));
    let p = p.mark_input(10 * MS);
    assert!(matches!(p, RebuildPolicy::Debounced { .. }));
    assert_eq!(p.decide(100 * MS, 250), (true, false, p));
    assert_eq!(p.decide(260 * MS, 250), (true, true, RebuildPolicy::Idle));
    let mut forced = p.request_rebuild_from_historical();
    assert!(forced.take_force_rebuild_from_historical());
    assert!(!forced.take_force_rebuild_from_historical());
    assert_eq!(
        RebuildPolicy::immediate().decide(0, 250),
        (false, true, RebuildPolicy::Idle)
    );
    assert_eq!(millis_between(5 * MS, 2 * MS), 3);
    assert_eq!(millis_between(2 * MS, 5 * MS), 0);
}

#[test]
fn the_exchange_clock_runs_on() {
    let c = ExchangeClock::Uninit;
    assert_eq!(c.estimate_now_ms(5 * MS), None);
    let c = c.anchor_with_update(1_000, 0);
    assert_eq!(c.estimate_now_ms(20 * MS), Some(1_020));
    let c = c.anchor_with_update(900, 20 * MS);
    assert!(c.estimate_now_ms(20 * MS).unwrap() >= 1_020);
}

#[test]
fn windows_of_time_follow_the_visible_buckets() {
    let w = compute_time_window(100, 10_000, 10_000, -20, 0);
    assert!(w.is_some());
    let (earliest, latest) = w.unwrap();
    assert!(earliest < latest);
    assert!(latest <= 10_000);
}

#[test]
fn rows_hold_at_least_one_step() {
    assert_eq!(clamp_steps_per_y_bin(None, 2048), 1);
    assert_eq!(clamp_steps_per_y_bin(Some(0), 2048), 1);
    assert_eq!(clamp_steps_per_y_bin(Some(5), 2048), 5);
    assert_eq!(clamp_steps_per_y_bin(Some(9999), 2048), 2048);
}

#[test]
fn the_base_price_is_in_row_zero() {
    let step = PriceStep { units: 10 };
    let base = Price { units: 1000 };
    assert_eq!(y_bin_for_price_texture_aligned(base, base, step, 1, None), 0);
    assert_eq!(
        y_bin_for_price_texture_aligned(Price { units: 1030 }, base, step, 1, None),
        3
    );
    assert_eq!(
        y_bin_for_price_texture_aligned(Price { units: 970 }, base, step, 1, None),
        -3
    );
}

#[test]
fn the_depth_scale_is_kept_while_its_key_holds() {
    let key = NormKey::new(
        100,
        0,
        10_000,
        Price { units: 900 },
        Price { units: 1100 },
        PriceStep { units: 10 },
        1,
        0,
    );
    let mut cache = DepthNormCache::new();
    assert!(!cache.lookup(key, 1, 0, false, 100));
    cache.store(key, 42, 1);
    assert!(cache.lookup(key, 1, 0, false, 100));
    assert_eq!(cache.value_bits, 42);
}

#[test]
fn an_anchor_keeps_its_own_time_while_paused() {
    let mut a = Anchor::default();
    a.set_scroll_ref_bucket_if_zero(5);
    a.set_scroll_ref_bucket_if_zero(9);
    assert_eq!(a.scroll_ref_bucket(), 5);
    a.update_live_timing(1_000, Phase::of(1, 2));
    assert_eq!(a.live_timing(1_250, 100), (1_200, 1_200, Phase::of(50, 100)));
    assert!(a.update_auto_follow(false, 1_000, Phase::of(1, 2), Some(Price { units: 3 })));
    assert_eq!(a.effective_render_latest_time(700), 700);
    assert_eq!(a.effective_render_latest_time(5_000), 1_000);
    let mut base = None;
    a.apply_mid_price(Price { units: 8 }, &mut base);
    assert_eq!(base, Some(Price { units: 8 }));
    assert_eq!(a.effective_base_price(base), Some(Price { units: 3 }));
    assert!(a.resume_to_live());
    assert_eq!(a.effective_base_price(base), Some(Price { units: 8 }));
    assert_eq!(Phase::of(1, 3).max(Phase::of(1, 2)), Phase::of(1, 2));
    assert_eq!(
        RebuildPolicy::Idle.promote_to_immediate(),
        RebuildPolicy::Immediate { force_rebuild_from_historical: false }
    );
}
