//! What the heatmap does with new data, with frames and with the user's input: the state that
//! decides, without the geometry of the screen.
use crate::float_bits::F32Bits;
use crate::heatmap::depth_grid;
use crate::heatmap::depth_grid::{DepthRun, GridRing, ScaledLevel};
use crate::heatmap::overlay::ProfileKind;
use crate::heatmap::scene;
use crate::heatmap::scene::{place_texture, Scene, TexturePlacement};
use crate::heatmap::side_grid::GRID_TEX_H;
use crate::heatmap::view;
use crate::heatmap::view::{
    Anchor, DepthNormCache, ExchangeClock, FollowStateChange, Phase, RebuildPolicy,
};
use crate::kline_chart::study;
use crate::kline_chart::study::{configure_study, toggle_study, HeatmapStudy};
use crate::math;
use crate::math::u64_as_i64;
use crate::units::{Price, PriceStep};
use vstd::prelude::*;

verus! {

/// How long the user has to leave the heatmap alone before it is rebuilt.
pub const REBUILD_DEBOUNCE_MS: u64 = 250;

/// After so long without a frame the renderer may have lost the texture.
pub const HEATMAP_RESYNC_AFTER_STALL_MS: u64 = 750;

/// Old data is removed once in this many updates.
pub const CLEANUP_EVERY: u64 = 64;

/// The state that decides. Instants are nanoseconds of a clock that does not go back.
pub struct HeatmapShader {
    pub scene: Scene,
    pub step: PriceStep,
    pub last_tick: Option<u64>,
    pub latest_time: Option<u64>,
    pub base_price: Option<Price>,
    pub clock: ExchangeClock,
    pub anchor: Anchor,
    pub depth_grid: GridRing,
    pub depth_norm: DepthNormCache,
    pub data_gen: u64,
    pub rebuild_policy: RebuildPolicy,
    /// How many price steps share a row of the texture.
    pub steps_per_y_bin: i64,
    pub config: VisualConfig,
    pub studies: Vec<HeatmapStudy>,
    pub indicators: Vec<HeatmapIndicator>,
}

/// What is left to do after a snapshot of the book has been taken in.
#[derive(Debug, Clone, Copy, PartialEq, Eq, Structural)]
pub struct DepthOutcome {
    /// Remove what is older than this.
    pub cleanup_before: Option<u64>,
    /// The price axis has moved.
    pub base_changed: bool,
}

/// The price that is drawn as the base.
pub open spec fn drawn_base(anchor: Anchor, base: Option<Price>) -> Option<Price> {
    match anchor {
        Anchor::Live { .. } => base,
        Anchor::Paused { frozen_base_price, .. } => frozen_base_price,
    }
}

/// The policy once a rebuild from history has been requested, to be made at once.
pub open spec fn forced_policy() -> RebuildPolicy {
    RebuildPolicy::Immediate { force_rebuild_from_historical: true }
}

/// Data before this is removed: older than what the ring can show, rounded to a bucket.
pub open spec fn cleanup_cutoff(latest: int, tex_w: int, aggr: int) -> int {
    math::max_int(latest - math::max_int(tex_w, 1) * aggr, 0) / aggr * aggr
}

/// Data before this is removed: older than what the ring can show, rounded to a bucket.
pub fn cleanup_before(latest_time: u64, tex_w: u32, aggr_time: u64) -> (t: u64)
    requires
        aggr_time > 0,
    ensures
        t == cleanup_cutoff(latest_time as int, tex_w as int, aggr_time as int),
        t <= latest_time,
{
    let keep: u128 = if tex_w > 1 {
        tex_w as u128
    } else {
        1
    };
    proof {
        assert(0 <= keep * aggr_time <= 0xffff_ffff * 0xffff_ffff_ffff_ffff) by (nonlinear_arith)
            requires
                0 <= keep <= 0xffff_ffff,
                0 <= aggr_time <= 0xffff_ffff_ffff_ffff,
        ;
    }
    let span: u128 = keep * aggr_time as u128;
    let cutoff: u64 = if span > latest_time as u128 {
        0
    } else {
        latest_time - span as u64
    };
    view::round_time_to_bucket(cutoff, aggr_time)
}

/// The levels of the book before this are removed, once the trades before `cutoff` are gone: those
/// before the oldest bucket of trades that is left, where there is one.
pub fn depth_cleanup_before(cutoff: u64, oldest_trades: Option<u64>) -> (t: u64)
    ensures
        t == (match oldest_trades {
            Some(oldest) => oldest,
            None => cutoff,
        }),
{
    match oldest_trades {
        Some(oldest) => oldest,
        None => cutoff,
    }
}

impl HeatmapShader {
    pub open spec fn wf(&self) -> bool {
        self.depth_grid.wf() && self.anchor.wf() && self.steps_per_y_bin >= 1
    }

    /// A heatmap without data.
    pub fn new(
        step: PriceStep,
        scene_id: u64,
        studies: Vec<HeatmapStudy>,
        indicators: Vec<HeatmapIndicator>,
        config: VisualConfig,
    ) -> (m: HeatmapShader)
        ensures
            m.wf(),
            m.scene.id == scene_id,
            m.scene.rectangles_gen == 1,
            m.scene.circles_gen == 1,
            m.scene.draw_list@ == Seq::<scene::DrawItem>::empty(),
            m.scene.heatmap_tex_gen == 1,
            m.scene.heatmap_upload is None,
            m.step == step,
            m.last_tick is None,
            m.latest_time is None,
            m.base_price is None,
            m.clock == ExchangeClock::Uninit,
            m.anchor == (Anchor::Live {
                scroll_ref_bucket: 0,
                render_latest_time: 0,
                x_phase_bucket: view::Phase { ms: 0, aggr: 1 },
            }),
            m.depth_grid@ == depth_grid::RingView::fresh(),
            m.depth_norm == (DepthNormCache {
                key: None,
                value_bits: view::ONE_BITS,
                generation: 0,
                last_recompute: None,
            }),
            m.data_gen == 1,
            m.rebuild_policy == RebuildPolicy::Idle,
            m.steps_per_y_bin == 1,
            m.studies == studies,
            m.indicators == indicators,
            m.config == config,
    {
        HeatmapShader {
            scene: Scene::new(scene_id),
            step,
            last_tick: None,
            latest_time: None,
            base_price: None,
            clock: ExchangeClock::Uninit,
            anchor: Anchor::default(),
            depth_grid: GridRing::new(),
            depth_norm: DepthNormCache::new(),
            data_gen: 1,
            rebuild_policy: RebuildPolicy::Idle,
            steps_per_y_bin: 1,
            config,
            studies,
            indicators,
        }
    }

    /// The user is panning or zooming.
    pub fn is_interacting(&self) -> (r: bool)
        ensures
            r == (self.rebuild_policy is Debounced),
    {
        match self.rebuild_policy {
            RebuildPolicy::Debounced { .. } => true,
            _ => false,
        }
    }

    /// So long without a frame that the renderer may have lost the texture.
    pub open spec fn stalled(&self, now: u64) -> bool {
        self.last_tick matches Some(last) && now >= last && now - last
            >= HEATMAP_RESYNC_AFTER_STALL_MS * 1_000_000
    }

    fn mark_needs_full_upload_if_stalled(&mut self, now: u64)
        requires
            old(self).wf(),
        ensures
            final(self).wf(),
            *final(self) == (HeatmapShader {
                depth_grid: final(self).depth_grid,
                ..*old(self)
            }),
            final(self).depth_grid@ == (if old(self).stalled(now) {
                depth_grid::RingView {
                    full_dirty: true,
                    dirty: Set::empty(),
                    ..old(self).depth_grid@
                }
            } else {
                old(self).depth_grid@
            }),
    {
        if let Some(last) = self.last_tick {
            if now >= last && now - last >= HEATMAP_RESYNC_AFTER_STALL_MS * 1_000_000 {
                self.depth_grid.force_full_upload();
            }
        }
    }

    /// The price that the ring is to be centered on: while the user interacts it stays where it
    /// is, else it is the price at the center of the screen.
    pub open spec fn recenter_target(&self, base: Price, center: Price) -> int {
        if self.rebuild_policy is Debounced {
            match self.depth_grid@.anchor {
                Some(a) => a,
                None => base.units as int,
            }
        } else {
            center.units as int
        }
    }

    /// Writes a snapshot into the ring. Where that moves the ring's anchor, the ring is to be
    /// rebuilt from history at once.
    fn update_live_ring(
        &mut self,
        bids: &Vec<ScaledLevel>,
        asks: &Vec<ScaledLevel>,
        rounded_t: u64,
        center: Price,
    )
        requires
            old(self).wf(),
        ensures
            final(self).wf(),
            *final(self) == (HeatmapShader {
                depth_grid: final(self).depth_grid,
                rebuild_policy: final(self).rebuild_policy,
                ..*old(self)
            }),
            match old(self).base_price {
                None => final(self).depth_grid@ == old(self).depth_grid@
                    && final(self).rebuild_policy == old(self).rebuild_policy,
                Some(base) => {
                    let target = old(self).recenter_target(base, center);
                    &&& old(self).depth_grid@.ingested(
                        bids@,
                        asks@,
                        rounded_t,
                        old(self).step.units as int,
                        target,
                        old(self).steps_per_y_bin as int,
                        final(self).depth_grid@,
                    )
                    &&& final(self).rebuild_policy == if depth_grid::wants_recenter(
                        old(self).depth_grid@,
                        target,
                        old(self).step.units as int,
                    ) {
                        forced_policy()
                    } else {
                        old(self).rebuild_policy
                    }
                },
            },
    {
        let base: Price = match self.base_price {
            None => {
                return ;
            },
            Some(base) => base,
        };
        let target: Price = if self.is_interacting() {
            match self.depth_grid.y_anchor_price() {
                Some(a) => a,
                None => base,
            }
        } else {
            center
        };
        if self.depth_grid.should_recenter(target, self.step) {
            self.rebuild_policy =
            self.rebuild_policy.request_rebuild_from_historical().promote_to_immediate();
        }
        self.depth_grid.ingest_snapshot(
            bids,
            asks,
            rounded_t,
            self.step,
            target,
            self.steps_per_y_bin,
        );
    }

    /// The ring before a snapshot is written into it.
    pub open spec fn ring_ready(&self, now: u64, aggr: u64) -> depth_grid::RingView {
        let ring = if self.stalled(now) {
            depth_grid::RingView { full_dirty: true, dirty: Set::empty(), ..self.depth_grid@ }
        } else {
            self.depth_grid@
        };
        ring.laid_out(aggr as int)
    }

    /// Takes in a snapshot of the book that was stamped `update_t_ms` and came at `now`. `mid` is
    /// the middle price rounded to the step, where the book has one; `center` is the price at the
    /// center of the screen, given that base.
    pub fn insert_depth(
        &mut self,
        bids: &Vec<ScaledLevel>,
        asks: &Vec<ScaledLevel>,
        mid: Option<Price>,
        update_t_ms: u64,
        aggr_time: u64,
        center: Price,
        now: u64,
    ) -> (outcome: DepthOutcome)
        requires
            old(self).wf(),
            aggr_time > 0,
        ensures
            final(self).wf(),
            ({
                let paused = old(self).anchor is Paused;
                let interacting = old(self).rebuild_policy is Debounced;
                let rounded = view::bucket_start(update_t_ms as int, aggr_time as int) as u64;
                let base = if mid is Some {
                    mid
                } else {
                    old(self).base_price
                };
                let ring = old(self).ring_ready(now, aggr_time);
                let target = if interacting {
                    match ring.anchor {
                        Some(a) => a,
                        None => base->0.units as int,
                    }
                } else {
                    center.units as int
                };
                let recenters = !paused && base is Some && depth_grid::wants_recenter(
                    ring,
                    target,
                    old(self).step.units as int,
                );
                &&& final(self).scene == old(self).scene
                &&& final(self).step == old(self).step
                &&& final(self).last_tick == old(self).last_tick
                &&& final(self).depth_norm == old(self).depth_norm
                &&& final(self).steps_per_y_bin == old(self).steps_per_y_bin
                &&& final(self).config == old(self).config
                &&& final(self).studies == old(self).studies
                &&& final(self).indicators == old(self).indicators
                &&& final(self).base_price == base
                &&& final(self).latest_time == Some(rounded)
                &&& final(self).clock == view::anchored(old(self).clock, update_t_ms, now)
                &&& final(self).anchor == old(self).anchor.with_scroll_ref(
                    math::wrap_i64(rounded as int / aggr_time as int) as i64,
                )
                &&& final(self).data_gen == scene::next_gen(old(self).data_gen)
                &&& if paused || base is None {
                    final(self).depth_grid@ == ring
                } else {
                    ring.ingested(
                        bids@,
                        asks@,
                        rounded,
                        old(self).step.units as int,
                        target,
                        old(self).steps_per_y_bin as int,
                        final(self).depth_grid@,
                    )
                }
                &&& final(self).rebuild_policy == if recenters {
                    forced_policy()
                } else if paused || interacting {
                    old(self).rebuild_policy
                } else {
                    RebuildPolicy::Immediate {
                        force_rebuild_from_historical: old(self).rebuild_policy.forces(),
                    }
                }
                &&& outcome.cleanup_before == if final(self).data_gen % CLEANUP_EVERY == 0 {
                    Some(
                        cleanup_cutoff(
                            rounded as int,
                            final(self).depth_grid@.width,
                            aggr_time as int,
                        ) as u64,
                    )
                } else {
                    None
                }
                &&& outcome.base_changed == (drawn_base(old(self).anchor, old(self).base_price)
                    != drawn_base(final(self).anchor, base))
            }),
    {
        let ghost start = *self;
        self.mark_needs_full_upload_if_stalled(now);
        let prev_base: Option<Price> = self.anchor.effective_base_price(self.base_price);
        let paused: bool = self.anchor.is_paused();
        let interacting: bool = self.is_interacting();
        let rounded: u64 = view::round_time_to_bucket(update_t_ms, aggr_time);
        if let Some(mid) = mid {
            self.anchor.apply_mid_price(mid, &mut self.base_price);
        }
        self.latest_time = Some(rounded);
        self.clock = self.clock.anchor_with_update(update_t_ms, now);
        self.anchor.set_scroll_ref_bucket_if_zero(u64_as_i64(rounded / aggr_time));
        self.depth_grid.ensure_layout(aggr_time);
        let ghost ready = *self;
        assert(ready.depth_grid@ == start.ring_ready(now, aggr_time));
        if !paused {
            self.update_live_ring(bids, asks, rounded, center);
        }
        self.data_gen = self.data_gen.wrapping_add(1);
        let cleanup: Option<u64> = if self.data_gen % CLEANUP_EVERY == 0 {
            Some(cleanup_before(rounded, self.depth_grid.tex_w(), aggr_time))
        } else {
            None
        };
        if !paused && !interacting {
            self.rebuild_policy = self.rebuild_policy.promote_to_immediate();
        }
        let base: Option<Price> = self.anchor.effective_base_price(self.base_price);
        let base_changed: bool = match (prev_base, base) {
            (Some(a), Some(b)) => a.units != b.units,
            (None, None) => false,
            _ => true,
        };
        DepthOutcome { cleanup_before: cleanup, base_changed }
    }

    /// The latest time of the data, as far as it is drawn, and the time that is drawn.
    pub fn view_times(&self) -> (r: Option<(u64, u64)>)
        ensures
            match self.latest_time {
                None => r is None,
                Some(latest) => {
                    let paused = self.anchor is Paused;
                    let render = if paused && self.anchor.spec_time() > 0 && latest > 0 {
                        math::min_int(self.anchor.spec_time() as int, latest as int)
                    } else {
                        self.anchor.spec_time() as int
                    };
                    r matches Some((data, drawn)) && drawn == render && data == if paused && render
                        > 0 {
                        render
                    } else {
                        latest as int
                    }
                },
            },
    {
        match self.latest_time {
            None => None,
            Some(latest) => {
                let render: u64 = self.anchor.effective_render_latest_time(latest);
                if self.anchor.is_paused() && render > 0 {
                    Some((render, render))
                } else {
                    Some((latest, render))
                }
            },
        }
    }

    /// How a rebuild goes: whether it is made from history, over which time and prices, and which
    /// time is the latest afterwards.
    pub fn plan_rebuild(&mut self, new_steps_per_y_bin: i64, target: Price, aggr_time: u64) -> (plan:
        Option<RebuildPlan>)
        requires
            old(self).wf(),
        ensures
            final(self).wf(),
            (old(self).latest_time is None || drawn_base(old(self).anchor, old(self).base_price)
                is None) ==> plan is None && *final(self) == *old(self),
            (old(self).latest_time is Some && drawn_base(old(self).anchor, old(self).base_price)
                is Some) ==> ({
                let latest = old(self).latest_time->0;
                let steps = math::max_int(new_steps_per_y_bin as int, 1);
                let effective = math::max_int(
                    if old(self).anchor is Paused && old(self).anchor.spec_time() > 0 && latest
                        > 0 {
                        math::min_int(old(self).anchor.spec_time() as int, latest as int)
                    } else if old(self).anchor is Paused {
                        old(self).anchor.spec_time() as int
                    } else {
                        latest as int
                    },
                    1,
                );
                let full = steps != old(self).steps_per_y_bin || old(self).rebuild_policy.forces()
                    || depth_grid::wants_recenter(
                    old(self).depth_grid@,
                    target.units as int,
                    old(self).step.units as int,
                );
                &&& plan matches Some(p)
                &&& p.latest == effective
                &&& p.from_history is Some <==> full
                &&& p.from_history matches Some(h) ==> {
                    &&& h.newest == effective
                    &&& h.oldest == math::max_int(
                        effective - depth_grid::GRID_HORIZON_BUCKETS * math::max_int(
                            aggr_time as int,
                            1,
                        ),
                        0,
                    )
                    &&& price_bounds_are(target, old(self).step, steps, h.highest, h.lowest)
                }
                &&& final(self).steps_per_y_bin == steps
                &&& final(self).data_gen == if full {
                    scene::next_gen(old(self).data_gen)
                } else {
                    old(self).data_gen
                }
                &&& final(self).depth_grid@ == if full {
                    old(self).depth_grid@.laid_out(aggr_time as int)
                } else {
                    old(self).depth_grid@
                }
                &&& final(self).rebuild_policy == unforced(old(self).rebuild_policy)
                &&& *final(self) == (HeatmapShader {
                    steps_per_y_bin: final(self).steps_per_y_bin,
                    data_gen: final(self).data_gen,
                    depth_grid: final(self).depth_grid,
                    rebuild_policy: final(self).rebuild_policy,
                    ..*old(self)
                })
            }),
    {
        let latest: u64 = match self.latest_time {
            None => {
                return None;
            },
            Some(t) => t,
        };
        if self.anchor.effective_base_price(self.base_price).is_none() {
            return None;
        }
        let steps: i64 = if new_steps_per_y_bin > 1 {
            new_steps_per_y_bin
        } else {
            1
        };
        let prev_steps: i64 = self.steps_per_y_bin;
        self.steps_per_y_bin = steps;
        let force: bool = self.rebuild_policy.take_force_rebuild_from_historical();
        let full: bool = self.depth_grid.should_full_rebuild(
            prev_steps,
            steps,
            target,
            self.step,
            force,
        );
        let drawn: u64 = if self.anchor.is_paused() {
            self.anchor.effective_render_latest_time(latest)
        } else {
            latest
        };
        let effective: u64 = if drawn > 1 {
            drawn
        } else {
            1
        };
        if !full {
            return Some(RebuildPlan { from_history: None, latest: effective });
        }
        self.depth_grid.ensure_layout(aggr_time);
        let (oldest, newest) = self.depth_grid.horizon_time_window_ms(effective, aggr_time);
        let (highest, lowest) = self.depth_grid.rebuild_price_bounds(target, self.step, steps);
        self.data_gen = self.data_gen.wrapping_add(1);
        Some(
            RebuildPlan {
                from_history: Some(HistorySpan { oldest, newest, highest, lowest }),
                latest: effective,
            },
        )
    }

    /// Before a frame: where the screen has moved too far from the ring's anchor, the ring is to
    /// be rebuilt from history at once.
    pub fn check_recenter(&mut self, target: Price)
        requires
            old(self).wf(),
        ensures
            final(self).wf(),
            *final(self) == (HeatmapShader {
                rebuild_policy: if depth_grid::wants_recenter(
                    old(self).depth_grid@,
                    target.units as int,
                    old(self).step.units as int,
                ) {
                    forced_policy()
                } else {
                    old(self).rebuild_policy
                },
                ..*old(self)
            }),
    {
        if self.depth_grid.should_recenter(target, self.step) {
            self.rebuild_policy =
            self.rebuild_policy.request_rebuild_from_historical().promote_to_immediate();
        }
    }

    /// Moves the anchor on for a frame at `now`, and says whether it was paused or resumed; nothing
    /// before the first update of the exchange.
    pub fn tick(&mut self, now: u64, aggr_time: u64, x0_visible: bool) -> (r: Option<
        FollowStateChange,
    >)
        requires
            old(self).wf(),
        ensures
            final(self).wf(),
            match old(self).clock.estimate(now) {
                None => r is None && *final(self) == (HeatmapShader {
                    last_tick: Some(now),
                    ..*old(self)
                }),
                Some(t) => {
                    &&& *final(self) == (HeatmapShader {
                        last_tick: Some(now),
                        anchor: old(self).anchor.ticked(
                            t as u64,
                            aggr_time,
                            x0_visible,
                            old(self).base_price,
                        ),
                        rebuild_policy: if r == Some(FollowStateChange::Unchanged) {
                            old(self).rebuild_policy
                        } else if r == Some(FollowStateChange::ResumedToLive) {
                            forced_policy()
                        } else {
                            RebuildPolicy::Immediate {
                                force_rebuild_from_historical: old(self).rebuild_policy.forces(),
                            }
                        },
                        ..*old(self)
                    })
                    &&& r == Some(
                        if old(self).anchor is Live && !x0_visible {
                            FollowStateChange::PausedFromLive
                        } else if old(self).anchor is Paused && x0_visible {
                            FollowStateChange::ResumedToLive
                        } else {
                            FollowStateChange::Unchanged
                        },
                    )
                },
            },
    {
        self.last_tick = Some(now);
        let exchange_now: u64 = match self.clock.estimate_now_ms(now) {
            None => {
                return None;
            },
            Some(t) => t,
        };
        let base: Option<Price> = self.base_price;
        let change: FollowStateChange = self.anchor.tick_live_and_auto_follow(
            exchange_now,
            aggr_time,
            x0_visible,
            base,
        );
        match change {
            FollowStateChange::Unchanged => {},
            FollowStateChange::PausedFromLive => {
                self.rebuild_policy = self.rebuild_policy.promote_to_immediate();
            },
            FollowStateChange::ResumedToLive => {
                self.rebuild_policy =
                self.rebuild_policy.request_rebuild_from_historical().promote_to_immediate();
            },
        }
        Some(change)
    }

    /// Resumes where the user has brought the live edge back on the screen, and says whether it
    /// did. The ring is then to be rebuilt from history at once.
    pub fn try_resume(&mut self, x0_visible: bool) -> (resumed: bool)
        requires
            old(self).wf(),
        ensures
            final(self).wf(),
            resumed == (old(self).anchor is Paused && x0_visible),
            *final(self) == (if resumed {
                HeatmapShader {
                    anchor: old(self).anchor.resumed(),
                    rebuild_policy: forced_policy(),
                    ..*old(self)
                }
            } else {
                *old(self)
            }),
    {
        if !self.anchor.is_paused() || !x0_visible {
            return false;
        }
        let resumed: bool = self.anchor.resume_to_live();
        self.rebuild_policy =
        self.rebuild_policy.request_rebuild_from_historical().promote_to_immediate();
        resumed
    }

    /// After input of the user at `now` that did not resume the heatmap: the rebuild waits until
    /// the user has finished.
    pub fn mark_input(&mut self, now: u64)
        requires
            old(self).wf(),
        ensures
            final(self).wf(),
            *final(self) == (HeatmapShader {
                rebuild_policy: RebuildPolicy::Debounced {
                    last_input: now,
                    force_rebuild_from_historical: old(self).rebuild_policy.forces(),
                },
                ..*old(self)
            }),
    {
        self.rebuild_policy = self.rebuild_policy.mark_input(now);
    }

    /// Everything has been rebuilt after the heatmap was resumed.
    pub fn resume_rebuilt(&mut self)
        requires
            old(self).wf(),
        ensures
            final(self).wf(),
            *final(self) == (HeatmapShader { rebuild_policy: RebuildPolicy::Idle, ..*old(self) }),
    {
        self.rebuild_policy = RebuildPolicy::Idle;
    }

    /// The size of the viewport has changed: everything is rebuilt at once.
    pub fn bounds_changed(&mut self)
        requires
            old(self).wf(),
        ensures
            final(self).wf(),
            *final(self) == (HeatmapShader {
                rebuild_policy: RebuildPolicy::Immediate {
                    force_rebuild_from_historical: old(self).rebuild_policy.forces(),
                },
                ..*old(self)
            }),
    {
        self.rebuild_policy = self.rebuild_policy.promote_to_immediate();
    }

    /// There is nothing to look at: the scene is emptied, and all of the texture is uploaded once
    /// there is.
    pub fn clear_view(&mut self)
        requires
            old(self).wf(),
        ensures
            final(self).wf(),
            *final(self) == (HeatmapShader {
                scene: final(self).scene,
                depth_grid: final(self).depth_grid,
                ..*old(self)
            }),
            final(self).scene.draw_list@ == seq![
                scene::DrawItem {
                    layer: scene::DrawLayer(scene::HEATMAP_LAYER),
                    op: scene::DrawOp::Heatmap,
                },
            ],
            final(self).scene.heatmap_upload is None,
            final(self).scene.heatmap_tex_gen == old(self).scene.heatmap_tex_gen,
            final(self).scene.rectangles_gen == scene::next_gen(old(self).scene.rectangles_gen),
            final(self).scene.circles_gen == scene::next_gen(old(self).scene.circles_gen),
            final(self).scene.id == old(self).scene.id,
            final(self).depth_grid@ == (depth_grid::RingView {
                full_dirty: true,
                dirty: Set::empty(),
                ..old(self).depth_grid@
            }),
    {
        self.scene.clear();
        self.depth_grid.force_full_upload();
    }

    /// Carries a planned rebuild out, given the runs of the history that the plan asks for: the
    /// ring is rebuilt where that was planned, and what has changed of it is handed to the scene.
    /// Returns where the texture lies.
    pub fn finish_rebuild(
        &mut self,
        plan: &RebuildPlan,
        hist: &Vec<DepthRun>,
        target: Price,
        base: Price,
        aggr_time: u64,
    ) -> (placed: Option<TexturePlacement>)
        requires
            old(self).wf(),
            aggr_time > 0,
        ensures
            final(self).wf(),
            *final(self) == (HeatmapShader {
                scene: final(self).scene,
                depth_grid: final(self).depth_grid,
                ..*old(self)
            }),
            exists|ring: depth_grid::RingView|
                {
                    &&& #[trigger] is_rebuilt(
                        *old(self),
                        plan.from_history,
                        hist@,
                        target.units as int,
                        ring,
                    )
                    &&& scene::is_placed(
                        ring,
                        base,
                        old(self).step,
                        plan.latest,
                        aggr_time,
                        old(self).anchor.spec_scroll_ref(),
                        placed,
                    )
                    &&& scene::is_handed_over(
                        ring,
                        plan.from_history is Some,
                        old(self).scene,
                        final(self).depth_grid@,
                        final(self).scene,
                    )
                },
    {
        let full: bool = match plan.from_history {
            Some(h) => {
                self.depth_grid.rebuild_from_historical(
                    hist,
                    h.oldest,
                    h.newest,
                    target,
                    self.step,
                    self.steps_per_y_bin,
                );
                true
            },
            None => false,
        };
        let ghost ring = self.depth_grid@;
        assert(is_rebuilt(*old(self), plan.from_history, hist@, target.units as int, ring));
        let placed: Option<TexturePlacement> = place_texture(
            &self.depth_grid,
            base,
            self.step,
            plan.latest,
            aggr_time,
            self.anchor.scroll_ref_bucket(),
        );
        self.scene.sync_heatmap_upload_from_grid(&mut self.depth_grid, full);
        placed
    }

    /// Begins a frame at `now` over the price `target` at the center of the screen: what is drawn
    /// where, and what has to be rebuilt. The policy is left as it is until the frame has ended.
    pub fn begin_frame(&mut self, now: u64, target: Price, aggr_time: u64) -> (plan: Option<
        FramePlan,
    >)
        requires
            old(self).wf(),
        ensures
            final(self).wf(),
            (old(self).latest_time is None || drawn_base(old(self).anchor, old(self).base_price)
                is None) ==> plan is None && *final(self) == *old(self),
            (old(self).latest_time is Some && drawn_base(old(self).anchor, old(self).base_price)
                is Some) ==> ({
                let latest = old(self).latest_time->0;
                let aggr = math::max_int(aggr_time as int, 1);
                let render = drawn_time(old(self).anchor, latest);
                let bucket = math::wrap_i64(render / aggr);
                let policy = if depth_grid::wants_recenter(
                    old(self).depth_grid@,
                    target.units as int,
                    old(self).step.units as int,
                ) {
                    forced_policy()
                } else {
                    old(self).rebuild_policy
                };
                &&& plan matches Some(p)
                &&& final(self).anchor == old(self).anchor.with_scroll_ref(bucket as i64)
                &&& final(self).rebuild_policy == policy
                &&& *final(self) == (HeatmapShader {
                    anchor: final(self).anchor,
                    rebuild_policy: policy,
                    ..*old(self)
                })
                &&& p.scroll_ref_bucket == final(self).anchor.spec_scroll_ref()
                &&& p.origin_buckets == bucket - p.scroll_ref_bucket
                &&& p.origin_phase == old(self).anchor.spec_phase()
                &&& p.latest_for_heatmap == (if old(self).anchor is Paused {
                    render
                } else {
                    latest as int
                })
                &&& (p.overlays, p.full, p.next_policy) == policy.spec_decide(
                    now,
                    REBUILD_DEBOUNCE_MS,
                )
            }),
    {
        let latest: u64 = match self.latest_time {
            None => {
                return None;
            },
            Some(t) => t,
        };
        if self.anchor.effective_base_price(self.base_price).is_none() {
            return None;
        }
        self.check_recenter(target);
        let aggr: u64 = if aggr_time > 1 {
            aggr_time
        } else {
            1
        };
        let render: u64 = self.anchor.effective_render_latest_time(latest);
        let paused: bool = self.anchor.is_paused();
        let (scroll_ref_bucket, origin_buckets, origin_phase) =
            self.anchor.sync_scroll_ref_and_origin_x(u64_as_i64(render / aggr));
        let (overlays, full, next_policy) = self.rebuild_policy.decide(now, REBUILD_DEBOUNCE_MS);
        Some(
            FramePlan {
                scroll_ref_bucket,
                origin_buckets,
                origin_phase,
                latest_for_heatmap: if paused {
                    render
                } else {
                    latest
                },
                overlays,
                full,
                next_policy,
            },
        )
    }

    /// Ends a frame: what has changed of the ring is handed to the scene, and the policy becomes
    /// the one that was planned.
    pub fn end_frame(&mut self, plan: &FramePlan)
        requires
            old(self).wf(),
        ensures
            final(self).wf(),
            *final(self) == (HeatmapShader {
                scene: final(self).scene,
                depth_grid: final(self).depth_grid,
                rebuild_policy: plan.next_policy,
                ..*old(self)
            }),
            scene::is_handed_over(
                old(self).depth_grid@,
                false,
                old(self).scene,
                final(self).depth_grid@,
                final(self).scene,
            ),
    {
        self.scene.sync_heatmap_upload_from_grid(&mut self.depth_grid, false);
        self.rebuild_policy = plan.next_policy;
    }

    /// Whether a zoom changes how many steps share a row, so that the texture has to be rebuilt at
    /// once; while the user interacts that waits.
    pub fn y_bins_changed(&mut self, new_steps_per_y_bin: i64) -> (rebuild: bool)
        requires
            old(self).wf(),
        ensures
            final(self).wf(),
            rebuild == (!(old(self).rebuild_policy is Debounced) && new_steps_per_y_bin != old(
                self).steps_per_y_bin),
            *final(self) == (if rebuild {
                HeatmapShader {
                    rebuild_policy: RebuildPolicy::Immediate {
                        force_rebuild_from_historical: old(self).rebuild_policy.forces(),
                    },
                    ..*old(self)
                }
            } else {
                *old(self)
            }),
    {
        if self.is_interacting() || new_steps_per_y_bin == self.steps_per_y_bin {
            return false;
        }
        self.rebuild_policy = self.rebuild_policy.promote_to_immediate();
        true
    }

    /// How many steps share a row of the overlays: as in the texture while the user interacts,
    /// else as the view asks.
    pub fn overlay_steps(&self, view_steps: i64) -> (r: i64)
        ensures
            r == (if self.rebuild_policy is Debounced {
                self.steps_per_y_bin
            } else {
                view_steps
            }),
    {
        if self.is_interacting() {
            self.steps_per_y_bin
        } else {
            view_steps
        }
    }

    /// Which generation of the data the depth scale belongs to: every update while the user
    /// interacts or the heatmap is paused, else every bucket.
    pub fn norm_generation(&self, latest_vis: u64, aggr_time: u64) -> (g: u64)
        ensures
            g == (if self.rebuild_policy is Debounced || self.anchor is Paused {
                self.data_gen as int
            } else {
                math::min_int(latest_vis + aggr_time, u64::MAX as int) / math::max_int(
                    aggr_time as int,
                    1,
                )
            }),
    {
        if self.is_interacting() || self.anchor.is_paused() {
            return self.data_gen;
        }
        let latest: u64 = latest_vis.saturating_add(aggr_time);
        let aggr: u64 = if aggr_time > 1 {
            aggr_time
        } else {
            1
        };
        latest / aggr
    }
}

/// The time that is drawn: a paused heatmap does not go beyond the data.
pub open spec fn drawn_time(anchor: Anchor, latest: u64) -> int {
    if anchor is Paused && anchor.spec_time() > 0 && latest > 0 {
        math::min_int(anchor.spec_time() as int, latest as int)
    } else {
        anchor.spec_time() as int
    }
}

/// `ring` is the ring after the part of a rebuild that reads the history.
pub open spec fn is_rebuilt(
    before: HeatmapShader,
    from_history: Option<HistorySpan>,
    hist: Seq<DepthRun>,
    target: int,
    ring: depth_grid::RingView,
) -> bool {
    match from_history {
        None => ring == before.depth_grid@,
        Some(h) => before.depth_grid@.rebuilt_from(
            hist,
            h.oldest,
            h.newest,
            target,
            before.step.units as int,
            before.steps_per_y_bin as int,
            ring,
        ),
    }
}

/// What a frame draws and rebuilds.
#[derive(Debug, Clone, Copy, PartialEq, Eq, Structural)]
pub struct FramePlan {
    pub scroll_ref_bucket: i64,
    /// The picture starts this many buckets after the reference, and a phase.
    pub origin_buckets: i128,
    pub origin_phase: Phase,
    pub latest_for_heatmap: u64,
    pub overlays: bool,
    pub full: bool,
    pub next_policy: RebuildPolicy,
}

/// The policy with its wish for a rebuild from history used up.
pub open spec fn unforced(p: RebuildPolicy) -> RebuildPolicy {
    match p {
        RebuildPolicy::Immediate { .. } => RebuildPolicy::Immediate {
            force_rebuild_from_historical: false,
        },
        RebuildPolicy::Debounced { last_input, .. } => RebuildPolicy::Debounced {
            last_input,
            force_rebuild_from_historical: false,
        },
        RebuildPolicy::Idle => RebuildPolicy::Idle,
    }
}

/// The prices half a texture above and below `target`, as far as they can be written down.
pub open spec fn price_bounds_are(
    target: Price,
    step: PriceStep,
    steps: int,
    highest: Price,
    lowest: Price,
) -> bool {
    let half_steps = math::min_int((GRID_TEX_H as int / 2) * steps, i64::MAX as int);
    let delta = math::min_int(half_steps * math::max_int(step.units as int, 1), i64::MAX as int);
    &&& highest.units == math::min_int(target.units + delta, i64::MAX as int)
    &&& lowest.units == math::max_int(target.units - delta, i64::MIN as int)
}

/// The part of the history that a rebuild reads.
#[derive(Debug, Clone, Copy, PartialEq, Eq, Structural)]
pub struct HistorySpan {
    pub oldest: u64,
    pub newest: u64,
    pub highest: Price,
    pub lowest: Price,
}

/// How a rebuild goes.
#[derive(Debug, Clone, Copy, PartialEq, Eq, Structural)]
pub struct RebuildPlan {
    /// What is read of the history, where the ring is rebuilt from it.
    pub from_history: Option<HistorySpan>,
    /// The latest time of the texture.
    pub latest: u64,
}

/// What the user does with the heatmap.
#[derive(Debug, Clone, Copy, PartialEq, Eq, Structural)]
pub enum Message {
    BoundsChanged,
    PanDeltaPx,
    ZoomAt,
    ScrolledAxisY,
    ScrolledAxisX,
    DragZoomAxisXKeepAnchor,
    AxisYDoubleClicked,
    AxisXDoubleClicked,
    PauseBtnClicked,
    CursorMoved,
}

/// What is known of the view once the camera has followed the user.
#[derive(Debug, Clone, Copy, PartialEq, Eq, Structural)]
pub struct ViewFacts {
    /// The heatmap has been laid out.
    pub has_viewport: bool,
    /// There are bounds within which the camera can zoom.
    pub can_zoom: bool,
    /// The live edge is on the screen.
    pub x0_visible: bool,
}

/// What has to be done after input of the user.
#[derive(Debug, Clone, Copy, PartialEq, Eq, Structural)]
pub struct InputOutcome {
    /// The input had an effect.
    pub happened: bool,
    /// The heatmap was paused, and is live again.
    pub resumed: bool,
    /// Everything is rebuilt.
    pub rebuild_all: bool,
    /// The overlays are rebuilt.
    pub rebuild_overlays: bool,
    /// The texture is rebuilt where the number of steps per row has changed.
    pub check_y_bins: bool,
}

impl Message {
    /// The input has an effect: zooming takes bounds to zoom within, and what looks at the live
    /// edge takes a viewport.
    pub open spec fn happens(self, view: ViewFacts) -> bool {
        match self {
            Message::ZoomAt => view.has_viewport && view.can_zoom,
            Message::AxisXDoubleClicked | Message::PauseBtnClicked => view.has_viewport,
            _ => true,
        }
    }

    /// The input moves the picture in time, so that the live edge may come back.
    pub open spec fn moves_in_time(self) -> bool {
        match self {
            Message::PanDeltaPx
            | Message::ZoomAt
            | Message::ScrolledAxisX
            | Message::DragZoomAxisXKeepAnchor
            | Message::AxisXDoubleClicked
            | Message::PauseBtnClicked => true,
            _ => false,
        }
    }

    /// The input moves the camera.
    pub open spec fn moves_camera(self) -> bool {
        self != Message::BoundsChanged && self != Message::CursorMoved
    }

    /// The input changes how many steps fit into a row.
    pub open spec fn changes_rows(self) -> bool {
        self == Message::ZoomAt || self == Message::ScrolledAxisY || self
            == Message::AxisYDoubleClicked
    }
}

/// An indicator of the heatmap.
#[derive(Debug, Clone, Copy, PartialEq, Eq, Structural)]
pub enum HeatmapIndicator {
    Volume,
}

/// The visual settings.
#[derive(Debug, Clone, Copy, PartialEq, Eq, Structural)]
pub struct VisualConfig {
    pub trade_size_filter: F32Bits,
    pub order_size_filter: F32Bits,
    pub trade_size_scale: Option<u32>,
}

impl VisualConfig {
    /// Two settings are the same, filters being compared as numbers.
    pub open spec fn same_as(self, other: VisualConfig) -> bool {
        &&& self.trade_size_filter.spec_equals(other.trade_size_filter)
        &&& self.order_size_filter.spec_equals(other.order_size_filter)
        &&& self.trade_size_scale == other.trade_size_scale
    }
}

/// What has to be done after the visual settings have been set.
#[derive(Debug, Clone, Copy, PartialEq, Eq, Structural)]
pub struct ConfigOutcome {
    /// The settings are other ones.
    pub changed: bool,
    /// The overlays are rebuilt.
    pub rebuild_overlays: bool,
}

impl HeatmapShader {
    /// Follows input of the user, once the camera has moved. A paused heatmap resumes where the
    /// live edge has come back on the screen; it is then rebuilt from history at once. A new size
    /// rebuilds everything at once, too.
    pub fn update(&mut self, message: Message, view: ViewFacts) -> (r: InputOutcome)
        requires
            old(self).wf(),
        ensures
            final(self).wf(),
            r.happened == message.happens(view),
            r.resumed == (r.happened && message.moves_in_time() && view.has_viewport
                && view.x0_visible && old(self).anchor is Paused),
            r.rebuild_all == (message == Message::BoundsChanged || r.resumed),
            r.rebuild_overlays == (r.happened && message.moves_camera()),
            r.check_y_bins == (r.happened && message.changes_rows()),
            *final(self) == (if message == Message::BoundsChanged {
                HeatmapShader {
                    rebuild_policy: RebuildPolicy::Immediate {
                        force_rebuild_from_historical: old(self).rebuild_policy.forces(),
                    },
                    ..*old(self)
                }
            } else if r.resumed {
                HeatmapShader {
                    anchor: old(self).anchor.resumed(),
                    rebuild_policy: forced_policy(),
                    ..*old(self)
                }
            } else {
                *old(self)
            }),
    {
        let nothing: InputOutcome = InputOutcome {
            happened: false,
            resumed: false,
            rebuild_all: false,
            rebuild_overlays: false,
            check_y_bins: false,
        };
        match message {
            Message::BoundsChanged => {
                self.bounds_changed();
                InputOutcome { happened: true, rebuild_all: true, ..nothing }
            },
            Message::CursorMoved => InputOutcome { happened: true, ..nothing },
            Message::ScrolledAxisY | Message::AxisYDoubleClicked => InputOutcome {
                happened: true,
                rebuild_overlays: true,
                check_y_bins: true,
                ..nothing
            },
            Message::PanDeltaPx | Message::ScrolledAxisX | Message::DragZoomAxisXKeepAnchor => {
                let resumed: bool = self.try_resume(view.has_viewport && view.x0_visible);
                InputOutcome {
                    happened: true,
                    resumed,
                    rebuild_all: resumed,
                    rebuild_overlays: true,
                    ..nothing
                }
            },
            Message::ZoomAt => {
                if !view.has_viewport || !view.can_zoom {
                    return nothing;
                }
                let resumed: bool = self.try_resume(view.x0_visible);
                InputOutcome {
                    happened: true,
                    resumed,
                    rebuild_all: resumed,
                    rebuild_overlays: true,
                    check_y_bins: true,
                }
            },
            Message::AxisXDoubleClicked | Message::PauseBtnClicked => {
                if !view.has_viewport {
                    return nothing;
                }
                let resumed: bool = self.try_resume(view.x0_visible);
                InputOutcome {
                    happened: true,
                    resumed,
                    rebuild_all: resumed,
                    rebuild_overlays: true,
                    ..nothing
                }
            },
        }
    }

    /// After all that `update` asked for has been rebuilt: unless the input resumed the heatmap,
    /// a full rebuild waits until the user has finished.
    pub fn finish_update(&mut self, message: Message, outcome: InputOutcome, now: u64)
        requires
            old(self).wf(),
        ensures
            final(self).wf(),
            *final(self) == (if outcome.happened && message.moves_camera() && !outcome.resumed {
                HeatmapShader {
                    rebuild_policy: RebuildPolicy::Debounced {
                        last_input: now,
                        force_rebuild_from_historical: old(self).rebuild_policy.forces(),
                    },
                    ..*old(self)
                }
            } else {
                *old(self)
            }),
    {
        let moves: bool = match message {
            Message::BoundsChanged | Message::CursorMoved => false,
            _ => true,
        };
        if outcome.happened && moves && !outcome.resumed {
            self.mark_input(now);
        }
    }

    /// The step between two rows of prices.
    pub fn tick_size(&self) -> (step: PriceStep)
        ensures
            step == self.step,
    {
        self.step
    }

    /// The visual settings.
    pub fn visual_config(&self) -> (config: VisualConfig)
        ensures
            config == self.config,
    {
        self.config
    }

    /// Sets the visual settings at `now`. Where the filter of the orders is another one, the ring
    /// is to be rebuilt from history once the user has finished.
    pub fn set_visual_config(&mut self, config: VisualConfig, now: u64) -> (r: ConfigOutcome)
        requires
            old(self).wf(),
        ensures
            final(self).wf(),
            ({
                let prev = old(self).config;
                let orders = prev.order_size_filter != config.order_size_filter;
                &&& r.changed == !prev.same_as(config)
                &&& r.rebuild_overlays == (r.changed && prev != config)
                &&& *final(self) == (if !r.changed {
                    *old(self)
                } else if orders {
                    HeatmapShader {
                        config,
                        data_gen: scene::next_gen(old(self).data_gen),
                        rebuild_policy: RebuildPolicy::Debounced {
                            last_input: now,
                            force_rebuild_from_historical: true,
                        },
                        ..*old(self)
                    }
                } else {
                    HeatmapShader { config, ..*old(self) }
                })
            }),
    {
        let prev: VisualConfig = self.config;
        let same_scale: bool = match (prev.trade_size_scale, config.trade_size_scale) {
            (Some(a), Some(b)) => a == b,
            (None, None) => true,
            _ => false,
        };
        if prev.trade_size_filter.equals(config.trade_size_filter) && prev.order_size_filter.equals(
            config.order_size_filter,
        ) && same_scale {
            return ConfigOutcome { changed: false, rebuild_overlays: false };
        }
        self.config = config;
        let orders: bool = prev.order_size_filter.bits != config.order_size_filter.bits;
        let trades: bool = prev.trade_size_filter.bits != config.trade_size_filter.bits
            || !same_scale;
        if orders {
            self.data_gen = self.data_gen.wrapping_add(1);
            self.rebuild_policy =
            self.rebuild_policy.request_rebuild_from_historical().mark_input(now);
        }
        ConfigOutcome { changed: true, rebuild_overlays: orders || trades }
    }

    /// Switches an indicator over.
    pub fn toggle_indicator(&mut self, indicator: HeatmapIndicator)
        requires
            old(self).wf(),
        ensures
            final(self).wf(),
            *final(self) == (HeatmapShader { indicators: final(self).indicators, ..*old(self) }),
            final(self).indicators@ == (if old(self).indicators@.contains(indicator) {
                old(self).indicators@.filter(|i: HeatmapIndicator| i != indicator)
            } else {
                old(self).indicators@.push(indicator)
            }),
    {
        let ghost p = |i: HeatmapIndicator| i != indicator;
        let mut kept: Vec<HeatmapIndicator> = Vec::new();
        let mut k: usize = 0;
        proof {
            math::lemma_filter_ends(self.indicators@, p);
        }
        while k < self.indicators.len()
            invariant
                k <= self.indicators@.len(),
                p == |i: HeatmapIndicator| i != indicator,
                kept@ == self.indicators@.take(k as int).filter(p),
                kept@.len() <= k,
                kept@.len() < k <==> self.indicators@.take(k as int).contains(indicator),
            decreases self.indicators@.len() - k,
        {
            proof {
                math::lemma_filter_step(self.indicators@, k as int, p);
                let shorter = self.indicators@.take(k as int);
                let longer = self.indicators@.take(k + 1);
                assert(longer[k as int] == self.indicators@[k as int]);
                if shorter.contains(indicator) {
                    let m = shorter.index_of(indicator);
                    assert(longer[m] == indicator);
                }
                if longer.contains(indicator) {
                    let m = longer.index_of(indicator);
                    assert(m < k ==> shorter[m] == indicator);
                }
            }
            let i: HeatmapIndicator = self.indicators[k];
            if i != indicator {
                kept.push(i);
            }
            k += 1;
        }
        proof {
            math::lemma_filter_ends(self.indicators@, p);
        }
        if kept.len() < self.indicators.len() {
            self.indicators = kept;
        } else {
            self.indicators.push(indicator);
        }
    }

    /// Whether the volume of the buckets is drawn.
    pub fn shows_volume(&self) -> (r: bool)
        ensures
            r == self.indicators@.contains(HeatmapIndicator::Volume),
    {
        let mut k: usize = 0;
        while k < self.indicators.len()
            invariant
                k <= self.indicators@.len(),
                forall|m: int|
                    0 <= m < k ==> #[trigger] self.indicators@[m] != HeatmapIndicator::Volume,
            decreases self.indicators@.len() - k,
        {
            if self.indicators[k] == HeatmapIndicator::Volume {
                return true;
            }
            k += 1;
        }
        false
    }

    /// The volume profile that is drawn: that of the first study.
    pub fn volume_profile(&self) -> (r: Option<ProfileKind>)
        ensures
            r == (if self.studies@.len() == 0 {
                None
            } else {
                match self.studies@[0] {
                    HeatmapStudy::VolumeProfile(kind) => Some(kind),
                }
            }),
    {
        if self.studies.len() == 0 {
            return None;
        }
        match self.studies[0] {
            HeatmapStudy::VolumeProfile(kind) => Some(kind),
        }
    }

    /// Switches a study on, unless one of its kind is on, or all of its kind off. Returns whether
    /// that changed anything, so that the overlays are rebuilt.
    pub fn toggle_study(&mut self, study: HeatmapStudy, selected: bool) -> (changed: bool)
        requires
            old(self).wf(),
        ensures
            final(self).wf(),
            *final(self) == (HeatmapShader { studies: final(self).studies, ..*old(self) }),
            selected ==> final(self).studies@ == (if study::has_kind(
                old(self).studies@,
                study::Study::spec_kind(&study),
            ) {
                old(self).studies@
            } else {
                old(self).studies@.push(study)
            }),
            !selected ==> final(self).studies@ == study::without_kind(
                old(self).studies@,
                study::Study::spec_kind(&study),
            ),
            changed == (study::has_kind(old(self).studies@, study::Study::spec_kind(&study))
                != selected),
    {
        toggle_study(&mut self.studies, study, selected)
    }

    /// Replaces the settings of a study that is on. Returns whether it was, so that the overlays
    /// are rebuilt.
    pub fn configure_study(&mut self, study: HeatmapStudy) -> (changed: bool)
        requires
            old(self).wf(),
        ensures
            final(self).wf(),
            *final(self) == (HeatmapShader { studies: final(self).studies, ..*old(self) }),
            changed == study::has_kind(old(self).studies@, study::Study::spec_kind(&study)),
            !changed ==> final(self).studies@ == old(self).studies@,
            changed ==> exists|i: int| #[trigger]
                study::is_first_of_kind(
                    old(self).studies@,
                    study::Study::spec_kind(&study),
                    i,
                ) && final(self).studies@ == old(self).studies@.update(i, study),
    {
        configure_study(&mut self.studies, study)
    }
}

} // verus!
