//! Where the heatmap looks: the live or paused anchor in time, when it is rebuilt, the estimate
//! of the exchange's clock, and the window of time and price that is shown.
use crate::heatmap::depth_grid;
use crate::math;
use crate::math::{div_to_zero, floor_div, u64_as_i64};
use crate::units::{Price, PriceStep};
use vstd::arithmetic::div_mod::*;
use vstd::prelude::*;

verus! {

/// How often the depth scale is recomputed at most while the user interacts.
pub const NORM_RECOMPUTE_THROTTLE_MS: u64 = 100;

/// A position within a bucket: `ms / aggr`, always below one.
#[derive(Debug, Clone, Copy, PartialEq, Eq, Structural)]
pub struct Phase {
    pub ms: u64,
    pub aggr: u64,
}

impl Phase {
    /// A fraction from zero up to `0.999999`.
    pub open spec fn wf(self) -> bool {
        self.aggr > 0 && self.ms * 1_000_000 <= self.aggr * 999_999
    }

    /// The start of a bucket.
    pub fn zero() -> (p: Phase)
        ensures
            p.wf(),
            p == (Phase { ms: 0, aggr: 1 }),
    {
        Phase { ms: 0, aggr: 1 }
    }

    /// `ms / aggr`, but no more than `0.999999`.
    pub open spec fn spec_of(ms: u64, aggr: u64) -> Phase {
        if ms * 1_000_000 > aggr * 999_999 {
            Phase { ms: 999_999, aggr: 1_000_000 }
        } else {
            Phase { ms, aggr }
        }
    }

    /// `ms / aggr`, but no more than `0.999999`.
    pub fn of(ms: u64, aggr: u64) -> (p: Phase)
        requires
            aggr > 0,
        ensures
            p == Phase::spec_of(ms, aggr),
            p.wf(),
    {
        if ms as u128 * 1_000_000 > aggr as u128 * 999_999 {
            Phase { ms: 999_999, aggr: 1_000_000 }
        } else {
            Phase { ms, aggr }
        }
    }

    /// The phase is further into its bucket than `other`.
    pub open spec fn is_after(self, other: Phase) -> bool {
        self.ms * other.aggr > other.ms * self.aggr
    }

    /// The phase that is further into its bucket.
    pub fn max(self, other: Phase) -> (p: Phase)
        requires
            self.wf(),
            other.wf(),
        ensures
            p.wf(),
            p == (if other.is_after(self) {
                other
            } else {
                self
            }),
    {
        proof {
            assert(self.ms * other.aggr <= 0xffff_ffff_ffff_ffff * 0xffff_ffff_ffff_ffff)
                by (nonlinear_arith)
                requires
                    self.ms <= 0xffff_ffff_ffff_ffff,
                    other.aggr <= 0xffff_ffff_ffff_ffff,
            ;
            assert(other.ms * self.aggr <= 0xffff_ffff_ffff_ffff * 0xffff_ffff_ffff_ffff)
                by (nonlinear_arith)
                requires
                    other.ms <= 0xffff_ffff_ffff_ffff,
                    self.aggr <= 0xffff_ffff_ffff_ffff,
            ;
        }
        if other.ms as u128 * self.aggr as u128 > self.ms as u128 * other.aggr as u128 {
            other
        } else {
            self
        }
    }
}

/// Whether the heatmap follows the market or stands still.
#[derive(Debug, Clone, Copy, PartialEq, Eq, Structural)]
pub enum Anchor {
    Live { scroll_ref_bucket: i64, render_latest_time: u64, x_phase_bucket: Phase },
    Paused {
        scroll_ref_bucket: i64,
        render_latest_time: u64,
        x_phase_bucket: Phase,
        frozen_base_price: Option<Price>,
    },
}

#[derive(Debug, Clone, Copy, PartialEq, Eq, Structural)]
pub enum FollowStateChange {
    Unchanged,
    PausedFromLive,
    ResumedToLive,
}

/// `t_ms` rounded down to the start of its bucket; a bucket lasts at least a millisecond.
pub open spec fn bucket_start(t_ms: int, aggr_time: int) -> int {
    (t_ms / math::max_int(aggr_time, 1)) * math::max_int(aggr_time, 1)
}

/// `t_ms` rounded down to the start of its bucket; a bucket lasts at least a millisecond.
pub fn round_time_to_bucket(t_ms: u64, aggr_time: u64) -> (r: u64)
    ensures
        r == bucket_start(t_ms as int, aggr_time as int),
        r <= t_ms,
        t_ms - r < math::max_int(aggr_time as int, 1),
{
    let aggr: u64 = if aggr_time > 1 {
        aggr_time
    } else {
        1
    };
    proof {
        lemma_bucket(t_ms as int, aggr as int);
    }
    (t_ms / aggr) * aggr
}

proof fn lemma_bucket(t: int, d: int)
    requires
        t >= 0,
        d > 0,
    ensures
        0 <= (t / d) * d <= t,
        t - (t / d) * d < d,
{
    lemma_fundamental_div_mod(t, d);
    lemma_mod_bound(t, d);
    lemma_div_pos_is_pos(t, d);
    assert((t / d) * d == d * (t / d)) by (nonlinear_arith);
    assert((t / d) * d >= 0) by (nonlinear_arith)
        requires
            t / d >= 0,
            d > 0,
    ;
}

impl Anchor {
    pub open spec fn wf(self) -> bool {
        self.spec_phase().wf()
    }

    pub open spec fn spec_time(self) -> u64 {
        match self {
            Anchor::Live { render_latest_time, .. } => render_latest_time,
            Anchor::Paused { render_latest_time, .. } => render_latest_time,
        }
    }

    pub open spec fn spec_phase(self) -> Phase {
        match self {
            Anchor::Live { x_phase_bucket, .. } => x_phase_bucket,
            Anchor::Paused { x_phase_bucket, .. } => x_phase_bucket,
        }
    }

    pub open spec fn spec_scroll_ref(self) -> i64 {
        match self {
            Anchor::Live { scroll_ref_bucket, .. } => scroll_ref_bucket,
            Anchor::Paused { scroll_ref_bucket, .. } => scroll_ref_bucket,
        }
    }

    pub fn is_paused(&self) -> (r: bool)
        ensures
            r == (*self is Paused),
    {
        match self {
            Anchor::Paused { .. } => true,
            Anchor::Live { .. } => false,
        }
    }

    pub fn scroll_ref_bucket(&self) -> (r: i64)
        ensures
            r == self.spec_scroll_ref(),
    {
        match self {
            Anchor::Live { scroll_ref_bucket, .. } => *scroll_ref_bucket,
            Anchor::Paused { scroll_ref_bucket, .. } => *scroll_ref_bucket,
        }
    }

    /// The anchor with its reference bucket set, unless it has one other than 0.
    pub open spec fn with_scroll_ref(self, v: i64) -> Anchor {
        if self.spec_scroll_ref() != 0 {
            self
        } else {
            match self {
                Anchor::Live { render_latest_time, x_phase_bucket, .. } => Anchor::Live {
                    scroll_ref_bucket: v,
                    render_latest_time,
                    x_phase_bucket,
                },
                Anchor::Paused {
                    render_latest_time,
                    x_phase_bucket,
                    frozen_base_price,
                    ..
                } => Anchor::Paused {
                    scroll_ref_bucket: v,
                    render_latest_time,
                    x_phase_bucket,
                    frozen_base_price,
                },
            }
        }
    }

    /// Sets the reference bucket, unless it is already other than 0.
    pub fn set_scroll_ref_bucket_if_zero(&mut self, v: i64)
        ensures
            *final(self) == old(self).with_scroll_ref(v),
    {
        let anchor: Anchor = *self;
        if anchor.scroll_ref_bucket() == 0 {
            *self = match anchor {
                Anchor::Live { render_latest_time, x_phase_bucket, .. } => Anchor::Live {
                    scroll_ref_bucket: v,
                    render_latest_time,
                    x_phase_bucket,
                },
                Anchor::Paused {
                    render_latest_time,
                    x_phase_bucket,
                    frozen_base_price,
                    ..
                } => Anchor::Paused {
                    scroll_ref_bucket: v,
                    render_latest_time,
                    x_phase_bucket,
                    frozen_base_price,
                },
            };
        }
    }

    pub fn render_latest_time(&self) -> (t: u64)
        ensures
            t == self.spec_time(),
    {
        match self {
            Anchor::Live { render_latest_time, .. } => *render_latest_time,
            Anchor::Paused { render_latest_time, .. } => *render_latest_time,
        }
    }

    pub fn x_phase_bucket(&self) -> (p: Phase)
        ensures
            p == self.spec_phase(),
    {
        match self {
            Anchor::Live { x_phase_bucket, .. } => *x_phase_bucket,
            Anchor::Paused { x_phase_bucket, .. } => *x_phase_bucket,
        }
    }

    /// A live anchor moved on to a bucket, never back, with the phase within it; a paused one
    /// stands still.
    pub open spec fn timed(self, bucketed: u64, phase: Phase) -> Anchor {
        match self {
            Anchor::Live { scroll_ref_bucket, render_latest_time, .. } => Anchor::Live {
                scroll_ref_bucket,
                render_latest_time: if bucketed > render_latest_time {
                    bucketed
                } else {
                    render_latest_time
                },
                x_phase_bucket: phase,
            },
            Anchor::Paused { .. } => self,
        }
    }

    /// Moves a live anchor on to a bucket, never back, with the phase within it.
    pub fn update_live_timing(&mut self, bucketed_time: u64, phase_bucket: Phase)
        requires
            old(self).wf(),
            phase_bucket.wf(),
        ensures
            *final(self) == old(self).timed(bucketed_time, phase_bucket),
            final(self).wf(),
    {
        let anchor: Anchor = *self;
        if let Anchor::Live { scroll_ref_bucket, render_latest_time, .. } = anchor {
            let later: u64 = if bucketed_time > render_latest_time {
                bucketed_time
            } else {
                render_latest_time
            };
            *self = Anchor::Live {
                scroll_ref_bucket,
                render_latest_time: later,
                x_phase_bucket: phase_bucket,
            };
        }
    }

    /// The time that is drawn. While paused it is no later than the data.
    pub fn effective_render_latest_time(&self, latest_time: u64) -> (t: u64)
        ensures
            t == (if *self is Paused && self.spec_time() > 0 && latest_time > 0 {
                math::min_int(self.spec_time() as int, latest_time as int)
            } else {
                self.spec_time() as int
            }),
    {
        let t: u64 = self.render_latest_time();
        if self.is_paused() && t > 0 && latest_time > 0 && latest_time < t {
            latest_time
        } else {
            t
        }
    }

    /// The base price that is drawn. While paused it is the one that was frozen.
    pub fn effective_base_price(&self, live_base_price: Option<Price>) -> (p: Option<Price>)
        ensures
            p == (match *self {
                Anchor::Live { .. } => live_base_price,
                Anchor::Paused { frozen_base_price, .. } => frozen_base_price,
            }),
    {
        match self {
            Anchor::Live { .. } => live_base_price,
            Anchor::Paused { frozen_base_price, .. } => *frozen_base_price,
        }
    }

    /// The anchor paused when the live edge leaves the screen, and live again when it returns.
    pub open spec fn followed(
        self,
        x0_visible: bool,
        live_time: u64,
        live_phase: Phase,
        base_price: Option<Price>,
    ) -> Anchor {
        match self {
            Anchor::Live { scroll_ref_bucket, render_latest_time, x_phase_bucket } =>
                if x0_visible {
                    self
                } else {
                    Anchor::Paused {
                        scroll_ref_bucket,
                        render_latest_time: if live_time > render_latest_time {
                            live_time
                        } else {
                            render_latest_time
                        },
                        x_phase_bucket: if x_phase_bucket.is_after(live_phase) {
                            x_phase_bucket
                        } else {
                            live_phase
                        },
                        frozen_base_price: base_price,
                    }
                },
            Anchor::Paused { .. } => if x0_visible {
                self.resumed()
            } else {
                self
            },
        }
    }

    /// The anchor live again, where it stood.
    pub open spec fn resumed(self) -> Anchor {
        Anchor::Live {
            scroll_ref_bucket: self.spec_scroll_ref(),
            render_latest_time: self.spec_time(),
            x_phase_bucket: self.spec_phase(),
        }
    }

    /// Pauses when the live edge leaves the screen, resumes when it returns, and says whether
    /// that changed anything.
    pub fn update_auto_follow(
        &mut self,
        x0_visible: bool,
        live_render_latest_time: u64,
        live_x_phase_bucket: Phase,
        current_base_price: Option<Price>,
    ) -> (changed: bool)
        requires
            old(self).wf(),
            live_x_phase_bucket.wf(),
        ensures
            *final(self) == old(self).followed(
                x0_visible,
                live_render_latest_time,
                live_x_phase_bucket,
                current_base_price,
            ),
            changed == (*old(self) is Live != x0_visible),
            final(self).wf(),
    {
        let anchor: Anchor = *self;
        match anchor {
            Anchor::Live { scroll_ref_bucket, render_latest_time, x_phase_bucket } => {
                if x0_visible {
                    return false;
                }
                let later: u64 = if live_render_latest_time > render_latest_time {
                    live_render_latest_time
                } else {
                    render_latest_time
                };
                *self = Anchor::Paused {
                    scroll_ref_bucket,
                    render_latest_time: later,
                    x_phase_bucket: live_x_phase_bucket.max(x_phase_bucket),
                    frozen_base_price: current_base_price,
                };
                true
            },
            Anchor::Paused { .. } => {
                if !x0_visible {
                    return false;
                }
                self.resume_to_live()
            },
        }
    }

    /// Resumes from a pause, and says whether there was one.
    pub fn resume_to_live(&mut self) -> (resumed: bool)
        ensures
            *final(self) == old(self).resumed(),
            resumed == (*old(self) is Paused),
    {
        let anchor: Anchor = *self;
        match anchor {
            Anchor::Paused { scroll_ref_bucket, render_latest_time, x_phase_bucket, .. } => {
                *self = Anchor::Live { scroll_ref_bucket, render_latest_time, x_phase_bucket };
                true
            },
            Anchor::Live { .. } => false,
        }
    }

    /// The time that a live anchor has reached once the clock shows `now`; that of a paused one
    /// is frozen.
    pub open spec fn live_time(self, now: u64, aggr: u64) -> u64 {
        match self {
            Anchor::Live { render_latest_time, .. } => if bucket_start(now as int, aggr as int)
                > render_latest_time {
                bucket_start(now as int, aggr as int) as u64
            } else {
                render_latest_time
            },
            Anchor::Paused { render_latest_time, .. } => render_latest_time,
        }
    }

    /// How far the clock is into the bucket of the live time.
    pub open spec fn live_phase(self, now: u64, aggr: u64) -> Phase {
        Phase::spec_of(
            math::max_int(now - self.live_time(now, aggr), 0) as u64,
            math::max_int(aggr as int, 1) as u64,
        )
    }

    /// The start of the clock's bucket, the live time and the phase within it.
    pub fn live_timing(&self, exchange_now_ms: u64, aggr_time: u64) -> (r: (u64, u64, Phase))
        requires
            self.wf(),
        ensures
            r.0 == bucket_start(exchange_now_ms as int, aggr_time as int),
            r.1 == self.live_time(exchange_now_ms, aggr_time),
            r.2 == self.live_phase(exchange_now_ms, aggr_time),
            r.2.wf(),
    {
        let aggr: u64 = if aggr_time > 1 {
            aggr_time
        } else {
            1
        };
        let bucketed: u64 = round_time_to_bucket(exchange_now_ms, aggr_time);
        let live: u64 = match self {
            Anchor::Live { render_latest_time, .. } => if bucketed > *render_latest_time {
                bucketed
            } else {
                *render_latest_time
            },
            Anchor::Paused { render_latest_time, .. } => *render_latest_time,
        };
        let phase_ms: u64 = exchange_now_ms.saturating_sub(live);
        (bucketed, live, Phase::of(phase_ms, aggr))
    }

    /// The anchor after one frame.
    pub open spec fn ticked(
        self,
        now: u64,
        aggr: u64,
        x0_visible: bool,
        base_price: Option<Price>,
    ) -> Anchor {
        let bucketed = bucket_start(now as int, aggr as int) as u64;
        let phase = self.live_phase(now, aggr);
        let timed = self.timed(bucketed, phase);
        let followed = timed.followed(x0_visible, self.live_time(now, aggr), phase, base_price);
        if self is Paused && x0_visible {
            followed.timed(bucketed, phase)
        } else {
            followed
        }
    }

    /// Moves a live anchor on with the clock, pauses or resumes by whether the live edge is on
    /// the screen, and aligns an anchor that has just resumed.
    pub fn tick_live_and_auto_follow(
        &mut self,
        exchange_now_ms: u64,
        aggr_time: u64,
        x0_visible: bool,
        current_base_price: Option<Price>,
    ) -> (change: FollowStateChange)
        requires
            old(self).wf(),
        ensures
            final(self).wf(),
            *final(self) == old(self).ticked(
                exchange_now_ms,
                aggr_time,
                x0_visible,
                current_base_price,
            ),
            change == (if *old(self) is Live && !x0_visible {
                FollowStateChange::PausedFromLive
            } else if *old(self) is Paused && x0_visible {
                FollowStateChange::ResumedToLive
            } else {
                FollowStateChange::Unchanged
            }),
    {
        let (bucketed, live, phase) = self.live_timing(exchange_now_ms, aggr_time);
        self.update_live_timing(bucketed, phase);
        let changed: bool = self.update_auto_follow(x0_visible, live, phase, current_base_price);
        if !changed {
            return FollowStateChange::Unchanged;
        }
        if self.is_paused() {
            FollowStateChange::PausedFromLive
        } else {
            self.update_live_timing(bucketed, phase);
            FollowStateChange::ResumedToLive
        }
    }

    /// Takes in a new mid price; it counts whether or not the heatmap is paused.
    pub fn apply_mid_price(&self, mid_rounded: Price, base_price: &mut Option<Price>)
        ensures
            *final(base_price) == Some(mid_rounded),
    {
        *base_price = Some(mid_rounded);
    }

    /// Sets the reference bucket if there is none yet, and returns it with the distance of
    /// `render_bucket` from it and the phase, which together are where the picture starts.
    pub fn sync_scroll_ref_and_origin_x(&mut self, render_bucket: i64) -> (r: (i64, i128, Phase))
        ensures
            *final(self) == old(self).with_scroll_ref(render_bucket),
            r.0 == final(self).spec_scroll_ref(),
            r.1 == render_bucket - r.0,
            r.2 == old(self).spec_phase(),
    {
        self.set_scroll_ref_bucket_if_zero(render_bucket);
        let scroll_ref: i64 = self.scroll_ref_bucket();
        (scroll_ref, render_bucket as i128 - scroll_ref as i128, self.x_phase_bucket())
    }
}

impl Default for Anchor {
    fn default() -> (a: Anchor)
        ensures
            a == (Anchor::Live {
                scroll_ref_bucket: 0,
                render_latest_time: 0,
                x_phase_bucket: Phase { ms: 0, aggr: 1 },
            }),
    {
        Anchor::Live {
            scroll_ref_bucket: 0,
            render_latest_time: 0,
            x_phase_bucket: Phase { ms: 0, aggr: 1 },
        }
    }
}

/// The time that is drawn never goes back, whatever the clock and the screen do.
pub proof fn drawn_time_never_goes_back(
    anchor: Anchor,
    now: u64,
    aggr: u64,
    x0_visible: bool,
    base_price: Option<Price>,
)
    ensures
        anchor.ticked(now, aggr, x0_visible, base_price).spec_time() >= anchor.spec_time(),
{
}

/// While paused, and the live edge stays off the screen, nothing of the anchor changes.
pub proof fn paused_anchor_stands_still(
    anchor: Anchor,
    now: u64,
    aggr: u64,
    base_price: Option<Price>,
)
    requires
        anchor is Paused,
    ensures
        anchor.ticked(now, aggr, false, base_price) == anchor,
{
}

/// A live anchor whose edge stays on the screen follows the clock to the start of its bucket.
pub proof fn live_anchor_follows_the_clock(
    anchor: Anchor,
    now: u64,
    aggr: u64,
    base_price: Option<Price>,
)
    requires
        anchor is Live,
        anchor.spec_time() <= bucket_start(now as int, aggr as int),
        bucket_start(now as int, aggr as int) <= now,
    ensures
        anchor.ticked(now, aggr, true, base_price).spec_time() == bucket_start(
            now as int,
            aggr as int,
        ),
{
}

/// When the heatmap is rebuilt. Times are nanoseconds of a clock that does not go back.
#[derive(Debug, Clone, Copy, PartialEq, Eq, Structural)]
pub enum RebuildPolicy {
    /// At once.
    Immediate { force_rebuild_from_historical: bool },
    /// Once the user has left it alone for a while.
    Debounced { last_input: u64, force_rebuild_from_historical: bool },
    /// Not at all.
    Idle,
}

/// The milliseconds from `since` to `now`, or 0 where `since` is later.
pub open spec fn elapsed_ms(now: u64, since: u64) -> int {
    math::max_int(now - since, 0) / 1_000_000
}

/// The milliseconds from `since` to `now`, or 0 where `since` is later.
pub fn millis_between(now: u64, since: u64) -> (r: u64)
    ensures
        r == elapsed_ms(now, since),
{
    now.saturating_sub(since) / 1_000_000
}

impl RebuildPolicy {
    pub fn immediate() -> (p: RebuildPolicy)
        ensures
            p == (RebuildPolicy::Immediate { force_rebuild_from_historical: false }),
    {
        RebuildPolicy::Immediate { force_rebuild_from_historical: false }
    }

    /// The rebuild is to be made from history.
    pub open spec fn forces(self) -> bool {
        match self {
            RebuildPolicy::Immediate { force_rebuild_from_historical } =>
                force_rebuild_from_historical,
            RebuildPolicy::Debounced { force_rebuild_from_historical, .. } =>
                force_rebuild_from_historical,
            RebuildPolicy::Idle => false,
        }
    }

    /// Rebuilds at once; what was to be made from history still is.
    pub fn promote_to_immediate(self) -> (p: RebuildPolicy)
        ensures
            p == (RebuildPolicy::Immediate { force_rebuild_from_historical: self.forces() }),
    {
        match self {
            RebuildPolicy::Idle => RebuildPolicy::immediate(),
            RebuildPolicy::Immediate { force_rebuild_from_historical } => RebuildPolicy::Immediate {
                force_rebuild_from_historical,
            },
            RebuildPolicy::Debounced { force_rebuild_from_historical, .. } =>
                RebuildPolicy::Immediate { force_rebuild_from_historical },
        }
    }

    /// Asks for the next rebuild to be made from history; an idle heatmap rebuilds at once.
    pub fn request_rebuild_from_historical(self) -> (p: RebuildPolicy)
        ensures
            p == (match self {
                RebuildPolicy::Debounced { last_input, .. } => RebuildPolicy::Debounced {
                    last_input,
                    force_rebuild_from_historical: true,
                },
                _ => RebuildPolicy::Immediate { force_rebuild_from_historical: true },
            }),
    {
        match self {
            RebuildPolicy::Debounced { last_input, .. } => RebuildPolicy::Debounced {
                last_input,
                force_rebuild_from_historical: true,
            },
            _ => RebuildPolicy::Immediate { force_rebuild_from_historical: true },
        }
    }

    /// Whether the next rebuild is to be made from history; that is then used up.
    pub fn take_force_rebuild_from_historical(&mut self) -> (force: bool)
        ensures
            force == old(self).forces(),
            *final(self) == (match *old(self) {
                RebuildPolicy::Immediate { .. } => RebuildPolicy::Immediate {
                    force_rebuild_from_historical: false,
                },
                RebuildPolicy::Debounced { last_input, .. } => RebuildPolicy::Debounced {
                    last_input,
                    force_rebuild_from_historical: false,
                },
                RebuildPolicy::Idle => RebuildPolicy::Idle,
            }),
    {
        let policy: RebuildPolicy = *self;
        match policy {
            RebuildPolicy::Immediate { force_rebuild_from_historical } => {
                *self = RebuildPolicy::Immediate { force_rebuild_from_historical: false };
                force_rebuild_from_historical
            },
            RebuildPolicy::Debounced { last_input, force_rebuild_from_historical } => {
                *self = RebuildPolicy::Debounced {
                    last_input,
                    force_rebuild_from_historical: false,
                };
                force_rebuild_from_historical
            },
            RebuildPolicy::Idle => false,
        }
    }

    /// The user has done something at `now`: the rebuild waits.
    pub fn mark_input(self, now: u64) -> (p: RebuildPolicy)
        ensures
            p == (RebuildPolicy::Debounced {
                last_input: now,
                force_rebuild_from_historical: self.forces(),
            }),
    {
        let force: bool = match self {
            RebuildPolicy::Immediate { force_rebuild_from_historical } =>
                force_rebuild_from_historical,
            RebuildPolicy::Debounced { force_rebuild_from_historical, .. } =>
                force_rebuild_from_historical,
            RebuildPolicy::Idle => false,
        };
        RebuildPolicy::Debounced { last_input: now, force_rebuild_from_historical: force }
    }

    /// Whether the user is interacting, whether to rebuild now, and the policy afterwards.
    pub open spec fn spec_decide(self, now: u64, debounce_ms: u64) -> (bool, bool, RebuildPolicy) {
        match self {
            RebuildPolicy::Immediate { .. } => (false, true, RebuildPolicy::Idle),
            RebuildPolicy::Idle => (false, false, RebuildPolicy::Idle),
            RebuildPolicy::Debounced { last_input, .. } => if elapsed_ms(now, last_input)
                >= debounce_ms {
                (true, true, RebuildPolicy::Idle)
            } else {
                (true, false, self)
            },
        }
    }

    /// Whether the user is interacting, whether to rebuild now, and the policy afterwards.
    pub fn decide(self, now: u64, debounce_ms: u64) -> (r: (bool, bool, RebuildPolicy))
        ensures
            r == self.spec_decide(now, debounce_ms),
    {
        match self {
            RebuildPolicy::Immediate { .. } => (false, true, RebuildPolicy::Idle),
            RebuildPolicy::Idle => (false, false, RebuildPolicy::Idle),
            RebuildPolicy::Debounced { last_input, .. } => if millis_between(now, last_input)
                >= debounce_ms {
                (true, true, RebuildPolicy::Idle)
            } else {
                (true, false, self)
            },
        }
    }
}

impl Default for RebuildPolicy {
    fn default() -> (p: RebuildPolicy)
        ensures
            p == RebuildPolicy::Idle,
    {
        RebuildPolicy::Idle
    }
}

/// An estimate of the exchange's clock, in milliseconds. Instants are nanoseconds of a clock
/// that does not go back.
#[derive(Debug, Clone, Copy, PartialEq, Eq, Structural)]
pub enum ExchangeClock {
    Uninit,
    Anchored { anchor_exchange_ms: u64, anchor_instant: u64, monotonic_estimate_ms: u64 },
}

impl ExchangeClock {
    /// What the clock is estimated to show at `now`.
    pub open spec fn estimate(self, now: u64) -> Option<int> {
        match self {
            ExchangeClock::Uninit => None,
            ExchangeClock::Anchored {
                anchor_exchange_ms,
                anchor_instant,
                monotonic_estimate_ms,
            } => Some(
                math::max_int(
                    math::min_int(
                        anchor_exchange_ms + elapsed_ms(now, anchor_instant),
                        u64::MAX as int,
                    ),
                    monotonic_estimate_ms as int,
                ),
            ),
        }
    }

    /// Sets the clock by an update of the exchange that was stamped `depth_update_t` and came at
    /// `now`. The clock is never set back.
    pub fn anchor_with_update(self, depth_update_t: u64, now: u64) -> (c: ExchangeClock)
        ensures
            c == anchored(self, depth_update_t, now),
            ({
                let t = math::max_int(
                    depth_update_t as int,
                    match self.estimate(now) {
                        Some(e) => e,
                        None => 0,
                    },
                ) as u64;
                c == (ExchangeClock::Anchored {
                    anchor_exchange_ms: t,
                    anchor_instant: now,
                    monotonic_estimate_ms: t,
                })
            }),
    {
        let predicted: u64 = match self.estimate_now_ms(now) {
            Some(e) => e,
            None => 0,
        };
        let t: u64 = if depth_update_t > predicted {
            depth_update_t
        } else {
            predicted
        };
        ExchangeClock::Anchored {
            anchor_exchange_ms: t,
            anchor_instant: now,
            monotonic_estimate_ms: t,
        }
    }

    /// What the clock is estimated to show at `now`; nothing before the first update.
    pub fn estimate_now_ms(self, now: u64) -> (r: Option<u64>)
        ensures
            match r {
                Some(t) => self.estimate(now) == Some(t as int),
                None => self.estimate(now) is None,
            },
    {
        match self {
            ExchangeClock::Uninit => None,
            ExchangeClock::Anchored {
                anchor_exchange_ms,
                anchor_instant,
                monotonic_estimate_ms,
            } => {
                let t: u64 = anchor_exchange_ms.saturating_add(millis_between(now, anchor_instant));
                if t > monotonic_estimate_ms {
                    Some(t)
                } else {
                    Some(monotonic_estimate_ms)
                }
            },
        }
    }
}

/// The clock after an update of the exchange.
pub open spec fn anchored(clock: ExchangeClock, depth_update_t: u64, now: u64) -> ExchangeClock {
    let t = math::max_int(
        depth_update_t as int,
        match clock.estimate(now) {
            Some(e) => e,
            None => 0,
        },
    ) as u64;
    ExchangeClock::Anchored { anchor_exchange_ms: t, anchor_instant: now, monotonic_estimate_ms: t }
}

/// As time passes the estimate never goes back, and an update never sets it back.
pub proof fn exchange_clock_never_goes_back(
    clock: ExchangeClock,
    depth_update_t: u64,
    then: u64,
    now: u64,
)
    requires
        then <= now,
        clock is Anchored,
    ensures
        clock.estimate(then)->0 <= clock.estimate(now)->0,
        clock.estimate(now)->0 <= anchored(clock, depth_update_t, now).estimate(now)->0,
{
    if let ExchangeClock::Anchored { anchor_instant, .. } = clock {
        lemma_div_is_ordered(
            math::max_int(then - anchor_instant, 0),
            math::max_int(now - anchor_instant, 0),
            1_000_000,
        );
        lemma_div_pos_is_pos(math::max_int(now - anchor_instant, 0), 1_000_000);
    }
}

/// The latest time less `aggr` for each bucket that lies to the left; never below zero.
pub open spec fn bucket_time(latest: int, bucket: int, aggr: int) -> int {
    if bucket >= 0 {
        latest
    } else {
        math::max_int(latest + bucket * aggr, 0)
    }
}

fn clamp_bucket_time(latest: u64, bucket: i64, aggr: u64) -> (t: u64)
    ensures
        t == bucket_time(latest as int, bucket as int, aggr as int),
{
    if bucket >= 0 {
        return latest;
    }
    let back: u64 = (-(bucket as i128)) as u64;
    proof {
        assert(back * aggr == -(bucket * aggr)) by (nonlinear_arith)
            requires
                back == -bucket,
        ;
        assert(0 <= back * aggr <= 0xffff_ffff_ffff_ffff * 0xffff_ffff_ffff_ffff)
            by (nonlinear_arith)
            requires
                0 <= back <= 0xffff_ffff_ffff_ffff,
                0 <= aggr <= 0xffff_ffff_ffff_ffff,
        ;
    }
    let span: u128 = back as u128 * aggr as u128;
    if span > latest as u128 {
        0
    } else {
        latest - span as u64
    }
}

/// The stretch of time that is drawn: the buckets that are visible with two more on either
/// side, up to the later of the two latest times; none where it is empty.
pub open spec fn time_window(
    aggr: u64,
    latest_data: u64,
    latest_render: u64,
    bucket_min: i64,
    bucket_max: i64,
) -> Option<(int, int)> {
    let latest = math::max_int(latest_data as int, latest_render as int);
    let earliest = bucket_time(
        latest,
        math::max_int(bucket_min - 2, i64::MIN as int),
        aggr as int,
    );
    let end = bucket_time(latest, math::min_int(bucket_max + 2, i64::MAX as int), aggr as int);
    if aggr == 0 || latest_data == 0 || earliest >= end {
        None
    } else {
        Some((earliest, end))
    }
}

/// The stretch of time that is drawn, from the buckets at the edges of the screen.
pub fn compute_time_window(
    aggr_time: u64,
    latest_time_data: u64,
    latest_time_render: u64,
    bucket_min_strict: i64,
    bucket_max_strict: i64,
) -> (r: Option<(u64, u64)>)
    ensures
        match r {
            Some((earliest, end)) => time_window(
                aggr_time,
                latest_time_data,
                latest_time_render,
                bucket_min_strict,
                bucket_max_strict,
            ) == Some((earliest as int, end as int)),
            None => time_window(
                aggr_time,
                latest_time_data,
                latest_time_render,
                bucket_min_strict,
                bucket_max_strict,
            ) is None,
        },
{
    if aggr_time == 0 || latest_time_data == 0 {
        return None;
    }
    let latest: u64 = if latest_time_render > latest_time_data {
        latest_time_render
    } else {
        latest_time_data
    };
    let bucket_min: i64 = if bucket_min_strict >= i64::MIN + 2 {
        bucket_min_strict - 2
    } else {
        i64::MIN
    };
    let bucket_max: i64 = if bucket_max_strict <= i64::MAX - 2 {
        bucket_max_strict + 2
    } else {
        i64::MAX
    };
    let earliest: u64 = clamp_bucket_time(latest, bucket_min, aggr_time);
    let end: u64 = clamp_bucket_time(latest, bucket_max, aggr_time);
    if earliest >= end {
        return None;
    }
    Some((earliest, end))
}

/// How many price steps share a row: `wanted`, but at least one and at most the limit. Where
/// there is no telling how high a step is, `wanted` is `None`.
pub fn clamp_steps_per_y_bin(wanted: Option<i64>, max_steps_per_y_bin: i64) -> (r: i64)
    ensures
        r == (match wanted {
            None => 1,
            Some(n) => math::min_int(
                math::max_int(n as int, 1),
                math::max_int(max_steps_per_y_bin as int, 1),
            ),
        }),
        r >= 1,
{
    let limit: i64 = if max_steps_per_y_bin > 1 {
        max_steps_per_y_bin
    } else {
        1
    };
    match wanted {
        None => 1,
        Some(n) => if n < 1 {
            1
        } else if n > limit {
            limit
        } else {
            n
        },
    }
}

fn saturate(v: i128) -> (r: i64)
    ensures
        r == math::min_int(math::max_int(v as int, i64::MIN as int), i64::MAX as int),
{
    if v > i64::MAX as i128 {
        i64::MAX
    } else if v < i64::MIN as i128 {
        i64::MIN
    } else {
        v as i64
    }
}

fn bins_between(price: Price, anchor: Price, step_units: i64, steps: i64) -> (r: i128)
    requires
        step_units >= 1,
        steps >= 1,
    ensures
        r == depth_grid::delta_bins(
            price.units as int,
            anchor.units as int,
            step_units as int,
            steps as int,
        ),
        -0x1_0000_0000_0000_0000 <= r <= 0x1_0000_0000_0000_0000,
{
    let delta: i128 = price.units as i128 - anchor.units as i128;
    let delta_steps: i128 = floor_div(delta, step_units);
    div_to_zero(delta_steps, steps)
}

/// The row of `price` counted from that of `base`, binned as the texture is: both prices are
/// binned against the texture's anchor, where it has one.
pub open spec fn aligned_bin(
    price: int,
    base: int,
    step_units: int,
    steps: int,
    anchor: Option<int>,
) -> int {
    match anchor {
        Some(a) => depth_grid::delta_bins(price, a, step_units, steps) - depth_grid::delta_bins(
            base,
            a,
            step_units,
            steps,
        ),
        None => depth_grid::delta_bins(price, base, step_units, steps),
    }
}

/// The row of `price` counted from that of `base_price`, binned as the texture is, as far as it
/// can be written down.
pub fn y_bin_for_price_texture_aligned(
    price: Price,
    base_price: Price,
    step: PriceStep,
    steps_per_y_bin: i64,
    y_anchor: Option<Price>,
) -> (r: i64)
    ensures
        ({
            let bin = aligned_bin(
                price.units as int,
                base_price.units as int,
                step.units as int,
                steps_per_y_bin as int,
                match y_anchor {
                    Some(a) => Some(a.units as int),
                    None => None,
                },
            );
            r == math::min_int(math::max_int(bin, i64::MIN as int), i64::MAX as int)
        }),
{
    let step_units: i64 = if step.units > 1 {
        step.units
    } else {
        1
    };
    let steps: i64 = if steps_per_y_bin > 1 {
        steps_per_y_bin
    } else {
        1
    };
    match y_anchor {
        Some(anchor) => {
            let price_bins: i128 = bins_between(price, anchor, step_units, steps);
            let base_bins: i128 = bins_between(base_price, anchor, step_units, steps);
            saturate(price_bins - base_bins)
        },
        None => saturate(bins_between(price, base_price, step_units, steps)),
    }
}

/// The row of the base price is row 0, whatever the texture's anchor is.
pub proof fn base_price_is_row_zero(base: int, step_units: int, steps: int, anchor: Option<int>)
    ensures
        aligned_bin(base, base, step_units, steps, anchor) == 0,
{
    if anchor is None {
        assert(0int / math::max_int(step_units, 1) == 0) by {
            lemma_div_basics(math::max_int(step_units, 1));
        }
        assert(0int / math::max_int(steps, 1) == 0) by {
            lemma_div_basics(math::max_int(steps, 1));
        }
    }
}

/// What the depth scale depends on: the buckets and rows that are visible, and the size filter
/// by its bits.
#[derive(Debug, Clone, Copy, PartialEq, Eq, Structural)]
pub struct NormKey {
    pub start_bucket: i64,
    pub end_bucket_excl: i64,
    pub y0_bin: i64,
    pub y1_bin: i64,
    pub order_filter_bits: u32,
}

/// The row of a price, counted from price zero.
pub open spec fn absolute_bin(units: int, step_units: int, steps: int) -> int {
    math::trunc_div(units, math::max_int(step_units, 1)) / math::max_int(steps, 1)
}

/// The end of the bucket of `t`, counted in buckets.
pub open spec fn bucket_end(t: int, aggr: int) -> int {
    if t % aggr == 0 {
        t / aggr
    } else {
        t / aggr + 1
    }
}

fn price_bin(p: Price, step: PriceStep, steps_per_y_bin: i64) -> (r: i64)
    ensures
        r == absolute_bin(p.units as int, step.units as int, steps_per_y_bin as int),
{
    let step_units: i64 = if step.units > 1 {
        step.units
    } else {
        1
    };
    let steps: i64 = if steps_per_y_bin > 1 {
        steps_per_y_bin
    } else {
        1
    };
    let in_steps: i128 = div_to_zero(p.units as i128, step_units);
    let r: i128 = floor_div(in_steps, steps);
    proof {
        if in_steps < 0 {
            math::lemma_div_magnitude(in_steps as int, steps as int);
            lemma_div_is_ordered(in_steps as int, 0, steps as int);
            lemma_div_basics(steps as int);
        }
        lemma_trunc_bounds(p.units as int, step_units as int);
        lemma_div_keeps_lower_bound(in_steps as int, steps as int, i64::MIN as int);
        lemma_div_keeps_upper_bound(in_steps as int, steps as int, i64::MAX as int);
    }
    r as i64
}

proof fn lemma_trunc_bounds(a: int, b: int)
    requires
        b > 0,
        i64::MIN <= a <= i64::MAX,
    ensures
        i64::MIN <= math::trunc_div(a, b) <= i64::MAX,
{
    math::lemma_div_magnitude(a, b);
    math::lemma_div_magnitude(-a, b);
}

proof fn lemma_div_keeps_lower_bound(a: int, b: int, lo: int)
    requires
        b > 0,
        lo <= 0,
        lo <= a,
    ensures
        lo <= a / b,
{
    if a >= 0 {
        lemma_div_pos_is_pos(a, b);
    } else {
        assert(a <= a / b) by (nonlinear_arith)
            requires
                a < 0,
                b > 0,
        ;
    }
}

proof fn lemma_div_keeps_upper_bound(a: int, b: int, hi: int)
    requires
        b > 0,
        hi >= 0,
        a <= hi,
    ensures
        a / b <= hi,
{
    if a >= 0 {
        math::lemma_div_magnitude(a, b);
    } else {
        assert(a / b <= 0) by (nonlinear_arith)
            requires
                a < 0,
                b > 0,
        ;
    }
}

impl NormKey {
    /// The key for what is visible. The filter is not negative.
    pub fn new(
        aggr_time: u64,
        earliest: u64,
        latest_incl: u64,
        lowest: Price,
        highest: Price,
        step: PriceStep,
        steps_per_y_bin: i64,
        order_filter_bits: u32,
    ) -> (k: NormKey)
        ensures
            ({
                let aggr = math::max_int(aggr_time as int, 1);
                let a = absolute_bin(lowest.units as int, step.units as int, steps_per_y_bin as int);
                let b = absolute_bin(
                    highest.units as int,
                    step.units as int,
                    steps_per_y_bin as int,
                );
                &&& k.start_bucket == math::wrap_i64(earliest as int / aggr)
                &&& k.end_bucket_excl == math::wrap_i64(bucket_end(latest_incl as int, aggr))
                &&& k.y0_bin == math::min_int(a, b)
                &&& k.y1_bin == math::max_int(a, b)
                &&& k.order_filter_bits == order_filter_bits
            }),
    {
        let aggr: u64 = if aggr_time > 1 {
            aggr_time
        } else {
            1
        };
        let start_bucket: i64 = u64_as_i64(earliest / aggr);
        proof {
            lemma_fundamental_div_mod(latest_incl as int, aggr as int);
            lemma_mod_bound(latest_incl as int, aggr as int);
            if aggr == 1 {
                lemma_div_basics(latest_incl as int);
                assert(latest_incl as int % 1 == 0);
            } else {
                assert(latest_incl as int / aggr as int <= latest_incl / 2) by (nonlinear_arith)
                    requires
                        aggr >= 2,
                        latest_incl >= 0,
                ;
            }
        }
        let whole: u64 = latest_incl / aggr;
        let end: u64 = if latest_incl % aggr == 0 {
            whole
        } else {
            whole + 1
        };
        let end_bucket_excl: i64 = u64_as_i64(end);
        let a: i64 = price_bin(lowest, step, steps_per_y_bin);
        let b: i64 = price_bin(highest, step, steps_per_y_bin);
        let (y0_bin, y1_bin) = if a > b {
            (b, a)
        } else {
            (a, b)
        };
        NormKey { start_bucket, end_bucket_excl, y0_bin, y1_bin, order_filter_bits }
    }
}

/// The depth scale of the last frames, so that it is not computed for every one. The scale is
/// held by its bits; instants are nanoseconds of a clock that does not go back.
#[derive(Debug, Clone, Copy, PartialEq, Eq, Structural)]
pub struct DepthNormCache {
    pub key: Option<NormKey>,
    pub value_bits: u32,
    pub generation: u64,
    pub last_recompute: Option<u64>,
}

/// The bits of the scale 1.
pub const ONE_BITS: u32 = 0x3f80_0000;

impl DepthNormCache {
    pub fn new() -> (c: DepthNormCache)
        ensures
            c == (DepthNormCache {
                key: None,
                value_bits: ONE_BITS,
                generation: 0,
                last_recompute: None,
            }),
    {
        DepthNormCache { key: None, value_bits: ONE_BITS, generation: 0, last_recompute: None }
    }

    /// The cached scale is too young to be looked at again.
    pub open spec fn throttled(
        self,
        key: NormKey,
        now: u64,
        is_interacting: bool,
        aggr_time: u64,
    ) -> bool {
        &&& self.key == Some(key)
        &&& self.last_recompute matches Some(last) && elapsed_ms(now, last) < (
        if is_interacting {
            NORM_RECOMPUTE_THROTTLE_MS as int
        } else {
            math::max_int(aggr_time as int, 1)
        })
    }

    /// Whether the cached scale serves; if not, it is to be computed and stored. Data of
    /// generation `data_gen` never has to be looked at twice for one key.
    pub fn lookup(
        &mut self,
        key: NormKey,
        data_gen: u64,
        now: u64,
        is_interacting: bool,
        aggr_time: u64,
    ) -> (serves: bool)
        ensures
            serves == (old(self).throttled(key, now, is_interacting, aggr_time) || (old(self).key
                == Some(key) && old(self).generation == data_gen)),
            *final(self) == (DepthNormCache {
                last_recompute: if old(self).throttled(key, now, is_interacting, aggr_time) {
                    old(self).last_recompute
                } else {
                    Some(now)
                },
                ..*old(self)
            }),
    {
        let same_key: bool = match self.key {
            Some(k) => k == key,
            None => false,
        };
        let throttle_ms: u64 = if is_interacting {
            NORM_RECOMPUTE_THROTTLE_MS
        } else if aggr_time > 1 {
            aggr_time
        } else {
            1
        };
        let young: bool = match self.last_recompute {
            Some(last) => millis_between(now, last) < throttle_ms,
            None => false,
        };
        if same_key && young {
            return true;
        }
        self.last_recompute = Some(now);
        same_key && self.generation == data_gen
    }

    /// Stores a scale that has been computed.
    pub fn store(&mut self, key: NormKey, value_bits: u32, data_gen: u64)
        ensures
            *final(self) == (DepthNormCache {
                key: Some(key),
                value_bits,
                generation: data_gen,
                last_recompute: old(self).last_recompute,
            }),
    {
        self.key = Some(key);
        self.value_bits = value_bits;
        self.generation = data_gen;
    }
}

} // verus!
