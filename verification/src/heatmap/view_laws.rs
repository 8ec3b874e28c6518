//! What holds of where the heatmap looks, said of clocks, buckets and prices: times lie in their
//! buckets, the anchor pauses and catches up, rebuilds wait and then happen, and the clock runs on.
use crate::heatmap::view;
use crate::heatmap::view::{Anchor, DepthNormCache, ExchangeClock, NormKey, RebuildPolicy};
use crate::math;
use crate::units::Price;
use vstd::arithmetic::div_mod::*;
use vstd::prelude::*;

verus! {

/// A time between the start of bucket `b` and that of the next lies in bucket `b`.
pub proof fn times_lie_in_their_buckets(t: int, aggr: int, b: int)
    requires
        aggr > 0,
        b * aggr <= t < (b + 1) * aggr,
    ensures
        view::bucket_start(t, aggr) == b * aggr,
{
    assert((b + 1) * aggr == b * aggr + aggr) by (nonlinear_arith);
    lemma_fundamental_div_mod_converse(t, aggr, b, t - b * aggr);
}

proof fn lemma_start(t: int, aggr: int)
    requires
        t >= 0,
        aggr >= 0,
    ensures
        0 <= view::bucket_start(t, aggr) <= t,
{
    let d = math::max_int(aggr, 1);
    lemma_fundamental_div_mod(t, d);
    lemma_mod_bound(t, d);
    lemma_div_pos_is_pos(t, d);
    assert((t / d) * d == d * (t / d)) by (nonlinear_arith);
    assert((t / d) * d >= 0) by (nonlinear_arith)
        requires
            t / d >= 0,
            d > 0,
    ;
}

/// A frame neither moves nor forgets the bucket that the picture is scrolled against.
pub proof fn frames_keep_the_scroll_reference(
    anchor: Anchor,
    now: u64,
    aggr: u64,
    x0_visible: bool,
    base_price: Option<Price>,
)
    ensures
        anchor.ticked(now, aggr, x0_visible, base_price).spec_scroll_ref()
            == anchor.spec_scroll_ref(),
        anchor.ticked(now, aggr, x0_visible, base_price) is Live <==> x0_visible,
{
}

/// When the live edge leaves the screen, the price that is drawn then is frozen, and the time is
/// that of the clock's bucket, or the one that was already drawn where that is later.
pub proof fn leaving_the_edge_freezes_the_picture(
    anchor: Anchor,
    now: u64,
    aggr: u64,
    base_price: Option<Price>,
)
    requires
        anchor is Live,
    ensures
        ({
            let after = anchor.ticked(now, aggr, false, base_price);
            &&& after matches Anchor::Paused { frozen_base_price, .. } && frozen_base_price
                == base_price
            &&& after.spec_time() >= view::bucket_start(now as int, aggr as int)
            &&& after.spec_time() >= anchor.spec_time()
            &&& after.spec_time() == view::bucket_start(now as int, aggr as int)
                || after.spec_time() == anchor.spec_time()
        }),
{
    lemma_start(now as int, aggr as int);
}

/// When the live edge comes back, the picture catches up with the clock.
pub proof fn returning_to_the_edge_catches_up(
    anchor: Anchor,
    now: u64,
    aggr: u64,
    base_price: Option<Price>,
)
    requires
        anchor is Paused,
    ensures
        ({
            let after = anchor.ticked(now, aggr, true, base_price);
            &&& after is Live
            &&& after.spec_time() >= view::bucket_start(now as int, aggr as int)
            &&& after.spec_time() >= anchor.spec_time()
            &&& after.spec_time() == view::bucket_start(now as int, aggr as int)
                || after.spec_time() == anchor.spec_time()
        }),
{
    lemma_start(now as int, aggr as int);
}

/// The phase of a live anchor is how far the clock is into the bucket that it has reached, as a
/// part of the bucket, and never quite the whole.
pub proof fn phase_is_the_part_of_the_bucket(anchor: Anchor, now: u64, aggr: u64)
    requires
        anchor is Live,
        aggr > 0,
        anchor.spec_time() <= view::bucket_start(now as int, aggr as int),
    ensures
        ({
            let into = now - view::bucket_start(now as int, aggr as int);
            let phase = anchor.live_phase(now, aggr);
            if into * 1_000_000 <= aggr * 999_999 {
                phase.ms == into && phase.aggr == aggr
            } else {
                phase.ms == 999_999 && phase.aggr == 1_000_000
            }
        }),
{
    lemma_start(now as int, aggr as int);
}

/// So many whole milliseconds have passed just if so many million nanoseconds have.
pub proof fn milliseconds_are_whole(now: u64, since: u64, ms: int)
    requires
        since <= now,
    ensures
        view::elapsed_ms(now, since) >= ms <==> now - since >= ms * 1_000_000,
{
    lemma_fundamental_div_mod(now - since, 1_000_000);
    lemma_mod_bound(now - since, 1_000_000);
}

/// A rebuild happens at once where it is due, and otherwise just when the user has left the
/// heatmap alone for the debounce time; once it happens nothing is due, and until then what is due
/// stays so.
pub proof fn rebuilds_wait_for_the_user(policy: RebuildPolicy, now: u64, debounce_ms: u64)
    ensures
        ({
            let (interacting, rebuild, after) = policy.spec_decide(now, debounce_ms);
            &&& interacting <==> policy is Debounced
            &&& after == if rebuild {
                RebuildPolicy::Idle
            } else {
                policy
            }
            &&& match policy {
                RebuildPolicy::Immediate { .. } => rebuild,
                RebuildPolicy::Idle => !rebuild,
                RebuildPolicy::Debounced { last_input, .. } => last_input <= now ==> (rebuild
                    <==> now - last_input >= debounce_ms * 1_000_000),
            }
        }),
{
    if let RebuildPolicy::Debounced { last_input, .. } = policy {
        if last_input <= now {
            milliseconds_are_whole(now, last_input, debounce_ms as int);
        }
    }
}

/// An update sets the clock to its own time, unless the clock was already estimated to be later;
/// from then on the clock runs on by a millisecond each.
pub proof fn clock_runs_on_from_an_update(
    clock: ExchangeClock,
    update: u64,
    now: u64,
    later: u64,
    ms: int,
)
    requires
        now <= later,
        ms * 1_000_000 <= later - now < (ms + 1) * 1_000_000,
        update + ms <= u64::MAX,
        clock.estimate(now) matches Some(e) ==> e + ms <= u64::MAX,
    ensures
        ({
            let start = match clock.estimate(now) {
                Some(e) => if e > update {
                    e
                } else {
                    update as int
                },
                None => update as int,
            };
            view::anchored(clock, update, now).estimate(later) == Some(start + ms)
        }),
{
    milliseconds_are_whole(later, now, ms);
    milliseconds_are_whole(later, now, ms + 1);
    if let ExchangeClock::Anchored { anchor_exchange_ms, anchor_instant, .. } = clock {
        lemma_div_pos_is_pos(math::max_int(now - anchor_instant, 0), 1_000_000);
    }
}

/// Before the first update there is no estimate.
pub proof fn clock_shows_nothing_before_an_update(now: u64)
    ensures
        ExchangeClock::Uninit.estimate(now) is None,
{
}

/// The time of bucket `b`, counted from the latest one.
pub open spec fn time_of_bucket(latest: int, aggr: u64, b: int) -> int {
    latest + b * aggr
}

/// The window of time reaches from the visible buckets, with two more on either side, up to the
/// latest time: it holds the time of each of them that is not before the first time there is.
pub proof fn window_holds_the_visible_buckets(
    aggr: u64,
    latest_data: u64,
    latest_render: u64,
    bucket_min: i64,
    bucket_max: i64,
    b: int,
)
    requires
        aggr > 0,
        view::time_window(aggr, latest_data, latest_render, bucket_min, bucket_max) is Some,
        bucket_min - 2 <= b <= bucket_max + 2,
        b <= 0,
        i64::MIN + 2 <= bucket_min,
        bucket_max <= i64::MAX - 2,
        time_of_bucket(math::max_int(latest_data as int, latest_render as int), aggr, b) >= 0,
    ensures
        ({
            let latest = math::max_int(latest_data as int, latest_render as int);
            let w = view::time_window(
                aggr,
                latest_data,
                latest_render,
                bucket_min,
                bucket_max,
            )->0;
            &&& 0 <= w.0 < w.1 <= latest
            &&& w.0 <= time_of_bucket(latest, aggr, b) <= w.1
        }),
{
    let latest = math::max_int(latest_data as int, latest_render as int);
    let lo = bucket_min - 2;
    let hi = bucket_max + 2;
    assert(lo * aggr <= b * aggr) by (nonlinear_arith)
        requires
            lo <= b,
            aggr > 0,
    ;
    assert(b * aggr <= hi * aggr) by (nonlinear_arith)
        requires
            b <= hi,
            aggr > 0,
    ;
    assert(b * aggr <= 0) by (nonlinear_arith)
        requires
            b <= 0,
            aggr > 0,
    ;
    assert(hi < 0 ==> hi * aggr <= 0) by (nonlinear_arith)
        requires
            aggr > 0,
    ;
}

/// Nothing further is in the window: two buckets before the first visible one it ends.
pub proof fn window_ends_two_buckets_out(
    aggr: u64,
    latest_data: u64,
    latest_render: u64,
    bucket_min: i64,
    bucket_max: i64,
)
    requires
        view::time_window(aggr, latest_data, latest_render, bucket_min, bucket_max) is Some,
        i64::MIN + 2 <= bucket_min < 2,
        bucket_max <= i64::MAX - 2,
    ensures
        ({
            let latest = math::max_int(latest_data as int, latest_render as int);
            let w = view::time_window(
                aggr,
                latest_data,
                latest_render,
                bucket_min,
                bucket_max,
            )->0;
            &&& w.0 == 0 || w.0 == time_of_bucket(latest, aggr, bucket_min - 2)
            &&& bucket_max + 2 >= 0 ==> w.1 == latest
            &&& bucket_max + 2 < 0 ==> w.1 == 0 || w.1 == time_of_bucket(
                latest,
                aggr,
                bucket_max + 2,
            )
        }),
{
}

/// There is a window wherever there is data and some visible bucket lies before the latest time.
pub proof fn visible_data_has_a_window(
    aggr: u64,
    latest_data: u64,
    latest_render: u64,
    bucket_min: i64,
    bucket_max: i64,
)
    requires
        aggr > 0,
        latest_data > 0,
        i64::MIN + 2 <= bucket_min <= bucket_max <= i64::MAX - 2,
        bucket_min < 2,
        bucket_max + 2 >= 0 || time_of_bucket(
            math::max_int(latest_data as int, latest_render as int),
            aggr,
            bucket_max + 2,
        ) > 0,
    ensures
        view::time_window(aggr, latest_data, latest_render, bucket_min, bucket_max) is Some,
{
    let lo = bucket_min - 2;
    let hi = bucket_max + 2;
    assert(lo * aggr < 0) by (nonlinear_arith)
        requires
            lo < 0,
            aggr > 0,
    ;
    assert(lo * aggr < hi * aggr) by (nonlinear_arith)
        requires
            lo < hi,
            aggr > 0,
    ;
}

/// The end of a stretch of buckets is the first bucket that starts at or after a time.
pub proof fn bucket_ends_round_up(t: int, aggr: int)
    requires
        aggr > 0,
    ensures
        (view::bucket_end(t, aggr) - 1) * aggr < t <= view::bucket_end(t, aggr) * aggr,
{
    lemma_fundamental_div_mod(t, aggr);
    lemma_mod_bound(t, aggr);
    let q = t / aggr;
    assert(aggr * q == q * aggr) by (nonlinear_arith);
    assert((q - 1) * aggr == q * aggr - aggr) by (nonlinear_arith);
    assert((q + 1) * aggr == q * aggr + aggr) by (nonlinear_arith);
}

/// The rows that the depth scale looks at are bins of equal height, counted from price zero.
pub proof fn absolute_rows_are_bins(units: int, step: int, steps: int)
    requires
        units >= 0,
        step > 0,
        steps > 0,
    ensures
        ({
            let r = view::absolute_bin(units, step, steps);
            r * (step * steps) <= units < (r + 1) * (step * steps)
        }),
{
    let s = units / step;
    let r = s / steps;
    lemma_fundamental_div_mod(units, step);
    lemma_mod_bound(units, step);
    lemma_fundamental_div_mod(s, steps);
    lemma_mod_bound(s, steps);
    assert(r * (step * steps) <= units < (r + 1) * (step * steps)) by (nonlinear_arith)
        requires
            units == step * s + units % step,
            0 <= units % step < step,
            s == steps * r + s % steps,
            0 <= s % steps < steps,
            step > 0,
            steps > 0,
    ;
}

/// A scale is too young to be looked at again just if it was looked at less than the throttle ago,
/// for the same key: a tenth of a second while the user interacts, or else a bucket.
pub proof fn young_scales_serve_their_key(
    cache: DepthNormCache,
    key: NormKey,
    now: u64,
    is_interacting: bool,
    aggr: u64,
)
    requires
        aggr > 0,
        cache.last_recompute matches Some(last) ==> last <= now,
    ensures
        cache.throttled(key, now, is_interacting, aggr) <==> {
            &&& cache.key == Some(key)
            &&& cache.last_recompute matches Some(last) && now - last < (if is_interacting {
                100
            } else {
                aggr as int
            }) * 1_000_000
        },
{
    if let Some(last) = cache.last_recompute {
        milliseconds_are_whole(now, last, 100);
        milliseconds_are_whole(now, last, aggr as int);
    }
}

} // verus!
