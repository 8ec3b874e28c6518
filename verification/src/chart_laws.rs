//! What holds of windows, labels and the mouse on any chart, said of times, edges and events: the
//! window holds the data, labels meet where their boxes do, countdowns end with the bar, and drags
//! follow the cursor from place to place.
use crate::axis;
use crate::axis::LabelBox;
use crate::domain;
use crate::domain::Zoom;
use crate::interaction;
use crate::interaction::{
    AxisAction, AxisEvent, AxisInteraction, Interaction, PlotAction, PlotEvent, PriceAxisAction,
    PriceAxisEvent, Spot,
};
use crate::text;
use vstd::arithmetic::div_mod::*;
use vstd::prelude::*;

verus! {

proof fn lemma_aligned(t: int, dt: int)
    requires
        0 <= t <= u64::MAX,
        dt >= 0,
    ensures
        domain::floor_to(t, dt) <= t <= domain::ceil_to(t, dt),
        dt > 0 ==> t - domain::floor_to(t, dt) < dt,
        dt > 0 ==> domain::ceil_to(t, dt) - t < dt,
        dt == 0 ==> domain::floor_to(t, dt) == t && domain::ceil_to(t, dt) == t,
{
    if dt > 0 {
        lemma_fundamental_div_mod(t, dt);
        lemma_mod_bound(t, dt);
        assert(dt * (t / dt) == t / dt * dt) by (nonlinear_arith);
    }
}

/// With everything shown and nothing moved, the window holds all of the data and little more: less
/// than an interval before it, and no more than one and a bit after it.
pub proof fn whole_view_holds_the_data(lo: u64, hi: u64, dt: u64)
    requires
        lo <= hi,
        hi < u64::MAX,
    ensures
        ({
            let w = domain::window_over(lo as int, hi as int, Zoom(0), 0, dt as int);
            &&& w.0 <= lo && hi <= w.1
            &&& lo - w.0 <= dt
            &&& w.1 - hi <= dt + 1
        }),
{
    let last = if hi == lo {
        hi + 1
    } else {
        hi as int
    };
    lemma_aligned(lo as int, dt as int);
    lemma_aligned(last, dt as int);
}

/// With `n` points shown and nothing moved, the window ends with the data and reaches back over
/// `n` points, as far as time does.
pub proof fn zoomed_view_holds_its_points(lo: u64, hi: u64, n: usize, dt: u64)
    requires
        lo < hi,
        n >= 2,
        dt > 0,
        (n - 1) * dt <= hi,
    ensures
        ({
            let w = domain::window_over(lo as int, hi as int, Zoom(n), 0, dt as int);
            &&& w.1 - dt < hi <= w.1
            &&& w.0 <= hi - (n - 1) * dt < w.0 + dt
        }),
{
    let span = (n - 1) * dt;
    assert(span >= 1) by (nonlinear_arith)
        requires
            span == (n - 1) * dt,
            n >= 2,
            dt > 0,
    ;
    lemma_aligned(hi as int, dt as int);
    lemma_aligned(hi - span, dt as int);
}

/// Moving the view by some time moves its right edge by as much, up to an interval, and it can be
/// moved no further beyond the data than it is wide.
pub proof fn moved_view_follows(lo: u64, hi: u64, n: usize, pad: i64, dt: u64)
    requires
        lo < hi,
        n >= 2,
        dt > 0,
        hi + (n - 1) * dt <= u64::MAX,
        0 <= hi + pad,
    ensures
        ({
            let w = domain::window_over(lo as int, hi as int, Zoom(n), pad as int, dt as int);
            let right = if pad <= (n - 1) * dt {
                hi + pad
            } else {
                hi + (n - 1) * dt
            };
            w.1 - dt < right <= w.1
        }),
{
    let span = (n - 1) * dt;
    assert(span >= 1) by (nonlinear_arith)
        requires
            span == (n - 1) * dt,
            n >= 2,
            dt > 0,
    ;
    let right = if pad <= span {
        hi + pad
    } else {
        hi + span
    };
    lemma_aligned(right, dt as int);
}

/// Two labels of one axis meet just if each starts before the other ends, across and down, and
/// neither is without extent.
pub proof fn labels_meet_where_their_boxes_do(a: LabelBox, b: LabelBox)
    requires
        !a.left.is_nan() && !a.right.is_nan() && !a.top.is_nan() && !a.bottom.is_nan(),
        !b.left.is_nan() && !b.right.is_nan() && !b.top.is_nan() && !b.bottom.is_nan(),
    ensures
        a.spec_intersects(b) <==> {
            &&& a.axis == b.axis
            &&& a.left.rank() < b.right.rank() && b.left.rank() < a.right.rank()
            &&& a.top.rank() < b.bottom.rank() && b.top.rank() < a.bottom.rank()
            &&& a.left.rank() < a.right.rank() && b.left.rank() < b.right.rank()
            &&& a.top.rank() < a.bottom.rank() && b.top.rank() < b.bottom.rank()
        },
        a.spec_intersects(b) == b.spec_intersects(a),
{
}

/// The countdown runs to the end of the bar: the seconds that are left reach to it, and one more
/// would go beyond it.
pub proof fn countdown_ends_with_the_bar(now: int, interval: int, bar: int)
    requires
        interval > 0,
        bar * interval <= now < (bar + 1) * interval,
    ensures
        ({
            let left = axis::seconds_left(now, interval);
            &&& now + left * 1000 <= (bar + 1) * interval < now + (left + 1) * 1000
            &&& left >= 0
        }),
{
    assert((bar + 1) * interval == bar * interval + interval) by (nonlinear_arith);
    lemma_fundamental_div_mod_converse(now, interval, bar, now - bar * interval);
    let rest = interval - (now - bar * interval);
    lemma_fundamental_div_mod(rest, 1000);
    lemma_mod_bound(rest, 1000);
}

/// The clock shows hours, minutes and seconds, the hours only where there are any.
pub proof fn clock_shows_hours_minutes_and_seconds(h: nat, m: nat, s: nat)
    requires
        m < 60,
        s < 60,
    ensures
        axis::clock_text((h * 3600 + m * 60 + s) as int) == if h > 0 {
            text::two_digits(h) + ":"@ + text::two_digits(m) + ":"@ + text::two_digits(s)
        } else {
            text::two_digits(m) + ":"@ + text::two_digits(s)
        },
{
    let t = (h * 3600 + m * 60 + s) as int;
    assert(t / 3600 == h);
    assert(t % 3600 == m * 60 + s);
    assert(t % 3600 / 60 == m);
    assert(t % 60 == s);
}

/// A drag on an axis scales by the way from place to place: from where it was pressed to where it
/// moves, and on from there; once released, moves do nothing.
pub proof fn axis_drags_follow_the_cursor(state: Interaction, p: Spot, q: Spot, r: Spot)
    ensures
        ({
            let pressed = interaction::axis_step(
                state,
                AxisEvent::Pressed { inside: true, at: Some(p) },
            );
            let moved = interaction::axis_step(
                pressed.0,
                AxisEvent::Moved { at: Some(q), far: true },
            );
            let again = interaction::axis_step(moved.0, AxisEvent::Moved { at: Some(r), far: true });
            let released = interaction::axis_step(again.0, AxisEvent::Released);
            let after = interaction::axis_step(
                released.0,
                AxisEvent::Moved { at: Some(p), far: true },
            );
            &&& pressed.1 == AxisAction::Nothing
            &&& moved.1 == (AxisAction::ScaleByDrag { from: p, to: q })
            &&& again.1 == (AxisAction::ScaleByDrag { from: q, to: r })
            &&& released.1 == AxisAction::Nothing
            &&& after.1 == AxisAction::Nothing
        }),
{
}

/// The wheel scales over an axis, and nowhere else, without starting or ending a drag; small moves
/// and presses elsewhere do nothing.
pub proof fn axis_wheel_scales_in_place(state: Interaction, inside: bool, at: Option<Spot>)
    ensures
        interaction::axis_step(state, AxisEvent::Scrolled { inside }).0 == state,
        interaction::axis_step(state, AxisEvent::Scrolled { inside }).1 == AxisAction::ScaleByWheel
            <==> inside,
        interaction::axis_step(state, AxisEvent::Moved { at, far: false }) == (
            state,
            AxisAction::Nothing,
        ),
        interaction::axis_step(state, AxisEvent::Pressed { inside: false, at }) == (
            state,
            AxisAction::Nothing,
        ),
{
}

/// A drag on the price axis zooms by the way from place to place; a double click resets and ends
/// the drag, as a release does.
pub proof fn price_axis_drags_follow_the_cursor(
    state: AxisInteraction,
    p: Spot,
    q: Spot,
    r: Spot,
)
    ensures
        ({
            let pressed = interaction::price_axis_step(
                state,
                PriceAxisEvent::Pressed { at: Some(p), double: false },
            );
            let moved = interaction::price_axis_step(pressed.0, PriceAxisEvent::Moved { at: q });
            let again = interaction::price_axis_step(moved.0, PriceAxisEvent::Moved { at: r });
            let released = interaction::price_axis_step(again.0, PriceAxisEvent::Released);
            let reset = interaction::price_axis_step(
                again.0,
                PriceAxisEvent::Pressed { at: Some(p), double: true },
            );
            &&& moved.1 == (PriceAxisAction::ZoomByDrag { from: p, to: q })
            &&& again.1 == (PriceAxisAction::ZoomByDrag { from: q, to: r })
            &&& reset.1 == PriceAxisAction::Reset
            &&& interaction::price_axis_step(released.0, PriceAxisEvent::Moved { at: p }).1
                == PriceAxisAction::Nothing
            &&& interaction::price_axis_step(reset.0, PriceAxisEvent::Moved { at: p }).1
                == PriceAxisAction::Nothing
        }),
        interaction::price_axis_step(state, PriceAxisEvent::Scrolled { inside: true }) == (
            state,
            PriceAxisAction::ZoomByWheel,
        ),
        interaction::price_axis_step(state, PriceAxisEvent::Scrolled { inside: false }) == (
            state,
            PriceAxisAction::Nothing,
        ),
{
}

/// A drag over the plot pans by the way from place to place while it is over the plot; what is
/// moved elsewhere is made up for on the way back.
pub proof fn plot_drags_follow_the_cursor(state: AxisInteraction, p: Spot, q: Spot, r: Spot)
    ensures
        ({
            let pressed = interaction::plot_step(state, PlotEvent::Pressed { at: Some(p) });
            let away = interaction::plot_step(pressed.0, PlotEvent::Moved { at: q, over: false });
            let back = interaction::plot_step(away.0, PlotEvent::Moved { at: r, over: true });
            let again = interaction::plot_step(back.0, PlotEvent::Moved { at: q, over: true });
            let released = interaction::plot_step(again.0, PlotEvent::Released);
            &&& away.1 == PlotAction::Nothing
            &&& back.1 == (PlotAction::Pan { from: p, to: r })
            &&& again.1 == (PlotAction::Pan { from: r, to: q })
            &&& interaction::plot_step(released.0, PlotEvent::Moved { at: p, over: true }).1
                == PlotAction::Nothing
        }),
        interaction::plot_step(state, PlotEvent::Scrolled { inside: true }) == (
            state,
            PlotAction::ZoomByWheel,
        ),
        interaction::plot_step(state, PlotEvent::Scrolled { inside: false }) == (
            state,
            PlotAction::Nothing,
        ),
{
}

/// The ends of several series hold every place of each of them between them, and both are places of
/// one of them.
pub proof fn ends_hold_every_series(series: Seq<Vec<u64>>, lo: u64, hi: u64, s: int, i: int) -> (
    at: ((int, int), (int, int)))
    requires
        domain::are_ends(series, lo, hi),
        0 <= s < series.len(),
        0 <= i < series[s]@.len(),
    ensures
        lo <= series[s]@[i] <= hi,
        0 <= (at.0).0 < series.len(),
        0 <= (at.0).1 < series[(at.0).0]@.len(),
        series[(at.0).0]@[(at.0).1] == lo,
        0 <= (at.1).0 < series.len(),
        0 <= (at.1).1 < series[(at.1).0]@.len(),
        series[(at.1).0]@[(at.1).1] == hi,
{
    let first = choose|s: int, i: int|
        0 <= s < series.len() && 0 <= i < series[s]@.len() && #[trigger] series[s]@[i] == lo;
    let last = choose|s: int, i: int|
        0 <= s < series.len() && 0 <= i < series[s]@.len() && #[trigger] series[s]@[i] == hi;
    (first, last)
}

/// The first place that is not before a time is at it or after it, those before it are earlier, and
/// there is but one.
pub proof fn one_place_is_the_first_not_before(xs: Seq<u64>, x: u64, i: int, j: int)
    requires
        domain::first_not_before(xs, x, i),
        0 <= j < xs.len(),
    ensures
        xs[i] >= x,
        xs[j] >= x ==> i <= j,
        domain::first_not_before(xs, x, j) ==> i == j,
{
}

} // verus!
