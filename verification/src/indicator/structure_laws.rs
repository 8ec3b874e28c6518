//! Which levels a scan of the bars owes, said of the bars and their swing points alone: a close
//! beyond the latest swing point that is not yet broken makes a level, in either direction and
//! whatever the direction of the levels before it, and nothing else does.
use crate::indicator::smc_laws;
use crate::indicator::smc_structure;
use crate::indicator::smc_structure::{
    Direction, Scan, SmcStructureState, StructureLevel, SwingPoint,
};
use crate::units::{Kline, Price, Ratio};
use vstd::prelude::*;

verus! {

/// Bar `p` is a swing point: no bar within `len` bars of it has a higher high, or a lower low.
pub open spec fn is_swing(k: Seq<Kline>, len: int, p: int, up: bool) -> bool {
    forall|m: int|
        #![trigger k[m]]
        p - len <= m <= p + len ==> if up {
            k[m].high.units <= k[p].high.units
        } else {
            k[p].low.units <= k[m].low.units
        }
}

/// Bar `p` is the latest swing point at or before bar `c`.
pub open spec fn is_latest_swing(k: Seq<Kline>, len: int, p: int, c: int, up: bool) -> bool {
    &&& len <= p <= c
    &&& is_swing(k, len, p, up)
    &&& forall|m: int| p < m <= c ==> !#[trigger] is_swing(k, len, m, up)
}

/// The price of a swing point.
pub open spec fn swing_price(k: Seq<Kline>, p: int, up: bool) -> Price {
    if up {
        k[p].high
    } else {
        k[p].low
    }
}

/// The direction in which a swing point is broken.
pub open spec fn breaking(up: bool) -> Direction {
    if up {
        Direction::Bullish
    } else {
        Direction::Bearish
    }
}

/// No level that was confirmed before `time` breaks the swing point `p`.
pub open spec fn is_unbroken(
    breaks: Seq<StructureLevel>,
    k: Seq<Kline>,
    p: int,
    up: bool,
    time: u64,
) -> bool {
    forall|b: int|
        #![trigger breaks[b]]
        0 <= b < breaks.len() && breaks[b].direction == breaking(up) && breaks[b].confirmed_time
            < time ==> breaks[b].from_time != k[p].time
}

/// Bar `c` closes beyond the swing point `p` and is later than it.
pub open spec fn closes_beyond(k: Seq<Kline>, p: int, c: int, up: bool) -> bool {
    k[c].time > k[p].time && if up {
        k[c].close.units > k[p].high.units
    } else {
        k[c].close.units < k[p].low.units
    }
}

/// The level marks the swing point `p`, broken by bar `c`.
pub open spec fn marks_break(
    level: StructureLevel,
    k: Seq<Kline>,
    p: int,
    c: int,
    up: bool,
) -> bool {
    &&& level.direction == breaking(up)
    &&& level.price == swing_price(k, p, up)
    &&& level.from_time == k[p].time
    &&& level.confirmed_time == k[c].time
}

spec fn last_swing(s: Scan, up: bool) -> Option<SwingPoint> {
    if up {
        s.last_high
    } else {
        s.last_low
    }
}

spec fn swing_point(k: Seq<Kline>, p: int, up: bool) -> SwingPoint {
    SwingPoint { price: swing_price(k, p, up), time: k[p].time }
}

proof fn lemma_swing_is_pivot(k: Seq<Kline>, len: int, p: int)
    ensures
        is_swing(k, len, p, true) == smc_structure::pivot_high(k, p, len),
        is_swing(k, len, p, false) == smc_structure::pivot_low(k, p, len),
{
    assert(is_swing(k, len, p, true) ==> smc_structure::pivot_high(k, p, len));
    assert(is_swing(k, len, p, false) ==> smc_structure::pivot_low(k, p, len));
    if smc_structure::pivot_high(k, p, len) {
        assert(is_swing(k, len, p, true));
    }
    if smc_structure::pivot_low(k, p, len) {
        assert(is_swing(k, len, p, false));
    }
}

/// The levels of a scan are older than the bar that comes next.
proof fn lemma_levels_are_older(k: Seq<Kline>, len: int, boost: Ratio, i: int)
    requires
        smc_laws::in_time_order(k),
        0 <= len <= i < k.len(),
    ensures
        forall|b: int|
            #![trigger smc_structure::scan(k, len, boost, i).breaks[b]]
            0 <= b < smc_structure::scan(k, len, boost, i).breaks.len() ==> {
                &&& smc_structure::scan(k, len, boost, i).breaks[b].confirmed_time < k[i].time
                &&& smc_structure::scan(k, len, boost, i).breaks[b].from_time < k[i].time
            },
{
    let s = smc_structure::scan(k, len, boost, i);
    smc_laws::every_break_is_explained(k, len, boost, i);
    assert forall|b: int| #![trigger s.breaks[b]] 0 <= b < s.breaks.len() implies {
        &&& s.breaks[b].confirmed_time < k[i].time
        &&& s.breaks[b].from_time < k[i].time
    } by {
        assert(smc_laws::explained(k, len, s.breaks[b], i));
        let (p, c) = choose|p: int, c: int|
            len <= p < i && len <= c < i && #[trigger] smc_laws::explains(
                k,
                len,
                s.breaks[b],
                p,
                c,
            );
        assert(k[p].time < k[i].time && k[c].time < k[i].time);
    }
}

/// What the scan holds of the latest swing point: the point, until a level breaks it.
proof fn lemma_last_swing(k: Seq<Kline>, len: int, boost: Ratio, i: int, p: int, up: bool)
    requires
        smc_laws::in_time_order(k),
        0 <= len < i <= k.len(),
        is_latest_swing(k, len, p, i - 1, up),
    ensures
        ({
            let s = smc_structure::scan(k, len, boost, i);
            if exists|b: int|
                #![trigger s.breaks[b]]
                0 <= b < s.breaks.len() && s.breaks[b].direction == breaking(up)
                    && s.breaks[b].from_time == k[p].time {
                last_swing(s, up) is None
            } else {
                last_swing(s, up) == Some(swing_point(k, p, up))
            }
        }),
    decreases i,
{
    let c = i - 1;
    let s = smc_structure::scan(k, len, boost, c);
    let t = smc_structure::scan(k, len, boost, i);
    lemma_swing_is_pivot(k, len, c);
    lemma_levels_are_older(k, len, boost, c);
    assert(t == s.step(k, c, len, boost));
    assert forall|b: int| 0 <= b < s.breaks.len() implies #[trigger] t.breaks[b] == s.breaks[b] by {}
    if p == c {
        assert(last_swing(t, up) == Some(swing_point(k, p, up)));
        assert forall|b: int|
            #![trigger t.breaks[b]]
            0 <= b < t.breaks.len() && t.breaks[b].direction == breaking(
                up,
            ) implies t.breaks[b].from_time != k[p].time by {
            if b < s.breaks.len() {
                assert(t.breaks[b] == s.breaks[b]);
            }
        }
    } else {
        assert(!is_swing(k, len, c, up));
        assert(is_latest_swing(k, len, p, c - 1, up));
        lemma_last_swing(k, len, boost, c, p, up);
        if exists|b: int|
            #![trigger s.breaks[b]]
            0 <= b < s.breaks.len() && s.breaks[b].direction == breaking(up)
                && s.breaks[b].from_time == k[p].time {
            let b = choose|b: int|
                #![trigger s.breaks[b]]
                0 <= b < s.breaks.len() && s.breaks[b].direction == breaking(up)
                    && s.breaks[b].from_time == k[p].time;
            assert(t.breaks[b] == s.breaks[b]);
            assert(last_swing(t, up) is None);
        } else {
            assert(last_swing(s, up) == Some(swing_point(k, p, up)));
            if t.breaks.len() > s.breaks.len() && t.breaks.last().direction == breaking(up) {
                assert(t.breaks[s.breaks.len() as int].from_time == k[p].time);
                assert(last_swing(t, up) is None);
            } else {
                assert(last_swing(t, up) == last_swing(s, up));
                assert forall|b: int|
                    #![trigger t.breaks[b]]
                    0 <= b < t.breaks.len() && t.breaks[b].direction == breaking(
                        up,
                    ) implies t.breaks[b].from_time != k[p].time by {
                    if b < s.breaks.len() {
                        assert(t.breaks[b] == s.breaks[b]);
                    }
                }
            }
        }
    }
}

/// A point that the scan holds is the latest swing point, which is found.
proof fn lemma_last_swing_is_latest(k: Seq<Kline>, len: int, boost: Ratio, i: int, up: bool) -> (p:
    int)
    requires
        0 <= len <= i,
        last_swing(smc_structure::scan(k, len, boost, i), up) is Some,
    ensures
        is_latest_swing(k, len, p, i - 1, up),
        last_swing(smc_structure::scan(k, len, boost, i), up) == Some(swing_point(k, p, up)),
    decreases i,
{
    let c = i - 1;
    let s = smc_structure::scan(k, len, boost, c);
    let t = smc_structure::scan(k, len, boost, i);
    assert(i > len);
    lemma_swing_is_pivot(k, len, c);
    assert(t == s.step(k, c, len, boost));
    if is_swing(k, len, c, up) {
        c
    } else {
        assert(last_swing(t, up) == last_swing(s, up));
        lemma_last_swing_is_latest(k, len, boost, c, up)
    }
}

/// A scan keeps the levels that it has found.
proof fn lemma_levels_stay(k: Seq<Kline>, len: int, boost: Ratio, c: int, i: int)
    requires
        len <= c <= i,
    ensures
        smc_structure::scan(k, len, boost, c).breaks.len() <= smc_structure::scan(
            k,
            len,
            boost,
            i,
        ).breaks.len(),
        forall|b: int|
            0 <= b < smc_structure::scan(k, len, boost, c).breaks.len() ==> #[trigger]
                smc_structure::scan(k, len, boost, i).breaks[b] == smc_structure::scan(
                k,
                len,
                boost,
                c,
            ).breaks[b],
    decreases i - c,
{
    if c < i {
        lemma_levels_stay(k, len, boost, c, i - 1);
    }
}

/// Breaks are complete: where the latest swing high and the latest swing low at or before a bar
/// are both unbroken, and the bar closes beyond the high, or else beyond the low, there is a level
/// for it, which is found, with the price and time of the point that was broken.
pub proof fn every_close_beyond_is_a_break(
    k: Seq<Kline>,
    len: int,
    boost: Ratio,
    i: int,
    high: int,
    low: int,
    c: int,
) -> (b: int)
    requires
        smc_laws::in_time_order(k),
        0 <= len <= c < i <= k.len(),
        is_latest_swing(k, len, high, c, true),
        is_latest_swing(k, len, low, c, false),
        is_unbroken(smc_structure::scan(k, len, boost, i).breaks, k, high, true, k[c].time),
        is_unbroken(smc_structure::scan(k, len, boost, i).breaks, k, low, false, k[c].time),
        closes_beyond(k, high, c, true) || closes_beyond(k, low, c, false),
    ensures
        0 <= b < smc_structure::scan(k, len, boost, i).breaks.len(),
        if closes_beyond(k, high, c, true) {
            marks_break(smc_structure::scan(k, len, boost, i).breaks[b], k, high, c, true)
        } else {
            marks_break(smc_structure::scan(k, len, boost, i).breaks[b], k, low, c, false)
        },
{
    let s = smc_structure::scan(k, len, boost, c);
    let t = smc_structure::scan(k, len, boost, c + 1);
    let all = smc_structure::scan(k, len, boost, i).breaks;
    lemma_levels_stay(k, len, boost, c, i);
    lemma_levels_stay(k, len, boost, c + 1, i);
    lemma_levels_are_older(k, len, boost, c);
    lemma_swing_is_pivot(k, len, c);
    lemma_unbroken_swing_is_held(k, len, boost, c, i, high, true);
    lemma_unbroken_swing_is_held(k, len, boost, c, i, low, false);
    assert(t == s.step(k, c, len, boost));
    let b = s.breaks.len() as int;
    assert(t.breaks.len() == b + 1);
    assert(all[b] == t.breaks[b]);
    b
}

proof fn lemma_unbroken_swing_is_held(
    k: Seq<Kline>,
    len: int,
    boost: Ratio,
    c: int,
    i: int,
    p: int,
    up: bool,
)
    requires
        smc_laws::in_time_order(k),
        0 <= len <= c < i <= k.len(),
        is_latest_swing(k, len, p, c, up),
        is_unbroken(smc_structure::scan(k, len, boost, i).breaks, k, p, up, k[c].time),
    ensures
        p < c ==> last_swing(smc_structure::scan(k, len, boost, c), up) == Some(
            swing_point(k, p, up),
        ),
        p < c ==> !is_swing(k, len, c, up),
        p == c ==> is_swing(k, len, c, up),
{
    let s = smc_structure::scan(k, len, boost, c);
    let all = smc_structure::scan(k, len, boost, i).breaks;
    if p < c {
        assert(!is_swing(k, len, c, up));
        assert(is_latest_swing(k, len, p, c - 1, up));
        lemma_last_swing(k, len, boost, c, p, up);
        lemma_levels_are_older(k, len, boost, c);
        lemma_levels_stay(k, len, boost, c, i);
        assert forall|b: int|
            #![trigger s.breaks[b]]
            0 <= b < s.breaks.len() && s.breaks[b].direction == breaking(
                up,
            ) implies s.breaks[b].from_time != k[p].time by {
            assert(all[b] == s.breaks[b]);
        }
    }
}

/// Nothing else is a break: a level breaks the latest swing point of its kind at the bar that
/// confirms it, which closes beyond it, while a point of the other kind was there too; and a level
/// that falls is owed only where the bar does not close beyond the latest high. The broken point,
/// the other one and the bar are found.
pub proof fn every_break_closes_beyond(k: Seq<Kline>, len: int, boost: Ratio, i: int, b: int) -> (
found: (int, int, int))
    requires
        0 <= len <= i,
        0 <= b < smc_structure::scan(k, len, boost, i).breaks.len(),
    ensures
        ({
            let level = smc_structure::scan(k, len, boost, i).breaks[b];
            let (p, q, c) = found;
            let up = level.direction == Direction::Bullish;
            &&& len <= c < i
            &&& is_latest_swing(k, len, p, c, up)
            &&& is_latest_swing(k, len, q, c, !up)
            &&& closes_beyond(k, p, c, up)
            &&& marks_break(level, k, p, c, up)
            &&& !up ==> !closes_beyond(k, q, c, true)
        }),
    decreases i,
{
    let c = i - 1;
    let s = smc_structure::scan(k, len, boost, c);
    let t = smc_structure::scan(k, len, boost, i);
    assert(i > len);
    assert(t == s.step(k, c, len, boost));
    if b < s.breaks.len() {
        assert(t.breaks[b] == s.breaks[b]);
        every_break_closes_beyond(k, len, boost, c, b)
    } else {
        let up = t.breaks[b].direction == Direction::Bullish;
        lemma_swing_is_pivot(k, len, c);
        let h = if is_swing(k, len, c, true) {
            c
        } else {
            lemma_last_swing_is_latest(k, len, boost, c, true)
        };
        let l = if is_swing(k, len, c, false) {
            c
        } else {
            lemma_last_swing_is_latest(k, len, boost, c, false)
        };
        assert(is_latest_swing(k, len, h, c, true));
        assert(is_latest_swing(k, len, l, c, false));
        if up {
            (h, l, c)
        } else {
            (l, h, c)
        }
    }
}

/// A rebuilt state keeps the latest levels, as many as it may, in order.
pub proof fn state_keeps_the_latest_breaks(
    k: Seq<Kline>,
    len: int,
    boost: Ratio,
    max_levels: int,
    state: SmcStructureState,
    j: int,
)
    requires
        smc_structure::is_structure(k, len, boost, max_levels, state),
        0 <= len,
        k.len() >= 2 * len + 1,
    ensures
        ({
            let breaks = smc_structure::scan(k, len, boost, k.len() - len).breaks;
            let kept = state.levels@;
            &&& kept.len() <= state.max_levels
            &&& kept.len() < state.max_levels ==> kept.len() == breaks.len()
            &&& kept.len() <= breaks.len()
            &&& 0 <= j < kept.len() ==> kept[j] == breaks[breaks.len() - kept.len() + j]
        }),
{
}

/// Of fewer bars than a swing point takes there is no structure, and a state never keeps fewer
/// levels than the least.
pub proof fn few_bars_have_no_structure(
    k: Seq<Kline>,
    len: int,
    boost: Ratio,
    max_levels: int,
    state: SmcStructureState,
)
    requires
        smc_structure::is_structure(k, len, boost, max_levels, state),
    ensures
        k.len() <= 2 * len ==> state.levels@.len() == 0 && state.swing_tags@.len() == 0
            && state.fvgs@.len() == 0 && state.zones is None,
        k.len() > 2 * len && k.len() <= 20 ==> state.fvgs@.len() == 0,
        k.len() < 60 ==> state.zones is None,
        k.len() >= 60 && k.len() > 2 * len ==> state.zones is Some,
        state.max_levels >= max_levels,
        state.max_levels >= smc_structure::MIN_LEVELS,
        state.max_levels == max_levels || state.max_levels == smc_structure::MIN_LEVELS,
{
}

} // verus!
