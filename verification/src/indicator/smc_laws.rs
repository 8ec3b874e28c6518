//! What holds of the detected market structure as a whole.
use crate::indicator::smc_structure;
use crate::indicator::smc_structure::{
    BreakKind, Direction, Gap, Scan, StructureLevel, SwingTagEntry, SwingTagKind,
};
use crate::math;
use crate::units::{Kline, Ratio};
use vstd::prelude::*;

verus! {

/// Every rating is one to five stars.
pub proof fn ratings_are_one_to_five(k: Seq<Kline>, len: int, boost: Ratio, i: int)
    ensures
        forall|b: int|
            #![trigger smc_structure::scan(k, len, boost, i).breaks[b]]
            0 <= b < smc_structure::scan(k, len, boost, i).breaks.len() ==> 1
                <= smc_structure::scan(k, len, boost, i).breaks[b].rating <= 5,
    decreases i - len,
{
    if i > len {
        ratings_are_one_to_five(k, len, boost, i - 1);
        let before = smc_structure::scan(k, len, boost, i - 1).breaks;
        let after = smc_structure::scan(k, len, boost, i).breaks;
        assert forall|b: int| 0 <= b < after.len() implies 1 <= (#[trigger] after[b]).rating <= 5 by {
            if b < before.len() {
                assert(after[b] == before[b]);
            }
        }
    }
}

/// A break changes the character of the market exactly when the break before it went the other
/// way.
pub proof fn character_changes_when_direction_does(k: Seq<Kline>, len: int, boost: Ratio, i: int)
    ensures
        ({
            let s = smc_structure::scan(k, len, boost, i);
            &&& s.trend == if s.breaks.len() == 0 {
                None::<Direction>
            } else {
                Some(s.breaks.last().direction)
            }
            &&& forall|b: int|
                #![trigger s.breaks[b].kind]
                0 <= b < s.breaks.len() ==> (s.breaks[b].kind == BreakKind::Choch <==> b > 0
                    && s.breaks[b - 1].direction != s.breaks[b].direction)
        }),
    decreases i - len,
{
    if i > len {
        character_changes_when_direction_does(k, len, boost, i - 1);
        let before = smc_structure::scan(k, len, boost, i - 1).breaks;
        let s = smc_structure::scan(k, len, boost, i);
        assert forall|b: int|
            #![trigger s.breaks[b].kind]
            0 <= b < s.breaks.len() implies (s.breaks[b].kind == BreakKind::Choch <==> b > 0
            && s.breaks[b - 1].direction != s.breaks[b].direction) by {
            if b < before.len() {
                assert(s.breaks[b] == before[b]);
                if b > 0 {
                    assert(s.breaks[b - 1] == before[b - 1]);
                }
            } else if b > 0 {
                assert(s.breaks[b - 1] == before[b - 1]);
            }
        }
    }
}

/// Bar `p` is the swing high (or low) that a level marks, and bar `c` a later one that closes
/// above (below) it.
pub open spec fn explains(k: Seq<Kline>, len: int, level: StructureLevel, p: int, c: int) -> bool {
    &&& level.from_time == k[p].time
    &&& level.confirmed_time == k[c].time
    &&& k[c].time > k[p].time
    &&& match level.direction {
        Direction::Bullish => smc_structure::pivot_high(k, p, len) && level.price == k[p].high
            && k[c].close.units > level.price.units,
        Direction::Bearish => smc_structure::pivot_low(k, p, len) && level.price == k[p].low
            && k[c].close.units < level.price.units,
    }
}

/// Two of the bars before `i` explain the level.
pub open spec fn explained(k: Seq<Kline>, len: int, level: StructureLevel, i: int) -> bool {
    exists|p: int, c: int| len <= p < i && len <= c < i && #[trigger] explains(k, len, level, p, c)
}

spec fn point_known(k: Seq<Kline>, len: int, i: int, s: Scan) -> bool {
    &&& s.last_high matches Some(h) ==> exists|p: int|
        len <= p < i && #[trigger] smc_structure::pivot_high(k, p, len) && h.price == k[p].high
            && h.time == k[p].time
    &&& s.last_low matches Some(l) ==> exists|p: int|
        len <= p < i && #[trigger] smc_structure::pivot_low(k, p, len) && l.price == k[p].low
            && l.time == k[p].time
}

proof fn lemma_points_are_pivots(k: Seq<Kline>, len: int, boost: Ratio, i: int)
    ensures
        point_known(k, len, i, smc_structure::scan(k, len, boost, i)),
    decreases i - len,
{
    if i > len {
        lemma_points_are_pivots(k, len, boost, i - 1);
        let s = smc_structure::scan(k, len, boost, i - 1);
        let t = smc_structure::scan(k, len, boost, i);
        if t.last_high is Some {
            if smc_structure::pivot_high(k, i - 1, len) {
                assert(len <= i - 1 < i && smc_structure::pivot_high(k, i - 1, len));
            } else {
                let p = choose|p: int|
                    len <= p < i - 1 && #[trigger] smc_structure::pivot_high(k, p, len)
                        && s.last_high->0.price == k[p].high && s.last_high->0.time == k[p].time;
                assert(len <= p < i && smc_structure::pivot_high(k, p, len));
            }
        }
        if t.last_low is Some {
            if smc_structure::pivot_low(k, i - 1, len) {
                assert(len <= i - 1 < i && smc_structure::pivot_low(k, i - 1, len));
            } else {
                let p = choose|p: int|
                    len <= p < i - 1 && #[trigger] smc_structure::pivot_low(k, p, len)
                        && s.last_low->0.price == k[p].low && s.last_low->0.time == k[p].time;
                assert(len <= p < i && smc_structure::pivot_low(k, p, len));
            }
        }
    }
}

/// Every level stands on a confirmed swing point and a later bar that closes beyond it.
pub proof fn every_break_is_explained(k: Seq<Kline>, len: int, boost: Ratio, i: int)
    ensures
        forall|b: int|
            #![trigger smc_structure::scan(k, len, boost, i).breaks[b]]
            0 <= b < smc_structure::scan(k, len, boost, i).breaks.len() ==> explained(
                k,
                len,
                smc_structure::scan(k, len, boost, i).breaks[b],
                i,
            ),
    decreases i - len,
{
    if i > len {
        every_break_is_explained(k, len, boost, i - 1);
        lemma_points_are_pivots(k, len, boost, i - 1);
        let s = smc_structure::scan(k, len, boost, i - 1);
        let t = smc_structure::scan(k, len, boost, i);
        let s1 = if smc_structure::pivot_high(k, i - 1, len) {
            s.after_high(k[i - 1])
        } else {
            s
        };
        let s2 = if smc_structure::pivot_low(k, i - 1, len) {
            s1.after_low(k[i - 1])
        } else {
            s1
        };
        assert forall|b: int|
            #![trigger t.breaks[b]]
            0 <= b < t.breaks.len() implies explained(k, len, t.breaks[b], i) by {
            if b < s.breaks.len() {
                assert(t.breaks[b] == s.breaks[b]);
                assert(explained(k, len, s.breaks[b], i - 1));
                let (p, c) = choose|p: int, c: int|
                    len <= p < i - 1 && len <= c < i - 1 && #[trigger] explains(
                        k,
                        len,
                        s.breaks[b],
                        p,
                        c,
                    );
                assert(explains(k, len, t.breaks[b], p, c));
            } else {
                let direction = s2.break_at(k[i - 1])->0;
                let c = i - 1;
                match direction {
                    Direction::Bullish => {
                        if smc_structure::pivot_high(k, i - 1, len) {
                            assert(explains(k, len, t.breaks[b], i - 1, c));
                        } else {
                            let p = choose|p: int|
                                len <= p < i - 1 && #[trigger] smc_structure::pivot_high(k, p, len)
                                    && s.last_high->0.price == k[p].high && s.last_high->0.time
                                    == k[p].time;
                            assert(explains(k, len, t.breaks[b], p, c));
                        }
                    },
                    Direction::Bearish => {
                        if smc_structure::pivot_low(k, i - 1, len) {
                            assert(explains(k, len, t.breaks[b], i - 1, c));
                        } else {
                            let p = choose|p: int|
                                len <= p < i - 1 && #[trigger] smc_structure::pivot_low(k, p, len)
                                    && s.last_low->0.price == k[p].low && s.last_low->0.time
                                    == k[p].time;
                            assert(explains(k, len, t.breaks[b], p, c));
                        }
                    },
                }
            }
        }
    }
}

/// The tag marks a high, or else a low.
pub open spec fn marks_high(t: SwingTagEntry) -> bool {
    t.kind is HigherHigh || t.kind is LowerHigh
}

/// The tags of the highs, or of the lows, in order.
pub open spec fn tags_on(tags: Seq<SwingTagEntry>, high: bool) -> Seq<SwingTagEntry>
    decreases tags.len(),
{
    if tags.len() == 0 {
        Seq::empty()
    } else if marks_high(tags.last()) == high {
        tags_on(tags.drop_last(), high).push(tags.last())
    } else {
        tags_on(tags.drop_last(), high)
    }
}

/// Bar `i` is a pivot high, or a pivot low.
pub open spec fn is_pivot(k: Seq<Kline>, len: int, i: int, high: bool) -> bool {
    if high {
        smc_structure::pivot_high(k, i, len)
    } else {
        smc_structure::pivot_low(k, i, len)
    }
}

/// The pivots among the bars from `len` up to `i`, exclusive, in order.
pub open spec fn pivots(k: Seq<Kline>, len: int, i: int, high: bool) -> Seq<int>
    decreases i - len,
{
    if i <= len {
        Seq::empty()
    } else if is_pivot(k, len, i - 1, high) {
        pivots(k, len, i - 1, high).push(i - 1)
    } else {
        pivots(k, len, i - 1, high)
    }
}

/// The tag of pivot `p`, which follows pivot `q` on its side.
pub open spec fn pivot_tag(k: Seq<Kline>, q: int, p: int, high: bool) -> SwingTagEntry {
    if high {
        SwingTagEntry {
            price: k[p].high,
            time: k[p].time,
            kind: if k[p].high.units > k[q].high.units {
                SwingTagKind::HigherHigh
            } else {
                SwingTagKind::LowerHigh
            },
        }
    } else {
        SwingTagEntry {
            price: k[p].low,
            time: k[p].time,
            kind: if k[p].low.units > k[q].low.units {
                SwingTagKind::HigherLow
            } else {
                SwingTagKind::LowerLow
            },
        }
    }
}

/// The tags of all pivots but the first, each against the one before it.
pub open spec fn pivot_tags(k: Seq<Kline>, ps: Seq<int>, high: bool) -> Seq<SwingTagEntry>
    decreases ps.len(),
{
    if ps.len() <= 1 {
        Seq::empty()
    } else {
        pivot_tags(k, ps.drop_last(), high).push(
            pivot_tag(k, ps[ps.len() - 2], ps[ps.len() - 1], high),
        )
    }
}

spec fn pivots_known(k: Seq<Kline>, len: int, i: int, s: Scan) -> bool {
    let highs = pivots(k, len, i, true);
    let lows = pivots(k, len, i, false);
    &&& s.prev_high == if highs.len() == 0 {
        None
    } else {
        Some(k[highs.last()].high.units as int)
    }
    &&& s.prev_low == if lows.len() == 0 {
        None
    } else {
        Some(k[lows.last()].low.units as int)
    }
}

proof fn lemma_tag_pushed(tags: Seq<SwingTagEntry>, t: SwingTagEntry, high: bool)
    ensures
        tags_on(tags.push(t), high) == if marks_high(t) == high {
            tags_on(tags, high).push(t)
        } else {
            tags_on(tags, high)
        },
{
    assert(tags.push(t).drop_last() =~= tags);
}

proof fn lemma_pivot_pushed(k: Seq<Kline>, ps: Seq<int>, p: int, high: bool)
    ensures
        pivot_tags(k, ps.push(p), high) == if ps.len() == 0 {
            Seq::empty()
        } else {
            pivot_tags(k, ps, high).push(pivot_tag(k, ps.last(), p, high))
        },
{
    assert(ps.push(p).drop_last() =~= ps);
}

/// The swing tags are the pivots, in order, except for the first high and the first low, and each
/// says how its pivot lies to the one before it on its side.
pub proof fn swing_tags_are_the_pivots(k: Seq<Kline>, len: int, boost: Ratio, i: int)
    ensures
        tags_on(smc_structure::scan(k, len, boost, i).tags, true) == pivot_tags(
            k,
            pivots(k, len, i, true),
            true,
        ),
        tags_on(smc_structure::scan(k, len, boost, i).tags, false) == pivot_tags(
            k,
            pivots(k, len, i, false),
            false,
        ),
{
    lemma_tags(k, len, boost, i);
}

proof fn lemma_tags(k: Seq<Kline>, len: int, boost: Ratio, i: int)
    ensures
        pivots_known(k, len, i, smc_structure::scan(k, len, boost, i)),
        tags_on(smc_structure::scan(k, len, boost, i).tags, true) == pivot_tags(
            k,
            pivots(k, len, i, true),
            true,
        ),
        tags_on(smc_structure::scan(k, len, boost, i).tags, false) == pivot_tags(
            k,
            pivots(k, len, i, false),
            false,
        ),
    decreases i - len,
{
    if i > len {
        lemma_tags(k, len, boost, i - 1);
        let s = smc_structure::scan(k, len, boost, i - 1);
        let bar = k[i - 1];
        let highs = pivots(k, len, i - 1, true);
        let lows = pivots(k, len, i - 1, false);
        lemma_pivot_pushed(k, highs, i - 1, true);
        lemma_pivot_pushed(k, lows, i - 1, false);
        let s1 = if smc_structure::pivot_high(k, i - 1, len) {
            s.after_high(bar)
        } else {
            s
        };
        if smc_structure::pivot_high(k, i - 1, len) && highs.len() > 0 {
            let t = pivot_tag(k, highs.last(), i - 1, true);
            assert(s1.tags == s.tags.push(t));
            lemma_tag_pushed(s.tags, t, true);
            lemma_tag_pushed(s.tags, t, false);
        }
        if smc_structure::pivot_low(k, i - 1, len) && lows.len() > 0 {
            let t = pivot_tag(k, lows.last(), i - 1, false);
            assert(s1.after_low(bar).tags == s1.tags.push(t));
            lemma_tag_pushed(s1.tags, t, true);
            lemma_tag_pushed(s1.tags, t, false);
        }
    }
}

/// The bars follow each other in time.
pub open spec fn in_time_order(k: Seq<Kline>) -> bool {
    forall|a: int, b: int|
        #![trigger k[a], k[b]]
        0 <= a < b < k.len() ==> k[a].time < k[b].time
}

spec fn swings_unused(s: Scan) -> bool {
    &&& s.last_high matches Some(h) ==> forall|b: int|
        #![trigger s.breaks[b]]
        0 <= b < s.breaks.len() && s.breaks[b].direction is Bullish ==> s.breaks[b].from_time
            < h.time
    &&& s.last_low matches Some(l) ==> forall|b: int|
        #![trigger s.breaks[b]]
        0 <= b < s.breaks.len() && s.breaks[b].direction is Bearish ==> s.breaks[b].from_time
            < l.time
}

/// Levels are confirmed one after the other, and those of one direction stand on later and later
/// swing points: no two of them share one.
pub proof fn levels_follow_each_other(k: Seq<Kline>, len: int, boost: Ratio, i: int)
    requires
        in_time_order(k),
        0 <= len,
        i <= k.len(),
    ensures
        ({
            let breaks = smc_structure::scan(k, len, boost, i).breaks;
            forall|a: int, b: int|
                #![trigger breaks[a], breaks[b]]
                0 <= a < b < breaks.len() ==> {
                    &&& breaks[a].confirmed_time < breaks[b].confirmed_time
                    &&& breaks[a].direction == breaks[b].direction ==> breaks[a].from_time
                        < breaks[b].from_time
                }
        }),
{
    lemma_levels_follow(k, len, boost, i);
}

proof fn lemma_levels_follow(k: Seq<Kline>, len: int, boost: Ratio, i: int)
    requires
        in_time_order(k),
        0 <= len,
        i <= k.len(),
    ensures
        swings_unused(smc_structure::scan(k, len, boost, i)),
        ({
            let breaks = smc_structure::scan(k, len, boost, i).breaks;
            forall|a: int, b: int|
                #![trigger breaks[a], breaks[b]]
                0 <= a < b < breaks.len() ==> {
                    &&& breaks[a].confirmed_time < breaks[b].confirmed_time
                    &&& breaks[a].direction == breaks[b].direction ==> breaks[a].from_time
                        < breaks[b].from_time
                }
        }),
    decreases i - len,
{
    if i > len {
        lemma_levels_follow(k, len, boost, i - 1);
        every_break_is_explained(k, len, boost, i - 1);
        let s = smc_structure::scan(k, len, boost, i - 1);
        let t = smc_structure::scan(k, len, boost, i);
        let now = k[i - 1].time;
        assert forall|b: int| #![trigger s.breaks[b]] 0 <= b < s.breaks.len() implies
            s.breaks[b].confirmed_time < now && s.breaks[b].from_time < now by {
            assert(explained(k, len, s.breaks[b], i - 1));
            let (p, c) = choose|p: int, c: int|
                len <= p < i - 1 && len <= c < i - 1 && #[trigger] explains(
                    k,
                    len,
                    s.breaks[b],
                    p,
                    c,
                );
            assert(k[p].time < now && k[c].time < now);
        }
        let s1 = if smc_structure::pivot_high(k, i - 1, len) {
            s.after_high(k[i - 1])
        } else {
            s
        };
        let s2 = if smc_structure::pivot_low(k, i - 1, len) {
            s1.after_low(k[i - 1])
        } else {
            s1
        };
        assert(s2.breaks == s.breaks);
        assert(swings_unused(s2));
        assert forall|b: int| #![trigger t.breaks[b]] 0 <= b < s.breaks.len() implies t.breaks[b]
            == s.breaks[b] by {}
    }
}

/// No more gaps are kept than the limit, and each is open: it has no end, its top is above its
/// bottom, and it is the gap of a bar such that neither that bar nor a later one fills it.
pub proof fn kept_gaps_are_open(k: Seq<Kline>, min_pct: Ratio)
    ensures
        smc_structure::open_gaps(k, min_pct).len() <= smc_structure::MAX_FVGS,
        forall|f: int|
            #![trigger smc_structure::open_gaps(k, min_pct)[f]]
            0 <= f < smc_structure::open_gaps(k, min_pct).len() ==> {
                let zone = smc_structure::open_gaps(k, min_pct)[f];
                &&& zone.end_time is None
                &&& zone.top.units > zone.bottom.units
                &&& exists|bar: int|
                    2 <= bar < k.len() && zone.start_time == k[bar - 2].time
                        && !#[trigger] smc_structure::filled_by(
                        k,
                        (Gap { zone, bar }),
                        k.len() as int,
                    )
            },
{
    let all = smc_structure::gaps(k, k.len() as int, min_pct);
    let open = smc_structure::unfilled(k, all, all.len() as int);
    lemma_unfilled_are_open(k, all, all.len() as int);
    lemma_gap_shape(k, k.len() as int, min_pct);
    let kept = smc_structure::open_gaps(k, min_pct);
    assert forall|f: int|
        #![trigger kept[f]]
        0 <= f < kept.len() implies {
        let zone = kept[f];
        &&& zone.end_time is None
        &&& zone.top.units > zone.bottom.units
        &&& exists|bar: int|
            2 <= bar < k.len() && zone.start_time == k[bar - 2].time
                && !#[trigger] smc_structure::filled_by(k, (Gap { zone, bar }), k.len() as int)
    } by {
        let g = if open.len() <= smc_structure::MAX_FVGS {
            f
        } else {
            f + open.len() - smc_structure::MAX_FVGS
        };
        assert(kept[f] == open[g]);
        let a = choose|a: int|
            0 <= a < all.len() && (#[trigger] all[a]).zone == open[g] && !smc_structure::filled_by(
                k,
                all[a],
                k.len() as int,
            );
        assert(all[a] == (Gap { zone: kept[f], bar: all[a].bar }));
    }
}

proof fn lemma_unfilled_are_open(k: Seq<Kline>, all: Seq<Gap>, n: int)
    requires
        0 <= n <= all.len(),
    ensures
        forall|g: int|
            #![trigger smc_structure::unfilled(k, all, n)[g]]
            0 <= g < smc_structure::unfilled(k, all, n).len() ==> exists|a: int|
                0 <= a < n && (#[trigger] all[a]).zone == smc_structure::unfilled(k, all, n)[g]
                    && !smc_structure::filled_by(k, all[a], k.len() as int),
    decreases n,
{
    if n > 0 {
        lemma_unfilled_are_open(k, all, n - 1);
        let before = smc_structure::unfilled(k, all, n - 1);
        let after = smc_structure::unfilled(k, all, n);
        assert forall|g: int|
            #![trigger after[g]]
            0 <= g < after.len() implies exists|a: int|
            0 <= a < n && (#[trigger] all[a]).zone == after[g] && !smc_structure::filled_by(
                k,
                all[a],
                k.len() as int,
            ) by {
            if g < before.len() {
                assert(after[g] == before[g]);
                let a = choose|a: int|
                    0 <= a < n - 1 && (#[trigger] all[a]).zone == before[g]
                        && !smc_structure::filled_by(k, all[a], k.len() as int);
                assert(all[a].zone == after[g]);
            } else {
                assert(all[n - 1].zone == after[g]);
            }
        }
    }
}

proof fn lemma_gap_shape(k: Seq<Kline>, i: int, min_pct: Ratio)
    ensures
        forall|c: int|
            #![trigger smc_structure::gaps(k, i, min_pct)[c]]
            0 <= c < smc_structure::gaps(k, i, min_pct).len() ==> {
                let gap = smc_structure::gaps(k, i, min_pct)[c];
                &&& 2 <= gap.bar < i
                &&& gap.zone.end_time is None
                &&& gap.zone.top.units > gap.zone.bottom.units
                &&& gap.zone.start_time == k[gap.bar - 2].time
            },
    decreases i,
{
    if i > 2 {
        lemma_gap_shape(k, i - 1, min_pct);
        let before = smc_structure::gaps(k, i - 1, min_pct);
        let after = smc_structure::gaps(k, i, min_pct);
        assert forall|c: int|
            #![trigger after[c]]
            0 <= c < after.len() implies {
            &&& 2 <= after[c].bar < i
            &&& after[c].zone.end_time is None
            &&& after[c].zone.top.units > after[c].zone.bottom.units
            &&& after[c].zone.start_time == k[after[c].bar - 2].time
        } by {
            if c < before.len() {
                assert(after[c] == before[c]);
            }
        }
    }
}

/// Where no bar's high is below its low, the discount lies at or below the equilibrium, and that
/// at or below the premium.
pub proof fn zones_are_ordered(k: Seq<Kline>, zone_len: int, zone_smooth: int)
    requires
        zone_len >= 1,
        zone_smooth >= 1,
        k.len() >= 1,
        forall|i: int| 0 <= i < k.len() ==> (#[trigger] k[i]).low.units <= k[i].high.units,
    ensures
        ({
            let tail = math::min_int(zone_smooth, k.len() as int);
            let premium = smc_structure::round_div(
                smc_structure::zone_sum(k, zone_len, tail, 3),
                4 * tail,
            );
            let equilibrium = smc_structure::round_div(
                smc_structure::zone_sum(k, zone_len, tail, 2),
                4 * tail,
            );
            let discount = smc_structure::round_div(
                smc_structure::zone_sum(k, zone_len, tail, 1),
                4 * tail,
            );
            discount <= equilibrium <= premium
        }),
{
    let tail = math::min_int(zone_smooth, k.len() as int);
    lemma_zone_sums_ordered(k, zone_len, tail);
    lemma_round_div_monotonic(
        smc_structure::zone_sum(k, zone_len, tail, 1),
        smc_structure::zone_sum(k, zone_len, tail, 2),
        4 * tail,
    );
    lemma_round_div_monotonic(
        smc_structure::zone_sum(k, zone_len, tail, 2),
        smc_structure::zone_sum(k, zone_len, tail, 3),
        4 * tail,
    );
}

proof fn lemma_zone_sums_ordered(k: Seq<Kline>, zone_len: int, n: int)
    requires
        zone_len >= 1,
        n <= k.len(),
        forall|i: int| 0 <= i < k.len() ==> (#[trigger] k[i]).low.units <= k[i].high.units,
    ensures
        smc_structure::zone_sum(k, zone_len, n, 1) <= smc_structure::zone_sum(k, zone_len, n, 2),
        smc_structure::zone_sum(k, zone_len, n, 2) <= smc_structure::zone_sum(k, zone_len, n, 3),
    decreases n,
{
    if n > 0 {
        lemma_zone_sums_ordered(k, zone_len, n - 1);
        let end = k.len() - (n - 1);
        let start = math::max_int(end - zone_len, 0);
        lemma_range_ordered(k, start, end);
        assert(smc_structure::zone_quarters(k, zone_len, n - 1, 1) == 3 * smc_structure::lowest(
            k,
            start,
            end,
        ) + smc_structure::highest(k, start, end));
        assert(smc_structure::zone_quarters(k, zone_len, n - 1, 2) == 2 * smc_structure::lowest(
            k,
            start,
            end,
        ) + 2 * smc_structure::highest(k, start, end));
        assert(smc_structure::zone_quarters(k, zone_len, n - 1, 3) == smc_structure::lowest(
            k,
            start,
            end,
        ) + 3 * smc_structure::highest(k, start, end));
    }
}

proof fn lemma_range_ordered(k: Seq<Kline>, lo: int, hi: int)
    requires
        0 <= lo < hi <= k.len(),
        forall|i: int| 0 <= i < k.len() ==> (#[trigger] k[i]).low.units <= k[i].high.units,
    ensures
        smc_structure::lowest(k, lo, hi) <= smc_structure::highest(k, lo, hi),
    decreases hi - lo,
{
    if hi > lo + 1 {
        lemma_range_ordered(k, lo, hi - 1);
        assert(k[hi - 1].low.units <= k[hi - 1].high.units);
    } else {
        assert(k[lo].low.units <= k[lo].high.units);
    }
}

proof fn lemma_round_div_monotonic(a: int, b: int, d: int)
    requires
        a <= b,
        d > 0,
    ensures
        smc_structure::round_div(a, d) <= smc_structure::round_div(b, d),
{
    use_div_order(2 * a + d, 2 * b + d, 2 * d);
    use_div_order(-2 * b + d, -2 * a + d, 2 * d);
    if a < 0 && b >= 0 {
        vstd::arithmetic::div_mod::lemma_div_pos_is_pos(2 * b + d, 2 * d);
        vstd::arithmetic::div_mod::lemma_div_pos_is_pos(-2 * a + d, 2 * d);
    }
}

proof fn use_div_order(x: int, y: int, d: int)
    requires
        x <= y,
        d > 0,
    ensures
        x / d <= y / d,
{
    vstd::arithmetic::div_mod::lemma_div_is_ordered(x, y, d);
}

} // verus!
