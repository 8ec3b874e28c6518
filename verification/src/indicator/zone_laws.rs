//! What holds of gap boxes, ratings and zone levels, said of the bars that they are made of.
use crate::indicator::smc_structure;
use crate::indicator::smc_structure::{Direction, FvgZone, Gap, Scan, AVG_BARS, AVG_SCALE, MAX_FVGS};
use crate::math;
use crate::units::{Kline, Ratio};
use vstd::prelude::*;

verus! {

/// The ranges of `n` bars from bar `lo` on, added up.
pub open spec fn ranges(k: Seq<Kline>, lo: int, n: nat) -> int
    decreases n,
{
    if n == 0 {
        0
    } else {
        (k[lo].high.units - k[lo].low.units) + ranges(k, lo + 1, (n - 1) as nat)
    }
}

proof fn lemma_ranges(k: Seq<Kline>, lo: int, mid: int, hi: int)
    requires
        lo <= mid <= hi,
    ensures
        smc_structure::range_sum(k, lo, mid) + ranges(k, mid, (hi - mid) as nat) == ranges(
            k,
            lo,
            (hi - lo) as nat,
        ),
    decreases mid - lo,
{
    if lo < mid {
        lemma_ranges(k, lo, mid - 1, hi);
    }
}

/// A gap at bar `i` is wide enough: at least `min_pct` of the average range of the bars before it,
/// twenty of them or as many as there are, which has to be more than nothing.
pub open spec fn is_wide_enough(k: Seq<Kline>, i: int, size: int, min_pct: Ratio) -> bool {
    let n = if i < AVG_BARS {
        i
    } else {
        AVG_BARS as int
    };
    let sum = ranges(k, i - n, n as nat);
    0 < sum * min_pct.num <= size * n * min_pct.den
}

/// Bar `i` leaves a gap to the bar two before it: its low is above that bar's high, or its high
/// below that bar's low, by enough.
pub open spec fn leaves_gap(k: Seq<Kline>, i: int, up: bool, min_pct: Ratio) -> bool {
    if up {
        k[i - 2].high.units < k[i].low.units && is_wide_enough(
            k,
            i,
            k[i].low.units - k[i - 2].high.units,
            min_pct,
        )
    } else {
        k[i].high.units < k[i - 2].low.units && is_wide_enough(
            k,
            i,
            k[i - 2].low.units - k[i].high.units,
            min_pct,
        )
    }
}

/// The box spans the gap that bar `i` leaves, from the bar two before it on.
pub open spec fn spans_gap(zone: FvgZone, k: Seq<Kline>, i: int, up: bool) -> bool {
    &&& zone.start_time == k[i - 2].time
    &&& zone.end_time is None
    &&& if up {
        zone.direction == Direction::Bullish && zone.bottom == k[i - 2].high && zone.top == k[i].low
    } else {
        zone.direction == Direction::Bearish && zone.top == k[i - 2].low && zone.bottom == k[i].high
    }
}

/// Bar `j`, which is later than the start of the gap, trades through to its far side.
pub open spec fn closes_gap(k: Seq<Kline>, i: int, up: bool, j: int) -> bool {
    k[j].time > k[i - 2].time && if up {
        k[j].low.units <= k[i - 2].high.units
    } else {
        k[j].high.units >= k[i - 2].low.units
    }
}

proof fn lemma_counts(k: Seq<Kline>, i: int, size: int, min_pct: Ratio)
    requires
        i >= 2,
    ensures
        smc_structure::gap_counts(k, i, size, min_pct) == is_wide_enough(k, i, size, min_pct),
{
    let start = math::max_int(i - AVG_BARS, 0);
    lemma_ranges(k, start, i, i);
}

proof fn lemma_gap_at(k: Seq<Kline>, i: int, min_pct: Ratio)
    requires
        i >= 2,
        k[i].low.units <= k[i].high.units,
        k[i - 2].low.units <= k[i - 2].high.units,
    ensures
        smc_structure::gap_at(k, i, min_pct) == if leaves_gap(k, i, true, min_pct) {
            Some(Direction::Bullish)
        } else if leaves_gap(k, i, false, min_pct) {
            Some(Direction::Bearish)
        } else {
            None
        },
{
    lemma_counts(k, i, k[i].low.units - k[i - 2].high.units, min_pct);
    lemma_counts(k, i, k[i - 2].low.units - k[i].high.units, min_pct);
}

proof fn lemma_gap_is_found(k: Seq<Kline>, n: int, min_pct: Ratio, i: int, up: bool) -> (g: int)
    requires
        2 <= i < n <= k.len(),
        k[i].low.units <= k[i].high.units,
        k[i - 2].low.units <= k[i - 2].high.units,
        leaves_gap(k, i, up, min_pct),
    ensures
        0 <= g < smc_structure::gaps(k, n, min_pct).len(),
        smc_structure::gaps(k, n, min_pct)[g].bar == i,
        spans_gap(smc_structure::gaps(k, n, min_pct)[g].zone, k, i, up),
    decreases n,
{
    let before = smc_structure::gaps(k, n - 1, min_pct);
    if i == n - 1 {
        lemma_gap_at(k, i, min_pct);
        before.len() as int
    } else {
        lemma_gap_is_found(k, n - 1, min_pct, i, up)
    }
}

proof fn lemma_unfilled_is_kept(k: Seq<Kline>, all: Seq<Gap>, n: int, g: int) -> (f: int)
    requires
        0 <= g < n <= all.len(),
        !smc_structure::filled_by(k, all[g], k.len() as int),
    ensures
        0 <= f < smc_structure::unfilled(k, all, n).len(),
        smc_structure::unfilled(k, all, n)[f] == all[g].zone,
    decreases n,
{
    if g == n - 1 {
        smc_structure::unfilled(k, all, n - 1).len() as int
    } else {
        lemma_unfilled_is_kept(k, all, n - 1, g)
    }
}

/// Gaps are complete: every gap that a bar leaves and that neither the bar nor a later one trades
/// through has a box, which is found among the open ones. The latest of those are kept.
pub proof fn every_open_gap_has_a_box(
    k: Seq<Kline>,
    min_pct: Ratio,
    i: int,
    up: bool,
) -> (f: int)
    requires
        2 <= i < k.len(),
        k[i].low.units <= k[i].high.units,
        k[i - 2].low.units <= k[i - 2].high.units,
        leaves_gap(k, i, up, min_pct),
        forall|j: int| i <= j < k.len() ==> !#[trigger] closes_gap(k, i, up, j),
    ensures
        ({
            let all = smc_structure::gaps(k, k.len() as int, min_pct);
            let open = smc_structure::unfilled(k, all, all.len() as int);
            let kept = smc_structure::open_gaps(k, min_pct);
            &&& 0 <= f < open.len()
            &&& spans_gap(open[f], k, i, up)
            &&& kept.len() <= open.len()
            &&& kept.len() < open.len() ==> kept.len() == MAX_FVGS
            &&& open.len() - kept.len() <= f ==> kept[f - (open.len() - kept.len())] == open[f]
        }),
{
    let all = smc_structure::gaps(k, k.len() as int, min_pct);
    let g = lemma_gap_is_found(k, k.len() as int, min_pct, i, up);
    assert forall|j: int| i <= j < k.len() implies !#[trigger] smc_structure::fills(
        k,
        all[g].zone,
        j,
    ) by {
        assert(!closes_gap(k, i, up, j));
    }
    lemma_unfilled_is_kept(k, all, all.len() as int, g)
}

proof fn lemma_gap_is_left(k: Seq<Kline>, n: int, min_pct: Ratio, g: int)
    requires
        0 <= n <= k.len(),
        0 <= g < smc_structure::gaps(k, n, min_pct).len(),
        forall|j: int| 0 <= j < k.len() ==> (#[trigger] k[j]).low.units <= k[j].high.units,
    ensures
        ({
            let gap = smc_structure::gaps(k, n, min_pct)[g];
            let up = gap.zone.direction == Direction::Bullish;
            &&& 2 <= gap.bar < n
            &&& leaves_gap(k, gap.bar, up, min_pct)
            &&& spans_gap(gap.zone, k, gap.bar, up)
        }),
    decreases n,
{
    let before = smc_structure::gaps(k, n - 1, min_pct);
    if g < before.len() {
        lemma_gap_is_left(k, n - 1, min_pct, g);
    } else {
        assert(k[n - 1].low.units <= k[n - 1].high.units);
        assert(k[n - 3].low.units <= k[n - 3].high.units);
        lemma_gap_at(k, n - 1, min_pct);
    }
}

proof fn lemma_unfilled_is_a_gap(k: Seq<Kline>, all: Seq<Gap>, n: int, f: int) -> (g: int)
    requires
        0 <= n <= all.len(),
        0 <= f < smc_structure::unfilled(k, all, n).len(),
    ensures
        0 <= g < n,
        all[g].zone == smc_structure::unfilled(k, all, n)[f],
        !smc_structure::filled_by(k, all[g], k.len() as int),
    decreases n,
{
    let before = smc_structure::unfilled(k, all, n - 1);
    if f < before.len() {
        lemma_unfilled_is_a_gap(k, all, n - 1, f)
    } else {
        n - 1
    }
}

/// Nothing else has a box: a kept box is that of a gap which a bar, which is found, leaves, and
/// which neither that bar nor a later one trades through.
pub proof fn every_box_is_an_open_gap(k: Seq<Kline>, min_pct: Ratio, f: int) -> (i: int)
    requires
        0 <= f < smc_structure::open_gaps(k, min_pct).len(),
        forall|j: int| 0 <= j < k.len() ==> (#[trigger] k[j]).low.units <= k[j].high.units,
    ensures
        ({
            let zone = smc_structure::open_gaps(k, min_pct)[f];
            let up = zone.direction == Direction::Bullish;
            &&& 2 <= i < k.len()
            &&& leaves_gap(k, i, up, min_pct)
            &&& spans_gap(zone, k, i, up)
            &&& forall|j: int| i <= j < k.len() ==> !#[trigger] closes_gap(k, i, up, j)
        }),
{
    let all = smc_structure::gaps(k, k.len() as int, min_pct);
    let open = smc_structure::unfilled(k, all, all.len() as int);
    let kept = smc_structure::open_gaps(k, min_pct);
    let at = f + (open.len() - kept.len());
    assert(kept[f] == open[at]);
    let g = lemma_unfilled_is_a_gap(k, all, all.len() as int, at);
    lemma_gap_is_left(k, k.len() as int, min_pct, g);
    let i = all[g].bar;
    let up = all[g].zone.direction == Direction::Bullish;
    assert forall|j: int| i <= j < k.len() implies !#[trigger] closes_gap(k, i, up, j) by {
        assert(!smc_structure::fills(k, all[g].zone, j));
    }
    i
}

/// A rating says how a size compares to the average: five stars from 1.6 times it on, four from
/// 1.25, three from 0.9, two from 0.6. Without an average every size has three.
pub proof fn ratings_follow_the_average(size: int, avg: int)
    requires
        size >= 0,
        avg > 0,
    ensures
        ({
            let scaled = size * AVG_SCALE;
            let r = smc_structure::size_rating(size, Some(avg));
            &&& 1 <= r <= 5
            &&& r == 5 <==> 10 * scaled >= 16 * avg
            &&& r >= 4 <==> 4 * scaled >= 5 * avg
            &&& r >= 3 <==> 10 * scaled >= 9 * avg
            &&& r >= 2 <==> 10 * scaled >= 6 * avg
        }),
        smc_structure::size_rating(size, None) == 3,
{
}

/// The rolling average moves a tenth of the way towards each size, from the first size on.
pub proof fn average_moves_a_tenth(avg: int, size: int)
    ensures
        ({
            let after = smc_structure::rolled(Some(avg), size);
            0 <= (avg * 10 + (size * AVG_SCALE - avg)) - 10 * after < 10
        }),
        smc_structure::rolled(None, size) == size * AVG_SCALE,
{
}

/// A break is rated by the distance between the two swing points, and a boost by volume adds one
/// star, up to five.
pub proof fn volume_adds_a_star(s: Scan, bar: Kline, direction: Direction)
    requires
        s.last_high is Some,
        s.last_low is Some,
    ensures
        ({
            let leg = math::abs(s.last_high->0.price.units - s.last_low->0.price.units);
            let plain = s.break_level(bar, direction, false).rating;
            let boosted = s.break_level(bar, direction, true).rating;
            &&& plain == smc_structure::size_rating(leg, s.leg_avg)
            &&& boosted == if plain < 5 {
                plain + 1
            } else {
                5
            }
            &&& s.after_break(bar, direction, false).leg_avg == Some(
                smc_structure::rolled(s.leg_avg, leg),
            )
        }),
{
}

/// The volumes of `n` bars from bar `lo` on, added up, both sides together.
pub open spec fn volumes(k: Seq<Kline>, lo: int, n: nat) -> int
    decreases n,
{
    if n == 0 {
        0
    } else {
        k[lo].volume.spec_total() + volumes(k, lo + 1, (n - 1) as nat)
    }
}

proof fn lemma_volumes(k: Seq<Kline>, lo: int, mid: int, hi: int)
    requires
        lo <= mid <= hi,
    ensures
        smc_structure::volume_sum(k, lo, mid) + volumes(k, mid, (hi - mid) as nat) == volumes(
            k,
            lo,
            (hi - lo) as nat,
        ),
    decreases mid - lo,
{
    if lo < mid {
        lemma_volumes(k, lo, mid - 1, hi);
    }
}

/// A bar is boosted by volume where its volume exceeds `boost` times the average of the last
/// twenty bars, or of all where there are fewer, and that average is more than nothing.
pub proof fn boosted_bars_exceed_the_average(k: Seq<Kline>, i: int, boost: Ratio)
    ensures
        ({
            let n = if k.len() < AVG_BARS {
                k.len() as int
            } else {
                AVG_BARS as int
            };
            let sum = volumes(k, k.len() - n, n as nat);
            smc_structure::volume_boosted(k, i, boost) == (sum > 0 && k[i].volume.spec_total() * n
                * boost.den > sum * boost.num)
        }),
{
    let n = math::min_int(k.len() as int, AVG_BARS as int);
    lemma_volumes(k, k.len() - n, k.len() as int, k.len() as int);
}

/// `hi` and `lo` are the highest high and the lowest low of the bars from `start` up to `end`.
pub open spec fn is_range(k: Seq<Kline>, start: int, end: int, lo: int, hi: int) -> bool {
    &&& forall|j: int| #![trigger k[j]] start <= j < end ==> lo <= k[j].low.units && k[j].high.units
        <= hi
    &&& exists|j: int| #![trigger k[j]] start <= j < end && k[j].low.units == lo
    &&& exists|j: int| #![trigger k[j]] start <= j < end && k[j].high.units == hi
}

proof fn lemma_range(k: Seq<Kline>, start: int, end: int)
    requires
        start < end,
    ensures
        is_range(
            k,
            start,
            end,
            smc_structure::lowest(k, start, end),
            smc_structure::highest(k, start, end),
        ),
    decreases end - start,
{
    let lo = smc_structure::lowest(k, start, end);
    let hi = smc_structure::highest(k, start, end);
    if end > start + 1 {
        lemma_range(k, start, end - 1);
        let lo0 = smc_structure::lowest(k, start, end - 1);
        let hi0 = smc_structure::highest(k, start, end - 1);
        let a = choose|j: int|
            #![trigger k[j]]
            start <= j < end - 1 && k[j].low.units == lo0;
        let b = choose|j: int|
            #![trigger k[j]]
            start <= j < end - 1 && k[j].high.units == hi0;
        assert(k[a].low.units == lo || k[end - 1].low.units == lo);
        assert(k[b].high.units == hi || k[end - 1].high.units == hi);
    } else {
        assert(k[start].low.units == lo && k[start].high.units == hi);
    }
}

/// The zone levels of a stretch of bars stand at whole quarters of its range, from its lowest low
/// to its highest high.
pub proof fn zones_are_quarters_of_the_range(k: Seq<Kline>, zone_len: int, offset: int) -> (range: (
    int,
    int,
))
    requires
        zone_len > 0,
        0 <= offset < k.len(),
    ensures
        ({
            let end = k.len() - offset;
            let start = if end > zone_len {
                end - zone_len
            } else {
                0
            };
            is_range(k, start, end, range.0, range.1)
        }),
        smc_structure::zone_quarters(k, zone_len, offset, 1) == 4 * range.0 + (range.1 - range.0),
        smc_structure::zone_quarters(k, zone_len, offset, 2) == 2 * (range.0 + range.1),
        smc_structure::zone_quarters(k, zone_len, offset, 3) == 4 * range.1 - (range.1 - range.0),
{
    let end = k.len() - offset;
    let start = math::max_int(end - zone_len, 0);
    lemma_range(k, start, end);
    let lo = smc_structure::lowest(k, start, end);
    let hi = smc_structure::highest(k, start, end);
    assert(smc_structure::zone_quarters(k, zone_len, offset, 1) == 3 * lo + hi);
    assert(smc_structure::zone_quarters(k, zone_len, offset, 2) == 2 * lo + 2 * hi);
    assert(smc_structure::zone_quarters(k, zone_len, offset, 3) == lo + 3 * hi);
    (lo, hi)
}

/// Rounding gives the nearest whole number.
pub proof fn rounding_is_to_the_nearest(a: int, b: int)
    requires
        b > 0,
    ensures
        -b <= 2 * (smc_structure::round_div(a, b) * b - a) <= b,
{
    let r = smc_structure::round_div(a, b);
    if a >= 0 {
        let q = (2 * a + b) / (2 * b);
        vstd::arithmetic::div_mod::lemma_fundamental_div_mod(2 * a + b, 2 * b);
        vstd::arithmetic::div_mod::lemma_mod_bound(2 * a + b, 2 * b);
        assert((2 * b) * q == 2 * (r * b)) by (nonlinear_arith)
            requires
                r == q,
        ;
    } else {
        let q = (-2 * a + b) / (2 * b);
        vstd::arithmetic::div_mod::lemma_fundamental_div_mod(-2 * a + b, 2 * b);
        vstd::arithmetic::div_mod::lemma_mod_bound(-2 * a + b, 2 * b);
        assert((2 * b) * q == -2 * (r * b)) by (nonlinear_arith)
            requires
                r == -q,
        ;
    }
}

/// Four times the level at `q` quarters of the stretches that end at the last bars, from the
/// `from`-th last one back to the `until`-th, added up.
pub open spec fn stretches(k: Seq<Kline>, zone_len: int, from: int, until: int, q: int) -> int
    decreases until - from,
{
    if from >= until {
        0
    } else {
        smc_structure::zone_quarters(k, zone_len, from, q) + stretches(
            k,
            zone_len,
            from + 1,
            until,
            q,
        )
    }
}

proof fn lemma_stretches(k: Seq<Kline>, zone_len: int, mid: int, n: int, q: int)
    requires
        0 <= mid <= n,
    ensures
        smc_structure::zone_sum(k, zone_len, mid, q) + stretches(k, zone_len, mid, n, q)
            == stretches(k, zone_len, 0, n, q),
    decreases mid,
{
    if mid > 0 {
        lemma_stretches(k, zone_len, mid - 1, n, q);
    }
}

/// `level` is a quarter of the average of `n` numbers that add up to `sum`, to the nearest unit.
pub open spec fn is_mean(level: int, sum: int, n: int) -> bool {
    -(4 * n) <= 2 * (level * (4 * n) - sum) <= 4 * n
}

proof fn lemma_sum_fits(k: Seq<Kline>, zone_len: int, n: int, q: int)
    requires
        zone_len > 0,
        0 <= n <= k.len(),
        1 <= q <= 3,
    ensures
        4 * n * i64::MIN <= smc_structure::zone_sum(k, zone_len, n, q) <= 4 * n * i64::MAX,
    decreases n,
{
    if n > 0 {
        lemma_sum_fits(k, zone_len, n - 1, q);
        let range = zones_are_quarters_of_the_range(k, zone_len, n - 1);
        let z = smc_structure::zone_quarters(k, zone_len, n - 1, q);
        assert(4 * i64::MIN <= z <= 4 * i64::MAX) by {
            let end = k.len() - (n - 1);
            let start = if end > zone_len {
                end - zone_len
            } else {
                0
            };
            let a = choose|j: int|
                #![trigger k[j]]
                start <= j < end && k[j].low.units == range.0;
            let b = choose|j: int|
                #![trigger k[j]]
                start <= j < end && k[j].high.units == range.1;
            assert(k[a].low.units == range.0);
            assert(k[b].high.units == range.1);
        }
    }
}

proof fn lemma_mean_fits(k: Seq<Kline>, zone_len: int, n: int, q: int)
    requires
        zone_len > 0,
        0 < n <= k.len(),
        1 <= q <= 3,
    ensures
        ({
            let sum = smc_structure::zone_sum(k, zone_len, n, q);
            let level = smc_structure::round_div(sum, 4 * n);
            &&& i64::MIN <= level <= i64::MAX
            &&& is_mean(level, sum, n)
        }),
{
    let sum = smc_structure::zone_sum(k, zone_len, n, q);
    let level = smc_structure::round_div(sum, 4 * n);
    lemma_sum_fits(k, zone_len, n, q);
    rounding_is_to_the_nearest(sum, 4 * n);
    assert(-0x8000_0000_0000_0000 <= level <= 0x7fff_ffff_ffff_ffff) by (nonlinear_arith)
        requires
            n > 0,
            -(4 * n) <= 2 * (level * (4 * n) - sum) <= 4 * n,
            4 * n * (-0x8000_0000_0000_0000) <= sum <= 4 * n * 0x7fff_ffff_ffff_ffff,
    ;
}

/// There are zone levels as soon as the bars fill one stretch. Each is the average over the last
/// stretches, so many of them as are smoothed over: the discount a quarter, the equilibrium a half
/// and the premium three quarters of the way up.
pub proof fn zones_average_the_last_stretches(k: Seq<Kline>, zone_len: int, zone_smooth: int)
    requires
        zone_len > 0,
        zone_smooth > 0,
    ensures
        smc_structure::zones_of(k, zone_len, zone_smooth) is Some <==> k.len() >= zone_len,
        smc_structure::zones_of(k, zone_len, zone_smooth) matches Some(z) ==> {
            let n = if k.len() < zone_smooth {
                k.len() as int
            } else {
                zone_smooth
            };
            &&& is_mean(z.discount.units as int, stretches(k, zone_len, 0, n, 1), n)
            &&& is_mean(z.equilibrium.units as int, stretches(k, zone_len, 0, n, 2), n)
            &&& is_mean(z.premium.units as int, stretches(k, zone_len, 0, n, 3), n)
        },
{
    let n = math::min_int(zone_smooth, k.len() as int);
    if k.len() >= zone_len {
        lemma_stretches(k, zone_len, n, n, 1);
        lemma_stretches(k, zone_len, n, n, 2);
        lemma_stretches(k, zone_len, n, n, 3);
        lemma_mean_fits(k, zone_len, n, 1);
        lemma_mean_fits(k, zone_len, n, 2);
        lemma_mean_fits(k, zone_len, n, 3);
    }
}

/// Bars that leave no gap do not move the average.
pub proof fn bars_without_a_gap_do_not_move_the_average(
    k: Seq<Kline>,
    min_pct: Ratio,
    i: int,
    j: int,
)
    requires
        2 <= i <= j,
        forall|g: int|
            #![trigger smc_structure::gap_at(k, g, min_pct)]
            i <= g < j ==> smc_structure::gap_at(k, g, min_pct) is None,
    ensures
        smc_structure::gap_avg(k, j, min_pct) == smc_structure::gap_avg(k, i, min_pct),
    decreases j - i,
{
    if i < j {
        assert(smc_structure::gap_at(k, j - 1, min_pct) is None);
        bars_without_a_gap_do_not_move_the_average(k, min_pct, i, j - 1);
    }
}

/// The first gap is the average of itself, and there is none before it; every further gap moves
/// the average a tenth of the way towards its size.
pub proof fn gaps_move_the_average(k: Seq<Kline>, min_pct: Ratio, g: int)
    requires
        2 <= g,
        smc_structure::gap_at(k, g, min_pct) is Some,
    ensures
        smc_structure::gap_avg(k, 2, min_pct) is None,
        smc_structure::gap_avg(k, g + 1, min_pct) is Some,
        ({
            let size = smc_structure::gap_size(k, g, smc_structure::gap_at(k, g, min_pct)->0);
            let after = smc_structure::gap_avg(k, g + 1, min_pct)->0;
            match smc_structure::gap_avg(k, g, min_pct) {
                None => after == size * AVG_SCALE,
                Some(avg) => 0 <= (avg * 10 + (size * AVG_SCALE - avg)) - 10 * after < 10,
            }
        }),
{
}

/// Every gap is rated by how its size compares to the average of those before it.
pub proof fn gaps_are_rated_by_those_before(k: Seq<Kline>, n: int, min_pct: Ratio, g: int)
    requires
        0 <= g < smc_structure::gaps(k, n, min_pct).len(),
        forall|j: int| 0 <= j < k.len() ==> (#[trigger] k[j]).low.units <= k[j].high.units,
        0 <= n <= k.len(),
    ensures
        ({
            let gap = smc_structure::gaps(k, n, min_pct)[g];
            let size = if gap.zone.direction == Direction::Bullish {
                k[gap.bar].low.units - k[gap.bar - 2].high.units
            } else {
                k[gap.bar - 2].low.units - k[gap.bar].high.units
            };
            &&& 2 <= gap.bar < n
            &&& size > 0
            &&& gap.zone.rating == smc_structure::size_rating(
                size,
                smc_structure::gap_avg(k, gap.bar, min_pct),
            )
        }),
    decreases n,
{
    let before = smc_structure::gaps(k, n - 1, min_pct);
    if g < before.len() {
        gaps_are_rated_by_those_before(k, n - 1, min_pct, g);
    }
}

} // verus!
