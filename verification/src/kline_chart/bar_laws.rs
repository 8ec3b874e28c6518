//! What holds of the bars, trades and studies of a kline chart, said of the trades and bars that go
//! in: which are kept, which are drawn and where, and which are marked.
use crate::float_bits::F64Bits;
use crate::kline_chart::bars;
use crate::kline_chart::bars::{BarPoc, NPoc};
use crate::kline_chart::chart;
use crate::kline_chart::study;
use crate::kline_chart::study::{FootprintStudy, Study};
use crate::kline_chart::trades;
use crate::kline_chart::trades::{BookLevel, Bubble, SizedTrade, TradeStore};
use crate::math;
use crate::ordered;
use crate::units::{Basis, Kline, Trade};
use vstd::prelude::*;

verus! {

/// The latest items are kept, as many as there may be, in order.
pub proof fn latest_items_are_kept<T>(s: Seq<T>, cap: int, i: int)
    requires
        cap >= 0,
    ensures
        ({
            let kept = trades::last_items(s, cap);
            &&& kept.len() <= cap
            &&& kept.len() <= s.len()
            &&& kept.len() == cap || kept.len() == s.len()
            &&& 0 <= i < kept.len() ==> kept[kept.len() - 1 - i] == s[s.len() - 1 - i]
        }),
{
}

/// New trades are kept in order after those that were there, and only the oldest are dropped.
pub proof fn new_trades_come_last(before: Seq<Trade>, buffer: Seq<SizedTrade>, cap: int, i: int)
    requires
        buffer.len() <= cap,
        0 <= i < buffer.len(),
    ensures
        ({
            let after = trades::last_items(
                before + buffer.map_values(|t: SizedTrade| t.trade),
                cap,
            );
            &&& after.len() >= buffer.len()
            &&& after[after.len() - buffer.len() + i] == buffer[i].trade
        }),
{
}

/// How many of the first `n` items a predicate holds of.
pub open spec fn count<T>(s: Seq<T>, p: spec_fn(T) -> bool, n: int) -> nat
    decreases n,
{
    if n <= 0 {
        0
    } else if p(s[n - 1]) {
        count(s, p, n - 1) + 1
    } else {
        count(s, p, n - 1)
    }
}

proof fn lemma_filter_places<T>(s: Seq<T>, p: spec_fn(T) -> bool, n: int, i: int)
    requires
        0 <= n <= s.len(),
    ensures
        s.take(n).filter(p).len() == count(s, p, n),
        0 <= i < n && p(s[i]) ==> count(s, p, i) < count(s, p, n) && s.take(n).filter(
            p,
        )[count(s, p, i) as int] == s[i],
    decreases n,
{
    if n > 0 {
        lemma_filter_places(s, p, n - 1, i);
        math::lemma_filter_step(s, n - 1, p);
    } else {
        math::lemma_filter_ends(s, p);
    }
}

/// A trade is worth at least a thousand.
pub open spec fn is_worth_keeping(t: SizedTrade) -> bool {
    !t.notional.is_nan() && t.notional.rank() >= 0x408f_4000_0000_0000
}

/// Every trade that is worth a thousand or more is kept for a bubble, after those that were there
/// and in order, and no other trade is.
pub proof fn every_big_trade_is_kept(
    before: Seq<SizedTrade>,
    buffer: Seq<SizedTrade>,
    cap: int,
    i: int,
)
    requires
        0 <= i < buffer.len(),
        is_worth_keeping(buffer[i]),
        before.len() + buffer.len() <= cap,
    ensures
        ({
            let after = trades::last_items(
                before + buffer.filter(|t: SizedTrade| trades::is_big(t)),
                cap,
            );
            let big = |t: SizedTrade| is_worth_keeping(t);
            &&& after.len() == before.len() + count(buffer, big, buffer.len() as int)
            &&& count(buffer, big, i) < count(buffer, big, buffer.len() as int)
            &&& after[before.len() as int + count(buffer, big, i)] == buffer[i]
        }),
{
    let p = |t: SizedTrade| trades::is_big(t);
    let big = |t: SizedTrade| is_worth_keeping(t);
    assert(p =~= big);
    lemma_filter_places(buffer, p, buffer.len() as int, i);
    math::lemma_filter_ends(buffer, p);
    lemma_count_bound(buffer, big, buffer.len() as int);
}

proof fn lemma_count_bound<T>(s: Seq<T>, p: spec_fn(T) -> bool, n: int)
    requires
        n >= 0,
    ensures
        count(s, p, n) <= n,
    decreases n,
{
    if n > 0 {
        lemma_count_bound(s, p, n - 1);
    }
}

/// The size that the largest bubble stands for is that of a visible trade, or nothing, and no
/// visible trade is larger.
pub proof fn largest_bubble_is_the_maximum(ts: Seq<SizedTrade>, earliest: u64, latest: u64, n: int)
    requires
        0 <= n <= ts.len(),
    ensures
        ({
            let max = trades::max_qty(ts, earliest, latest, n);
            &&& max >= 0
            &&& forall|i: int|
                #![trigger ts[i]]
                0 <= i < n && earliest <= ts[i].trade.time <= latest ==> ts[i].trade.qty.units
                    <= max
            &&& max == 0 || exists|i: int|
                #![trigger ts[i]]
                0 <= i < n && earliest <= ts[i].trade.time <= latest && ts[i].trade.qty.units == max
        }),
    decreases n,
{
    if n > 0 {
        largest_bubble_is_the_maximum(ts, earliest, latest, n - 1);
        let before = trades::max_qty(ts, earliest, latest, n - 1);
        let max = trades::max_qty(ts, earliest, latest, n);
        if max != before {
            assert(ts[n - 1].trade.qty.units == max);
        } else if max != 0 {
            let i = choose|i: int|
                #![trigger ts[i]]
                0 <= i < n - 1 && earliest <= ts[i].trade.time <= latest && ts[i].trade.qty.units
                    == before;
            assert(ts[i].trade.qty.units == max);
        }
    }
}

/// A time lies in the bar of its spot: as far after the start as the spot says, and less than a
/// bar's length; bars start at whole multiples of their length.
pub proof fn spots_split_the_time(ms: u64, t: u64)
    requires
        ms > 0,
    ensures
        ({
            let s = trades::spec_spot(Basis::Time(ms), t);
            &&& s.start + s.part == t
            &&& s.part < s.span
            &&& s.span == ms
            &&& s.start as int % ms as int == 0
        }),
{
    let q = t as int / ms as int;
    vstd::arithmetic::div_mod::lemma_fundamental_div_mod(t as int, ms as int);
    vstd::arithmetic::div_mod::lemma_mod_bound(t as int, ms as int);
    vstd::arithmetic::div_mod::lemma_div_pos_is_pos(t as int, ms as int);
    assert(0 <= q * ms <= t) by (nonlinear_arith)
        requires
            t == ms * q + t as int % ms as int,
            t as int % ms as int >= 0,
            q >= 0,
            ms > 0,
    ;
    assert(ms * q == q * ms) by (nonlinear_arith);
    assert(trades::spec_spot(Basis::Time(ms), t).start == q * ms);
    vstd::arithmetic::div_mod::lemma_mod_multiples_basic(q, ms as int);
}

/// Bubbles are complete and in order: every visible trade that is larger than the filter has one,
/// at the place that the number of such trades before it gives, and nothing else has.
pub proof fn every_shown_trade_is_a_bubble(
    ts: Seq<SizedTrade>,
    filter: F64Bits,
    basis: Basis,
    earliest: u64,
    latest: u64,
    bubbles: Seq<Bubble>,
    i: int,
)
    requires
        bubbles == ts.filter(
            |t: SizedTrade| trades::is_shown(t, filter, earliest, latest),
        ).map_values(|t: SizedTrade| trades::to_bubble(t, basis)),
        0 <= i < ts.len(),
    ensures
        ({
            let shown = |t: SizedTrade|
                earliest <= t.trade.time && t.trade.time <= latest && !t.notional.spec_le(filter);
            &&& bubbles.len() == count(ts, shown, ts.len() as int)
            &&& shown(ts[i]) ==> {
                let k = count(ts, shown, i) as int;
                &&& k < bubbles.len()
                &&& bubbles[k].trade == ts[i].trade
                &&& bubbles[k].spot == trades::spec_spot(basis, ts[i].trade.time)
            }
        }),
{
    let p = |t: SizedTrade| trades::is_shown(t, filter, earliest, latest);
    let shown = |t: SizedTrade|
        earliest <= t.trade.time && t.trade.time <= latest && !t.notional.spec_le(filter);
    assert(p =~= shown);
    lemma_filter_places(ts, p, ts.len() as int, i);
    math::lemma_filter_ends(ts, p);
}

/// The largest trade of a side is one of that side between the two times, and no other such trade
/// is worth more; where there is none, no trade of the side is visible.
pub proof fn biggest_trade_is_of_its_side(
    ts: Seq<SizedTrade>,
    is_sell: bool,
    earliest: u64,
    latest: u64,
    r: Option<int>,
    j: int,
)
    requires
        trades::is_biggest(ts, is_sell, earliest, latest, r),
        0 <= j < ts.len(),
        ts[j].trade.is_sell == is_sell,
        earliest <= ts[j].trade.time <= latest,
    ensures
        r matches Some(i) && 0 <= i < ts.len() && ts[i].trade.is_sell == is_sell && earliest
            <= ts[i].trade.time <= latest && ts[j].notional.total_rank()
            <= ts[i].notional.total_rank(),
{
    assert(trades::is_candidate(ts[j], is_sell, earliest, latest));
}

/// Marked levels are worth at least the threshold, come in descending value, and no level that is
/// left out is worth more than a marked one; levels are left out only once three are marked.
pub proof fn marked_levels_are_worth_most(
    levels: Seq<BookLevel>,
    threshold: F64Bits,
    r: Seq<usize>,
    a: int,
    i: usize,
)
    requires
        trades::are_top_levels(levels, threshold, r),
        0 <= a < r.len(),
    ensures
        r.len() <= 3,
        r[a] < levels.len(),
        levels[r[a] as int].notional.spec_ge(threshold),
        a > 0 ==> levels[r[a] as int].notional.total_rank() <= levels[r[a
            - 1] as int].notional.total_rank(),
        i < levels.len() && levels[i as int].notional.spec_ge(threshold) && !r.contains(i)
            ==> r.len() == 3 && levels[i as int].notional.total_rank()
            <= levels[r[a] as int].notional.total_rank(),
{
    assert(trades::qualifies(levels, threshold, r[a] as int));
    if a > 0 {
        assert(trades::precedes(levels, r[a - 1] as int, r[a] as int));
    }
    if i < levels.len() && levels[i as int].notional.spec_ge(threshold) && !r.contains(i) {
        assert(trades::qualifies(levels, threshold, i as int));
        assert(trades::precedes(levels, r[a] as int, i as int));
    }
}

/// Bars by ticks are counted back from the newest, so many ticks to a bar.
pub proof fn ticks_count_back_from_the_newest(klines: Seq<Kline>, per_bar: u16, back: int, tick: u64)
    requires
        per_bar > 0,
        0 <= back < klines.len(),
        back * per_bar <= tick < (back + 1) * per_bar,
    ensures
        bars::bar_of_tick(klines, per_bar, tick) == Some(klines[klines.len() - 1 - back]),
{
    let n = per_bar as int;
    assert(tick as int == back * n + (tick as int - back * n));
    assert((back + 1) * n == back * n + n) by (nonlinear_arith);
    vstd::arithmetic::div_mod::lemma_fundamental_div_mod_converse(
        tick as int,
        n,
        back,
        tick as int - back * n,
    );
}

/// Over bars by time, a cursor at the time of a bar is on that bar.
pub proof fn cursor_at_a_bar_is_on_it(
    m: Map<u64, Kline>,
    at: u64,
    earliest: u64,
    latest: u64,
    r: Option<Kline>,
)
    requires
        bars::is_hovered_bar(m, at, earliest, latest, r),
        m.contains_key(at),
    ensures
        r == Some(m[at]),
{
}

/// Between bars, a cursor is on the last visible bar before it.
pub proof fn cursor_between_bars_is_on_the_one_before(
    m: Map<u64, Kline>,
    at: u64,
    earliest: u64,
    latest: u64,
    r: Option<Kline>,
    t: u64,
)
    requires
        bars::is_hovered_bar(m, at, earliest, latest, r),
        !m.contains_key(at),
        earliest <= at,
        m.contains_key(t),
        earliest <= t <= latest,
        t <= at,
        forall|s: u64| t < s && s <= at && s <= latest ==> !m.contains_key(s),
    ensures
        r == Some(m[t]),
{
    let end = math::min_int(at as int, latest as int) as u64;
    assert(bars::is_last_bar_in(m, earliest, end, r));
    if r is Some {
        let s = choose|s: u64| #[trigger]
            m.contains_key(s) && ordered::is_greatest_in(m, earliest, end, Some(s)) && m[s] == r->0;
        assert(s == t);
    }
}

/// The bar so many bars before the newest has a point of control that is followed.
pub open spec fn is_followed(pocs: Seq<BarPoc>, back: int) -> bool {
    pocs[pocs.len() - 1 - back].poc matches Some(p) && p.status != NPoc::Untracked
}

/// How many of the newest `n` bars have a point of control that is followed.
pub open spec fn followed(pocs: Seq<BarPoc>, n: int) -> nat
    decreases n,
{
    if n <= 0 {
        0
    } else if is_followed(pocs, n - 1) {
        followed(pocs, n - 1) + 1
    } else {
        followed(pocs, n - 1)
    }
}

/// Lines are complete and in order: of the newest bars each whose point of control is followed has
/// a line at that price, which ends where the price came back, and nothing else has.
pub proof fn every_followed_point_has_a_line(
    pocs: Seq<BarPoc>,
    by_time: bool,
    n: int,
    back: int,
)
    requires
        0 <= n <= pocs.len() <= u64::MAX,
    ensures
        ({
            let lines = bars::spec_npoc_lines(pocs, by_time, n);
            let bar = pocs[pocs.len() - 1 - back];
            let k = followed(pocs, back) as int;
            &&& lines.len() == followed(pocs, n)
            &&& 0 <= back < n && is_followed(pocs, back) ==> {
                &&& k < lines.len()
                &&& lines[k].price == bar.poc->0.price
                &&& lines[k].filled_at == (match bar.poc->0.status {
                    NPoc::Filled { at } => Some(at),
                    _ => None,
                })
                &&& lines[k].interval == if by_time {
                    bar.time as int
                } else {
                    back
                }
            }
        }),
    decreases n,
{
    if n > 0 {
        every_followed_point_has_a_line(pocs, by_time, n - 1, back);
    }
}

/// Switching a kind of study off leaves every study of another kind, in order, and nothing else.
pub proof fn switching_off_spares_the_others<S: Study>(
    studies: Seq<S>,
    kind: u8,
    n: int,
    i: int,
)
    requires
        0 <= n <= studies.len(),
    ensures
        ({
            let others = |s: S| s.spec_kind() != kind;
            let left = study::without_kind(studies.take(n), kind);
            &&& left.len() == count(studies, others, n)
            &&& 0 <= i < n && studies[i].spec_kind() != kind ==> count(studies, others, i)
                < left.len() && left[count(studies, others, i) as int] == studies[i]
        }),
    decreases n,
{
    if n > 0 {
        switching_off_spares_the_others(studies, kind, n - 1, i);
        assert(studies.take(n).drop_last() =~= studies.take(n - 1));
        assert(studies.take(n).last() == studies[n - 1]);
    }
}

/// How far back points of control are followed is what the first such study says; without one,
/// they are not.
pub proof fn first_study_says_how_far_back(studies: Seq<FootprintStudy>, i: int)
    requires
        0 <= i <= studies.len(),
        forall|j: int| 0 <= j < i ==> !((#[trigger] studies[j]) is NPoC),
        i < studies.len() ==> studies[i] is NPoC,
    ensures
        study::spec_npoc_lookback(studies) == if i < studies.len() {
            Some(studies[i]->lookback)
        } else {
            None
        },
    decreases studies.len(),
{
    if i > 0 {
        assert(!(studies[0] is NPoC));
        let rest = studies.drop_first();
        assert forall|j: int| 0 <= j < i - 1 implies !((#[trigger] rest[j]) is NPoC) by {
            assert(rest[j] == studies[j + 1]);
        }
        first_study_says_how_far_back(rest, i - 1);
    }
}

/// The settings for imbalances are those of the first such study; without one there are none.
pub proof fn first_study_sets_the_imbalance(studies: Seq<FootprintStudy>, i: int)
    requires
        0 <= i <= studies.len(),
        forall|j: int| 0 <= j < i ==> !((#[trigger] studies[j]) is Imbalance),
        i < studies.len() ==> studies[i] is Imbalance,
    ensures
        match study::spec_imbalance_study(studies) {
            None => i == studies.len(),
            Some(s) => i < studies.len() && s.threshold == studies[i]->threshold && s.color_scale
                == studies[i]->color_scale && s.ignore_zeros == studies[i]->ignore_zeros,
        },
    decreases studies.len(),
{
    if i > 0 {
        assert(!(studies[0] is Imbalance));
        let rest = studies.drop_first();
        assert forall|j: int| 0 <= j < i - 1 implies !((#[trigger] rest[j]) is Imbalance) by {
            assert(rest[j] == studies[j + 1]);
        }
        first_study_sets_the_imbalance(rest, i - 1);
    }
}

/// Trades that come in are the last that are kept, each as it was, and so are the large ones among
/// them.
pub proof fn trades_that_come_in_are_kept(
    before: TradeStore,
    buffer: Seq<SizedTrade>,
    after: TradeStore,
    i: int,
)
    requires
        chart::are_trades_after(before, buffer, after),
        0 <= i < buffer.len() <= 1000,
        before.big_trades@.len() <= 1000,
    ensures
        ({
            let kept = after.raw_trades@;
            let big = |t: SizedTrade| is_worth_keeping(t);
            &&& buffer.len() <= kept.len() <= before.raw_trades@.len() + buffer.len()
            &&& kept[kept.len() - buffer.len() + i] == buffer[i].trade
            &&& after.big_trades@.len() == before.big_trades@.len() + count(
                buffer,
                big,
                buffer.len() as int,
            )
            &&& is_worth_keeping(buffer[i]) ==> after.big_trades@[before.big_trades@.len() as int
                + count(buffer, big, i)] == buffer[i]
        }),
{
    let p = |t: SizedTrade| trades::is_big(t);
    let big = |t: SizedTrade| is_worth_keeping(t);
    assert(p =~= big);
    lemma_filter_places(buffer, p, buffer.len() as int, i);
    math::lemma_filter_ends(buffer, p);
    lemma_count_bound(buffer, big, buffer.len() as int);
    new_trades_come_last(
        before.raw_trades@,
        buffer,
        trades::MAX_RETAINED_TRADES as int,
        i,
    );
    if is_worth_keeping(buffer[i]) {
        every_big_trade_is_kept(
            before.big_trades@,
            buffer,
            trades::MAX_RETAINED_BIG_TRADES as int,
            i,
        );
    }
}

/// A cursor left of the bars that are visible, but not right of all bars, is on none, unless a bar
/// stands at its time.
pub proof fn cursor_left_of_the_bars_is_on_none(
    m: Map<u64, Kline>,
    at: u64,
    earliest: u64,
    latest: u64,
    r: Option<Kline>,
    later: u64,
)
    requires
        bars::is_hovered_bar(m, at, earliest, latest, r),
        !m.contains_key(at),
        m.contains_key(later),
        at <= later,
        forall|s: u64| earliest <= s <= at && s <= latest ==> !#[trigger] m.contains_key(s),
    ensures
        r is None,
{
}

/// A cursor right of all bars is on the newest one.
pub proof fn cursor_right_of_the_bars_is_on_the_newest(
    m: Map<u64, Kline>,
    at: u64,
    earliest: u64,
    latest: u64,
    r: Option<Kline>,
    newest: u64,
)
    requires
        bars::is_hovered_bar(m, at, earliest, latest, r),
        m.contains_key(newest),
        newest < at,
        newest <= latest,
        forall|s: u64| #[trigger] m.contains_key(s) ==> s <= newest,
    ensures
        r == Some(m[newest]),
{
    let (lo, hi) = if earliest <= at && earliest <= newest {
        (earliest, math::min_int(at as int, latest as int) as u64)
    } else {
        (0u64, u64::MAX)
    };
    assert(bars::is_last_bar_in(m, lo, hi, r));
    if r is Some {
        let s = choose|s: u64| #[trigger]
            m.contains_key(s) && ordered::is_greatest_in(m, lo, hi, Some(s)) && m[s] == r->0;
        assert(s == newest);
    }
}

} // verus!
