//! What holds of the series under a chart, said of the bars and values that are put in: the latest
//! value of a bar counts, sums run over all bars, and what is missing is asked for.
use crate::connector::requests::FetchRange;
use crate::float_bits::F64Bits;
use crate::indicator::availability::IndicatorAvailability;
use crate::indicator::bar_analysis;
use crate::indicator::bar_analysis::{BarAnalysisSettings, BarSummary, FootprintSummary, TableRow};
use crate::indicator::cumulative_delta;
use crate::indicator::cumulative_delta::{BarDelta, CumulativeDeltaPoint};
use crate::indicator::open_interest;
use crate::indicator::open_interest::FetchCtx;
use crate::ordered;
use crate::units::{Basis, Exchange, MarketKind, OpenInterest, Qty};
use vstd::prelude::*;

verus! {

/// The line has a point for every bar, with the bar's own delta, and for nothing else; it starts
/// at the delta of the oldest bar.
pub proof fn every_bar_has_a_point(m: Map<u64, Qty>, points: Seq<CumulativeDeltaPoint>)
    requires
        cumulative_delta::is_line_of(m, points),
    ensures
        forall|k: u64| #[trigger]
            m.contains_key(k) ==> exists|i: int|
                0 <= i < points.len() && (#[trigger] points[i]).key == k && points[i].delta == m[k],
        forall|i: int|
            0 <= i < points.len() ==> m.contains_key((#[trigger] points[i]).key) && points[i].delta
                == m[points[i].key],
        points.len() > 0 ==> points[0].cumulative == points[0].delta.units,
{
    let keys = choose|keys: Seq<u64>| #[trigger]
        ordered::are_keys(m, keys) && cumulative_delta::is_line(m, keys, points);
    assert forall|k: u64| #[trigger] m.contains_key(k) implies exists|i: int|
        0 <= i < points.len() && (#[trigger] points[i]).key == k && points[i].delta == m[k] by {
        assert(keys.contains(k));
        let i = keys.index_of(k);
        assert(points[i].key == k);
    }
    assert forall|i: int| 0 <= i < points.len() implies m.contains_key((#[trigger] points[i]).key)
        && points[i].delta == m[points[i].key] by {
        assert(keys.contains(keys[i]));
    }
    if points.len() > 0 {
        let d = cumulative_delta::deltas_at(m, keys);
        assert(cumulative_delta::delta_sum(d, 0) == 0);
        assert(cumulative_delta::delta_sum(d, 1) == d[0].units);
        assert(points[0].key == keys[0]);
    }
}

/// The bars from `a` up to `b`, `i` among them but not first, all have a delta.
pub open spec fn runs_around(deltas: Seq<Qty>, a: int, b: int, i: int) -> bool {
    &&& 0 <= a < i < b <= deltas.len()
    &&& forall|j: int| #![trigger deltas[j]] a <= j < b ==> deltas[j].units != 0
}

proof fn lemma_run_start(deltas: Seq<Qty>, i: int, a: int)
    requires
        0 <= i < deltas.len(),
    ensures
        0 <= cumulative_delta::run_start(deltas, i) <= i,
        forall|j: int|
            #![trigger deltas[j]]
            cumulative_delta::run_start(deltas, i) <= j < i ==> deltas[j].units != 0,
        0 <= a <= i && (forall|j: int| #![trigger deltas[j]] a <= j < i ==> deltas[j].units != 0)
            ==> cumulative_delta::run_start(deltas, i) <= a,
    decreases i,
{
    if i > 0 && deltas[i - 1].units != 0 {
        lemma_run_start(deltas, i - 1, a);
    } else if 0 <= a < i {
        assert(deltas[i - 1].units == 0);
    }
}

proof fn lemma_run_end(deltas: Seq<Qty>, i: int, b: int)
    requires
        0 <= i <= deltas.len(),
    ensures
        i <= cumulative_delta::run_end(deltas, i) <= deltas.len(),
        forall|j: int|
            #![trigger deltas[j]]
            i <= j < cumulative_delta::run_end(deltas, i) ==> deltas[j].units != 0,
        i <= b <= deltas.len() && (forall|j: int|
            #![trigger deltas[j]]
            i <= j < b ==> deltas[j].units != 0) ==> b <= cumulative_delta::run_end(deltas, i),
    decreases deltas.len() - i,
{
    if i < deltas.len() && deltas[i].units != 0 {
        lemma_run_end(deltas, i + 1, b);
    } else if i < b <= deltas.len() {
        assert(deltas[i].units == 0);
    }
}

/// A bar is reliable just if it lies in a stretch of enough bars that all have a delta, and is not
/// the first of it.
pub proof fn reliable_bars_lie_in_a_run(deltas: Seq<Qty>, min_run: int, i: int)
    requires
        0 <= i < deltas.len(),
    ensures
        cumulative_delta::is_reliable(deltas, min_run, i) <==> exists|a: int, b: int| #[trigger]
            runs_around(deltas, a, b, i) && b - a >= min_run,
{
    let start = cumulative_delta::run_start(deltas, i);
    let end = cumulative_delta::run_end(deltas, i);
    lemma_run_start(deltas, i, i);
    lemma_run_end(deltas, i, i);
    if cumulative_delta::is_reliable(deltas, min_run, i) {
        assert(end > i) by {
            lemma_run_end(deltas, i, i + 1);
        }
        assert(runs_around(deltas, start, end, i));
    }
    if exists|a: int, b: int| #[trigger] runs_around(deltas, a, b, i) && b - a >= min_run {
        let (a, b) = choose|a: int, b: int| #[trigger]
            runs_around(deltas, a, b, i) && b - a >= min_run;
        lemma_run_start(deltas, i, a);
        lemma_run_end(deltas, i, b);
        assert(deltas[i].units != 0);
    }
}

/// Of the bars that are put in, the last one of a key counts; the other keys keep their delta.
pub proof fn last_delta_of_a_bar_counts(m: Map<u64, Qty>, bars: Seq<BarDelta>, key: u64)
    ensures
        ({
            let after = cumulative_delta::with_bars(m, bars);
            &&& forall|i: int|
                0 <= i < bars.len() && (#[trigger] bars[i]).key == key && (forall|j: int|
                    i < j < bars.len() ==> (#[trigger] bars[j]).key != key)
                    ==> after.contains_key(key) && after[key] == bars[i].delta
            &&& (forall|j: int| 0 <= j < bars.len() ==> (#[trigger] bars[j]).key != key)
                ==> after.contains_key(key) == m.contains_key(key) && after[key] == m[key]
        }),
    decreases bars.len(),
{
    if bars.len() > 0 {
        let front = bars.drop_last();
        last_delta_of_a_bar_counts(m, front, key);
        assert forall|i: int|
            0 <= i < bars.len() && (#[trigger] bars[i]).key == key && (forall|j: int|
                i < j < bars.len() ==> (#[trigger] bars[j]).key
                    != key) implies cumulative_delta::with_bars(m, bars).contains_key(key)
            && cumulative_delta::with_bars(m, bars)[key] == bars[i].delta by {
            if i < front.len() {
                assert(front[i] == bars[i]);
                assert(bars[bars.len() - 1].key != key);
                assert forall|j: int| i < j < front.len() implies (#[trigger] front[j]).key
                    != key by {
                    assert(bars[j].key != key);
                }
            }
        }
        if forall|j: int| 0 <= j < bars.len() ==> (#[trigger] bars[j]).key != key {
            assert(bars[bars.len() - 1].key != key);
            assert forall|j: int| 0 <= j < front.len() implies (#[trigger] front[j]).key != key by {
                assert(bars[j].key != key);
            }
        }
    }
}

/// Of the summaries that are put in, the last one of a bar counts, and a bar in which nothing was
/// traded loses its own; the other bars keep theirs.
pub proof fn last_summary_of_a_bar_counts(
    m: Map<u64, FootprintSummary>,
    bars: Seq<BarSummary>,
    key: u64,
)
    ensures
        ({
            let after = bar_analysis::with_summaries(m, bars);
            &&& forall|i: int|
                0 <= i < bars.len() && (#[trigger] bars[i]).key == key && (forall|j: int|
                    i < j < bars.len() ==> (#[trigger] bars[j]).key != key) ==> (
                after.contains_key(key) == bars[i].summary is Some) && (bars[i].summary matches Some(
                    s,
                ) ==> after[key] == s)
            &&& (forall|j: int| 0 <= j < bars.len() ==> (#[trigger] bars[j]).key != key)
                ==> after.contains_key(key) == m.contains_key(key) && (m.contains_key(key)
                ==> after[key] == m[key])
        }),
    decreases bars.len(),
{
    if bars.len() > 0 {
        let front = bars.drop_last();
        last_summary_of_a_bar_counts(m, front, key);
        let after = bar_analysis::with_summaries(m, bars);
        assert forall|i: int|
            0 <= i < bars.len() && (#[trigger] bars[i]).key == key && (forall|j: int|
                i < j < bars.len() ==> (#[trigger] bars[j]).key != key) implies (
        after.contains_key(key) == bars[i].summary is Some) && (bars[i].summary matches Some(s)
            ==> after[key] == s) by {
            if i < front.len() {
                assert(front[i] == bars[i]);
                assert(bars[bars.len() - 1].key != key);
                assert forall|j: int| i < j < front.len() implies (#[trigger] front[j]).key
                    != key by {
                    assert(bars[j].key != key);
                }
            }
        }
        if forall|j: int| 0 <= j < bars.len() ==> (#[trigger] bars[j]).key != key {
            assert(bars[bars.len() - 1].key != key);
            assert forall|j: int| 0 <= j < front.len() implies (#[trigger] front[j]).key != key by {
                assert(bars[j].key != key);
            }
        }
    }
}

/// A chart that has become shorter drops the summaries of the bars that it no longer has, and no
/// others.
pub proof fn shorter_charts_drop_the_rest(m: Map<u64, FootprintSummary>, len: u64, key: u64)
    ensures
        bar_analysis::truncated(m, len).contains_key(key) <==> m.contains_key(key) && key < len,
        m.contains_key(key) && key < len ==> bar_analysis::truncated(m, len)[key] == m[key],
{
}

/// A row is in the table just if it is switched on, and none is there twice; the rows keep their
/// order.
pub proof fn rows_are_those_switched_on(s: BarAnalysisSettings)
    ensures
        ({
            let rows = bar_analysis::spec_rows(s);
            &&& rows.contains(TableRow::Buy) == s.show_buy_sell
            &&& rows.contains(TableRow::Sell) == s.show_buy_sell
            &&& rows.contains(TableRow::Total) == s.show_volume
            &&& rows.contains(TableRow::Delta) == s.show_delta
            &&& rows.contains(TableRow::DeltaPct) == s.show_delta_pct
            &&& rows.no_duplicates()
        }),
{
    let rows = bar_analysis::spec_rows(s);
    let a: int = if s.show_buy_sell {
        2
    } else {
        0
    };
    let b: int = if s.show_volume {
        a + 1
    } else {
        a
    };
    let c: int = if s.show_delta {
        b + 1
    } else {
        b
    };
    if s.show_buy_sell {
        assert(rows[0] == TableRow::Buy);
        assert(rows[1] == TableRow::Sell);
    }
    if s.show_volume {
        assert(rows[a] == TableRow::Total);
    }
    if s.show_delta {
        assert(rows[b] == TableRow::Delta);
    }
    if s.show_delta_pct {
        assert(rows[c] == TableRow::DeltaPct);
    }
}

/// Of the values that are put in, the last one of a time counts; the other times keep theirs.
pub proof fn last_value_of_a_time_counts(m: Map<u64, F64Bits>, items: Seq<OpenInterest>, time: u64)
    ensures
        ({
            let after = open_interest::with_items(m, items);
            &&& forall|i: int|
                0 <= i < items.len() && (#[trigger] items[i]).time == time && (forall|j: int|
                    i < j < items.len() ==> (#[trigger] items[j]).time != time)
                    ==> after.contains_key(time) && after[time] == items[i].value
            &&& (forall|j: int| 0 <= j < items.len() ==> (#[trigger] items[j]).time != time)
                ==> after.contains_key(time) == m.contains_key(time) && after[time] == m[time]
        }),
    decreases items.len(),
{
    if items.len() > 0 {
        let front = items.drop_last();
        last_value_of_a_time_counts(m, front, time);
        assert forall|i: int|
            0 <= i < items.len() && (#[trigger] items[i]).time == time && (forall|j: int|
                i < j < items.len() ==> (#[trigger] items[j]).time
                    != time) implies open_interest::with_items(m, items).contains_key(time)
            && open_interest::with_items(m, items)[time] == items[i].value by {
            if i < front.len() {
                assert(front[i] == items[i]);
                assert(items[items.len() - 1].time != time);
                assert forall|j: int| i < j < front.len() implies (#[trigger] front[j]).time
                    != time by {
                    assert(items[j].time != time);
                }
            }
        }
        if forall|j: int| 0 <= j < items.len() ==> (#[trigger] items[j]).time != time {
            assert(items[items.len() - 1].time != time);
            assert forall|j: int| 0 <= j < front.len() implies (#[trigger] front[j]).time
                != time by {
                assert(items[j].time != time);
            }
        }
    }
}

/// Without any values, all that is visible is asked for, up to the newest kline.
pub proof fn nothing_known_asks_for_everything(
    m: Map<u64, F64Bits>,
    ctx: FetchCtx,
    range: (u64, u64),
)
    requires
        open_interest::is_timerange(m, ctx.kline_latest, range),
        forall|t: u64| !m.contains_key(t),
        ctx.visible_earliest < ctx.kline_latest,
    ensures
        open_interest::missing_range(ctx, range) == Some(
            FetchRange::OpenInterest(ctx.prefetch_earliest, ctx.kline_latest),
        ),
{
}

/// Where something visible lies before the first value, what is before it is asked for; or else,
/// where the last value is older than the newest kline, what is after it.
pub proof fn missing_values_are_asked_for(
    m: Map<u64, F64Bits>,
    ctx: FetchCtx,
    range: (u64, u64),
    first: u64,
    last: u64,
)
    requires
        open_interest::is_timerange(m, ctx.kline_latest, range),
        m.contains_key(first),
        m.contains_key(last),
        forall|t: u64| m.contains_key(t) ==> first <= t <= last,
        first <= ctx.kline_latest,
    ensures
        ({
            let r = open_interest::missing_range(ctx, range);
            if ctx.visible_earliest < first {
                r == Some(FetchRange::OpenInterest(ctx.prefetch_earliest, first))
            } else if last < ctx.kline_latest {
                r matches Some(FetchRange::OpenInterest(from, to)) && to == ctx.kline_latest && from
                    >= last && from >= ctx.prefetch_earliest && (from == last || from
                    == ctx.prefetch_earliest)
            } else {
                r is None
            }
        }),
{
    let (f, l) = choose|f: Option<u64>, l: Option<u64>|
        {
            &&& #[trigger] ordered::is_least_in(m, 0, u64::MAX, f)
            &&& #[trigger] ordered::is_greatest_in(m, 0, u64::MAX, l)
            &&& range.0 == (match f {
                Some(t) => crate::math::min_int(t as int, ctx.kline_latest as int),
                None => ctx.kline_latest as int,
            })
            &&& range.1 == (match l {
                Some(t) => t as int,
                None => 0,
            })
        };
    assert(f is Some && f->0 == first);
    assert(l is Some && l->0 == last);
}

/// The open interest is shown of perpetuals alone, on bars by time from five minutes to four hours
/// other than two, and not on the exchanges that do not tell it.
pub proof fn open_interest_is_for_perpetuals(basis: Basis, exchange: Exchange)
    ensures
        open_interest::spec_availability(basis, exchange) == IndicatorAvailability::Available <==> {
            &&& basis matches Basis::Time(ms) && 300_000 <= ms <= 14_400_000 && ms != 7_200_000
            &&& match exchange {
                Exchange::BinanceLinear | Exchange::BinanceInverse => true,
                Exchange::Other(kind, _) => kind == MarketKind::LinearPerps || kind
                    == MarketKind::InversePerps,
                Exchange::BinanceSpot
                | Exchange::HyperliquidLinear
                | Exchange::MexcLinear
                | Exchange::MexcInverse => false,
            }
        },
{
}

} // verus!
