//! What a kline chart asks for, said of its requests and of what it is missing: the first range
//! that may be asked for is, ranges reach around all that is missing, and nothing is asked for
//! without need.
use crate::axis::PriceInfoLabel;
use crate::connector::requests;
use crate::connector::requests::{FetchRange, FetchRequest, RequestStatus};
use crate::kline_chart::chart;
use crate::kline_chart::chart::{ChartLayer, ChartStyle, FetchInputs, Granted, KlineChart};
use crate::kline_chart::indicators::{IndicatorSet, KlineIndicator};
use crate::kline_chart::study;
use crate::units::Kline;
use vstd::prelude::*;

verus! {

/// A range may be asked for: it never was, or else all that was asked of it failed more than half
/// a minute ago.
pub open spec fn may_ask(m: Map<u128, FetchRequest>, range: FetchRange, now: u64) -> bool {
    forall|id: u128| #[trigger]
        m.contains_key(id) && m[id].fetch_type == range ==> (m[id].status matches
            RequestStatus::Failed(ts) && now - ts > 30_000)
}

proof fn lemma_grant(m: Map<u128, FetchRequest>, range: FetchRange, id: u128, now: u64)
    requires
        requests::one_per_range(m),
    ensures
        chart::spec_grant(m, range, id, now) is Some <==> may_ask(m, range, now),
        chart::spec_grant(m, range, id, now) matches Some(g) ==> g.fetch == range,
{
    if requests::has_request(m, range) {
        let e = requests::request_for(m, range);
        assert(requests::is_request_for(m, e, range));
        assert(m.contains_key(e));
        assert forall|other: u128| #[trigger]
            m.contains_key(other) && m[other].fetch_type == range implies other == e by {
            assert(m[other].fetch_type == m[e].fetch_type);
        }
    } else {
        assert forall|other: u128| #[trigger] m.contains_key(other) implies m[other].fetch_type
            != range by {
            if m[other].fetch_type == range {
                assert(requests::is_request_for(m, other, range));
            }
        }
    }
}

/// Of several ranges the first that may be asked for is asked for, and nothing where none may.
pub proof fn first_open_range_is_asked_for(
    m: Map<u128, FetchRequest>,
    ranges: Seq<FetchRange>,
    id: u128,
    now: u64,
    i: int,
)
    requires
        requests::one_per_range(m),
        0 <= i <= ranges.len(),
        forall|j: int| 0 <= j < i ==> !may_ask(m, #[trigger] ranges[j], now),
        i < ranges.len() ==> may_ask(m, ranges[i], now),
    ensures
        match chart::first_granted(m, ranges, id, now) {
            Some(g) => i < ranges.len() && g.fetch == ranges[i],
            None => i == ranges.len(),
        },
    decreases ranges.len(),
{
    if ranges.len() > 0 {
        lemma_grant(m, ranges[0], id, now);
        if i > 0 {
            assert(!may_ask(m, ranges[0], now));
            let rest = ranges.drop_first();
            assert forall|j: int| 0 <= j < i - 1 implies !may_ask(m, #[trigger] rest[j], now) by {
                assert(rest[j] == ranges[j + 1]);
            }
            first_open_range_is_asked_for(m, rest, id, now, i - 1);
        }
    }
}

/// As much again as is visible is fetched ahead, as far as time reaches back.
pub proof fn prefetch_doubles_the_view(visible: (u64, u64))
    requires
        visible.0 <= visible.1,
    ensures
        ({
            let from = chart::spec_prefetch(visible);
            &&& 0 <= from <= visible.0
            &&& from > 0 ==> visible.0 - from == visible.1 - visible.0
            &&& visible.0 - from <= visible.1 - visible.0
        }),
{
}

/// An empty chart asks for its first bars: so many of them up to now, as far as time reaches back.
pub proof fn empty_chart_asks_for_its_first_bars(
    m: Map<u128, FetchRequest>,
    inputs: FetchInputs,
    needs_trades: bool,
    fetching: bool,
    id: u128,
    now: u64,
    from: u64,
)
    requires
        requests::one_per_range(m),
        inputs.is_empty,
        from == if 450 * inputs.timeframe_ms <= now {
            now - 450 * inputs.timeframe_ms
        } else {
            0
        },
        may_ask(m, FetchRange::Kline(from, now), now),
    ensures
        chart::spec_fetch(m, inputs, needs_trades, fetching, id, now).0 matches Some(g) && g.fetch
            == FetchRange::Kline(from, now),
        chart::spec_fetch(m, inputs, needs_trades, fetching, id, now).1 == fetching,
{
    let ranges = chart::ranges_before(inputs, now);
    assert(ranges[0] == FetchRange::Kline(from, now));
    first_open_range_is_asked_for(m, ranges, id, now, 0);
}

/// Where bars are visible that lie before the first one, what is before it is asked for, with as
/// much again as is visible.
pub proof fn earlier_bars_are_asked_for(
    m: Map<u128, FetchRequest>,
    inputs: FetchInputs,
    needs_trades: bool,
    fetching: bool,
    id: u128,
    now: u64,
    from: u64,
    visible: (u64, u64),
)
    requires
        requests::one_per_range(m),
        !inputs.is_empty,
        inputs.visible == Some(visible),
        visible.0 <= visible.1,
        visible.0 < inputs.kline_earliest,
        from == if visible.1 - visible.0 <= visible.0 {
            visible.0 - (visible.1 - visible.0)
        } else {
            0
        },
        may_ask(m, FetchRange::Kline(from, inputs.kline_earliest), now),
    ensures
        chart::spec_fetch(m, inputs, needs_trades, fetching, id, now).0 matches Some(g) && g.fetch
            == FetchRange::Kline(from, inputs.kline_earliest),
{
    let ranges = chart::ranges_before(inputs, now);
    assert(ranges =~= seq![FetchRange::Kline(from, inputs.kline_earliest)]);
    first_open_range_is_asked_for(m, ranges, id, now, 0);
}

/// The bars that are there reach back to what is visible.
pub open spec fn has_visible_bars(inputs: FetchInputs, visible: (u64, u64)) -> bool {
    !inputs.is_empty && inputs.visible == Some(visible) && inputs.kline_earliest <= visible.0
}

/// Once the bars are there, a chart that shows trades asks for them, where they may be fetched and
/// are not being fetched already; from then on they are.
pub proof fn missing_trades_are_asked_for(
    m: Map<u128, FetchRequest>,
    inputs: FetchInputs,
    id: u128,
    now: u64,
    visible: (u64, u64),
    from: u64,
    to: u64,
)
    requires
        requests::one_per_range(m),
        has_visible_bars(inputs, visible),
        inputs.trade_fetch_enabled,
        inputs.trade_range == Some((from, to)),
        may_ask(m, FetchRange::Trades(from, to), now),
    ensures
        ({
            let r = chart::spec_fetch(m, inputs, true, false, id, now);
            &&& r.0 matches Some(g) && g.fetch == FetchRange::Trades(from, to)
            &&& r.1
        }),
{
    assert(chart::ranges_before(inputs, now) =~= Seq::empty());
    lemma_grant(m, FetchRange::Trades(from, to), id, now);
    assert(!requests::is_pending(m, FetchRange::Trades(from, to))) by {
        if requests::is_pending(m, FetchRange::Trades(from, to)) {
            let e = choose|e: u128| #[trigger]
                requests::is_request_for(m, e, FetchRange::Trades(from, to)) && m[e].status
                    == RequestStatus::Pending;
            assert(m.contains_key(e));
        }
    }
}

/// No trades are asked for on a chart that does not show them, that may not fetch them or that is
/// fetching them already: what is asked for is then what the indicators miss, and after that the
/// bars that are missing.
pub proof fn trades_are_not_asked_for_in_vain(
    m: Map<u128, FetchRequest>,
    inputs: FetchInputs,
    needs_trades: bool,
    fetching: bool,
    id: u128,
    now: u64,
    visible: (u64, u64),
)
    requires
        requests::one_per_range(m),
        has_visible_bars(inputs, visible),
        !needs_trades || fetching || !inputs.trade_fetch_enabled || inputs.trade_range is None,
        forall|j: int|
            0 <= j < inputs.indicator_ranges@.len() ==> !may_ask(
                m,
                #[trigger] inputs.indicator_ranges@[j],
                now,
            ),
        inputs.missing is None,
    ensures
        chart::spec_fetch(m, inputs, needs_trades, fetching, id, now) == (
            None::<Granted>,
            fetching,
        ),
{
    assert(chart::ranges_before(inputs, now) =~= Seq::empty());
    let after = chart::ranges_after(inputs);
    assert(after =~= inputs.indicator_ranges@);
    first_open_range_is_asked_for(m, after, id, now, after.len() as int);
}

proof fn lemma_ends(times: Seq<u64>, lo: u64, hi: u64, n: int)
    requires
        0 < n <= times.len(),
    ensures
        forall|i: int|
            0 <= i < n ==> chart::least_or(times, lo, n) <= #[trigger] times[i]
                <= chart::greatest_or(times, hi, n),
        exists|i: int| 0 <= i < n && #[trigger] times[i] == chart::least_or(times, lo, n),
        exists|i: int| 0 <= i < n && #[trigger] times[i] == chart::greatest_or(times, hi, n),
    decreases n,
{
    if n > 1 {
        lemma_ends(times, lo, hi, n - 1);
        let a = choose|i: int|
            0 <= i < n - 1 && #[trigger] times[i] == chart::least_or(times, lo, n - 1);
        let b = choose|i: int|
            0 <= i < n - 1 && #[trigger] times[i] == chart::greatest_or(times, hi, n - 1);
        assert(times[a] == chart::least_or(times, lo, n) || times[n - 1] == chart::least_or(
            times,
            lo,
            n,
        ));
        assert(times[b] == chart::greatest_or(times, hi, n) || times[n - 1] == chart::greatest_or(
            times,
            hi,
            n,
        ));
    } else {
        assert(times[0] == chart::least_or(times, lo, n));
        assert(times[0] == chart::greatest_or(times, hi, n));
    }
}

/// A repair reaches around every bar that is missing, with one bar more on either side, and no
/// further: it starts and ends a bar's length from one of them.
pub proof fn repairs_reach_around_what_is_missing(
    times: Seq<u64>,
    visible: (u64, u64),
    timeframe_ms: u64,
)
    requires
        times.len() > 0,
    ensures
        chart::repair_range(times, visible, timeframe_ms) matches FetchRange::Kline(from, to) && {
            &&& forall|i: int|
                0 <= i < times.len() ==> (from == 0 || from + timeframe_ms <= #[trigger] times[i])
                    && (to == u64::MAX || times[i] + timeframe_ms <= to)
            &&& from == 0 || exists|i: int|
                0 <= i < times.len() && #[trigger] times[i] == from + timeframe_ms
            &&& to == u64::MAX || exists|i: int|
                0 <= i < times.len() && #[trigger] times[i] + timeframe_ms == to
        },
{
    let n = times.len() as int;
    lemma_ends(times, visible.0, visible.1, n);
    let a = choose|i: int| 0 <= i < n && #[trigger] times[i] == chart::least_or(
        times,
        visible.0,
        n,
    );
    let b = choose|i: int| 0 <= i < n && #[trigger] times[i] == chart::greatest_or(
        times,
        visible.1,
        n,
    );
    assert(times[a] == chart::least_or(times, visible.0, n));
    assert(times[b] == chart::greatest_or(times, visible.1, n));
}

/// Where nothing else may be asked for, the bars that are missing are.
pub proof fn missing_bars_are_asked_for(
    m: Map<u128, FetchRequest>,
    inputs: FetchInputs,
    needs_trades: bool,
    fetching: bool,
    id: u128,
    now: u64,
    visible: (u64, u64),
)
    requires
        requests::one_per_range(m),
        has_visible_bars(inputs, visible),
        !needs_trades || fetching || !inputs.trade_fetch_enabled || inputs.trade_range is None,
        forall|j: int|
            0 <= j < inputs.indicator_ranges@.len() ==> !may_ask(
                m,
                #[trigger] inputs.indicator_ranges@[j],
                now,
            ),
        inputs.missing is Some,
        may_ask(
            m,
            chart::repair_range(inputs.missing->0@, visible, inputs.timeframe_ms),
            now,
        ),
    ensures
        chart::spec_fetch(m, inputs, needs_trades, fetching, id, now).0 matches Some(g) && g.fetch
            == chart::repair_range(inputs.missing->0@, visible, inputs.timeframe_ms),
{
    assert(chart::ranges_before(inputs, now) =~= Seq::empty());
    let after = chart::ranges_after(inputs);
    let n = inputs.indicator_ranges@.len() as int;
    assert forall|j: int| 0 <= j < n implies !may_ask(m, #[trigger] after[j], now) by {
        assert(after[j] == inputs.indicator_ranges@[j]);
    }
    first_open_range_is_asked_for(m, after, id, now, n);
}

/// The highest price is one of the prices, and none is higher.
pub proof fn highest_price_is_the_maximum(prices: Seq<i64>)
    requires
        prices.len() > 0,
    ensures
        forall|i: int|
            0 <= i < prices.len() ==> #[trigger] prices[i] <= chart::spec_max_price(prices),
        exists|i: int| 0 <= i < prices.len() && #[trigger] prices[i] == chart::spec_max_price(prices),
    decreases prices.len(),
{
    if prices.len() > 1 {
        let front = prices.drop_last();
        highest_price_is_the_maximum(front);
        assert forall|i: int| 0 <= i < prices.len() implies #[trigger] prices[i]
            <= chart::spec_max_price(prices) by {
            if i < front.len() {
                assert(front[i] == prices[i]);
            }
        }
        let a = choose|i: int|
            0 <= i < front.len() && #[trigger] front[i] == chart::spec_max_price(front);
        assert(prices[a] == front[a]);
        assert(prices[a] == chart::spec_max_price(prices) || prices[prices.len() - 1]
            == chart::spec_max_price(prices));
    } else {
        assert(prices[0] == chart::spec_max_price(prices));
    }
}

/// Candles come with the market's structure over them, bubbles where they are switched on, and the
/// book where it is to be shown and there is one; footprints come with their naked points of
/// control where the study is on. The last price is always drawn.
pub proof fn layers_are_those_of_the_style(c: KlineChart, show_book: bool, has_depth: bool)
    ensures
        ({
            let layers = c.spec_layers(show_book, has_depth);
            let candles = c.style == ChartStyle::Candles;
            &&& layers.contains(ChartLayer::LastPrice)
            &&& layers.contains(ChartLayer::Candles) == candles
            &&& layers.contains(ChartLayer::Gaps) == candles
            &&& layers.contains(ChartLayer::Structure) == candles
            &&& layers.contains(ChartLayer::SwingTags) == candles
            &&& layers.contains(ChartLayer::Zones) == candles
            &&& layers.contains(ChartLayer::BigOrders) == candles
            &&& layers.contains(ChartLayer::Bubbles) == (candles && c.show_trade_bubbles)
            &&& layers.contains(ChartLayer::BookLevels) == (candles && show_book && has_depth)
            &&& layers.contains(ChartLayer::Clusters) == !candles
            &&& layers.contains(ChartLayer::NakedPocs) == (!candles && study::spec_npoc_lookback(
                c.studies@,
            ) is Some)
        }),
{
    let layers = c.spec_layers(show_book, has_depth);
    if c.style == ChartStyle::Candles {
        assert(layers[0] == ChartLayer::Candles);
        assert(layers[1] == ChartLayer::LastPrice);
        assert(layers[2] == ChartLayer::Gaps);
        assert(layers[3] == ChartLayer::Structure);
        assert(layers[4] == ChartLayer::SwingTags);
        assert(layers[5] == ChartLayer::Zones);
        let b: int = if c.show_trade_bubbles {
            assert(layers[6] == ChartLayer::Bubbles);
            7
        } else {
            6
        };
        assert(layers[b] == ChartLayer::BigOrders);
        if show_book && has_depth {
            assert(layers[b + 1] == ChartLayer::BookLevels);
        }
    } else {
        let b: int = if study::spec_npoc_lookback(c.studies@) is Some {
            assert(layers[0] == ChartLayer::NakedPocs);
            1
        } else {
            0
        };
        assert(layers[b] == ChartLayer::Clusters);
        assert(layers[b + 1] == ChartLayer::LastPrice);
    }
}

/// Trades are needed just for footprints and for bubbles.
pub proof fn footprints_and_bubbles_need_trades(c: KlineChart)
    ensures
        c.style is Footprint ==> c.spec_needs_trades(),
        c.show_trade_bubbles ==> c.spec_needs_trades(),
        c.spec_needs_trades() && !c.show_trade_bubbles ==> c.style is Footprint,
{
}

/// The label of a bar shows its close, and that it rose unless it closed below its open.
pub proof fn labels_show_the_close(k: Kline)
    ensures
        match chart::price_label(k) {
            PriceInfoLabel::Up(p) => p == k.close && p.units >= k.open.units,
            PriceInfoLabel::Down(p) => p == k.close && p.units < k.open.units,
            PriceInfoLabel::Neutral(_) => false,
        },
{
}

/// Switching one indicator on adds one to how many there are, and none are on of none.
pub proof fn indicators_are_counted(a: IndicatorSet, b: IndicatorSet, i: KlineIndicator)
    requires
        !a.has(i),
        b.has(i),
        forall|j: KlineIndicator| j != i ==> #[trigger] a.has(j) == b.has(j),
    ensures
        b.spec_count() == a.spec_count() + 1,
        0 <= a.spec_count() < 4,
        (forall|j: KlineIndicator| !#[trigger] a.has(j)) ==> a.spec_count() == 0,
{
    assert(a.has(KlineIndicator::Volume) == a.volume);
    assert(a.has(KlineIndicator::BarAnalysis) == a.bar_analysis);
    assert(a.has(KlineIndicator::CumulativeDelta) == a.cumulative_delta);
    assert(a.has(KlineIndicator::OpenInterest) == a.open_interest);
}

} // verus!
