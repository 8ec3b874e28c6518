//! The state of a kline chart apart from what is drawn: its trades, its requests, and what it
//! fetches next.
use crate::axis::PriceInfoLabel;
use crate::connector::requests;
use crate::connector::requests::{
    new_request_id, now_ms, FetchRange, FetchRequest, RequestHandler, RequestStatus,
};
use crate::indicator::smc_structure;
use crate::indicator::smc_structure::SmcStructureState;
use crate::kline_chart::clusters::ClusterKind;
use crate::kline_chart::indicators::{IndicatorSet, KlineIndicator};
use crate::kline_chart::study;
use crate::kline_chart::study::{
    configure_study, npoc_lookback, toggle_study, FootprintStudy,
};
use crate::kline_chart::trades;
use crate::kline_chart::trades::{SizedTrade, TradeStore};
use crate::math;
use crate::units::{Basis, Kline, Price, PriceStep, Ratio, Trade};
use vstd::prelude::*;

verus! {

/// How many bars are fetched for an empty chart.
pub const INITIAL_BARS: u64 = 450;

/// How many bars a swing pivot has on either side.
pub const SWING_LEN: usize = 10;

/// How many structure levels a chart keeps.
pub const STRUCTURE_LEVELS: usize = 60;

/// What the bars of a chart are drawn as.
#[derive(Debug, Clone, Copy, PartialEq, Eq, Structural)]
pub enum ChartStyle {
    Candles,
    Footprint,
}

/// Against what the rows of a footprint are scaled.
#[derive(Debug, Clone, Copy, PartialEq, Eq, Structural)]
pub enum ClusterScaling {
    VisibleRange,
    /// A mixture, whose weight is held by its bits.
    Hybrid { weight_bits: u32 },
    Datapoint,
}

/// How many of the newest bars the height of a new chart is made for.
pub fn initial_scale_bars(style: ChartStyle) -> (n: usize)
    ensures
        n == (match style {
            ChartStyle::Footprint => 12int,
            ChartStyle::Candles => 60int,
        }),
{
    match style {
        ChartStyle::Footprint => 12,
        ChartStyle::Candles => 60,
    }
}

/// How many steps the height of a new chart is divided into, given how many rows its prices have:
/// at least one.
pub fn initial_steps(rows: Option<usize>) -> (n: usize)
    ensures
        n == (match rows {
            Some(r) => math::max_int(r - 1, 1),
            None => 1,
        }),
{
    match rows {
        Some(r) => if r > 2 {
            r - 1
        } else {
            1
        },
        None => 1,
    }
}

/// The volume that raises the rating of a break: one and a half times the average.
pub open spec fn spec_vol_boost() -> Ratio {
    Ratio { num: 3, den: 2 }
}

/// The highest of the prices, or else zero.
pub open spec fn spec_max_price(prices: Seq<i64>) -> int
    decreases prices.len(),
{
    if prices.len() == 0 {
        0
    } else if prices.len() == 1 {
        prices[0] as int
    } else {
        math::max_int(spec_max_price(prices.drop_last()), prices.last() as int)
    }
}

/// The highest of the prices, or else zero.
fn max_price_of(prices: &Vec<i64>) -> (p: Price)
    ensures
        p.units == spec_max_price(prices@),
{
    let n: usize = prices.len();
    if n == 0 {
        return Price { units: 0 };
    }
    let mut best: i64 = prices[0];
    let mut i: usize = 1;
    assert(prices@.take(1).len() == 1);
    while i < n
        invariant
            1 <= i <= n,
            n == prices@.len(),
            best == spec_max_price(prices@.take(i as int)),
        decreases n - i,
    {
        proof {
            assert(prices@.take(i + 1).drop_last() =~= prices@.take(i as int));
            assert(prices@.take(i + 1).last() == prices@[i as int]);
        }
        if prices[i] > best {
            best = prices[i];
        }
        i += 1;
    }
    assert(prices@.take(n as int) =~= prices@);
    Price { units: best }
}

/// The highs of bars.
pub open spec fn highs(klines: Seq<Kline>) -> Seq<i64> {
    klines.map_values(|k: Kline| k.high.units)
}

fn highs_of(klines: &Vec<Kline>) -> (r: Vec<i64>)
    ensures
        r@ == highs(klines@),
{
    let mut r: Vec<i64> = Vec::new();
    let mut i: usize = 0;
    while i < klines.len()
        invariant
            i <= klines@.len(),
            r@.len() == i,
            forall|j: int| 0 <= j < i ==> #[trigger] r@[j] == klines@[j].high.units,
        decreases klines@.len() - i,
    {
        r.push(klines[i].high.units);
        i += 1;
    }
    assert(r@ =~= highs(klines@));
    r
}

/// The prices of trades.
pub open spec fn trade_prices(trades: Seq<SizedTrade>) -> Seq<i64> {
    trades.map_values(|t: SizedTrade| t.trade.price.units)
}

fn trade_prices_of(trades: &Vec<SizedTrade>) -> (r: Vec<i64>)
    ensures
        r@ == trade_prices(trades@),
{
    let mut r: Vec<i64> = Vec::new();
    let mut i: usize = 0;
    while i < trades.len()
        invariant
            i <= trades@.len(),
            r@.len() == i,
            forall|j: int| 0 <= j < i ==> #[trigger] r@[j] == trades@[j].trade.price.units,
        decreases trades@.len() - i,
    {
        r.push(trades[i].trade.price.units);
        i += 1;
    }
    assert(r@ =~= trade_prices(trades@));
    r
}

fn max_of(a: Price, b: Price) -> (p: Price)
    ensures
        p.units == math::max_int(a.units as int, b.units as int),
{
    if b.units > a.units {
        b
    } else {
        a
    }
}

/// What is known of a chart by time when it looks for data that is missing.
pub struct FetchInputs {
    pub timeframe_ms: u64,
    /// There are no bars yet.
    pub is_empty: bool,
    /// What is visible, if anything can be seen.
    pub visible: Option<(u64, u64)>,
    /// The time of the first bar.
    pub kline_earliest: u64,
    /// Trades may be fetched.
    pub trade_fetch_enabled: bool,
    /// The range for which trades would have to be fetched.
    pub trade_range: Option<(u64, u64)>,
    /// What the indicators have to fetch, in order.
    pub indicator_ranges: Vec<FetchRange>,
    /// The times at which bars are missing, if any are.
    pub missing: Option<Vec<u64>>,
}

/// The earliest time that is fetched ahead: as much again as is visible.
pub open spec fn spec_prefetch(visible: (u64, u64)) -> int {
    math::max_int(
        visible.0 - math::max_int(visible.1 - visible.0, 0),
        0,
    )
}

/// The earliest time that is fetched ahead: as much again as is visible.
pub fn prefetch_earliest(visible: (u64, u64)) -> (t: u64)
    ensures
        t == spec_prefetch(visible),
{
    let span: u64 = visible.1.saturating_sub(visible.0);
    visible.0.saturating_sub(span)
}

/// The times between which bars must not be missing.
pub fn integrity_window(visible: (u64, u64), kline_earliest: u64, timeframe_ms: u64) -> (r: (
    u64,
    u64,
))
    ensures
        r.0 == math::max_int(spec_prefetch(visible), kline_earliest as int),
        r.1 == math::min_int(visible.1 + timeframe_ms, u64::MAX as int),
{
    let p: u64 = prefetch_earliest(visible);
    let from: u64 = if p > kline_earliest {
        p
    } else {
        kline_earliest
    };
    (from, visible.1.saturating_add(timeframe_ms))
}

/// The range of the bars that an empty chart begins with.
pub open spec fn initial_range(now: u64, timeframe_ms: u64) -> FetchRange {
    FetchRange::Kline(
        math::max_int(now - INITIAL_BARS * timeframe_ms, 0) as u64,
        now,
    )
}

/// The least of the times, or else `or`.
pub open spec fn least_or(times: Seq<u64>, or: u64, n: int) -> u64
    decreases n,
{
    if n <= 0 {
        or
    } else if n == 1 {
        times[0]
    } else {
        let before = least_or(times, or, n - 1);
        if times[n - 1] < before {
            times[n - 1]
        } else {
            before
        }
    }
}

/// The greatest of the times, or else `or`.
pub open spec fn greatest_or(times: Seq<u64>, or: u64, n: int) -> u64
    decreases n,
{
    if n <= 0 {
        or
    } else if n == 1 {
        times[0]
    } else {
        let before = greatest_or(times, or, n - 1);
        if times[n - 1] > before {
            times[n - 1]
        } else {
            before
        }
    }
}

fn ends_or(times: &Vec<u64>, or: (u64, u64)) -> (r: (u64, u64))
    ensures
        r.0 == least_or(times@, or.0, times@.len() as int),
        r.1 == greatest_or(times@, or.1, times@.len() as int),
{
    let n: usize = times.len();
    if n == 0 {
        return or;
    }
    let mut lo: u64 = times[0];
    let mut hi: u64 = times[0];
    let mut i: usize = 1;
    while i < n
        invariant
            1 <= i <= n,
            n == times@.len(),
            lo == least_or(times@, or.0, i as int),
            hi == greatest_or(times@, or.1, i as int),
        decreases n - i,
    {
        if times[i] < lo {
            lo = times[i];
        }
        if times[i] > hi {
            hi = times[i];
        }
        i += 1;
    }
    (lo, hi)
}

/// The range around the bars that are missing, with one bar more on either side.
pub open spec fn repair_range(times: Seq<u64>, visible: (u64, u64), timeframe_ms: u64) -> FetchRange {
    let n = times.len() as int;
    FetchRange::Kline(
        math::max_int(least_or(times, visible.0, n) - timeframe_ms, 0) as u64,
        math::min_int(greatest_or(times, visible.1, n) + timeframe_ms, u64::MAX as int) as u64,
    )
}

/// What is asked for before the trades.
pub open spec fn ranges_before(inputs: FetchInputs, now: u64) -> Seq<FetchRange> {
    let first = if inputs.is_empty {
        seq![initial_range(now, inputs.timeframe_ms)]
    } else {
        Seq::empty()
    };
    match inputs.visible {
        None => first,
        Some(v) => if v.0 < inputs.kline_earliest {
            first.push(FetchRange::Kline(spec_prefetch(v) as u64, inputs.kline_earliest))
        } else {
            first
        },
    }
}

/// What is asked for after the trades.
pub open spec fn ranges_after(inputs: FetchInputs) -> Seq<FetchRange> {
    match inputs.visible {
        None => Seq::empty(),
        Some(v) => match inputs.missing {
            None => inputs.indicator_ranges@,
            Some(times) => inputs.indicator_ranges@.push(
                repair_range(times@, v, inputs.timeframe_ms),
            ),
        },
    }
}

/// A request that was made.
#[derive(Debug, Clone, Copy, PartialEq, Eq, Structural)]
pub struct Granted {
    pub req_id: u128,
    pub fetch: FetchRange,
}

/// The request for `range`, if it is granted.
pub open spec fn spec_grant(
    m: Map<u128, FetchRequest>,
    range: FetchRange,
    id: u128,
    now: u64,
) -> Option<Granted> {
    match requests::requested(m, range, id, now).0 {
        Ok(Some(req_id)) => Some(Granted { req_id, fetch: range }),
        _ => None,
    }
}

/// The first of the requests that is granted.
pub open spec fn first_granted(
    m: Map<u128, FetchRequest>,
    ranges: Seq<FetchRange>,
    id: u128,
    now: u64,
) -> Option<Granted>
    decreases ranges.len(),
{
    if ranges.len() == 0 {
        None
    } else {
        match spec_grant(m, ranges.first(), id, now) {
            Some(g) => Some(g),
            None => first_granted(m, ranges.drop_first(), id, now),
        }
    }
}

/// The requests after one of them has been granted, if any has.
pub open spec fn after_grant(
    m: Map<u128, FetchRequest>,
    granted: Option<Granted>,
    id: u128,
    now: u64,
) -> Map<u128, FetchRequest> {
    match granted {
        Some(g) => requests::requested(m, g.fetch, id, now).1,
        None => m,
    }
}

fn ask(h: &mut RequestHandler, range: FetchRange, id: u128, now: u64) -> (r: Option<Granted>)
    requires
        old(h).wf(),
    ensures
        final(h).wf(),
        r == spec_grant(old(h)@, range, id, now),
        final(h)@ == after_grant(old(h)@, r, id, now),
{
    match h.add_request_at(range, id, now) {
        Ok(Some(req_id)) => Some(Granted { req_id, fetch: range }),
        _ => None,
    }
}

fn ask_all(h: &mut RequestHandler, ranges: &Vec<FetchRange>, id: u128, now: u64) -> (r: Option<
    Granted,
>)
    requires
        old(h).wf(),
    ensures
        final(h).wf(),
        r == first_granted(old(h)@, ranges@, id, now),
        final(h)@ == after_grant(old(h)@, r, id, now),
{
    let mut i: usize = 0;
    assert(ranges@.skip(0) =~= ranges@);
    while i < ranges.len()
        invariant
            i <= ranges@.len(),
            h.wf(),
            h@ == old(h)@,
            first_granted(old(h)@, ranges@, id, now) == first_granted(
                old(h)@,
                ranges@.skip(i as int),
                id,
                now,
            ),
        decreases ranges@.len() - i,
    {
        proof {
            assert(ranges@.skip(i as int).drop_first() =~= ranges@.skip(i + 1));
            assert(ranges@.skip(i as int).first() == ranges@[i as int]);
        }
        if let Some(g) = ask(h, ranges[i], id, now) {
            return Some(g);
        }
        i += 1;
    }
    None
}

/// What a chart by time does about missing data: the first request that is granted, and whether
/// trades are being fetched afterwards.
pub open spec fn spec_fetch(
    m: Map<u128, FetchRequest>,
    inputs: FetchInputs,
    needs_trades: bool,
    fetching: bool,
    id: u128,
    now: u64,
) -> (Option<Granted>, bool) {
    let before = first_granted(m, ranges_before(inputs, now), id, now);
    let trades = if needs_trades && !fetching && inputs.trade_fetch_enabled && inputs.visible
        is Some {
        match inputs.trade_range {
            Some((from, to)) => Some(FetchRange::Trades(from, to)),
            None => None,
        }
    } else {
        None
    };
    if before is Some {
        (before, fetching)
    } else {
        match trades {
            Some(range) => if requests::is_pending(m, range) {
                (first_granted(m, ranges_after(inputs), id, now), true)
            } else if spec_grant(m, range, id, now) is Some {
                (spec_grant(m, range, id, now), true)
            } else {
                (first_granted(m, ranges_after(inputs), id, now), fetching)
            },
            None => (first_granted(m, ranges_after(inputs), id, now), fetching),
        }
    }
}

/// The state of a kline chart.
pub struct KlineChart {
    pub basis: Basis,
    pub tick_size: PriceStep,
    pub style: ChartStyle,
    pub clusters: ClusterKind,
    pub scaling: ClusterScaling,
    pub studies: Vec<FootprintStudy>,
    pub show_trade_bubbles: bool,
    pub indicators: IndicatorSet,
    pub trades: TradeStore,
    pub fetching_trades: bool,
    pub request_handler: RequestHandler,
    pub last_price: Option<PriceInfoLabel>,
    pub max_price: Price,
    pub latest_x: u64,
    pub smc_structure: SmcStructureState,
}

/// A part of the picture of a chart.
#[derive(Debug, Clone, Copy, PartialEq, Eq, Structural)]
pub enum ChartLayer {
    NakedPocs,
    Clusters,
    Candles,
    LastPrice,
    Gaps,
    Structure,
    SwingTags,
    Zones,
    Bubbles,
    BigOrders,
    BookLevels,
}

/// The label of a bar's price.
pub open spec fn price_label(k: Kline) -> PriceInfoLabel {
    if k.close.units >= k.open.units {
        PriceInfoLabel::Up(k.close)
    } else {
        PriceInfoLabel::Down(k.close)
    }
}

/// The structure after the bars of a chart have changed to `series`; only bars by time have one.
pub open spec fn is_structure_after(
    basis: Basis,
    series: Seq<Kline>,
    before: SmcStructureState,
    after: SmcStructureState,
) -> bool {
    match basis {
        Basis::Time(_) => smc_structure::is_structure(
            series,
            SWING_LEN as int,
            spec_vol_boost(),
            before.max_levels as int,
            after,
        ),
        Basis::Tick(_) => after == before,
    }
}

/// The trades after `buffer` has come in.
pub open spec fn are_trades_after(
    before: TradeStore,
    buffer: Seq<SizedTrade>,
    after: TradeStore,
) -> bool {
    &&& after.raw_trades@ == trades::last_items(
        before.raw_trades@ + buffer.map_values(|t: SizedTrade| t.trade),
        trades::MAX_RETAINED_TRADES as int,
    )
    &&& after.big_trades@ == trades::last_items(
        before.big_trades@ + buffer.filter(|t: SizedTrade| trades::is_big(t)),
        trades::MAX_RETAINED_BIG_TRADES as int,
    )
}

impl KlineChart {
    pub open spec fn wf(&self) -> bool {
        self.request_handler.wf()
    }

    /// A chart over `klines`, of which `latest` is the time of the newest bar.
    pub fn new(
        basis: Basis,
        tick_size: PriceStep,
        style: ChartStyle,
        clusters: ClusterKind,
        scaling: ClusterScaling,
        studies: Vec<FootprintStudy>,
        show_trade_bubbles: bool,
        indicators: IndicatorSet,
        klines: &Vec<Kline>,
        raw_trades: Vec<Trade>,
        latest: Option<u64>,
    ) -> (c: KlineChart)
        ensures
            c.wf(),
            c.basis == basis,
            c.tick_size == tick_size,
            c.style == style,
            c.clusters == clusters,
            c.scaling == scaling,
            c.studies@ == studies@,
            c.show_trade_bubbles == show_trade_bubbles,
            c.indicators == indicators,
            c.trades.raw_trades@ == raw_trades@,
            c.trades.big_trades@.len() == 0,
            !c.fetching_trades,
            c.request_handler@ == Map::<u128, FetchRequest>::empty(),
            c.last_price is None,
            match basis {
                Basis::Time(_) => {
                    &&& c.max_price.units == spec_max_price(highs(klines@))
                    &&& c.latest_x == (match latest {
                        Some(t) => t,
                        None => 0,
                    })
                    &&& smc_structure::is_structure(
                        klines@,
                        SWING_LEN as int,
                        spec_vol_boost(),
                        STRUCTURE_LEVELS as int,
                        c.smc_structure,
                    )
                },
                Basis::Tick(_) => {
                    &&& c.max_price.units == 0
                    &&& c.latest_x == 0
                    &&& c.smc_structure.levels@.len() == 0
                    &&& c.smc_structure.swing_tags@.len() == 0
                    &&& c.smc_structure.fvgs@.len() == 0
                    &&& c.smc_structure.zones is None
                    &&& c.smc_structure.max_levels == STRUCTURE_LEVELS
                },
            },
    {
        let mut chart = KlineChart {
            basis,
            tick_size,
            style,
            clusters,
            scaling,
            studies,
            show_trade_bubbles,
            indicators,
            trades: TradeStore::new(raw_trades),
            fetching_trades: false,
            request_handler: RequestHandler::new(),
            last_price: None,
            max_price: Price { units: 0 },
            latest_x: 0,
            smc_structure: SmcStructureState::new(STRUCTURE_LEVELS),
        };
        match basis {
            Basis::Time(_) => {
                chart.max_price = max_price_of(&highs_of(klines));
                chart.latest_x =
                match latest {
                    Some(t) => t,
                    None => 0,
                };
                chart.rebuild_smc_structure(klines);
            },
            Basis::Tick(_) => {},
        }
        chart
    }

    fn rebuild_smc_structure(&mut self, series: &Vec<Kline>)
        ensures
            *final(self) == (KlineChart { smc_structure: final(self).smc_structure, ..*old(self) }),
            is_structure_after(
                old(self).basis,
                series@,
                old(self).smc_structure,
                final(self).smc_structure,
            ),
    {
        match self.basis {
            Basis::Time(_) => {
                self.smc_structure.rebuild(
                    series.as_slice(),
                    SWING_LEN,
                    Ratio { num: 3, den: 2 },
                );
            },
            Basis::Tick(_) => {},
        }
    }

    /// Takes in the newest bar, after which the bars by time are `series`.
    pub fn update_latest_kline(&mut self, kline: &Kline, series: &Vec<Kline>)
        requires
            old(self).wf(),
        ensures
            final(self).wf(),
            is_structure_after(
                old(self).basis,
                series@,
                old(self).smc_structure,
                final(self).smc_structure,
            ),
            match old(self).basis {
                Basis::Time(_) => *final(self) == (KlineChart {
                    latest_x: math::max_int(old(self).latest_x as int, kline.time as int) as u64,
                    last_price: Some(price_label(*kline)),
                    max_price: final(self).max_price,
                    smc_structure: final(self).smc_structure,
                    ..*old(self)
                }) && final(self).max_price.units == math::max_int(
                    old(self).max_price.units as int,
                    kline.high.units as int,
                ),
                Basis::Tick(_) => *final(self) == *old(self),
            },
    {
        match self.basis {
            Basis::Time(_) => {
                if kline.time > self.latest_x {
                    self.latest_x = kline.time;
                }
                self.last_price = Some(PriceInfoLabel::new(kline.close, kline.open));
                self.max_price = max_of(self.max_price, kline.high);
            },
            Basis::Tick(_) => {},
        }
        self.rebuild_smc_structure(series);
    }

    /// Whether the chart shows trades that have to be fetched.
    pub open spec fn spec_needs_trades(&self) -> bool {
        self.style == ChartStyle::Footprint || self.show_trade_bubbles
    }

    /// Looks for data that is missing and requests the first of it that may be requested, where a
    /// new request would get `id` and the time is `now`.
    pub fn fetch_missing_data_at(&mut self, inputs: &FetchInputs, id: u128, now: u64) -> (r: Option<
        Granted,
    >)
        requires
            old(self).wf(),
        ensures
            final(self).wf(),
            match old(self).basis {
                Basis::Tick(_) => r is None && *final(self) == *old(self),
                Basis::Time(_) => {
                    &&& (r, final(self).fetching_trades) == spec_fetch(
                        old(self).request_handler@,
                        *inputs,
                        old(self).spec_needs_trades(),
                        old(self).fetching_trades,
                        id,
                        now,
                    )
                    &&& final(self).request_handler@ == after_grant(
                        old(self).request_handler@,
                        r,
                        id,
                        now,
                    )
                    &&& *final(self) == (KlineChart {
                        request_handler: final(self).request_handler,
                        fetching_trades: final(self).fetching_trades,
                        ..*old(self)
                    })
                },
            },
    {
        match self.basis {
            Basis::Tick(_) => {
                return None;
            },
            Basis::Time(_) => {},
        }
        let mut before: Vec<FetchRange> = Vec::new();
        if inputs.is_empty {
            let span: i128 = INITIAL_BARS as i128 * inputs.timeframe_ms as i128;
            let from: i128 = now as i128 - span;
            let earliest: u64 = if from > 0 {
                from as u64
            } else {
                0
            };
            before.push(FetchRange::Kline(earliest, now));
        }
        if let Some(v) = inputs.visible {
            if v.0 < inputs.kline_earliest {
                before.push(FetchRange::Kline(prefetch_earliest(v), inputs.kline_earliest));
            }
        }
        assert(before@ =~= ranges_before(*inputs, now));
        if let Some(g) = ask_all(&mut self.request_handler, &before, id, now) {
            return Some(g);
        }
        let v: (u64, u64) = match inputs.visible {
            Some(v) => v,
            None => {
                assert(first_granted(self.request_handler@, Seq::empty(), id, now) is None);
                return None;
            },
        };
        let needs_trades: bool = match self.style {
            ChartStyle::Footprint => true,
            ChartStyle::Candles => self.show_trade_bubbles,
        };
        if needs_trades && !self.fetching_trades && inputs.trade_fetch_enabled {
            if let Some((from, to)) = inputs.trade_range {
                let range: FetchRange = FetchRange::Trades(from, to);
                if self.request_handler.has_pending(&range) {
                    self.fetching_trades = true;
                } else if let Some(g) = ask(&mut self.request_handler, range, id, now) {
                    self.fetching_trades = true;
                    return Some(g);
                }
            }
        }
        let mut after: Vec<FetchRange> = inputs.indicator_ranges.clone();
        assert(after@ =~= inputs.indicator_ranges@);
        if let Some(times) = &inputs.missing {
            let (lo, hi) = ends_or(times, v);
            after.push(
                FetchRange::Kline(
                    lo.saturating_sub(inputs.timeframe_ms),
                    hi.saturating_add(inputs.timeframe_ms),
                ),
            );
        }
        assert(after@ =~= ranges_after(*inputs));
        ask_all(&mut self.request_handler, &after, id, now)
    }

    /// Looks for data that is missing and requests the first of it that may be requested.
    pub fn fetch_missing_data(&mut self, inputs: &FetchInputs) -> (r: Option<Granted>)
        requires
            old(self).wf(),
        ensures
            final(self).wf(),
            old(self).basis is Tick ==> r is None && *final(self) == *old(self),
            old(self).basis is Time ==> exists|id: u128, now: u64|
                {
                    &&& (r, final(self).fetching_trades) == #[trigger] spec_fetch(
                        old(self).request_handler@,
                        *inputs,
                        old(self).spec_needs_trades(),
                        old(self).fetching_trades,
                        id,
                        now,
                    )
                    &&& final(self).request_handler@ == after_grant(
                        old(self).request_handler@,
                        r,
                        id,
                        now,
                    )
                },
            *final(self) == (KlineChart {
                request_handler: final(self).request_handler,
                fetching_trades: final(self).fetching_trades,
                ..*old(self)
            }),
    {
        let id: u128 = new_request_id();
        let now: u64 = now_ms();
        self.fetch_missing_data_at(inputs, id, now)
    }

    /// What is drawn, from the bottom to the top.
    pub open spec fn spec_layers(&self, show_book_levels: bool, has_depth: bool) -> Seq<ChartLayer> {
        match self.style {
            ChartStyle::Footprint => (if study::spec_npoc_lookback(self.studies@) is Some {
                seq![ChartLayer::NakedPocs]
            } else {
                Seq::empty()
            }) + seq![ChartLayer::Clusters, ChartLayer::LastPrice],
            ChartStyle::Candles => seq![
                ChartLayer::Candles,
                ChartLayer::LastPrice,
                ChartLayer::Gaps,
                ChartLayer::Structure,
                ChartLayer::SwingTags,
                ChartLayer::Zones,
            ] + (if self.show_trade_bubbles {
                seq![ChartLayer::Bubbles]
            } else {
                Seq::empty()
            }) + seq![ChartLayer::BigOrders] + (if show_book_levels && has_depth {
                seq![ChartLayer::BookLevels]
            } else {
                Seq::empty()
            }),
        }
    }

    /// What is drawn, from the bottom to the top.
    pub fn layers(&self, show_book_levels: bool, has_depth: bool) -> (r: Vec<ChartLayer>)
        ensures
            r@ == self.spec_layers(show_book_levels, has_depth),
    {
        let mut r: Vec<ChartLayer> = Vec::new();
        match self.style {
            ChartStyle::Footprint => {
                if let Some(_) = npoc_lookback(&self.studies) {
                    r.push(ChartLayer::NakedPocs);
                }
                r.push(ChartLayer::Clusters);
                r.push(ChartLayer::LastPrice);
            },
            ChartStyle::Candles => {
                r.push(ChartLayer::Candles);
                r.push(ChartLayer::LastPrice);
                r.push(ChartLayer::Gaps);
                r.push(ChartLayer::Structure);
                r.push(ChartLayer::SwingTags);
                r.push(ChartLayer::Zones);
                if self.show_trade_bubbles {
                    r.push(ChartLayer::Bubbles);
                }
                r.push(ChartLayer::BigOrders);
                if show_book_levels && has_depth {
                    r.push(ChartLayer::BookLevels);
                }
            },
        }
        assert(r@ =~= self.spec_layers(show_book_levels, has_depth));
        r
    }

    /// How the bars are made.
    pub fn basis(&self) -> (b: Basis)
        ensures
            b == self.basis,
    {
        self.basis
    }

    /// The step between two rows of prices.
    pub fn tick_size(&self) -> (step: PriceStep)
        ensures
            step == self.tick_size,
    {
        self.tick_size
    }

    /// The trades that are kept.
    pub fn raw_trades(&self) -> (r: Vec<Trade>)
        ensures
            r@ == self.trades.raw_trades@,
    {
        let r: Vec<Trade> = self.trades.raw_trades.clone();
        assert(r@ =~= self.trades.raw_trades@);
        r
    }

    /// Groups the prices by another step.
    pub fn change_tick_size(&mut self, new_step: PriceStep)
        ensures
            *final(self) == (KlineChart { tick_size: new_step, ..*old(self) }),
    {
        self.tick_size = new_step;
    }

    /// Switches an indicator over, where the kind of chart allows it. Returns how many were on
    /// before and how many are on now, by which the panes are split anew.
    pub fn toggle_indicator(&mut self, indicator: KlineIndicator, allowed: bool) -> (r: Option<
        (usize, usize),
    >)
        ensures
            *final(self) == (KlineChart { indicators: final(self).indicators, ..*old(self) }),
            !allowed ==> r is None && *final(self) == *old(self),
            allowed ==> {
                &&& r == Some(
                    (
                        old(self).indicators.spec_count() as usize,
                        final(self).indicators.spec_count() as usize,
                    ),
                )
                &&& forall|j: KlineIndicator| #[trigger]
                    final(self).indicators.has(j) == (if j == indicator {
                        !old(self).indicators.has(j)
                    } else {
                        old(self).indicators.has(j)
                    })
            },
    {
        self.indicators.toggle(indicator, allowed)
    }

    /// Forgets all requests.
    pub fn reset_request_handler(&mut self)
        ensures
            final(self).wf(),
            *final(self) == (KlineChart {
                request_handler: final(self).request_handler,
                fetching_trades: false,
                ..*old(self)
            }),
            final(self).request_handler@ == Map::<u128, FetchRequest>::empty(),
    {
        self.request_handler = RequestHandler::new();
        self.fetching_trades = false;
    }

    /// Trades are not being fetched any more.
    pub fn reset_trade_fetch_state(&mut self)
        ensures
            *final(self) == (KlineChart { fetching_trades: false, ..*old(self) }),
    {
        self.fetching_trades = false;
    }

    /// A request has failed; its range may be requested again after a while.
    pub fn mark_fetch_failed(&mut self, req_id: u128)
        requires
            old(self).wf(),
        ensures
            final(self).wf(),
            *final(self) == (KlineChart {
                request_handler: final(self).request_handler,
                ..*old(self)
            }),
            exists|now: u64|
                final(self).request_handler@ == #[trigger] requests::with_status(
                    old(self).request_handler@,
                    req_id,
                    RequestStatus::Failed(now),
                ),
    {
        self.request_handler.mark_failed(req_id);
    }

    /// The source has nothing for a request; its range is never requested again.
    pub fn mark_fetch_no_data(&mut self, req_id: u128)
        requires
            old(self).wf(),
        ensures
            final(self).wf(),
            *final(self) == (KlineChart {
                request_handler: final(self).request_handler,
                ..*old(self)
            }),
            final(self).request_handler@ == requests::with_status(
                old(self).request_handler@,
                req_id,
                RequestStatus::NoData,
            ),
    {
        self.request_handler.mark_no_data(req_id);
    }

    /// Switches a study on or off; only footprints have studies.
    pub fn toggle_study(&mut self, study: FootprintStudy, selected: bool)
        ensures
            final(self).studies@ == (if old(self).style != ChartStyle::Footprint {
                old(self).studies@
            } else if !selected {
                study::without_kind(old(self).studies@, study::Study::spec_kind(&study))
            } else if study::has_kind(old(self).studies@, study::Study::spec_kind(&study)) {
                old(self).studies@
            } else {
                old(self).studies@.push(study)
            }),
            *final(self) == (KlineChart { studies: final(self).studies, ..*old(self) }),
    {
        match self.style {
            ChartStyle::Footprint => {
                toggle_study(&mut self.studies, study, selected);
            },
            ChartStyle::Candles => {},
        }
    }

    /// Replaces the settings of a study that is on; only footprints have studies.
    pub fn configure_study(&mut self, study: FootprintStudy)
        ensures
            *final(self) == (KlineChart { studies: final(self).studies, ..*old(self) }),
            old(self).style != ChartStyle::Footprint || !study::has_kind(
                old(self).studies@,
                study::Study::spec_kind(&study),
            ) ==> final(self).studies@ == old(self).studies@,
            old(self).style == ChartStyle::Footprint && study::has_kind(
                old(self).studies@,
                study::Study::spec_kind(&study),
            ) ==> exists|i: int| #[trigger]
                study::is_first_of_kind(
                    old(self).studies@,
                    study::Study::spec_kind(&study),
                    i,
                ) && final(self).studies@ == old(self).studies@.update(i, study),
    {
        match self.style {
            ChartStyle::Footprint => {
                configure_study(&mut self.studies, study);
            },
            ChartStyle::Candles => {},
        }
    }

    /// The studies; only footprints have any.
    pub fn studies(&self) -> (r: Option<Vec<FootprintStudy>>)
        ensures
            match self.style {
                ChartStyle::Footprint => r matches Some(s) && s@ == self.studies@,
                ChartStyle::Candles => r is None,
            },
    {
        match self.style {
            ChartStyle::Footprint => {
                let s: Vec<FootprintStudy> = self.studies.clone();
                assert(s@ =~= self.studies@);
                Some(s)
            },
            ChartStyle::Candles => None,
        }
    }

    /// Replaces all studies; only footprints have any.
    pub fn set_studies(&mut self, new_studies: Vec<FootprintStudy>)
        ensures
            *final(self) == (match old(self).style {
                ChartStyle::Footprint => KlineChart { studies: new_studies, ..*old(self) },
                ChartStyle::Candles => *old(self),
            }),
    {
        match self.style {
            ChartStyle::Footprint => {
                self.studies = new_studies;
            },
            ChartStyle::Candles => {},
        }
    }

    /// Draws the rows of footprints in another way.
    pub fn set_cluster_kind(&mut self, new_kind: ClusterKind)
        ensures
            *final(self) == (match old(self).style {
                ChartStyle::Footprint => KlineChart { clusters: new_kind, ..*old(self) },
                ChartStyle::Candles => *old(self),
            }),
    {
        match self.style {
            ChartStyle::Footprint => {
                self.clusters = new_kind;
            },
            ChartStyle::Candles => {},
        }
    }

    /// Scales the rows of footprints in another way.
    pub fn set_cluster_scaling(&mut self, new_scaling: ClusterScaling)
        ensures
            *final(self) == (match old(self).style {
                ChartStyle::Footprint => KlineChart { scaling: new_scaling, ..*old(self) },
                ChartStyle::Candles => *old(self),
            }),
    {
        match self.style {
            ChartStyle::Footprint => {
                self.scaling = new_scaling;
            },
            ChartStyle::Candles => {},
        }
    }

    /// Makes the bars in another way. The trades are forgotten where the bars change between time
    /// and ticks, and so are the requests in any case.
    pub fn set_basis(&mut self, new_basis: Basis)
        ensures
            final(self).wf(),
            final(self).basis == new_basis,
            final(self).last_price is None,
            !final(self).fetching_trades,
            final(self).request_handler@ == Map::<u128, FetchRequest>::empty(),
            ({
                let kept = old(self).basis is Tick && new_basis is Tick;
                let cleared = !kept && (old(self).basis is Tick || new_basis is Tick);
                &&& final(self).trades.raw_trades@ == (if cleared {
                    Seq::<Trade>::empty()
                } else {
                    old(self).trades.raw_trades@
                })
                &&& final(self).trades.big_trades@ == (if cleared {
                    Seq::<SizedTrade>::empty()
                } else {
                    old(self).trades.big_trades@
                })
                &&& final(self).max_price.units == (if kept {
                    spec_max_price(
                        old(self).trades.raw_trades@.map_values(|t: Trade| t.price.units),
                    )
                } else {
                    0
                })
            }),
            *final(self) == (KlineChart {
                basis: new_basis,
                last_price: None,
                max_price: final(self).max_price,
                trades: final(self).trades,
                request_handler: final(self).request_handler,
                fetching_trades: false,
                ..*old(self)
            }),
    {
        let previous: Basis = self.basis;
        self.last_price = None;
        self.max_price = Price { units: 0 };
        self.basis = new_basis;
        match (previous, new_basis) {
            (Basis::Tick(_), Basis::Tick(_)) => {
                let mut prices: Vec<i64> = Vec::new();
                let n: usize = self.trades.raw_trades.len();
                let mut i: usize = 0;
                while i < n
                    invariant
                        i <= n,
                        n == self.trades.raw_trades@.len(),
                        prices@.len() == i,
                        forall|j: int|
                            0 <= j < i ==> #[trigger] prices@[j]
                                == self.trades.raw_trades@[j].price.units,
                    decreases n - i,
                {
                    prices.push(self.trades.raw_trades[i].price.units);
                    i += 1;
                }
                assert(prices@ =~= self.trades.raw_trades@.map_values(
                    |t: Trade| t.price.units,
                ));
                self.max_price = max_price_of(&prices);
            },
            (Basis::Time(_), Basis::Time(_)) => {},
            _ => {
                self.trades.clear();
                assert(self.trades.raw_trades@ =~= Seq::<Trade>::empty());
                assert(self.trades.big_trades@ =~= Seq::<SizedTrade>::empty());
            },
        }
        self.reset_request_handler();
    }

    /// Takes in live trades, after which `last_bar` is the newest bar by ticks.
    pub fn insert_trades(&mut self, buffer: &Vec<SizedTrade>, last_bar: Option<Kline>)
        requires
            old(self).wf(),
        ensures
            final(self).wf(),
            are_trades_after(old(self).trades, buffer@, final(self).trades),
            *final(self) == (KlineChart {
                trades: final(self).trades,
                last_price: final(self).last_price,
                max_price: final(self).max_price,
                ..*old(self)
            }),
            match old(self).basis {
                Basis::Time(_) => final(self).last_price == old(self).last_price
                    && final(self).max_price == old(self).max_price,
                Basis::Tick(_) => {
                    &&& final(self).last_price == (match last_bar {
                        Some(k) => Some(price_label(k)),
                        None => None,
                    })
                    &&& final(self).max_price.units == math::max_int(
                        old(self).max_price.units as int,
                        spec_max_price(trade_prices(buffer@)),
                    )
                },
            },
    {
        self.trades.insert(buffer);
        match self.basis {
            Basis::Time(_) => {},
            Basis::Tick(_) => {
                self.last_price =
                match last_bar {
                    Some(k) => Some(PriceInfoLabel::new(k.close, k.open)),
                    None => None,
                };
                self.max_price =
                max_of(self.max_price, max_price_of(&trade_prices_of(buffer)));
            },
        }
    }

    /// Takes in trades that were fetched; `done` says that they are the last ones. Returns whether
    /// any were put in.
    pub fn insert_raw_trades(
        &mut self,
        buffer: &Vec<SizedTrade>,
        done: bool,
        req_id: Option<u128>,
    ) -> (inserted: bool)
        requires
            old(self).wf(),
        ensures
            final(self).wf(),
            inserted == (old(self).basis is Time && buffer@.len() > 0),
            inserted ==> are_trades_after(old(self).trades, buffer@, final(self).trades),
            !inserted ==> final(self).trades == old(self).trades,
            final(self).fetching_trades == (old(self).fetching_trades && !done),
            final(self).request_handler@ == (match (old(self).basis, done, req_id) {
                (Basis::Time(_), true, Some(id)) => requests::with_status(
                    old(self).request_handler@,
                    id,
                    RequestStatus::Completed,
                ),
                _ => old(self).request_handler@,
            }),
            *final(self) == (KlineChart {
                trades: final(self).trades,
                fetching_trades: final(self).fetching_trades,
                request_handler: final(self).request_handler,
                ..*old(self)
            }),
    {
        let by_time: bool = match self.basis {
            Basis::Time(_) => true,
            Basis::Tick(_) => false,
        };
        let inserted: bool = by_time && buffer.len() > 0;
        if inserted {
            self.trades.insert(buffer);
        }
        if done {
            self.fetching_trades = false;
            if by_time {
                if let Some(id) = req_id {
                    self.request_handler.mark_completed(id);
                }
            }
        }
        inserted
    }

    /// Takes in bars that were fetched, after which the bars by time are `series`.
    pub fn insert_hist_klines(&mut self, req_id: u128, klines: &Vec<Kline>, series: &Vec<Kline>)
        requires
            old(self).wf(),
        ensures
            final(self).wf(),
            is_structure_after(
                old(self).basis,
                series@,
                old(self).smc_structure,
                final(self).smc_structure,
            ),
            match old(self).basis {
                Basis::Tick(_) => *final(self) == *old(self),
                Basis::Time(_) => {
                    &&& *final(self) == (KlineChart {
                        max_price: final(self).max_price,
                        request_handler: final(self).request_handler,
                        smc_structure: final(self).smc_structure,
                        ..*old(self)
                    })
                    &&& final(self).max_price.units == math::max_int(
                        old(self).max_price.units as int,
                        spec_max_price(highs(klines@)),
                    )
                    &&& final(self).request_handler@ == requests::with_status(
                        old(self).request_handler@,
                        req_id,
                        if klines@.len() == 0 {
                            RequestStatus::NoData
                        } else {
                            RequestStatus::Completed
                        },
                    )
                },
            },
    {
        match self.basis {
            Basis::Time(_) => {
                self.max_price = max_of(self.max_price, max_price_of(&highs_of(klines)));
                if klines.len() == 0 {
                    self.request_handler.mark_no_data(req_id);
                } else {
                    self.request_handler.mark_completed(req_id);
                }
            },
            Basis::Tick(_) => {},
        }
        self.rebuild_smc_structure(series);
    }

    /// Takes note that `count` values of the open interest were fetched.
    pub fn insert_open_interest(&mut self, req_id: Option<u128>, count: usize)
        requires
            old(self).wf(),
        ensures
            final(self).wf(),
            *final(self) == (KlineChart {
                request_handler: final(self).request_handler,
                ..*old(self)
            }),
            final(self).request_handler@ == (match req_id {
                None => old(self).request_handler@,
                Some(id) => requests::with_status(
                    old(self).request_handler@,
                    id,
                    if count == 0 {
                        RequestStatus::NoData
                    } else {
                        RequestStatus::Completed
                    },
                ),
            }),
    {
        if let Some(id) = req_id {
            if count == 0 {
                self.request_handler.mark_no_data(id);
            } else {
                self.request_handler.mark_completed(id);
            }
        }
    }
}

/// A request that is granted is pending afterwards, so that the same data is not asked for twice.
pub proof fn granted_data_is_pending(
    m: Map<u128, FetchRequest>,
    inputs: FetchInputs,
    needs_trades: bool,
    fetching: bool,
    id: u128,
    now: u64,
)
    requires
        requests::one_per_range(m),
        !m.contains_key(id),
        spec_fetch(m, inputs, needs_trades, fetching, id, now).0 is Some,
    ensures
        ({
            let g = spec_fetch(m, inputs, needs_trades, fetching, id, now).0->0;
            requests::is_pending(after_grant(m, Some(g), id, now), g.fetch)
        }),
{
    lemma_granted(m, ranges_before(inputs, now), id, now);
    lemma_granted(m, ranges_after(inputs), id, now);
    let g = spec_fetch(m, inputs, needs_trades, fetching, id, now).0->0;
    assert(spec_grant(m, g.fetch, id, now) == Some(g));
    let after = requests::requested(m, g.fetch, id, now).1;
    if requests::has_request(m, g.fetch) {
        let e = requests::request_for(m, g.fetch);
        assert(requests::is_request_for(m, e, g.fetch));
        assert(requests::is_request_for(after, e, g.fetch));
    } else {
        assert(requests::is_request_for(after, id, g.fetch));
    }
}

proof fn lemma_granted(m: Map<u128, FetchRequest>, ranges: Seq<FetchRange>, id: u128, now: u64)
    ensures
        first_granted(m, ranges, id, now) matches Some(g) ==> spec_grant(m, g.fetch, id, now)
            == Some(g),
    decreases ranges.len(),
{
    if ranges.len() > 0 {
        lemma_granted(m, ranges.drop_first(), id, now);
    }
}

} // verus!
