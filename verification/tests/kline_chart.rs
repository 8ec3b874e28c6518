use std::collections::BTreeMap;

use flowsurface::axis::PriceInfoLabel;
use flowsurface::connector::requests::FetchRange;
use flowsurface::float_bits::F64Bits;
use flowsurface::indicator::bar_analysis::FootprintSummary;
use flowsurface::kline_chart::bars::{
    change_rises, npoc_lines, BarPoc, NPoc, NpocLine, PlotData, PointOfControl,
};
use flowsurface::kline_chart::chart::{
    initial_scale_bars, initial_steps, integrity_window, prefetch_earliest, ChartLayer, ChartStyle,
    ClusterScaling, FetchInputs, KlineChart,
};
use flowsurface::kline_chart::clusters::{
    ClusterKind, Footprint, ImbalanceSide, Marker, RowBars, RowMarks, Strength, TradeGroup,
};
use flowsurface::kline_chart::indicators::{
    drawn_indicators, IndicatorChoice, IndicatorSet, KlineIndicator,
};
use flowsurface::kline_chart::study::{
    configure_study, imbalance_study, npoc_lookback, toggle_study, FootprintStudy, ImbalanceStudy,
};
use flowsurface::kline_chart::trades::{
    bar_spot, biggest_trade, keep_last, top_levels, trade_bubbles, BarSpot, BookLevel, SizedTrade,
    TradeStore, MAX_RETAINED_TRADES,
};
use flowsurface::units::{Basis, Kline, Price, PriceStep, Qty, Trade, Volume};
use rustc_hash::FxHashMap;

fn price(units: i64) -> Price {
    Price { units }
}

fn kline(time: u64, open: i64, high: i64, low: i64, close: i64) -> Kline {
    Kline {
        time,
        open: price(open),
        high: price(high),
        low: price(low),
        close: price(close),
        volume: Volume::TotalOnly(Qty { units: 1 }),
    }
}

fn bits(v: f64) -> F64Bits {
    F64Bits { bits: v.to_bits() }
}

fn sized(time: u64, p: i64, q: i64, is_sell: bool, notional: f64) -> SizedTrade {
    SizedTrade {
        trade: Trade { time, is_sell, price: price(p), qty: Qty { units: q } },
        notional: bits(notional),
    }
}

fn footprint(rows: &[(i64, i64, i64)]) -> Footprint {
    let mut trades: FxHashMap<i64, TradeGroup> = FxHashMap::default();
    for (p, buy, sell) in rows {
        trades.insert(
            *p,
            TradeGroup { buy_qty: Qty { units: *buy }, sell_qty: Qty { units: *sell } },
        );
    }
    Footprint { trades }
}

const STEP: PriceStep = PriceStep { units: 10 };

fn study(threshold: u32, ignore_zeros: bool) -> ImbalanceStudy {
    ImbalanceStudy { threshold, color_scale: None, ignore_zeros }
}

#[test]
fn a_diagonal_imbalance_is_marked() {
    let f = footprint(&[(100, 1, 10), (110, 31, 4), (120, 5, 0)]);
    let m = f.imbalance_marker(price(100), Qty { units: 10 }, STEP, &study(200, false));
    assert_eq!(
        m,
        Some(Marker { side: ImbalanceSide::Buy, price: price(110), strength: Strength::Full })
    );
    assert_eq!(f.imbalance_marker(price(100), Qty { units: 10 }, STEP, &study(210, false)), None);
    let m = f.imbalance_marker(price(110), Qty { units: 20 }, STEP, &study(200, false));
    assert_eq!(
        m,
        Some(Marker { side: ImbalanceSide::Sell, price: price(110), strength: Strength::Full })
    );
    assert_eq!(f.imbalance_marker(price(120), Qty { units: 20 }, STEP, &study(0, false)), None);
    assert_eq!(f.imbalance_marker(price(100), Qty { units: 0 }, STEP, &study(0, true)), None);
    let scaled = ImbalanceStudy { threshold: 200, color_scale: Some(400), ignore_zeros: false };
    assert_eq!(
        f.imbalance_marker(price(100), Qty { units: 10 }, STEP, &scaled).unwrap().strength,
        Strength::Ratio { qty: 31, required_hundredths: 3000, color_scale: 400 }
    );
}

#[test]
fn cells_of_a_table_are_marked_on_their_own() {
    let f = footprint(&[(100, 1, 10), (110, 31, 4)]);
    let buy = |q: i64, s: &ImbalanceStudy| {
        f.table_mark(ImbalanceSide::Buy, price(110), Qty { units: q }, STEP, s)
    };
    assert_eq!(buy(31, &study(200, false)), Some(Strength::Full));
    assert_eq!(buy(30, &study(200, false)), None);
    let sell = |q: i64, s: &ImbalanceStudy| {
        f.table_mark(ImbalanceSide::Sell, price(110), Qty { units: q }, STEP, s)
    };
    assert_eq!(sell(4, &study(200, false)), Some(Strength::Full));
    assert_eq!(sell(0, &study(200, false)), None);
    assert_eq!(sell(4, &study(200, true)), None);
}

#[test]
fn every_price_gets_a_row() {
    let f = footprint(&[(100, 1, 10), (110, 31, 4), (120, 5, 0)]);
    let k = kline(0, 100, 120, 90, 110);
    let sum = FootprintSummary {
        buy: Qty { units: 37 },
        sell: Qty { units: 14 },
        total: Qty { units: 51 },
        delta: Qty { units: 23 },
        delta_pct_bits: 0,
    };
    let plan = f.cluster_plan(
        ClusterKind::DeltaProfile,
        STEP,
        Some(study(200, false)),
        &k,
        Some(sum),
        true,
    );
    assert_eq!(plan.rows.len(), 3);
    assert!(plan.candle_rises);
    let row = plan.rows.iter().find(|r| r.price == price(100)).unwrap();
    assert_eq!(row.bars, RowBars::Delta { delta: -9, rises: false });
    assert!(matches!(row.marks, RowMarks::Diagonal(Some(_))));
    let line = plan.summary.unwrap();
    assert_eq!(line.under, price(100));
    assert!(line.rises);
    let table = f.cluster_plan(ClusterKind::Table, STEP, None, &k, Some(sum), false);
    assert!(table.summary.is_none());
    assert!(table.rows.iter().all(|r| r.bars == RowBars::Cells));
    let empty = footprint(&[]);
    let plan = empty.cluster_plan(ClusterKind::BidAsk, STEP, None, &k, Some(sum), true);
    assert_eq!(plan.summary.unwrap().under, price(90));
    let volume = f.cluster_plan(ClusterKind::VolumeProfile, STEP, None, &k, None, true);
    let row = volume.rows.iter().find(|r| r.price == price(110)).unwrap();
    assert_eq!(row.bars, RowBars::Volume { total: 35 });
    let bid_ask = f.cluster_plan(ClusterKind::BidAsk, STEP, None, &k, None, true);
    let row = bid_ask.rows.iter().find(|r| r.price == price(120)).unwrap();
    assert_eq!(row.bars, RowBars::BidAsk { buy: true, sell: false });
}

fn time_data() -> PlotData {
    let mut datapoints: BTreeMap<u64, Kline> = BTreeMap::new();
    for t in [100, 200, 300, 500] {
        datapoints.insert(t, kline(t, 1, 2, 0, 1));
    }
    PlotData::TimeBased { datapoints }
}

fn tick_data() -> PlotData {
    PlotData::TickBased {
        interval: 10,
        datapoints: (0..4).map(|t| kline(t, 1, 2, 0, 1)).collect(),
    }
}

#[test]
fn visible_bars_are_in_range() {
    let at = |d: &PlotData, a: u64, b: u64| -> Vec<(u64, u64)> {
        d.visible_bars(a, b).iter().map(|v| (v.interval, v.kline.time)).collect()
    };
    assert_eq!(at(&time_data(), 150, 400), vec![(200, 200), (300, 300)]);
    assert!(at(&time_data(), 400, 150).is_empty());
    assert_eq!(at(&tick_data(), 1, 2), vec![(1, 2), (2, 1)]);
    assert_eq!(at(&tick_data(), 3, 99), vec![(3, 0)]);
    assert!(!time_data().is_empty());
    assert_eq!(tick_data().interval_keys(), Some(vec![0, 1, 2, 3]));
    assert_eq!(time_data().interval_keys(), None);
}

#[test]
fn a_crosshair_is_on_a_bar() {
    let d = time_data();
    let at = |x: Option<u64>| d.crosshair_bar(x, 150, 400).map(|k| k.time);
    assert_eq!(at(Some(200)), Some(200));
    assert_eq!(at(Some(250)), Some(200));
    assert_eq!(at(Some(450)), Some(300));
    assert_eq!(at(Some(500)), Some(500));
    assert_eq!(at(Some(120)), None);
    assert_eq!(at(None), Some(500));
    // Nothing is visible, but there is a bar at the cursor, or none is looked for.
    assert_eq!(d.crosshair_bar(Some(200), 400, 150).map(|k| k.time), Some(200));
    assert_eq!(d.crosshair_bar(Some(120), 400, 150).map(|k| k.time), None);
    assert_eq!(d.crosshair_bar(None, 400, 150).map(|k| k.time), Some(500));
    let t = tick_data();
    assert_eq!(t.crosshair_bar(Some(99), 0, 98).map(|k| k.time), None);
    assert_eq!(t.crosshair_bar(Some(99), 100, 0).map(|k| k.time), None);
    assert_eq!(t.crosshair_bar(Some(0), 100, 0).map(|k| k.time), Some(3));
    let at = |x: Option<u64>| t.crosshair_bar(x, 0, 100).map(|k| k.time);
    assert_eq!(at(Some(0)), Some(3));
    assert_eq!(at(Some(15)), Some(2));
    assert_eq!(at(Some(99)), Some(3));
    assert_eq!(at(Some(101)), None);
    assert_eq!(at(None), Some(3));
}

#[test]
fn a_change_is_seen_against_the_open() {
    assert!(change_rises(&kline(0, 100, 0, 0, 100)));
    assert!(!change_rises(&kline(0, 100, 0, 0, 99)));
    assert!(!change_rises(&kline(0, 0, 0, 0, 0)));
}

#[test]
fn naked_points_of_control_reach_to_the_right() {
    let poc = |status: NPoc| Some(PointOfControl { price: price(5), status });
    let bars = vec![
        BarPoc { time: 100, poc: poc(NPoc::Naked) },
        BarPoc { time: 200, poc: poc(NPoc::Filled { at: 300 }) },
        BarPoc { time: 300, poc: None },
        BarPoc { time: 400, poc: poc(NPoc::Untracked) },
    ];
    assert_eq!(
        npoc_lines(&bars, true, 10),
        vec![
            NpocLine { interval: 200, price: price(5), filled_at: Some(300) },
            NpocLine { interval: 100, price: price(5), filled_at: None },
        ]
    );
    assert_eq!(
        npoc_lines(&bars, false, 3),
        vec![NpocLine { interval: 2, price: price(5), filled_at: Some(300) }]
    );
}

#[test]
fn only_the_latest_trades_are_kept() {
    let mut v = vec![1, 2, 3, 4, 5];
    keep_last(&mut v, 3);
    assert_eq!(v, vec![3, 4, 5]);
    keep_last(&mut v, 9);
    assert_eq!(v, vec![3, 4, 5]);
    let mut s = TradeStore::new(Vec::new());
    let many: Vec<SizedTrade> =
        (0..20_005).map(|i| sized(i, 1, 1, false, if i == 7 { 1000.0 } else { 999.0 })).collect();
    s.insert(&many);
    assert_eq!(s.raw_trades.len(), MAX_RETAINED_TRADES);
    assert_eq!(s.raw_trades[0].time, 5);
    assert_eq!(s.big_trades.len(), 1);
    assert_eq!(s.big_trades[0].trade.time, 7);
    s.clear();
    assert!(s.raw_trades.is_empty() && s.big_trades.is_empty());
}

#[test]
fn bubbles_lie_in_their_bars() {
    let trades = vec![
        sized(150, 1, 3, false, 5000.0),
        sized(199, 1, 9, true, 100.0),
        sized(900, 1, 50, true, 9000.0),
    ];
    let b = trade_bubbles(&trades, true, bits(100.0), Basis::Time(100), 0, 500).unwrap();
    assert_eq!(b.max_qty, 9);
    assert_eq!(b.bubbles.len(), 1);
    assert_eq!(b.bubbles[0].spot, BarSpot { start: 100, part: 50, span: 100 });
    assert!(trade_bubbles(&trades, false, bits(0.0), Basis::Time(100), 0, 500).is_none());
    assert!(trade_bubbles(&trades, true, bits(0.0), Basis::Time(100), 600, 700).is_none());
    assert_eq!(bar_spot(Basis::Tick(5), 77), BarSpot { start: 77, part: 0, span: 0 });
    assert_eq!(bar_spot(Basis::Time(0), 77), BarSpot { start: 77, part: 0, span: 0 });
}

#[test]
fn the_last_of_the_biggest_trades_is_marked() {
    let trades = vec![
        sized(1, 1, 1, false, 10.0),
        sized(2, 1, 1, false, 30.0),
        sized(3, 1, 1, true, 99.0),
        sized(4, 1, 1, false, 30.0),
        sized(9, 1, 1, false, 500.0),
    ];
    assert_eq!(biggest_trade(&trades, false, 0, 5), Some(3));
    assert_eq!(biggest_trade(&trades, true, 0, 5), Some(2));
    assert_eq!(biggest_trade(&trades, true, 4, 5), None);
}

#[test]
fn three_levels_of_a_side_are_marked() {
    let level = |p: i64, n: f64| BookLevel {
        price: price(p),
        qty: Qty { units: 1 },
        notional: bits(n),
    };
    let levels = vec![
        level(1, 50.0),
        level(2, 500.0),
        level(3, 900.0),
        level(4, 500.0),
        level(5, 600.0),
        level(6, 99.0),
    ];
    assert_eq!(top_levels(&levels, bits(100.0)), vec![2, 4, 1]);
    assert_eq!(top_levels(&levels, bits(600.0)), vec![2, 4]);
    assert!(top_levels(&levels, bits(f64::NAN)).is_empty());
}

#[test]
fn one_study_of_each_kind_is_on() {
    let npoc = FootprintStudy::NPoC { lookback: 80 };
    let imb =
        FootprintStudy::Imbalance { threshold: 200, color_scale: Some(400), ignore_zeros: true };
    let mut studies = Vec::new();
    assert!(toggle_study(&mut studies, npoc, true));
    assert!(!toggle_study(&mut studies, FootprintStudy::NPoC { lookback: 9 }, true));
    assert!(!configure_study(&mut studies, imb));
    assert!(toggle_study(&mut studies, imb, true));
    assert!(configure_study(&mut studies, FootprintStudy::NPoC { lookback: 9 }));
    assert_eq!(npoc_lookback(&studies), Some(9));
    assert_eq!(
        imbalance_study(&studies),
        Some(ImbalanceStudy { threshold: 200, color_scale: Some(400), ignore_zeros: true })
    );
    assert!(toggle_study(&mut studies, npoc, false));
    assert!(!toggle_study(&mut studies, npoc, false));
    assert_eq!(studies, vec![imb]);
    assert_eq!(npoc_lookback(&studies), None);
}

fn chart(basis: Basis, style: ChartStyle) -> KlineChart {
    KlineChart::new(
        basis,
        STEP,
        style,
        ClusterKind::BidAsk,
        ClusterScaling::VisibleRange,
        Vec::new(),
        false,
        IndicatorSet::none(),
        &vec![kline(100, 1, 9, 0, 2), kline(200, 1, 7, 0, 2)],
        Vec::new(),
        Some(200),
    )
}

fn inputs() -> FetchInputs {
    FetchInputs {
        timeframe_ms: 100,
        is_empty: false,
        visible: Some((1_000, 2_000)),
        kline_earliest: 500,
        trade_fetch_enabled: true,
        trade_range: None,
        indicator_ranges: Vec::new(),
        missing: None,
    }
}

#[test]
fn a_chart_knows_its_highest_price() {
    let mut c = chart(Basis::Time(100), ChartStyle::Candles);
    assert_eq!(c.max_price, price(9));
    assert_eq!(c.latest_x, 200);
    c.update_latest_kline(&kline(300, 5, 20, 0, 4), &vec![]);
    assert_eq!(c.max_price, price(20));
    assert_eq!(c.latest_x, 300);
    assert_eq!(c.last_price, Some(PriceInfoLabel::Down(price(4))));
    c.update_latest_kline(&kline(250, 5, 6, 0, 5), &vec![]);
    assert_eq!(c.latest_x, 300);
    assert_eq!(c.last_price, Some(PriceInfoLabel::Up(price(5))));
    let t = chart(Basis::Tick(10), ChartStyle::Candles);
    assert_eq!(t.max_price, price(0));
    assert_eq!(initial_scale_bars(ChartStyle::Footprint), 12);
    assert_eq!(initial_steps(Some(9)), 8);
    assert_eq!(initial_steps(Some(0)), 1);
    assert_eq!(initial_steps(None), 1);
}

#[test]
fn an_empty_chart_fetches_its_first_bars() {
    let mut c = chart(Basis::Time(100), ChartStyle::Candles);
    let mut i = inputs();
    i.is_empty = true;
    let g = c.fetch_missing_data_at(&i, 1, 100_000).unwrap();
    assert_eq!(g.fetch, FetchRange::Kline(55_000, 100_000));
    assert!(c.request_handler.has_pending(&g.fetch));
}

#[test]
fn data_is_fetched_by_priority() {
    let mut c = chart(Basis::Time(100), ChartStyle::Footprint);
    let mut i = inputs();
    i.kline_earliest = 1_500;
    i.trade_range = Some((1_100, 1_200));
    i.indicator_ranges = vec![FetchRange::OpenInterest(1, 2)];
    i.missing = Some(vec![1_700, 1_600]);
    assert_eq!(
        c.fetch_missing_data_at(&i, 1, 0).unwrap().fetch,
        FetchRange::Kline(0, 1_500)
    );
    assert!(!c.fetching_trades);
    assert_eq!(
        c.fetch_missing_data_at(&i, 2, 0).unwrap().fetch,
        FetchRange::Trades(1_100, 1_200)
    );
    assert!(c.fetching_trades);
    assert_eq!(
        c.fetch_missing_data_at(&i, 3, 0).unwrap().fetch,
        FetchRange::OpenInterest(1, 2)
    );
    assert_eq!(
        c.fetch_missing_data_at(&i, 4, 0).unwrap().fetch,
        FetchRange::Kline(1_500, 1_800)
    );
    assert_eq!(c.fetch_missing_data_at(&i, 5, 0), None);
    c.reset_trade_fetch_state();
    assert_eq!(c.fetch_missing_data_at(&i, 6, 0), None);
    assert!(c.fetching_trades);
    c.reset_request_handler();
    assert!(c.fetch_missing_data(&i).is_some());
    assert_eq!(prefetch_earliest((1_000, 2_000)), 0);
    assert_eq!(integrity_window((5_000, 6_000), 4_500, 100), (4_500, 6_100));
}

#[test]
fn candles_fetch_trades_only_for_bubbles() {
    let mut c = chart(Basis::Time(100), ChartStyle::Candles);
    let mut i = inputs();
    i.trade_range = Some((1_100, 1_200));
    assert_eq!(c.fetch_missing_data_at(&i, 1, 0), None);
    c.show_trade_bubbles = true;
    i.trade_fetch_enabled = false;
    assert_eq!(c.fetch_missing_data_at(&i, 1, 0), None);
    i.trade_fetch_enabled = true;
    i.visible = None;
    assert_eq!(c.fetch_missing_data_at(&i, 1, 0), None);
    i.visible = Some((1_000, 2_000));
    assert!(c.fetch_missing_data_at(&i, 1, 0).is_some());
    let mut t = chart(Basis::Tick(5), ChartStyle::Footprint);
    assert_eq!(t.fetch_missing_data_at(&i, 1, 0), None);
}

#[test]
fn fetched_trades_end_the_fetch() {
    let mut c = chart(Basis::Time(100), ChartStyle::Footprint);
    let mut i = inputs();
    i.trade_range = Some((1_100, 1_200));
    let g = c.fetch_missing_data_at(&i, 1, 0).unwrap();
    assert!(c.insert_raw_trades(&vec![sized(1, 1, 1, false, 5.0)], false, None));
    assert!(c.fetching_trades);
    assert!(!c.insert_raw_trades(&vec![], true, Some(g.req_id)));
    assert!(!c.fetching_trades);
    assert!(!c.request_handler.has_pending(&g.fetch));
    assert_eq!(c.trades.raw_trades.len(), 1);
    let mut t = chart(Basis::Tick(5), ChartStyle::Footprint);
    assert!(!t.insert_raw_trades(&vec![sized(1, 1, 1, false, 5.0)], true, None));
    assert!(t.trades.raw_trades.is_empty());
}

#[test]
fn live_trades_move_a_chart_by_ticks() {
    let mut t = chart(Basis::Tick(5), ChartStyle::Candles);
    t.insert_trades(
        &vec![sized(1, 30, 1, false, 5.0), sized(2, 20, 1, false, 5.0)],
        Some(kline(2, 30, 30, 20, 20)),
    );
    assert_eq!(t.max_price, price(30));
    assert_eq!(t.last_price, Some(PriceInfoLabel::Down(price(20))));
    t.set_basis(Basis::Tick(9));
    assert_eq!(t.max_price, price(30));
    assert_eq!(t.trades.raw_trades.len(), 2);
    assert_eq!(t.last_price, None);
    t.set_basis(Basis::Time(100));
    assert_eq!(t.max_price, price(0));
    assert!(t.trades.raw_trades.is_empty());
}

#[test]
fn fetched_bars_settle_their_request() {
    let mut c = chart(Basis::Time(100), ChartStyle::Candles);
    let mut i = inputs();
    i.kline_earliest = 1_500;
    let g = c.fetch_missing_data_at(&i, 1, 0).unwrap();
    let bars = vec![kline(900, 1, 99, 0, 2)];
    c.insert_hist_klines(g.req_id, &bars, &bars);
    assert_eq!(c.max_price, price(99));
    assert!(!c.request_handler.has_pending(&g.fetch));
    c.mark_fetch_no_data(g.req_id);
    c.mark_fetch_failed(g.req_id);
    c.insert_open_interest(Some(g.req_id), 0);
    assert_eq!(c.fetch_missing_data_at(&i, 2, u64::MAX), None);
}

#[test]
fn only_footprints_have_studies() {
    let npoc = FootprintStudy::NPoC { lookback: 5 };
    let mut c = chart(Basis::Time(100), ChartStyle::Candles);
    c.toggle_study(npoc, true);
    assert_eq!(c.studies(), None);
    assert!(c.studies.is_empty());
    let mut f = chart(Basis::Time(100), ChartStyle::Footprint);
    f.toggle_study(npoc, true);
    f.configure_study(FootprintStudy::NPoC { lookback: 6 });
    assert_eq!(f.studies(), Some(vec![FootprintStudy::NPoC { lookback: 6 }]));
    f.set_studies(Vec::new());
    assert_eq!(f.studies(), Some(Vec::new()));
    f.set_cluster_kind(ClusterKind::Table);
    f.set_cluster_scaling(ClusterScaling::Datapoint);
    assert_eq!(f.clusters, ClusterKind::Table);
    assert_eq!(f.scaling, ClusterScaling::Datapoint);
}

#[test]
fn a_chart_is_drawn_in_layers() {
    let mut c = chart(Basis::Time(100), ChartStyle::Candles);
    c.show_trade_bubbles = true;
    let l = c.layers(true, true);
    assert_eq!(l.first(), Some(&ChartLayer::Candles));
    assert_eq!(l.last(), Some(&ChartLayer::BookLevels));
    assert!(l.contains(&ChartLayer::Bubbles));
    assert!(!c.layers(true, false).contains(&ChartLayer::BookLevels));
    let f = chart(Basis::Time(100), ChartStyle::Footprint);
    assert_eq!(f.layers(true, true), vec![ChartLayer::Clusters, ChartLayer::LastPrice]);
}

#[test]
fn indicators_are_switched_over() {
    let mut s = IndicatorSet::none();
    assert_eq!(s.toggle(KlineIndicator::Volume, true), Some((0, 1)));
    assert_eq!(s.toggle(KlineIndicator::OpenInterest, true), Some((1, 2)));
    assert_eq!(s.toggle(KlineIndicator::Volume, false), None);
    let choice = |indicator: KlineIndicator, market_has: bool| IndicatorChoice {
        indicator,
        chart_allows: true,
        market_has,
    };
    let choices = vec![
        choice(KlineIndicator::OpenInterest, false),
        choice(KlineIndicator::BarAnalysis, true),
        choice(KlineIndicator::Volume, true),
    ];
    assert_eq!(drawn_indicators(&choices, &s), vec![KlineIndicator::Volume]);
    let opened = IndicatorSet::enabled(&vec![
        choice(KlineIndicator::OpenInterest, false),
        IndicatorChoice {
            indicator: KlineIndicator::BarAnalysis,
            chart_allows: false,
            market_has: true,
        },
    ]);
    assert!(opened.contains(KlineIndicator::OpenInterest));
    assert_eq!(opened.count(), 1);
    let before = s;
    s.toggle(KlineIndicator::Volume, true);
    s.toggle(KlineIndicator::Volume, true);
    assert_eq!(s, before);
    assert_eq!(s.count(), 2);
}

#[test]
fn a_chart_tells_its_settings() {
    let mut c = chart(Basis::Time(100), ChartStyle::Candles);
    assert_eq!(c.basis(), Basis::Time(100));
    assert_eq!(c.tick_size(), STEP);
    c.change_tick_size(PriceStep { units: 50 });
    assert_eq!(c.tick_size(), PriceStep { units: 50 });
    c.insert_trades(&vec![sized(7, 1, 1, false, 5.0)], None);
    assert_eq!(c.raw_trades().len(), 1);
    assert_eq!(c.raw_trades()[0].time, 7);
    assert_eq!(c.toggle_indicator(KlineIndicator::Volume, false), None);
    assert_eq!(c.toggle_indicator(KlineIndicator::Volume, true), Some((0, 1)));
    assert!(c.indicators.contains(KlineIndicator::Volume));
}
