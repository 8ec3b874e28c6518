use flowsurface::connector::requests::FetchRange;
use flowsurface::float_bits::F64Bits;
use flowsurface::indicator::availability::{AvailabilityCause, IndicatorAvailability};
use flowsurface::indicator::bar_analysis::{
    affected_buckets, first_changed, row_count, table_rows, BarAnalysisIndicator,
    BarAnalysisSettings, BarSummary, CellTone, FootprintSummary, TableRow,
};
use flowsurface::indicator::cumulative_delta::{
    reliable_indices, BarDelta, CumulativeDeltaIndicator,
};
use flowsurface::indicator::open_interest::{FetchCtx, OpenInterestIndicator};
use flowsurface::units::{Basis, Exchange, MarketKind, OpenInterest, Qty};

fn q(units: i64) -> Qty {
    Qty { units }
}

fn oi(v: i64) -> F64Bits {
    F64Bits { bits: (v as f64).to_bits() }
}

fn bar(key: u64, delta: i64, directional: bool) -> BarDelta {
    BarDelta { key, delta: q(delta), directional }
}

#[test]
fn only_long_runs_are_reliable() {
    let deltas: Vec<Qty> = [0, 5, 3, 0, 2, 0, 1, 1, 1].iter().map(|d| q(*d)).collect();
    assert_eq!(
        reliable_indices(&deltas, 2),
        vec![false, false, true, false, false, false, false, true, true]
    );
    assert_eq!(
        reliable_indices(&deltas, 3),
        vec![false, false, false, false, false, false, false, true, true]
    );
    assert!(reliable_indices(&vec![], 2).is_empty());
}

#[test]
fn deltas_add_up() {
    let mut c = CumulativeDeltaIndicator::new();
    assert_eq!(c.availability, IndicatorAvailability::Unknown);
    c.rebuild_from_source(&vec![bar(20, -3, true), bar(10, 5, false)]);
    assert_eq!(c.availability, IndicatorAvailability::Available);
    let line: Vec<(u64, i128, bool)> =
        c.data.iter().map(|p| (p.key, p.cumulative, p.reliable)).collect();
    assert_eq!(line, vec![(10, 5, false), (20, 2, true)]);
    c.on_insert_klines(&vec![bar(15, 100, false), bar(20, -4, false)]);
    let line: Vec<(u64, i128)> = c.data.iter().map(|p| (p.key, p.cumulative)).collect();
    assert_eq!(line, vec![(10, 5), (15, 105), (20, 101)]);
}

#[test]
fn bars_without_direction_make_it_unavailable() {
    let mut c = CumulativeDeltaIndicator::new();
    c.on_insert_klines(&vec![bar(1, 0, false)]);
    assert_eq!(
        c.availability,
        IndicatorAvailability::Unavailable(AvailabilityCause::TradeData)
    );
    c.on_insert_trades(&vec![]);
    assert_eq!(
        c.availability,
        IndicatorAvailability::Unavailable(AvailabilityCause::TradeData)
    );
    c.on_insert_trades(&vec![bar(1, 4, true)]);
    assert_eq!(c.availability, IndicatorAvailability::Available);
    c.rebuild_from_source(&vec![]);
    assert_eq!(c.availability, IndicatorAvailability::Unknown);
    assert!(c.data.is_empty());
}

#[test]
fn messages_name_the_cause() {
    let say = |cause: AvailabilityCause, name: &str| {
        IndicatorAvailability::Unavailable(cause).unavailable_message("CVD", name).unwrap()
    };
    assert_eq!(
        say(AvailabilityCause::Exchange(Exchange::MexcLinear), "MEXC"),
        "CVD is not available for MEXC."
    );
    assert_eq!(
        say(AvailabilityCause::Timeframe(60_000), "1m"),
        "CVD is not available on 1m timeframe."
    );
    assert_eq!(
        say(AvailabilityCause::Basis(Basis::Tick(50)), "50T"),
        "CVD is not available for tick charts."
    );
    assert_eq!(
        say(AvailabilityCause::Basis(Basis::Time(60_000)), "1m"),
        "CVD is not available on 1m basis."
    );
    assert_eq!(
        say(AvailabilityCause::TradeData, ""),
        "CVD requires directional trade-volume data."
    );
    assert_eq!(IndicatorAvailability::Unknown.unavailable_message("CVD", ""), None);
    assert_eq!(IndicatorAvailability::default().unavailable_message("CVD", ""), None);
}

#[test]
fn open_interest_is_told_by_some_exchanges() {
    let at = |b: Basis, e: Exchange| OpenInterestIndicator::availability_for(b, e);
    assert_eq!(
        at(Basis::Time(300_000), Exchange::BinanceLinear),
        IndicatorAvailability::Available
    );
    assert_eq!(
        at(Basis::Time(7_200_000), Exchange::BinanceLinear),
        IndicatorAvailability::Unavailable(AvailabilityCause::Timeframe(7_200_000))
    );
    assert_eq!(
        at(Basis::Time(60_000), Exchange::BinanceLinear),
        IndicatorAvailability::Unavailable(AvailabilityCause::Timeframe(60_000))
    );
    for e in [
        Exchange::BinanceSpot,
        Exchange::HyperliquidLinear,
        Exchange::MexcLinear,
        Exchange::MexcInverse,
        Exchange::Other(MarketKind::Spot, 1),
    ] {
        assert_eq!(
            at(Basis::Time(300_000), e),
            IndicatorAvailability::Unavailable(AvailabilityCause::Exchange(e))
        );
    }
    assert_eq!(
        at(Basis::Tick(9), Exchange::BinanceLinear),
        IndicatorAvailability::Unavailable(AvailabilityCause::Basis(Basis::Tick(9)))
    );
}

#[test]
fn missing_open_interest_is_fetched() {
    let ctx = FetchCtx {
        exchange: Exchange::BinanceLinear,
        timeframe_ms: 300_000,
        visible_earliest: 1_000,
        kline_latest: 9_000,
        prefetch_earliest: 500,
    };
    let mut o = OpenInterestIndicator::new();
    assert_eq!(o.oi_timerange(9_000), (9_000, 0));
    assert_eq!(o.fetch_range(&ctx), Some(FetchRange::OpenInterest(500, 9_000)));
    o.on_open_interest(&vec![
        OpenInterest { time: 2_000, value: oi(1) },
        OpenInterest { time: 6_000, value: oi(2) },
    ]);
    assert_eq!(o.oi_timerange(9_000), (2_000, 6_000));
    assert_eq!(o.data.get(&6_000).map(|v| f64::from_bits(v.bits)), Some(2.0));
    assert_eq!(o.fetch_range(&ctx), Some(FetchRange::OpenInterest(500, 2_000)));
    o.on_open_interest(&vec![OpenInterest { time: 700, value: oi(1) }]);
    assert_eq!(o.fetch_range(&ctx), Some(FetchRange::OpenInterest(6_000, 9_000)));
    o.on_open_interest(&vec![OpenInterest { time: 9_000, value: oi(3) }]);
    assert_eq!(o.fetch_range(&ctx), None);
    assert_eq!(
        o.fetch_range(&FetchCtx { exchange: Exchange::BinanceSpot, visible_earliest: 0, ..ctx }),
        None
    );
}

fn summary(total: i64, delta: i64) -> FootprintSummary {
    FootprintSummary {
        buy: q(0),
        sell: q(0),
        total: q(total),
        delta: q(delta),
        delta_pct_bits: 0,
    }
}

#[test]
fn the_table_follows_the_bars() {
    let mut b = BarAnalysisIndicator::new();
    b.rebuild(&vec![
        BarSummary { key: 1, summary: Some(summary(5, 1)) },
        BarSummary { key: 2, summary: None },
    ]);
    assert_eq!(b.data.keys().copied().collect::<Vec<u64>>(), vec![1]);
    b.on_insert_klines(&vec![
        BarSummary { key: 1, summary: None },
        BarSummary { key: 3, summary: Some(summary(7, -1)) },
    ]);
    assert_eq!(b.data.keys().copied().collect::<Vec<u64>>(), vec![3]);
    b.on_insert_ticks(3, &vec![BarSummary { key: 2, summary: Some(summary(8, 0)) }]);
    assert_eq!(b.data.keys().copied().collect::<Vec<u64>>(), vec![2]);
    assert_eq!(first_changed(0), 0);
    assert_eq!(first_changed(4), 3);
}

#[test]
fn the_rows_of_the_table_can_be_chosen() {
    let all = BarAnalysisSettings::default();
    assert_eq!(
        table_rows(all),
        vec![
            TableRow::Buy,
            TableRow::Sell,
            TableRow::Total,
            TableRow::Delta,
            TableRow::DeltaPct
        ]
    );
    assert_eq!(row_count(all), 5);
    let none = BarAnalysisSettings {
        show_buy_sell: false,
        show_volume: false,
        show_delta: false,
        show_delta_pct: false,
    };
    assert!(table_rows(none).is_empty());
    assert_eq!(row_count(none), 1);
    assert_eq!(TableRow::Delta.label(), "\u{394}");
    assert_eq!(TableRow::DeltaPct.label(), "\u{394}%");
    assert_eq!(TableRow::Delta.tone(&summary(1, 0)), CellTone::Success);
    assert_eq!(TableRow::DeltaPct.tone(&summary(1, -1)), CellTone::Danger);
    assert_eq!(TableRow::Total.tone(&summary(1, -1)), CellTone::Plain);
}

#[test]
fn trades_touch_their_bars_once() {
    assert_eq!(
        affected_buckets(&vec![250, 130, 199, 310, 299], 100),
        vec![200, 100, 300]
    );
    assert!(affected_buckets(&vec![], 100).is_empty());
}
