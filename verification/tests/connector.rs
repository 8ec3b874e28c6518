use flowsurface::connector::fetcher::{
    kline_fetch_task, klines_update, oi_fetch_task, open_interest_update, request_fetch,
    request_fetch_many, trades_end_update, trades_page_update, FetchPlan, FetchSpec,
    FetchTaskStatus, FetchUpdate, FetchedData, InfoKind, StreamKind, TradeFetchRefusal,
    TradeSource, ARROW_LIMIT,
};
use flowsurface::connector::network::{is_trade_fetch_enabled, TradeFetchMode};
use flowsurface::connector::paging::{PageOutcome, PagedFetch};
use flowsurface::connector::requests::{FetchRange, ReqError, RequestHandler, RETRY_AFTER_MS};
use flowsurface::units::{Exchange, MarketKind, Price, Qty, TickerInfo, Trade};

fn ticker(exchange: Exchange) -> TickerInfo {
    TickerInfo { exchange, id: 1 }
}

#[test]
fn a_range_is_requested_once() {
    let mut h = RequestHandler::new();
    let r = FetchRange::Kline(0, 100);
    assert!(!h.has_pending(&r));
    assert_eq!(h.add_request_at(r, 7, 1_000), Ok(Some(7)));
    assert!(h.has_pending(&r));
    assert_eq!(h.add_request_at(r, 8, 1_000), Err(ReqError::Overlaps));
    h.mark_completed(7);
    assert!(!h.has_pending(&r));
    assert_eq!(h.add_request_at(r, 9, 1_000), Ok(None));
    assert_eq!(h.add_request_at(FetchRange::Trades(0, 100), 9, 1_000), Ok(Some(9)));
}

#[test]
fn ranges_without_data_are_not_retried() {
    let mut h = RequestHandler::default();
    let r = FetchRange::OpenInterest(0, 100);
    assert_eq!(h.add_request_at(r, 7, 0), Ok(Some(7)));
    h.mark_no_data(7);
    assert_eq!(h.add_request_at(r, 8, u64::MAX), Err(ReqError::NoData));
}

#[test]
fn failed_ranges_rest_before_they_are_retried() {
    let mut h = RequestHandler::new();
    let r = FetchRange::Kline(0, 100);
    assert_eq!(h.add_request_at(r, 7, 0), Ok(Some(7)));
    h.mark_failed_at(7, 1_000);
    assert_eq!(h.add_request_at(r, 8, 500), Err(ReqError::Failed));
    assert_eq!(h.add_request_at(r, 8, 1_000 + RETRY_AFTER_MS), Err(ReqError::Failed));
    assert_eq!(h.add_request_at(r, 8, 1_001 + RETRY_AFTER_MS), Ok(Some(7)));
    assert!(h.has_pending(&r));
}

#[test]
fn identifiers_and_times_come_from_outside() {
    let mut h = RequestHandler::new();
    let a = h.add_request(FetchRange::Kline(0, 1)).unwrap().unwrap();
    let b = h.add_request(FetchRange::Kline(1, 2)).unwrap().unwrap();
    assert_ne!(a, b);
    h.mark_failed(a);
    assert_eq!(h.add_request(FetchRange::Kline(0, 1)), Err(ReqError::Failed));
}

#[test]
fn errors_say_why() {
    assert_ne!(ReqError::Failed.message(), ReqError::NoData.message());
    assert_ne!(ReqError::Overlaps.message(), ReqError::NoData.message());
}

#[test]
fn requests_go_where_they_can_be_served() {
    let t = ticker(Exchange::BinanceLinear);
    let streams = [
        StreamKind::Depth { ticker_info: t },
        StreamKind::Kline { ticker_info: t, timeframe_ms: 60_000 },
        StreamKind::Trades { ticker_info: t },
    ];
    let off = TradeFetchMode::Exchange;
    assert_eq!(
        request_fetch(false, off, &streams, FetchRange::Kline(1, 2), None),
        FetchPlan::Klines { stream: streams[1], from: 1, to: 2 }
    );
    assert_eq!(
        request_fetch(false, off, &streams, FetchRange::OpenInterest(1, 2), None),
        FetchPlan::OpenInterest { stream: streams[1], from: 1, to: 2 }
    );
    assert_eq!(
        request_fetch(false, off, &streams, FetchRange::Trades(1, 2), None),
        FetchPlan::Trades { source: TradeSource::Exchange, stream: streams[2], from: 1, to: 2 }
    );
    assert_eq!(
        request_fetch(true, TradeFetchMode::Server, &streams, FetchRange::Trades(1, 2), None),
        FetchPlan::Trades { source: TradeSource::Server, stream: streams[2], from: 1, to: 2 }
    );
    assert_eq!(
        request_fetch(false, TradeFetchMode::Server, &streams, FetchRange::Trades(1, 2), None),
        FetchPlan::Refused(TradeFetchRefusal::InvalidServerUrl)
    );
    assert_eq!(
        request_fetch(false, off, &[], FetchRange::Trades(1, 2), None),
        FetchPlan::Nothing
    );
    let other = Exchange::Other(MarketKind::Spot, 3);
    assert_eq!(
        request_fetch(
            false,
            off,
            &[StreamKind::Trades { ticker_info: ticker(other) }],
            FetchRange::Trades(1, 2),
            None
        ),
        FetchPlan::Refused(TradeFetchRefusal::UnsupportedExchange(other))
    );
    assert!(TradeFetchRefusal::UnsupportedExchange(other).message("Okex").ends_with("Okex"));
    let specs = vec![
        FetchSpec { req_id: 1, fetch: FetchRange::Kline(1, 2), stream: None },
        FetchSpec { req_id: 2, fetch: FetchRange::Trades(3, 4), stream: None },
    ];
    assert_eq!(request_fetch_many(false, off, &streams, &specs).len(), 2);
}

#[test]
fn fetches_report_what_they_load() {
    let t = ticker(Exchange::BinanceLinear);
    let k = StreamKind::Kline { ticker_info: t, timeframe_ms: 60_000 };
    assert_eq!(
        kline_fetch_task(k),
        (FetchTaskStatus::Loading(InfoKind::FetchingKlines), Some((t, 60_000)))
    );
    assert_eq!(
        oi_fetch_task(StreamKind::Depth { ticker_info: t }),
        (FetchTaskStatus::Loading(InfoKind::FetchingOI), None)
    );
    assert!(matches!(
        klines_update(1, 2, k, Some(3), Ok(vec![])),
        FetchUpdate::Data { layout_id: 1, pane_id: 2, data: FetchedData::Klines { .. }, .. }
    ));
    assert!(matches!(
        open_interest_update(1, 2, k, Some(3), Err("x".to_string())),
        FetchUpdate::Error { pane_id: 2, req_id: Some(3), .. }
    ));
    let none: Vec<Trade> = vec![];
    assert!(trades_page_update(1, 2, k, 3, 99, none).is_none());
    let some = vec![Trade {
        time: 1,
        is_sell: false,
        price: Price { units: 1 },
        qty: Qty { units: 1 },
    }];
    assert!(matches!(
        trades_page_update(1, 2, k, 3, 99, some),
        Some(FetchUpdate::Data { data: FetchedData::Trades { until_time: 99, .. }, .. })
    ));
    assert!(matches!(
        trades_end_update(1, 2, k, 3, 99, Err("y".to_string())),
        FetchUpdate::Error { .. }
    ));
}

#[test]
fn trade_fetching_can_be_off() {
    assert!(!is_trade_fetch_enabled(TradeFetchMode::Off));
    assert!(is_trade_fetch_enabled(TradeFetchMode::Exchange));
    assert!(is_trade_fetch_enabled(TradeFetchMode::Server));
}

#[test]
fn pages_follow_each_other_to_the_end() {
    let mut f = PagedFetch::new(100, 200);
    let page = f.next_page().unwrap();
    assert_eq!((page.from, page.to, page.limit), (100, 200, ARROW_LIMIT));
    assert_eq!(f.on_server_page(10, 10, Some(150)), PageOutcome::Continue);
    let page = f.next_page().unwrap();
    assert_eq!(page.from, 151);
    assert_eq!(f.on_server_page(0, 0, None), PageOutcome::Finished(true));
    assert_eq!(f.on_server_page(3, 3, Some(250)), PageOutcome::Continue);
    assert_eq!(f.next_page(), Err(true));
}

#[test]
fn one_page_with_trades_is_enough_to_report_them() {
    let mut f = PagedFetch::new(100, 200);
    f.on_server_page(4, 0, Some(110));
    assert_eq!(f.next_page().map(|p| p.from), Ok(111));
    assert!(!f.had_data);
    f.on_server_page(4, 1, Some(120));
    f.on_server_page(4, 0, Some(130));
    assert_eq!(f.on_server_page(0, 0, None), PageOutcome::Finished(true));
    let mut f = PagedFetch::new(100, 200);
    f.on_server_page(4, 0, Some(u64::MAX));
    assert_eq!(f.next_page(), Err(false));
}

#[test]
fn a_page_that_does_not_go_on_is_malformed() {
    let mut f = PagedFetch::new(100, 200);
    assert_eq!(f.on_server_page(5, 0, None), PageOutcome::Malformed);
    let mut f = PagedFetch::new(100, 200);
    assert_eq!(f.on_exchange_page(Some(99)), PageOutcome::Malformed);
    assert_eq!(
        PageOutcome::malformed_message(),
        "Source may be malformed. Check logs for details."
    );
}

#[test]
fn an_exchange_without_trades_ends_the_fetch() {
    let mut f = PagedFetch::new(100, 200);
    assert_eq!(f.on_exchange_page(None), PageOutcome::Finished(false));
    assert_eq!(f.on_exchange_page(Some(120)), PageOutcome::Continue);
    assert_eq!(f.cursor, 121);
    assert_eq!(f.on_exchange_page(None), PageOutcome::Finished(true));
    assert_eq!(f.cursor, 121);
}
