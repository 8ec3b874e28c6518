//! Which source a request goes to, and what is reported about it.
use crate::connector::network::TradeFetchMode;
use crate::connector::requests::FetchRange;
use crate::units::{Exchange, Kline, OpenInterest, TickerInfo, Trade};
use vstd::prelude::*;
use vstd::string::*;

verus! {

/// The most trades that are requested of the server at once.
pub const ARROW_LIMIT: usize = 400_000;

/// What a pane is subscribed to.
#[derive(Debug, Clone, Copy, PartialEq, Eq, Structural)]
pub enum StreamKind {
    Kline { ticker_info: TickerInfo, timeframe_ms: u64 },
    Depth { ticker_info: TickerInfo },
    Trades { ticker_info: TickerInfo },
}

/// What was fetched.
#[derive(Debug, Clone)]
pub enum FetchedData {
    Trades {
        batch: Vec<Trade>,
        /// Trades beyond this time are on the chart already.
        until_time: u64,
        req_id: Option<u128>,
    },
    Klines { data: Vec<Kline>, req_id: Option<u128> },
    OI { data: Vec<OpenInterest>, req_id: Option<u128> },
}

/// What a pane shows about a fetch.
#[derive(Debug, Clone, Copy, PartialEq, Eq, Structural)]
pub enum FetchTaskStatus {
    Loading(InfoKind),
    Completed,
}

#[derive(Debug, Clone, Copy, PartialEq, Eq, Structural)]
pub enum InfoKind {
    FetchingKlines,
    FetchingTrades(usize),
    FetchingOI,
}

/// What a fetch tells the dashboard.
#[derive(Debug, Clone)]
pub enum FetchUpdate {
    Status { pane_id: u128, status: FetchTaskStatus },
    Data { layout_id: u128, pane_id: u128, stream: StreamKind, data: FetchedData },
    Error { pane_id: u128, error: String, req_id: Option<u128> },
}

/// A request together with the stream that it is for, if that is settled.
#[derive(Debug, Clone, Copy, PartialEq, Eq, Structural)]
pub struct FetchSpec {
    pub req_id: u128,
    pub fetch: FetchRange,
    pub stream: Option<StreamKind>,
}

/// Where trades are fetched from.
#[derive(Debug, Clone, Copy, PartialEq, Eq, Structural)]
pub enum TradeSource {
    Server,
    Exchange,
}

/// Why no trades can be fetched.
#[derive(Debug, Clone, Copy, PartialEq, Eq, Structural)]
pub enum TradeFetchRefusal {
    /// The server is selected but its address is not valid.
    InvalidServerUrl,
    /// Only Binance offers historical trades itself.
    UnsupportedExchange(Exchange),
}

impl TradeFetchRefusal {
    /// What the user is told; `exchange` is the name of the exchange that was asked.
    pub fn message(self, exchange: &str) -> (s: String)
        ensures
            s@ == (match self {
                TradeFetchRefusal::InvalidServerUrl =>
                    "Server mode selected but the server URL is invalid."@,
                TradeFetchRefusal::UnsupportedExchange(_) =>
                    "Trade fetch via exchange API is only supported for Binance, got "@ + exchange@,
            }),
    {
        match self {
            TradeFetchRefusal::InvalidServerUrl =>
                "Server mode selected but the server URL is invalid.".to_owned(),
            TradeFetchRefusal::UnsupportedExchange(_) =>
                "Trade fetch via exchange API is only supported for Binance, got ".to_owned().concat(
                exchange,
            ),
        }
    }
}

/// What is to be done for a request.
#[derive(Debug, Clone, Copy, PartialEq, Eq, Structural)]
pub enum FetchPlan {
    /// No stream of the pane can serve the request.
    Nothing,
    /// Report the status, then fetch klines over `stream`.
    Klines { stream: StreamKind, from: u64, to: u64 },
    /// Report the status, then fetch open interest over `stream`.
    OpenInterest { stream: StreamKind, from: u64, to: u64 },
    /// Fetch trades page by page.
    Trades { source: TradeSource, stream: StreamKind, from: u64, to: u64 },
    /// Report that the trades cannot be fetched.
    Refused(TradeFetchRefusal),
}

/// The first kline stream among `streams`.
pub open spec fn first_kline(streams: Seq<StreamKind>) -> Option<StreamKind>
    decreases streams.len(),
{
    if streams.len() == 0 {
        None
    } else if streams[0] is Kline {
        Some(streams[0])
    } else {
        first_kline(streams.drop_first())
    }
}

/// The first trades stream among `streams`.
pub open spec fn first_trades(streams: Seq<StreamKind>) -> Option<StreamKind>
    decreases streams.len(),
{
    if streams.len() == 0 {
        None
    } else if streams[0] is Trades {
        Some(streams[0])
    } else {
        first_trades(streams.drop_first())
    }
}

/// The exchange is one of Binance's.
pub open spec fn is_binance(e: Exchange) -> bool {
    e is BinanceSpot || e is BinanceLinear || e is BinanceInverse
}

/// Where trades of `exchange` come from: the server where there is one, else the exchange
/// itself, where it is Binance and the server was not asked for.
pub open spec fn trade_source(
    has_server: bool,
    mode: TradeFetchMode,
    exchange: Exchange,
) -> Result<TradeSource, TradeFetchRefusal> {
    if has_server {
        Ok(TradeSource::Server)
    } else if mode == TradeFetchMode::Server {
        Err(TradeFetchRefusal::InvalidServerUrl)
    } else if is_binance(exchange) {
        Ok(TradeSource::Exchange)
    } else {
        Err(TradeFetchRefusal::UnsupportedExchange(exchange))
    }
}

/// The plan for a request.
pub open spec fn spec_plan(
    has_server: bool,
    mode: TradeFetchMode,
    ready_streams: Seq<StreamKind>,
    fetch: FetchRange,
    stream: Option<StreamKind>,
) -> FetchPlan {
    match fetch {
        FetchRange::Kline(from, to) => match (if stream is Some {
            stream
        } else {
            first_kline(ready_streams)
        }) {
            Some(stream) => FetchPlan::Klines { stream, from, to },
            None => FetchPlan::Nothing,
        },
        FetchRange::OpenInterest(from, to) => match (if stream is Some {
            stream
        } else {
            first_kline(ready_streams)
        }) {
            Some(stream) => FetchPlan::OpenInterest { stream, from, to },
            None => FetchPlan::Nothing,
        },
        FetchRange::Trades(from, to) => match first_trades(ready_streams) {
            Some(StreamKind::Trades { ticker_info }) => match trade_source(
                has_server,
                mode,
                ticker_info.exchange,
            ) {
                Ok(source) => FetchPlan::Trades {
                    source,
                    stream: StreamKind::Trades { ticker_info },
                    from,
                    to,
                },
                Err(refusal) => FetchPlan::Refused(refusal),
            },
            _ => FetchPlan::Nothing,
        },
    }
}

fn find_kline(streams: &[StreamKind]) -> (r: Option<StreamKind>)
    ensures
        r == first_kline(streams@),
{
    let mut i: usize = 0;
    assert(streams@.skip(0) =~= streams@);
    while i < streams.len()
        invariant
            i <= streams@.len(),
            first_kline(streams@) == first_kline(streams@.skip(i as int)),
        decreases streams@.len() - i,
    {
        proof {
            assert(streams@.skip(i as int).drop_first() =~= streams@.skip(i + 1));
            assert(streams@.skip(i as int)[0] == streams@[i as int]);
        }
        if let StreamKind::Kline { .. } = streams[i] {
            return Some(streams[i]);
        }
        i += 1;
    }
    None
}

fn find_trades(streams: &[StreamKind]) -> (r: Option<TickerInfo>)
    ensures
        match r {
            Some(ticker_info) => first_trades(streams@) == Some(
                StreamKind::Trades { ticker_info },
            ),
            None => first_trades(streams@) is None,
        },
{
    let mut i: usize = 0;
    assert(streams@.skip(0) =~= streams@);
    while i < streams.len()
        invariant
            i <= streams@.len(),
            first_trades(streams@) == first_trades(streams@.skip(i as int)),
        decreases streams@.len() - i,
    {
        proof {
            assert(streams@.skip(i as int).drop_first() =~= streams@.skip(i + 1));
            assert(streams@.skip(i as int)[0] == streams@[i as int]);
        }
        if let StreamKind::Trades { ticker_info } = streams[i] {
            return Some(ticker_info);
        }
        i += 1;
    }
    None
}

/// Decides what is to be done for a request. `has_server` says that a server client could be
/// made; `stream` is the stream that the request names, if it names one.
pub fn request_fetch(
    has_server: bool,
    mode: TradeFetchMode,
    ready_streams: &[StreamKind],
    fetch: FetchRange,
    stream: Option<StreamKind>,
) -> (plan: FetchPlan)
    ensures
        plan == spec_plan(has_server, mode, ready_streams@, fetch, stream),
{
    match fetch {
        FetchRange::Kline(from, to) => {
            let kline: Option<StreamKind> = match stream {
                Some(s) => Some(s),
                None => find_kline(ready_streams),
            };
            match kline {
                Some(stream) => FetchPlan::Klines { stream, from, to },
                None => FetchPlan::Nothing,
            }
        },
        FetchRange::OpenInterest(from, to) => {
            let kline: Option<StreamKind> = match stream {
                Some(s) => Some(s),
                None => find_kline(ready_streams),
            };
            match kline {
                Some(stream) => FetchPlan::OpenInterest { stream, from, to },
                None => FetchPlan::Nothing,
            }
        },
        FetchRange::Trades(from, to) => match find_trades(ready_streams) {
            None => FetchPlan::Nothing,
            Some(ticker_info) => {
                let stream = StreamKind::Trades { ticker_info };
                if has_server {
                    FetchPlan::Trades { source: TradeSource::Server, stream, from, to }
                } else if mode == TradeFetchMode::Server {
                    FetchPlan::Refused(TradeFetchRefusal::InvalidServerUrl)
                } else {
                    match ticker_info.exchange {
                        Exchange::BinanceSpot
                        | Exchange::BinanceLinear
                        | Exchange::BinanceInverse => FetchPlan::Trades {
                            source: TradeSource::Exchange,
                            stream,
                            from,
                            to,
                        },
                        other => FetchPlan::Refused(TradeFetchRefusal::UnsupportedExchange(other)),
                    }
                }
            },
        },
    }
}

/// The plans for several requests, in order.
pub fn request_fetch_many(
    has_server: bool,
    mode: TradeFetchMode,
    ready_streams: &[StreamKind],
    reqs: &Vec<FetchSpec>,
) -> (plans: Vec<FetchPlan>)
    ensures
        plans@ == reqs@.map_values(
            |r: FetchSpec| spec_plan(has_server, mode, ready_streams@, r.fetch, r.stream),
        ),
{
    let mut plans: Vec<FetchPlan> = Vec::new();
    let mut i: usize = 0;
    while i < reqs.len()
        invariant
            i <= reqs@.len(),
            plans@.len() == i,
            forall|j: int|
                0 <= j < i ==> #[trigger] plans@[j] == spec_plan(
                    has_server,
                    mode,
                    ready_streams@,
                    reqs@[j].fetch,
                    reqs@[j].stream,
                ),
        decreases reqs@.len() - i,
    {
        let r: FetchSpec = reqs[i];
        plans.push(request_fetch(has_server, mode, ready_streams, r.fetch, r.stream));
        i += 1;
    }
    proof {
        assert(plans@ =~= reqs@.map_values(
            |r: FetchSpec| spec_plan(has_server, mode, ready_streams@, r.fetch, r.stream),
        ));
    }
    plans
}

/// What a fetch of open interest over `stream` asks for, after the status has been reported; only
/// a kline stream has any.
pub fn oi_fetch_task(stream: StreamKind) -> (r: (FetchTaskStatus, Option<(TickerInfo, u64)>))
    ensures
        r.0 == FetchTaskStatus::Loading(InfoKind::FetchingOI),
        r.1 == (match stream {
            StreamKind::Kline { ticker_info, timeframe_ms } => Some((ticker_info, timeframe_ms)),
            _ => None,
        }),
{
    let ask: Option<(TickerInfo, u64)> = match stream {
        StreamKind::Kline { ticker_info, timeframe_ms } => Some((ticker_info, timeframe_ms)),
        _ => None,
    };
    (FetchTaskStatus::Loading(InfoKind::FetchingOI), ask)
}

/// What a fetch of klines over `stream` asks for, after the status has been reported; only a
/// kline stream has any.
pub fn kline_fetch_task(stream: StreamKind) -> (r: (FetchTaskStatus, Option<(TickerInfo, u64)>))
    ensures
        r.0 == FetchTaskStatus::Loading(InfoKind::FetchingKlines),
        r.1 == (match stream {
            StreamKind::Kline { ticker_info, timeframe_ms } => Some((ticker_info, timeframe_ms)),
            _ => None,
        }),
{
    let ask: Option<(TickerInfo, u64)> = match stream {
        StreamKind::Kline { ticker_info, timeframe_ms } => Some((ticker_info, timeframe_ms)),
        _ => None,
    };
    (FetchTaskStatus::Loading(InfoKind::FetchingKlines), ask)
}

/// What is reported when a fetch of klines has come back.
pub fn klines_update(
    layout_id: u128,
    pane_id: u128,
    stream: StreamKind,
    req_id: Option<u128>,
    result: Result<Vec<Kline>, String>,
) -> (u: FetchUpdate)
    ensures
        u == (match result {
            Ok(data) => FetchUpdate::Data {
                layout_id,
                pane_id,
                stream,
                data: FetchedData::Klines { data, req_id },
            },
            Err(error) => FetchUpdate::Error { pane_id, error, req_id },
        }),
{
    match result {
        Ok(data) => FetchUpdate::Data {
            layout_id,
            pane_id,
            stream,
            data: FetchedData::Klines { data, req_id },
        },
        Err(error) => FetchUpdate::Error { pane_id, error, req_id },
    }
}

/// What is reported when a fetch of open interest has come back.
pub fn open_interest_update(
    layout_id: u128,
    pane_id: u128,
    stream: StreamKind,
    req_id: Option<u128>,
    result: Result<Vec<OpenInterest>, String>,
) -> (u: FetchUpdate)
    ensures
        u == (match result {
            Ok(data) => FetchUpdate::Data {
                layout_id,
                pane_id,
                stream,
                data: FetchedData::OI { data, req_id },
            },
            Err(error) => FetchUpdate::Error { pane_id, error, req_id },
        }),
{
    match result {
        Ok(data) => FetchUpdate::Data {
            layout_id,
            pane_id,
            stream,
            data: FetchedData::OI { data, req_id },
        },
        Err(error) => FetchUpdate::Error { pane_id, error, req_id },
    }
}

/// What is reported for a page of trades; nothing for one without trades.
pub fn trades_page_update(
    layout_id: u128,
    pane_id: u128,
    stream: StreamKind,
    req_id: u128,
    until_time: u64,
    batch: Vec<Trade>,
) -> (u: Option<FetchUpdate>)
    ensures
        u == (if batch@.len() == 0 {
            None::<FetchUpdate>
        } else {
            Some(
                FetchUpdate::Data {
                    layout_id,
                    pane_id,
                    stream,
                    data: FetchedData::Trades { batch, until_time, req_id: Some(req_id) },
                },
            )
        }),
{
    if batch.len() == 0 {
        return None;
    }
    Some(
        FetchUpdate::Data {
            layout_id,
            pane_id,
            stream,
            data: FetchedData::Trades { batch, until_time, req_id: Some(req_id) },
        },
    )
}

/// What is reported when the last page of trades has come: completion, or an empty batch where
/// the source had nothing, or the error.
pub fn trades_end_update(
    layout_id: u128,
    pane_id: u128,
    stream: StreamKind,
    req_id: u128,
    until_time: u64,
    result: Result<bool, String>,
) -> (u: FetchUpdate)
    ensures
        match result {
            Ok(true) => u == (FetchUpdate::Status {
                pane_id,
                status: FetchTaskStatus::Completed,
            }),
            Ok(false) => {
                &&& u matches FetchUpdate::Data { layout_id: l, pane_id: p, stream: s, data }
                &&& l == layout_id && p == pane_id && s == stream
                &&& data matches FetchedData::Trades { batch, until_time: t, req_id: r }
                &&& batch@.len() == 0 && t == until_time && r == Some(req_id)
            },
            Err(error) => u == (FetchUpdate::Error { pane_id, error, req_id: Some(req_id) }),
        },
{
    match result {
        Ok(true) => FetchUpdate::Status { pane_id, status: FetchTaskStatus::Completed },
        Ok(false) => FetchUpdate::Data {
            layout_id,
            pane_id,
            stream,
            data: FetchedData::Trades { batch: Vec::new(), until_time, req_id: Some(req_id) },
        },
        Err(error) => FetchUpdate::Error { pane_id, error, req_id: Some(req_id) },
    }
}

} // verus!
