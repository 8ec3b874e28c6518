//! What holds of requests and of the pages that answer them: what is new is asked for, requests do
//! not get in each other's way, pages leave no gap, and each request goes where it should.
use crate::connector::fetcher;
use crate::connector::fetcher::{
    FetchPlan, StreamKind, TradeFetchRefusal, TradeSource,
};
use crate::connector::network::TradeFetchMode;
use crate::connector::paging;
use crate::connector::paging::PagedFetch;
use crate::connector::requests;
use crate::connector::requests::{FetchRange, FetchRequest, ReqError, RequestStatus};
use crate::units::Exchange;
use vstd::prelude::*;

verus! {

/// A range that was never asked for is asked for, under the new identifier.
pub proof fn new_ranges_are_requested(
    m: Map<u128, FetchRequest>,
    fetch: FetchRange,
    new_id: u128,
    now: u64,
)
    requires
        forall|id: u128| #[trigger] m.contains_key(id) ==> m[id].fetch_type != fetch,
    ensures
        ({
            let r = requests::requested(m, fetch, new_id, now);
            &&& r.0 == Ok::<Option<u128>, ReqError>(Some(new_id))
            &&& r.1.contains_key(new_id)
            &&& r.1[new_id].fetch_type == fetch
            &&& r.1[new_id].status == RequestStatus::Pending
        }),
{
    if requests::has_request(m, fetch) {
        let id = requests::request_for(m, fetch);
        assert(requests::is_request_for(m, id, fetch));
        assert(m.contains_key(id));
    }
}

/// Asking for a range leaves every request for another range as it is, and never changes what a
/// request is for. An identifier that is new is not among the old ones.
pub proof fn requests_keep_out_of_each_others_way(
    m: Map<u128, FetchRequest>,
    fetch: FetchRange,
    new_id: u128,
    now: u64,
    id: u128,
)
    requires
        !m.contains_key(new_id),
        m.contains_key(id),
    ensures
        ({
            let after = requests::requested(m, fetch, new_id, now).1;
            &&& after.contains_key(id)
            &&& after[id].fetch_type == m[id].fetch_type
            &&& m[id].fetch_type != fetch ==> after[id] == m[id]
        }),
{
    if requests::has_request(m, fetch) {
        assert(requests::is_request_for(m, requests::request_for(m, fetch), fetch));
    }
}

/// A range that is under way is not asked for again.
pub proof fn pending_ranges_are_refused(
    m: Map<u128, FetchRequest>,
    fetch: FetchRange,
    id: u128,
    new_id: u128,
    now: u64,
)
    requires
        requests::one_per_range(m),
        m.contains_key(id),
        m[id].fetch_type == fetch,
        m[id].status == RequestStatus::Pending,
    ensures
        requests::requested(m, fetch, new_id, now) == (
            Err::<Option<u128>, ReqError>(ReqError::Overlaps),
            m,
        ),
{
    assert(requests::is_request_for(m, id, fetch));
    let other = requests::request_for(m, fetch);
    assert(requests::is_request_for(m, other, fetch));
    assert(m[other].fetch_type == m[id].fetch_type);
}

/// Half a minute after a failure a range may be asked for again, and is then under way; before
/// that it may not, nor while the clock stands before the failure.
pub proof fn failures_rest_half_a_minute(
    m: Map<u128, FetchRequest>,
    fetch: FetchRange,
    id: u128,
    new_id: u128,
    failed_at: u64,
    now: u64,
)
    requires
        requests::one_per_range(m),
        m.contains_key(id),
        m[id] == (FetchRequest { fetch_type: fetch, status: RequestStatus::Failed(failed_at) }),
    ensures
        ({
            let r = requests::requested(m, fetch, new_id, now);
            if now - failed_at > 30_000 {
                &&& r.0 == Ok::<Option<u128>, ReqError>(Some(id))
                &&& r.1[id] == (FetchRequest {
                    fetch_type: fetch,
                    status: RequestStatus::Pending,
                })
            } else {
                r.0 == Err::<Option<u128>, ReqError>(ReqError::Failed) && r.1 == m
            }
        }),
{
    assert(requests::is_request_for(m, id, fetch));
    requests::failed_ranges_rest_before_a_retry(m, fetch, id, new_id, failed_at, now);
    let other = requests::request_for(m, fetch);
    assert(requests::is_request_for(m, other, fetch));
    assert(m[other].fetch_type == m[id].fetch_type);
}

/// Marking a request changes its own status and nothing else; marking what is not there changes
/// nothing.
pub proof fn marking_touches_one_request(
    m: Map<u128, FetchRequest>,
    id: u128,
    status: RequestStatus,
    other: u128,
)
    ensures
        ({
            let after = requests::with_status(m, id, status);
            &&& after.contains_key(other) == m.contains_key(other)
            &&& m.contains_key(other) ==> after[other].fetch_type == m[other].fetch_type
            &&& m.contains_key(other) && other != id ==> after[other].status == m[other].status
            &&& m.contains_key(id) ==> after[id].status == status
        }),
{
}

/// Pages leave no gap and repeat nothing: the next one starts at the instant after the latest row
/// of the one before, and the fetch still ends where it was to end.
pub proof fn pages_leave_no_gap(f: PagedFetch, rows: int, trades: int, latest: u64)
    requires
        rows > 0,
        latest < u64::MAX,
    ensures
        paging::after_server_page(f, rows, trades, Some(latest)).cursor == latest + 1,
        paging::after_server_page(f, rows, trades, Some(latest)).to_time == f.to_time,
        paging::after_server_page(f, rows, trades, None).cursor == f.cursor,
        paging::after_exchange_page(f, Some(latest)).cursor == latest + 1,
        paging::after_exchange_page(f, Some(latest)).to_time == f.to_time,
{
}

/// A page without anything leaves the fetch as it is.
pub proof fn empty_pages_change_nothing(f: PagedFetch, trades: int, last_ts: Option<u64>)
    ensures
        paging::after_server_page(f, 0, trades, last_ts) == f,
        paging::after_exchange_page(f, None) == f,
{
}

/// The first stream of klines is found, wherever it stands, or else there is none.
pub proof fn first_kline_stream_is_found(streams: Seq<StreamKind>, i: int)
    requires
        0 <= i <= streams.len(),
        forall|j: int| 0 <= j < i ==> !((#[trigger] streams[j]) is Kline),
        i < streams.len() ==> streams[i] is Kline,
    ensures
        fetcher::first_kline(streams) == if i < streams.len() {
            Some(streams[i])
        } else {
            None
        },
    decreases streams.len(),
{
    if i > 0 {
        assert(!(streams[0] is Kline));
        let rest = streams.drop_first();
        assert forall|j: int| 0 <= j < i - 1 implies !((#[trigger] rest[j]) is Kline) by {
            assert(rest[j] == streams[j + 1]);
        }
        first_kline_stream_is_found(rest, i - 1);
    }
}

/// The first stream of trades is found, wherever it stands, or else there is none.
pub proof fn first_trades_stream_is_found(streams: Seq<StreamKind>, i: int)
    requires
        0 <= i <= streams.len(),
        forall|j: int| 0 <= j < i ==> !((#[trigger] streams[j]) is Trades),
        i < streams.len() ==> streams[i] is Trades,
    ensures
        fetcher::first_trades(streams) == if i < streams.len() {
            Some(streams[i])
        } else {
            None
        },
    decreases streams.len(),
{
    if i > 0 {
        assert(!(streams[0] is Trades));
        let rest = streams.drop_first();
        assert forall|j: int| 0 <= j < i - 1 implies !((#[trigger] rest[j]) is Trades) by {
            assert(rest[j] == streams[j + 1]);
        }
        first_trades_stream_is_found(rest, i - 1);
    }
}

/// Klines and open interest are fetched over the stream that the request names, or else over the
/// pane's first stream of klines, for just the times that were asked for.
pub proof fn klines_come_over_a_kline_stream(
    has_server: bool,
    mode: TradeFetchMode,
    streams: Seq<StreamKind>,
    from: u64,
    to: u64,
    named: Option<StreamKind>,
    i: int,
)
    requires
        0 <= i < streams.len(),
        streams[i] is Kline,
        forall|j: int| 0 <= j < i ==> !((#[trigger] streams[j]) is Kline),
    ensures
        ({
            let over = match named {
                Some(s) => s,
                None => streams[i],
            };
            &&& fetcher::spec_plan(has_server, mode, streams, FetchRange::Kline(from, to), named)
                == (FetchPlan::Klines { stream: over, from, to })
            &&& fetcher::spec_plan(
                has_server,
                mode,
                streams,
                FetchRange::OpenInterest(from, to),
                named,
            ) == (FetchPlan::OpenInterest { stream: over, from, to })
        }),
{
    first_kline_stream_is_found(streams, i);
}

/// Trades come from the server where there is one; without one, from the exchange itself, if the
/// server was not asked for and the exchange is Binance; otherwise the request is refused with the
/// reason.
pub proof fn trades_come_from_the_server_first(
    has_server: bool,
    mode: TradeFetchMode,
    streams: Seq<StreamKind>,
    from: u64,
    to: u64,
    named: Option<StreamKind>,
    i: int,
)
    requires
        0 <= i < streams.len(),
        streams[i] is Trades,
        forall|j: int| 0 <= j < i ==> !((#[trigger] streams[j]) is Trades),
    ensures
        ({
            let exchange = streams[i]->Trades_ticker_info.exchange;
            let plan = fetcher::spec_plan(
                has_server,
                mode,
                streams,
                FetchRange::Trades(from, to),
                named,
            );
            if has_server {
                plan == (FetchPlan::Trades {
                    source: TradeSource::Server,
                    stream: streams[i],
                    from,
                    to,
                })
            } else if mode == TradeFetchMode::Server {
                plan == FetchPlan::Refused(TradeFetchRefusal::InvalidServerUrl)
            } else {
                match exchange {
                    Exchange::BinanceSpot
                    | Exchange::BinanceLinear
                    | Exchange::BinanceInverse => plan == (FetchPlan::Trades {
                        source: TradeSource::Exchange,
                        stream: streams[i],
                        from,
                        to,
                    }),
                    _ => plan == FetchPlan::Refused(
                        TradeFetchRefusal::UnsupportedExchange(exchange),
                    ),
                }
            }
        }),
{
    first_trades_stream_is_found(streams, i);
}

} // verus!
