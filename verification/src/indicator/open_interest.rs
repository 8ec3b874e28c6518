//! The open interest of a perpetual, which is fetched apart from the klines.
use crate::connector::requests::FetchRange;
use crate::float_bits::F64Bits;
use crate::indicator::availability::{AvailabilityCause, IndicatorAvailability};
use crate::math;
use crate::ordered;
use crate::ordered::{greatest_in, least_in};
use crate::units::{Basis, Exchange, MarketKind, OpenInterest};
use std::collections::BTreeMap;
use vstd::prelude::*;

verus! {

/// Five minutes, in milliseconds.
pub const M5_MS: u64 = 300_000;

/// Two hours, in milliseconds.
pub const H2_MS: u64 = 7_200_000;

/// Four hours, in milliseconds.
pub const H4_MS: u64 = 14_400_000;

/// The open interest by time.
pub struct OpenInterestIndicator {
    pub data: BTreeMap<u64, F64Bits>,
}

/// The values with those of `items` put in, in order.
pub open spec fn with_items(m: Map<u64, F64Bits>, items: Seq<OpenInterest>) -> Map<u64, F64Bits>
    decreases items.len(),
{
    if items.len() == 0 {
        m
    } else {
        with_items(m, items.drop_last()).insert(items.last().time, items.last().value)
    }
}

/// Whether the contracts on an exchange are perpetuals.
pub open spec fn is_perps(exchange: Exchange) -> bool {
    match exchange {
        Exchange::BinanceSpot => false,
        Exchange::Other(kind, _) => kind != MarketKind::Spot,
        _ => true,
    }
}

/// Whether an exchange tells the open interest.
pub open spec fn supports_exchange(exchange: Exchange) -> bool {
    is_perps(exchange) && exchange != Exchange::HyperliquidLinear && exchange
        != Exchange::MexcLinear && exchange != Exchange::MexcInverse
}

/// Whether the open interest is told at a timeframe.
pub open spec fn supports_timeframe(timeframe_ms: u64) -> bool {
    M5_MS <= timeframe_ms <= H4_MS && timeframe_ms != H2_MS
}

/// Whether the open interest can be shown.
pub open spec fn spec_availability(basis: Basis, exchange: Exchange) -> IndicatorAvailability {
    match basis {
        Basis::Tick(_) => IndicatorAvailability::Unavailable(AvailabilityCause::Basis(basis)),
        Basis::Time(timeframe_ms) => if !supports_exchange(exchange) {
            IndicatorAvailability::Unavailable(AvailabilityCause::Exchange(exchange))
        } else if !supports_timeframe(timeframe_ms) {
            IndicatorAvailability::Unavailable(AvailabilityCause::Timeframe(timeframe_ms))
        } else {
            IndicatorAvailability::Available
        },
    }
}

/// What is known of the chart when data is fetched.
#[derive(Debug, Clone, Copy, PartialEq, Eq, Structural)]
pub struct FetchCtx {
    pub exchange: Exchange,
    pub timeframe_ms: u64,
    pub visible_earliest: u64,
    pub kline_latest: u64,
    pub prefetch_earliest: u64,
}

/// `r` are the first and the last time of the data, where the first is at most `latest_kline` and
/// the last is zero without data.
pub open spec fn is_timerange(m: Map<u64, F64Bits>, latest_kline: u64, r: (u64, u64)) -> bool {
    exists|first: Option<u64>, last: Option<u64>|
        {
            &&& #[trigger] ordered::is_least_in(m, 0, u64::MAX, first)
            &&& #[trigger] ordered::is_greatest_in(m, 0, u64::MAX, last)
            &&& r.0 == (match first {
                Some(t) => math::min_int(t as int, latest_kline as int),
                None => latest_kline as int,
            })
            &&& r.1 == (match last {
                Some(t) => t as int,
                None => 0,
            })
        }
}

/// What has to be fetched, given the times of the data: what is missing before it, or else what
/// is missing after it.
pub open spec fn missing_range(ctx: FetchCtx, range: (u64, u64)) -> Option<FetchRange> {
    if ctx.visible_earliest < range.0 {
        Some(FetchRange::OpenInterest(ctx.prefetch_earliest, range.0))
    } else if range.1 < ctx.kline_latest {
        Some(
            FetchRange::OpenInterest(
                math::max_int(range.1 as int, ctx.prefetch_earliest as int) as u64,
                ctx.kline_latest,
            ),
        )
    } else {
        None
    }
}

impl OpenInterestIndicator {
    /// An indicator without data.
    pub fn new() -> (o: OpenInterestIndicator)
        ensures
            o.data@ == Map::<u64, F64Bits>::empty(),
    {
        OpenInterestIndicator { data: BTreeMap::new() }
    }

    /// The first and the last time of the data.
    pub fn oi_timerange(&self, latest_kline: u64) -> (r: (u64, u64))
        ensures
            is_timerange(self.data@, latest_kline, r),
    {
        let first: Option<u64> = least_in(&self.data, 0, u64::MAX);
        let last: Option<u64> = greatest_in(&self.data, 0, u64::MAX);
        let from: u64 = match first {
            Some(t) => if t < latest_kline {
                t
            } else {
                latest_kline
            },
            None => latest_kline,
        };
        let to: u64 = match last {
            Some(t) => t,
            None => 0,
        };
        (from, to)
    }

    fn is_supported_exchange(exchange: Exchange) -> (r: bool)
        ensures
            r == supports_exchange(exchange),
    {
        match exchange {
            Exchange::BinanceLinear | Exchange::BinanceInverse => true,
            Exchange::Other(kind, _) => kind != MarketKind::Spot,
            _ => false,
        }
    }

    fn is_supported_timeframe(timeframe_ms: u64) -> (r: bool)
        ensures
            r == supports_timeframe(timeframe_ms),
    {
        timeframe_ms >= M5_MS && timeframe_ms <= H4_MS && timeframe_ms != H2_MS
    }

    /// Whether the open interest can be shown.
    pub fn availability_for(basis: Basis, exchange: Exchange) -> (a: IndicatorAvailability)
        ensures
            a == spec_availability(basis, exchange),
    {
        match basis {
            Basis::Tick(_) => IndicatorAvailability::Unavailable(AvailabilityCause::Basis(basis)),
            Basis::Time(timeframe_ms) => {
                if !Self::is_supported_exchange(exchange) {
                    IndicatorAvailability::Unavailable(AvailabilityCause::Exchange(exchange))
                } else if !Self::is_supported_timeframe(timeframe_ms) {
                    IndicatorAvailability::Unavailable(AvailabilityCause::Timeframe(timeframe_ms))
                } else {
                    IndicatorAvailability::Available
                }
            },
        }
    }

    /// What has to be fetched for what is visible.
    pub fn fetch_range(&self, ctx: &FetchCtx) -> (r: Option<FetchRange>)
        ensures
            spec_availability(Basis::Time(ctx.timeframe_ms), ctx.exchange)
                != IndicatorAvailability::Available ==> r is None,
            spec_availability(Basis::Time(ctx.timeframe_ms), ctx.exchange)
                == IndicatorAvailability::Available ==> exists|range: (u64, u64)| #[trigger]
                is_timerange(self.data@, ctx.kline_latest, range) && r == missing_range(
                    *ctx,
                    range,
                ),
    {
        match Self::availability_for(Basis::Time(ctx.timeframe_ms), ctx.exchange) {
            IndicatorAvailability::Available => {},
            _ => {
                return None;
            },
        }
        let range: (u64, u64) = self.oi_timerange(ctx.kline_latest);
        assert(is_timerange(self.data@, ctx.kline_latest, range));
        let (earliest, latest) = range;
        if ctx.visible_earliest < earliest {
            return Some(FetchRange::OpenInterest(ctx.prefetch_earliest, earliest));
        }
        if latest < ctx.kline_latest {
            let from: u64 = if latest > ctx.prefetch_earliest {
                latest
            } else {
                ctx.prefetch_earliest
            };
            return Some(FetchRange::OpenInterest(from, ctx.kline_latest));
        }
        None
    }

    /// Puts fetched values in.
    pub fn on_open_interest(&mut self, items: &Vec<OpenInterest>)
        ensures
            final(self).data@ == with_items(old(self).data@, items@),
    {
        let mut i: usize = 0;
        assert(items@.take(0) =~= Seq::<OpenInterest>::empty());
        while i < items.len()
            invariant
                i <= items@.len(),
                self.data@ == with_items(old(self).data@, items@.take(i as int)),
            decreases items@.len() - i,
        {
            proof {
                assert(items@.take(i + 1).drop_last() =~= items@.take(i as int));
            }
            self.data.insert(items[i].time, items[i].value);
            i += 1;
        }
        proof {
            assert(items@.take(items@.len() as int) =~= items@);
        }
    }
}

/// Once the data reaches from what is visible to the newest kline, nothing more is fetched.
pub proof fn complete_data_is_not_fetched(ctx: FetchCtx, range: (u64, u64))
    requires
        range.0 <= ctx.visible_earliest,
        ctx.kline_latest <= range.1,
    ensures
        missing_range(ctx, range) is None,
{
}

} // verus!
