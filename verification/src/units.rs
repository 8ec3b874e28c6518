//! Plain market quantities: prices, price steps and sizes in fixed-point units.
use crate::float_bits::F64Bits;
use vstd::prelude::*;

verus! {

/// A price, counted in atomic units.
#[derive(Debug, Clone, Copy, PartialEq, Eq, PartialOrd, Ord, Hash, Structural)]
pub struct Price {
    pub units: i64,
}

/// The distance between two neighbouring price levels, in atomic price units.
#[derive(Debug, Clone, Copy, PartialEq, Eq, Structural)]
pub struct PriceStep {
    pub units: i64,
}

/// A traded or resting size, counted in atomic units.
#[derive(Debug, Clone, Copy, PartialEq, Eq, PartialOrd, Ord, Hash, Structural)]
pub struct Qty {
    pub units: i64,
}

/// The volume of a bar, split by aggressor where the exchange tells it.
#[derive(Debug, Clone, Copy, PartialEq, Eq, Structural)]
pub enum Volume {
    BuySell { buy: Qty, sell: Qty },
    TotalOnly(Qty),
}

impl Volume {
    /// Everything that was traded.
    pub open spec fn spec_total(self) -> int {
        match self {
            Volume::BuySell { buy, sell } => buy.units + sell.units,
            Volume::TotalOnly(total) => total.units as int,
        }
    }

    /// Everything that was traded.
    pub fn total(self) -> (r: i128)
        ensures
            r == self.spec_total(),
    {
        match self {
            Volume::BuySell { buy, sell } => buy.units as i128 + sell.units as i128,
            Volume::TotalOnly(total) => total.units as i128,
        }
    }
}

/// One bar of a candlestick chart.
#[derive(Debug, Clone, Copy, PartialEq, Eq, Structural)]
pub struct Kline {
    pub time: u64,
    pub open: Price,
    pub high: Price,
    pub low: Price,
    pub close: Price,
    pub volume: Volume,
}

/// One trade.
#[derive(Debug, Clone, Copy, PartialEq, Eq, Structural)]
pub struct Trade {
    pub time: u64,
    pub is_sell: bool,
    pub price: Price,
    pub qty: Qty,
}

/// The open interest at one time.
#[derive(Debug, Clone, Copy, PartialEq, Eq, Structural)]
pub struct OpenInterest {
    pub time: u64,
    pub value: F64Bits,
}

/// The kind of market that an instrument is traded on.
#[derive(Debug, Clone, Copy, PartialEq, Eq, Structural)]
pub enum MarketKind {
    Spot,
    LinearPerps,
    InversePerps,
}

/// An exchange together with the kind of market on it. `Other` stands for every pair without a
/// rule of its own, by a number that the caller assigns.
#[derive(Debug, Clone, Copy, PartialEq, Eq, Structural)]
pub enum Exchange {
    BinanceSpot,
    BinanceLinear,
    BinanceInverse,
    HyperliquidLinear,
    MexcLinear,
    MexcInverse,
    Other(MarketKind, u16),
}

/// An instrument: its exchange and a number that the caller assigns.
#[derive(Debug, Clone, Copy, PartialEq, Eq, Structural)]
pub struct TickerInfo {
    pub exchange: Exchange,
    pub id: u32,
}

/// How the bars of a chart are made: by time, in milliseconds, or by counting trades.
#[derive(Debug, Clone, Copy, PartialEq, Eq, Structural)]
pub enum Basis {
    Time(u64),
    Tick(u16),
}

/// A non-negative fraction.
#[derive(Debug, Clone, Copy, PartialEq, Eq, Structural)]
pub struct Ratio {
    pub num: u32,
    pub den: u32,
}

impl Price {
    /// The price of `units` atomic units.
    pub fn from_units(units: i64) -> (p: Price)
        ensures
            p.units == units,
    {
        Price { units }
    }
}

} // verus!
