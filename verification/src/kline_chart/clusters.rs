//! The footprint of a bar: what traded at each price, how its rows are drawn, and where one side
//! outweighs the other.
use crate::indicator::bar_analysis::FootprintSummary;
use crate::kline_chart::study::ImbalanceStudy;
use crate::table::{table_get, table_keys, Table};
use crate::units::{Kline, Price, PriceStep, Qty};
use vstd::prelude::*;

verus! {

/// What traded at a price.
#[derive(Debug, Clone, Copy, PartialEq, Eq, Structural)]
pub struct TradeGroup {
    pub buy_qty: Qty,
    pub sell_qty: Qty,
}

/// What traded in a bar, by price.
pub struct Footprint {
    pub trades: Table<i64, TradeGroup>,
}

/// How the rows of a footprint are drawn.
#[derive(Debug, Clone, Copy, PartialEq, Eq, Structural)]
pub enum ClusterKind {
    BidAsk,
    VolumeProfile,
    DeltaProfile,
    Table,
}

/// The side that outweighs the other.
#[derive(Debug, Clone, Copy, PartialEq, Eq, Structural)]
pub enum ImbalanceSide {
    Buy,
    Sell,
}

/// How strongly a marker is drawn.
#[derive(Debug, Clone, Copy, PartialEq, Eq, Structural)]
pub enum Strength {
    Full,
    /// By how much `qty` exceeds what is required, which is given in hundredths.
    Ratio { qty: i64, required_hundredths: i128, color_scale: u32 },
}

/// The mark of an imbalance between a price and the one above it.
#[derive(Debug, Clone, Copy, PartialEq, Eq, Structural)]
pub struct Marker {
    pub side: ImbalanceSide,
    /// Where the mark is drawn.
    pub price: Price,
    pub strength: Strength,
}

/// What is required of a side, in hundredths, to outweigh a quantity.
pub open spec fn required(qty: int, study: ImbalanceStudy) -> int {
    qty * (100 + study.threshold)
}

/// How strongly a quantity is marked against what is required, in hundredths.
pub open spec fn spec_strength(qty: i64, required_hundredths: int, study: ImbalanceStudy) -> Strength {
    match study.color_scale {
        None => Strength::Full,
        Some(color_scale) => Strength::Ratio {
            qty,
            required_hundredths: required_hundredths as i128,
            color_scale,
        },
    }
}

fn strength(qty: i64, required_hundredths: i128, study: &ImbalanceStudy) -> (s: Strength)
    ensures
        s == spec_strength(qty, required_hundredths as int, *study),
{
    match study.color_scale {
        None => Strength::Full,
        Some(color_scale) => Strength::Ratio { qty, required_hundredths, color_scale },
    }
}

fn required_of(qty: i64, study: &ImbalanceStudy) -> (r: i128)
    ensures
        r == required(qty as int, *study),
{
    proof {
        assert(-0x8000_0000_0000_0000 * 0x1_0000_0100 <= qty * (100 + study.threshold)
            <= 0x8000_0000_0000_0000 * 0x1_0000_0100) by (nonlinear_arith)
            requires
                -0x8000_0000_0000_0000 <= qty < 0x8000_0000_0000_0000,
                0 <= study.threshold < 0x1_0000_0000,
        ;
    }
    qty as i128 * (100 + study.threshold as i128)
}

/// The price `steps` steps above `price`, if it can be written down.
pub open spec fn spec_neighbour(price: int, steps: int, step: int) -> Option<i64> {
    let p = price + steps * step;
    if i64::MIN <= p <= i64::MAX {
        Some(p as i64)
    } else {
        None
    }
}

/// What traded at the price `steps` steps above `price`, if anything did.
pub open spec fn group_at(
    trades: Map<i64, TradeGroup>,
    price: int,
    steps: int,
    step: int,
) -> Option<TradeGroup> {
    match spec_neighbour(price, steps, step) {
        Some(p) => if trades.contains_key(p) {
            Some(trades[p])
        } else {
            None
        },
        None => None,
    }
}

/// The mark between `price`, at which `sell` was sold, and the price above it.
pub open spec fn spec_marker(
    trades: Map<i64, TradeGroup>,
    price: Price,
    sell: Qty,
    step: PriceStep,
    study: ImbalanceStudy,
) -> Option<Marker> {
    match group_at(trades, price.units as int, 1, step.units as int) {
        None => None,
        Some(above) => {
            let s = sell.units as int;
            let b = above.buy_qty.units as int;
            if study.ignore_zeros && (s <= 0 || b <= 0) {
                None
            } else if b >= s {
                if 100 * b > required(s, study) {
                    Some(
                        Marker {
                            side: ImbalanceSide::Buy,
                            price: Price { units: (price.units + step.units) as i64 },
                            strength: spec_strength(
                                above.buy_qty.units,
                                required(s, study),
                                study,
                            ),
                        },
                    )
                } else {
                    None
                }
            } else if 100 * s > required(b, study) {
                Some(
                    Marker {
                        side: ImbalanceSide::Sell,
                        price,
                        strength: spec_strength(sell.units, required(b, study), study),
                    },
                )
            } else {
                None
            }
        },
    }
}

/// How strongly a side of a price is marked in a table: against the other side one step away.
pub open spec fn spec_table_mark(
    trades: Map<i64, TradeGroup>,
    side: ImbalanceSide,
    price: Price,
    qty: Qty,
    step: PriceStep,
    study: ImbalanceStudy,
) -> Option<Strength> {
    let other = match side {
        ImbalanceSide::Buy => match group_at(trades, price.units as int, -1, step.units as int) {
            Some(g) => g.sell_qty.units as int,
            None => 0,
        },
        ImbalanceSide::Sell => match group_at(trades, price.units as int, 1, step.units as int) {
            Some(g) => g.buy_qty.units as int,
            None => 0,
        },
    };
    let q = qty.units as int;
    let r = required(other, study);
    if study.ignore_zeros && (q <= 0 || other <= 0) {
        None
    } else if r <= 0 {
        if q > 0 {
            Some(Strength::Full)
        } else {
            None
        }
    } else if 100 * q <= r {
        None
    } else {
        Some(spec_strength(qty.units, r, study))
    }
}

/// The bars of a row.
#[derive(Debug, Clone, Copy, PartialEq, Eq, Structural)]
pub enum RowBars {
    /// One bar for both sides together.
    Volume { total: i128 },
    /// One bar for the difference; the larger side colours it, buyers where both are equal.
    Delta { delta: i128, rises: bool },
    /// A bar for each side on which something traded.
    BidAsk { buy: bool, sell: bool },
    /// Two cells of a table.
    Cells,
}

/// The marks of a row.
#[derive(Debug, Clone, Copy, PartialEq, Eq, Structural)]
pub enum RowMarks {
    /// The mark between this row and the one above it.
    Diagonal(Option<Marker>),
    /// The marks of the two cells.
    Cells { sell: Option<Strength>, buy: Option<Strength> },
}

/// A row of a footprint.
#[derive(Debug, Clone, Copy, PartialEq, Eq, Structural)]
pub struct ClusterRow {
    pub price: Price,
    pub group: TradeGroup,
    pub bars: RowBars,
    pub marks: RowMarks,
}

/// The bars of a row.
pub open spec fn spec_bars(kind: ClusterKind, group: TradeGroup) -> RowBars {
    match kind {
        ClusterKind::VolumeProfile => RowBars::Volume {
            total: (group.buy_qty.units + group.sell_qty.units) as i128,
        },
        ClusterKind::DeltaProfile => RowBars::Delta {
            delta: (group.buy_qty.units - group.sell_qty.units) as i128,
            rises: group.buy_qty.units >= group.sell_qty.units,
        },
        ClusterKind::BidAsk => RowBars::BidAsk {
            buy: group.buy_qty.units > 0,
            sell: group.sell_qty.units > 0,
        },
        ClusterKind::Table => RowBars::Cells,
    }
}

/// The marks of a row.
pub open spec fn spec_marks(
    trades: Map<i64, TradeGroup>,
    kind: ClusterKind,
    price: Price,
    step: PriceStep,
    study: Option<ImbalanceStudy>,
) -> RowMarks {
    let group = trades[price.units];
    match kind {
        ClusterKind::Table => match study {
            None => RowMarks::Cells { sell: None, buy: None },
            Some(study) => RowMarks::Cells {
                sell: spec_table_mark(
                    trades,
                    ImbalanceSide::Sell,
                    price,
                    group.sell_qty,
                    step,
                    study,
                ),
                buy: spec_table_mark(trades, ImbalanceSide::Buy, price, group.buy_qty, step, study),
            },
        },
        _ => match study {
            None => RowMarks::Diagonal(None),
            Some(study) => RowMarks::Diagonal(
                spec_marker(trades, price, group.sell_qty, step, study),
            ),
        },
    }
}

/// The row of a price.
pub open spec fn spec_row(
    trades: Map<i64, TradeGroup>,
    kind: ClusterKind,
    price: i64,
    step: PriceStep,
    study: Option<ImbalanceStudy>,
) -> ClusterRow {
    ClusterRow {
        price: Price { units: price },
        group: trades[price],
        bars: spec_bars(kind, trades[price]),
        marks: spec_marks(trades, kind, Price { units: price }, step, study),
    }
}

/// What is written under a footprint.
#[derive(Debug, Clone, Copy, PartialEq, Eq, Structural)]
pub struct SummaryLine {
    /// The price under which it is written: the lowest that traded, or else the low of the bar.
    pub under: Price,
    pub total: Qty,
    pub delta: Qty,
    /// The delta is written in the colour of a rise.
    pub rises: bool,
}

/// How a footprint is drawn. The rows come in no particular order.
pub struct ClusterPlan {
    pub rows: Vec<ClusterRow>,
    /// The candle is drawn in the colour of a rise.
    pub candle_rises: bool,
    pub summary: Option<SummaryLine>,
}

/// `p` is the lowest price that traded, or else `low`.
pub open spec fn is_lowest(trades: Map<i64, TradeGroup>, low: Price, p: Price) -> bool {
    if exists|k: i64| trades.contains_key(k) {
        trades.contains_key(p.units) && forall|k: i64| trades.contains_key(k) ==> p.units <= k
    } else {
        p == low
    }
}

impl Footprint {
    fn group(&self, price: Price, above: bool, step: PriceStep) -> (r: Option<TradeGroup>)
        ensures
            r == group_at(
                self.trades@,
                price.units as int,
                if above {
                    1int
                } else {
                    -1int
                },
                step.units as int,
            ),
    {
        let p: Option<i64> = if above {
            price.units.checked_add(step.units)
        } else {
            price.units.checked_sub(step.units)
        };
        match p {
            Some(p) => table_get(&self.trades, p),
            None => None,
        }
    }

    /// The mark between `price`, at which `sell` was sold, and the price above it.
    pub fn imbalance_marker(
        &self,
        price: Price,
        sell: Qty,
        step: PriceStep,
        study: &ImbalanceStudy,
    ) -> (m: Option<Marker>)
        ensures
            m == spec_marker(self.trades@, price, sell, step, *study),
    {
        let above: TradeGroup = match self.group(price, true, step) {
            Some(g) => g,
            None => {
                return None;
            },
        };
        let s: i64 = sell.units;
        let b: i64 = above.buy_qty.units;
        if study.ignore_zeros && (s <= 0 || b <= 0) {
            return None;
        }
        if b >= s {
            let r: i128 = required_of(s, study);
            if 100 * (b as i128) > r {
                let p: i64 = match price.units.checked_add(step.units) {
                    Some(p) => p,
                    None => 0,
                };
                return Some(
                    Marker {
                        side: ImbalanceSide::Buy,
                        price: Price { units: p },
                        strength: strength(b, r, study),
                    },
                );
            }
        } else {
            let r: i128 = required_of(b, study);
            if 100 * (s as i128) > r {
                return Some(
                    Marker { side: ImbalanceSide::Sell, price, strength: strength(s, r, study) },
                );
            }
        }
        None
    }

    /// How strongly a side of a price is marked in a table.
    pub fn table_mark(
        &self,
        side: ImbalanceSide,
        price: Price,
        qty: Qty,
        step: PriceStep,
        study: &ImbalanceStudy,
    ) -> (m: Option<Strength>)
        ensures
            m == spec_table_mark(self.trades@, side, price, qty, step, *study),
    {
        let other: i64 = match side {
            ImbalanceSide::Buy => match self.group(price, false, step) {
                Some(g) => g.sell_qty.units,
                None => 0,
            },
            ImbalanceSide::Sell => match self.group(price, true, step) {
                Some(g) => g.buy_qty.units,
                None => 0,
            },
        };
        let q: i64 = qty.units;
        if study.ignore_zeros && (q <= 0 || other <= 0) {
            return None;
        }
        let r: i128 = required_of(other, study);
        if r <= 0 {
            return if q > 0 {
                Some(Strength::Full)
            } else {
                None
            };
        }
        if 100 * (q as i128) <= r {
            return None;
        }
        Some(strength(q, r, study))
    }

    fn row(
        &self,
        kind: ClusterKind,
        price: i64,
        group: TradeGroup,
        step: PriceStep,
        study: Option<ImbalanceStudy>,
    ) -> (row: ClusterRow)
        requires
            self.trades@.contains_key(price),
            group == self.trades@[price],
        ensures
            row == spec_row(self.trades@, kind, price, step, study),
    {
        let at: Price = Price { units: price };
        let b: i128 = group.buy_qty.units as i128;
        let s: i128 = group.sell_qty.units as i128;
        let bars: RowBars = match kind {
            ClusterKind::VolumeProfile => RowBars::Volume { total: b + s },
            ClusterKind::DeltaProfile => RowBars::Delta { delta: b - s, rises: b >= s },
            ClusterKind::BidAsk => RowBars::BidAsk { buy: b > 0, sell: s > 0 },
            ClusterKind::Table => RowBars::Cells,
        };
        let marks: RowMarks = match kind {
            ClusterKind::Table => match study {
                None => RowMarks::Cells { sell: None, buy: None },
                Some(study) => RowMarks::Cells {
                    sell: self.table_mark(ImbalanceSide::Sell, at, group.sell_qty, step, &study),
                    buy: self.table_mark(ImbalanceSide::Buy, at, group.buy_qty, step, &study),
                },
            },
            _ => match study {
                None => RowMarks::Diagonal(None),
                Some(study) => RowMarks::Diagonal(
                    self.imbalance_marker(at, group.sell_qty, step, &study),
                ),
            },
        };
        ClusterRow { price: at, group, bars, marks }
    }

    fn lowest(&self, keys: &Vec<i64>, low: Price) -> (p: Price)
        requires
            forall|k: i64| self.trades@.contains_key(k) <==> keys@.contains(k),
        ensures
            is_lowest(self.trades@, low, p),
    {
        if keys.len() == 0 {
            proof {
                assert forall|k: i64| !self.trades@.contains_key(k) by {
                    assert(!keys@.contains(k));
                }
            }
            return low;
        }
        let mut best: i64 = keys[0];
        let mut i: usize = 1;
        assert(keys@.contains(keys@[0]));
        while i < keys.len()
            invariant
                1 <= i <= keys@.len(),
                keys@.contains(best),
                forall|j: int| 0 <= j < i ==> best <= keys@[j],
            decreases keys@.len() - i,
        {
            if keys[i] < best {
                best = keys[i];
                assert(keys@.contains(keys@[i as int]));
            }
            i += 1;
        }
        proof {
            assert(self.trades@.contains_key(best));
            assert forall|k: i64| self.trades@.contains_key(k) implies best <= k by {
                assert(keys@.contains(k));
                let j = keys@.index_of(k);
                assert(best <= keys@[j]);
            }
        }
        Price { units: best }
    }

    /// How the footprint of a bar is drawn, one row for each price, with the summary under it
    /// where it is asked for and there is one.
    pub fn cluster_plan(
        &self,
        kind: ClusterKind,
        step: PriceStep,
        study: Option<ImbalanceStudy>,
        kline: &Kline,
        summary: Option<FootprintSummary>,
        show_summary: bool,
    ) -> (plan: ClusterPlan)
        ensures
            forall|i: int|
                0 <= i < plan.rows@.len() ==> self.trades@.contains_key(
                    (#[trigger] plan.rows@[i]).price.units,
                ) && plan.rows@[i] == spec_row(
                    self.trades@,
                    kind,
                    plan.rows@[i].price.units,
                    step,
                    study,
                ),
            forall|p: i64|
                self.trades@.contains_key(p) ==> plan.rows@.contains(
                    #[trigger] spec_row(self.trades@, kind, p, step, study),
                ),
            plan.rows@.no_duplicates(),
            plan.candle_rises == (kline.close.units >= kline.open.units),
            match plan.summary {
                None => !show_summary || summary is None,
                Some(line) => {
                    &&& show_summary
                    &&& summary matches Some(s)
                    &&& is_lowest(self.trades@, kline.low, line.under)
                    &&& line.total == s.total
                    &&& line.delta == s.delta
                    &&& line.rises == (s.delta.units >= 0)
                },
            },
    {
        let keys: Vec<i64> = table_keys(&self.trades);
        let mut rows: Vec<ClusterRow> = Vec::new();
        let n: usize = keys.len();
        let mut i: usize = 0;
        while i < n
            invariant
                i <= n,
                n == keys@.len(),
                keys@.no_duplicates(),
                forall|k: i64| self.trades@.contains_key(k) <==> keys@.contains(k),
                rows@.len() == i,
                forall|j: int|
                    0 <= j < i ==> #[trigger] rows@[j] == spec_row(
                        self.trades@,
                        kind,
                        keys@[j],
                        step,
                        study,
                    ),
            decreases n - i,
        {
            let price: i64 = keys[i];
            assert(keys@.contains(price));
            let group: TradeGroup = match table_get(&self.trades, price) {
                Some(g) => g,
                None => TradeGroup { buy_qty: Qty { units: 0 }, sell_qty: Qty { units: 0 } },
            };
            rows.push(self.row(kind, price, group, step, study));
            i += 1;
        }
        let line: Option<SummaryLine> = match summary {
            Some(s) => if show_summary {
                Some(
                    SummaryLine {
                        under: self.lowest(&keys, kline.low),
                        total: s.total,
                        delta: s.delta,
                        rises: s.delta.units >= 0,
                    },
                )
            } else {
                None
            },
            None => None,
        };
        proof {
            assert forall|j: int| 0 <= j < n implies self.trades@.contains_key(
                (#[trigger] rows@[j]).price.units,
            ) by {
                assert(keys@.contains(keys@[j]));
            }
            assert forall|p: i64| self.trades@.contains_key(p) implies rows@.contains(
                #[trigger] spec_row(self.trades@, kind, p, step, study),
            ) by {
                assert(keys@.contains(p));
                let j = keys@.index_of(p);
                assert(rows@[j] == spec_row(self.trades@, kind, p, step, study));
            }
            assert forall|a: int, b: int| 0 <= a < n && 0 <= b < n && a != b implies rows@[a]
                != rows@[b] by {
                assert(rows@[a].price.units == keys@[a]);
                assert(rows@[b].price.units == keys@[b]);
            }
        }
        ClusterPlan {
            rows,
            candle_rises: kline.close.units >= kline.open.units,
            summary: line,
        }
    }
}

/// A side is marked only where it exceeds the other by more than the threshold; without a
/// threshold, a marked side has at least traded more.
pub proof fn marked_side_outweighs(
    trades: Map<i64, TradeGroup>,
    price: Price,
    sell: Qty,
    step: PriceStep,
    study: ImbalanceStudy,
)
    requires
        spec_marker(trades, price, sell, step, study) is Some,
        sell.units >= 0,
    ensures
        ({
            let m = spec_marker(trades, price, sell, step, study)->0;
            let above = trades[(price.units + step.units) as i64];
            match m.side {
                ImbalanceSide::Buy => 100 * above.buy_qty.units > sell.units * (100
                    + study.threshold) && above.buy_qty.units > sell.units,
                ImbalanceSide::Sell => 100 * sell.units > above.buy_qty.units * (100
                    + study.threshold) && sell.units > above.buy_qty.units,
            }
        }),
{
    let s = sell.units as int;
    let t = study.threshold as int;
    assert(s * (100 + t) >= 100 * s) by (nonlinear_arith)
        requires
            s >= 0,
            t >= 0,
    ;
}

} // verus!
