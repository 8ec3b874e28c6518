//! What holds of the rows of a footprint, said of the quantities that traded: where marks are
//! owed, how the table marks its cells, and what the bars of a row give back.
use crate::kline_chart::clusters;
use crate::kline_chart::clusters::{ClusterKind, ImbalanceSide, RowMarks, Strength, TradeGroup};
use crate::kline_chart::study::ImbalanceStudy;
use crate::units::{Price, PriceStep, Qty};
use vstd::prelude::*;

verus! {

/// `winner` exceeds `loser` by more than the threshold, which is in percent.
pub open spec fn outweighs(winner: int, loser: int, study: ImbalanceStudy) -> bool {
    100 * winner > loser * (100 + study.threshold)
}

/// The mark is drawn in full, or by how far `winner` exceeds what `loser` asks of it.
pub open spec fn is_strength(s: Strength, winner: i64, loser: i64, study: ImbalanceStudy) -> bool {
    match study.color_scale {
        None => s == Strength::Full,
        Some(scale) => s matches Strength::Ratio { qty, required_hundredths, color_scale } && qty
            == winner && required_hundredths == loser * (100 + study.threshold) && color_scale
            == scale,
    }
}

proof fn lemma_required_fits(loser: i64, study: ImbalanceStudy)
    ensures
        i128::MIN <= loser * (100 + study.threshold) <= i128::MAX,
{
    assert(-0x8000_0000_0000_0000 * 0x1_0000_0100 <= loser * (100 + study.threshold)
        <= 0x8000_0000_0000_0000 * 0x1_0000_0100) by (nonlinear_arith)
        requires
            -0x8000_0000_0000_0000 <= loser < 0x8000_0000_0000_0000,
            0 <= study.threshold < 0x1_0000_0000,
    ;
}

/// Marks are complete: where something was sold at a price and bought one step above it, the side
/// that traded at least as much is marked just if it outweighs the other, buyers at the price
/// above and sellers at the price, whether or not zeros are ignored.
pub proof fn every_imbalance_is_marked(
    trades: Map<i64, TradeGroup>,
    price: Price,
    sell: Qty,
    step: PriceStep,
    study: ImbalanceStudy,
    above: i64,
)
    requires
        above == price.units + step.units,
        trades.contains_key(above),
        sell.units > 0,
        trades[above].buy_qty.units > 0,
    ensures
        ({
            let s = sell.units;
            let b = trades[above].buy_qty.units;
            let m = clusters::spec_marker(trades, price, sell, step, study);
            if b >= s && outweighs(b as int, s as int, study) {
                m matches Some(mark) && mark.side == ImbalanceSide::Buy && mark.price.units == above
                    && is_strength(mark.strength, b, s, study)
            } else if s > b && outweighs(s as int, b as int, study) {
                m matches Some(mark) && mark.side == ImbalanceSide::Sell && mark.price == price
                    && is_strength(mark.strength, s, b, study)
            } else {
                m is None
            }
        }),
{
    lemma_required_fits(sell.units, study);
    lemma_required_fits(trades[above].buy_qty.units, study);
}

/// Where one of the sides did not trade, nothing is marked if zeros are ignored; if they are not,
/// the side that traded is marked.
pub proof fn zeros_are_marked_unless_ignored(
    trades: Map<i64, TradeGroup>,
    price: Price,
    sell: Qty,
    step: PriceStep,
    study: ImbalanceStudy,
    above: i64,
)
    requires
        above == price.units + step.units,
        trades.contains_key(above),
        sell.units >= 0,
        trades[above].buy_qty.units >= 0,
        sell.units == 0 || trades[above].buy_qty.units == 0,
    ensures
        ({
            let s = sell.units;
            let b = trades[above].buy_qty.units;
            let m = clusters::spec_marker(trades, price, sell, step, study);
            if study.ignore_zeros || (s == 0 && b == 0) {
                m is None
            } else if s == 0 {
                m matches Some(mark) && mark.side == ImbalanceSide::Buy && mark.price.units == above
                    && is_strength(mark.strength, b, s, study)
            } else {
                m matches Some(mark) && mark.side == ImbalanceSide::Sell && mark.price == price
                    && is_strength(mark.strength, s, b, study)
            }
        }),
{
    let t = 100 + study.threshold;
    assert(0 * t == 0);
    lemma_required_fits(sell.units, study);
    lemma_required_fits(trades[above].buy_qty.units, study);
}

/// Nothing is marked below a price at which nothing traded.
pub proof fn nothing_above_leaves_no_mark(
    trades: Map<i64, TradeGroup>,
    price: Price,
    sell: Qty,
    step: PriceStep,
    study: ImbalanceStudy,
)
    requires
        forall|p: i64| p == price.units + step.units ==> !trades.contains_key(p),
    ensures
        clusters::spec_marker(trades, price, sell, step, study) is None,
{
}

/// Whether zeros are ignored makes no difference where both sides traded.
pub proof fn ignoring_zeros_spares_what_traded(
    trades: Map<i64, TradeGroup>,
    price: Price,
    sell: Qty,
    step: PriceStep,
    study: ImbalanceStudy,
    other: ImbalanceStudy,
    above: i64,
)
    requires
        other == (ImbalanceStudy { ignore_zeros: !study.ignore_zeros, ..study }),
        above == price.units + step.units,
        trades.contains_key(above),
        sell.units > 0,
        trades[above].buy_qty.units > 0,
    ensures
        clusters::spec_marker(trades, price, sell, step, study) == clusters::spec_marker(
            trades,
            price,
            sell,
            step,
            other,
        ),
{
}

/// What traded on the other side of the price that a cell of the table is held against: for what
/// was bought, what was sold one step below, and for what was sold, what was bought one step
/// above. Nothing traded at a price that is not there.
pub open spec fn is_opposite(
    trades: Map<i64, TradeGroup>,
    side: ImbalanceSide,
    price: Price,
    step: PriceStep,
    qty: i64,
) -> bool {
    let at = match side {
        ImbalanceSide::Buy => price.units - step.units,
        ImbalanceSide::Sell => price.units + step.units,
    };
    if i64::MIN <= at <= i64::MAX && trades.contains_key(at as i64) {
        match side {
            ImbalanceSide::Buy => qty == trades[at as i64].sell_qty.units,
            ImbalanceSide::Sell => qty == trades[at as i64].buy_qty.units,
        }
    } else {
        qty == 0
    }
}

/// A cell of the table is marked just if what traded there outweighs what traded opposite it. What
/// has nothing opposite it is marked in full, unless zeros are ignored.
pub proof fn cells_are_marked_where_they_outweigh(
    trades: Map<i64, TradeGroup>,
    side: ImbalanceSide,
    price: Price,
    qty: Qty,
    step: PriceStep,
    study: ImbalanceStudy,
    other: i64,
)
    requires
        is_opposite(trades, side, price, step, other),
        qty.units >= 0,
        other >= 0,
    ensures
        ({
            let m = clusters::spec_table_mark(trades, side, price, qty, step, study);
            if qty.units > 0 && other > 0 {
                if outweighs(qty.units as int, other as int, study) {
                    m matches Some(s) && is_strength(s, qty.units, other, study)
                } else {
                    m is None
                }
            } else if qty.units > 0 && !study.ignore_zeros {
                m == Some(Strength::Full)
            } else {
                m is None
            }
        }),
{
    let t = 100 + study.threshold;
    assert(0 * t == 0);
    assert(other > 0 ==> other * t > 0) by (nonlinear_arith)
        requires
            t > 0,
    ;
    lemma_required_fits(other, study);
    assert(price.units + (-1) * step.units == price.units - step.units);
}

/// The bars of a row give back what traded: the volume and the delta of a price add up to twice
/// what was bought, and differ by twice what was sold; the delta rises just if it is not negative.
/// A bar stands on each side on which something traded.
pub proof fn bars_give_back_what_traded(group: TradeGroup)
    ensures
        ({
            let volume = clusters::spec_bars(ClusterKind::VolumeProfile, group);
            let delta = clusters::spec_bars(ClusterKind::DeltaProfile, group);
            let sides = clusters::spec_bars(ClusterKind::BidAsk, group);
            &&& volume is Volume
            &&& delta is Delta
            &&& volume->total + delta->delta == 2 * group.buy_qty.units
            &&& volume->total - delta->delta == 2 * group.sell_qty.units
            &&& delta->rises == (delta->delta >= 0)
            &&& sides is BidAsk
            &&& sides->buy == (group.buy_qty.units > 0)
            &&& sides->sell == (group.sell_qty.units > 0)
            &&& clusters::spec_bars(ClusterKind::Table, group) is Cells
        }),
{
}

/// The row of a price shows what traded there, and its mark is the one between the price and the
/// one above it; in a table each side has a mark of its own.
pub proof fn rows_mark_their_own_price(
    trades: Map<i64, TradeGroup>,
    kind: ClusterKind,
    price: i64,
    step: PriceStep,
    study: ImbalanceStudy,
    above: i64,
)
    requires
        trades.contains_key(price),
        above == price + step.units,
        trades.contains_key(above),
        trades[price].sell_qty.units > 0,
        trades[above].buy_qty.units > 0,
    ensures
        ({
            let row = clusters::spec_row(trades, kind, price, step, Some(study));
            let s = trades[price].sell_qty.units;
            let b = trades[above].buy_qty.units;
            &&& row.price.units == price
            &&& row.group == trades[price]
            &&& match row.marks {
                RowMarks::Diagonal(m) => {
                    &&& kind != ClusterKind::Table
                    &&& (m is Some && m->0.side == ImbalanceSide::Buy) == (b >= s && outweighs(
                        b as int,
                        s as int,
                        study,
                    ))
                    &&& (m is Some && m->0.side == ImbalanceSide::Sell) == (s > b && outweighs(
                        s as int,
                        b as int,
                        study,
                    ))
                },
                RowMarks::Cells { sell, buy } => {
                    &&& kind == ClusterKind::Table
                    &&& sell is Some <==> outweighs(s as int, b as int, study)
                },
            }
        }),
{
    every_imbalance_is_marked(
        trades,
        Price { units: price },
        trades[price].sell_qty,
        step,
        study,
        above,
    );
    cells_are_marked_where_they_outweigh(
        trades,
        ImbalanceSide::Sell,
        Price { units: price },
        trades[price].sell_qty,
        step,
        study,
        trades[above].buy_qty.units,
    );
}

/// In a table, what was bought at a price is marked just if it outweighs what was sold one step
/// below it.
pub proof fn bought_cells_look_below(
    trades: Map<i64, TradeGroup>,
    price: i64,
    step: PriceStep,
    study: ImbalanceStudy,
    below: i64,
)
    requires
        trades.contains_key(price),
        below == price - step.units,
        trades.contains_key(below),
        trades[price].buy_qty.units > 0,
        trades[below].sell_qty.units > 0,
    ensures
        clusters::spec_row(trades, ClusterKind::Table, price, step, Some(study)).marks
            matches RowMarks::Cells { sell, buy } && (buy is Some <==> outweighs(
            trades[price].buy_qty.units as int,
            trades[below].sell_qty.units as int,
            study,
        )),
{
    cells_are_marked_where_they_outweigh(
        trades,
        ImbalanceSide::Buy,
        Price { units: price },
        trades[price].buy_qty,
        step,
        study,
        trades[below].sell_qty.units,
    );
}

/// What is written under a footprint stands under every price that traded, at one of them; where
/// nothing traded it stands under the bar.
pub proof fn summaries_stand_under_the_footprint(
    trades: Map<i64, TradeGroup>,
    low: Price,
    p: Price,
    at: i64,
)
    requires
        clusters::is_lowest(trades, low, p),
    ensures
        trades.contains_key(at) ==> p.units <= at && trades.contains_key(p.units),
        !trades.contains_key(p.units) ==> p == low,
{
}

/// The neighbours of a price are one step away from it, and prices that cannot be written down have
/// no trades.
pub proof fn neighbours_are_steps_away(
    trades: Map<i64, TradeGroup>,
    price: i64,
    steps: int,
    step: int,
    p: i64,
)
    requires
        p == price + steps * step,
    ensures
        trades.contains_key(p) ==> clusters::group_at(trades, price as int, steps, step) == Some(
            trades[p],
        ),
        !trades.contains_key(p) ==> clusters::group_at(trades, price as int, steps, step) is None,
{
}

} // verus!
