use flowsurface::float_bits::F32Bits;
use flowsurface::heatmap::overlay::{
    circles, clamp_cols_per_x_bin, compute_profile_span, depth_profile, volume_profile,
    volume_strip, DepthLevel, GroupedTrade, HeatmapDataPoint, PriceWindow, ProfileKind, VolumeBar,
};
use flowsurface::units::{Price, PriceStep, Qty};

fn price(units: i64) -> Price {
    Price { units }
}

fn size(v: f32) -> F32Bits {
    F32Bits { bits: v.to_bits() }
}

fn trade(p: i64, q: i64, is_sell: bool) -> GroupedTrade {
    GroupedTrade { price: price(p), qty: Qty { units: q }, is_sell, size: size(2.0) }
}

fn point(time: u64, trades: Vec<GroupedTrade>) -> HeatmapDataPoint {
    let buy: i64 = trades.iter().filter(|t| !t.is_sell).map(|t| t.qty.units).sum();
    let sell: i64 = trades.iter().filter(|t| t.is_sell).map(|t| t.qty.units).sum();
    HeatmapDataPoint {
        time,
        grouped_trades: trades,
        buy: Qty { units: buy },
        sell: Qty { units: sell },
    }
}

fn window() -> PriceWindow {
    PriceWindow {
        lowest: price(900),
        highest: price(1100),
        base_price: price(1000),
        step: PriceStep { units: 10 },
        steps_per_y_bin: 1,
        y_anchor: None,
    }
}

#[test]
fn a_volume_profile_adds_up_the_rows() {
    let points = vec![
        point(100, vec![trade(1000, 3, false), trade(1000, 4, true)]),
        point(200, vec![trade(1000, 5, false), trade(1010, 2, true), trade(5000, 99, true)]),
        point(900, vec![trade(1000, 50, false)]),
    ];
    let p = volume_profile(&points, window(), 0, 500).unwrap();
    let row = (0 - p.min_bin) as usize;
    assert_eq!(p.buy[row], 8);
    assert_eq!(p.sell[row], 4);
    assert_eq!(p.sell[row + 1], 2);
    assert_eq!(p.max_total, 12);
    assert!(volume_profile(&vec![], window(), 0, 500).is_none());
}

#[test]
fn a_depth_profile_has_both_sides() {
    let levels = vec![
        DepthLevel { price: price(990), qty: Qty { units: 7 }, is_bid: true },
        DepthLevel { price: price(1010), qty: Qty { units: 9 }, is_bid: false },
    ];
    let d = depth_profile(&levels, window()).unwrap();
    assert_eq!(d.bid[(-1 - d.min_bin) as usize], 7);
    assert_eq!(d.ask[(1 - d.min_bin) as usize], 9);
    assert_eq!(d.max_qty, 9);
}

#[test]
fn circles_stand_for_visible_trades() {
    let mut hidden = trade(1000, 1, false);
    hidden.size = size(1.0);
    let points = vec![
        point(100, vec![trade(1000, 3, false), hidden]),
        point(900, vec![trade(1000, 8, true)]),
    ];
    let c = circles(&points, window(), 0, 500, 100, size(1.0)).unwrap();
    assert_eq!(c.visible.len(), 1);
    assert_eq!(c.visible[0].bucket, 1);
    assert_eq!(c.visible[0].trade.qty.units, 3);
    assert_eq!(c.max_qty, 3);
    let c = circles(&points, window(), 0, 500, 100, size(-5.0)).unwrap();
    assert_eq!(c.visible.len(), 2);
    assert!(circles(&points, window(), 0, 500, 100, size(2.0)).is_none());
}

#[test]
fn the_span_of_a_profile_depends_on_its_kind() {
    let visible = compute_profile_span(ProfileKind::VisibleRange, 1_000, 9_000, 9_500, 100);
    assert_eq!(visible, (1_000, 9_000));
    let (from, to) = compute_profile_span(ProfileKind::FixedWindow(10), 1_000, 9_000, 9_500, 100);
    assert!(from <= to);
    assert!(to - from <= 1_100);
}

#[test]
fn columns_of_the_volume_strip_are_bounded() {
    assert_eq!(clamp_cols_per_x_bin(None), 1);
    assert_eq!(clamp_cols_per_x_bin(Some(0)), 1);
    assert_eq!(clamp_cols_per_x_bin(Some(7)), 7);
    assert_eq!(clamp_cols_per_x_bin(Some(1_000_000)), 4096);
}

#[test]
fn a_volume_strip_adds_up_its_columns() {
    let points = vec![
        point(100, vec![trade(1000, 3, false)]),
        point(200, vec![trade(1000, 4, true)]),
        point(300, vec![trade(1000, 6, false)]),
    ];
    let s = volume_strip(&points, 0, 1_000, 100, 1, 0).unwrap();
    assert_eq!(s.bars.len(), 3);
    assert_eq!(s.max_total, 6);
    assert_eq!((s.bars[0].buy, s.bars[0].sell), (3, 0));
    assert_eq!((s.bars[1].buy, s.bars[1].sell), (0, 4));
    let bar = VolumeBar { x0_bin: 0, x1_bin: 1, buy: 3, sell: 10 };
    assert_eq!(bar.imbalance(), 7);
}
