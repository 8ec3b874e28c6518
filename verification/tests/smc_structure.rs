use flowsurface::indicator::smc_structure::{
    fvg_rating, BreakKind, Direction, SmcStructureState, StructureLevel, SwingTagKind,
};
use flowsurface::indicator::smc_view::{
    fvg_label, level_label, right_edge, visible_fvgs, visible_levels, visible_tags, zone_rows,
};
use flowsurface::units::{Kline, Price, Qty, Ratio, Volume};

const SCALE: f64 = 100_000_000.0;

fn units(v: f64) -> i64 {
    (v * SCALE).round() as i64
}

fn to_f64(p: Price) -> f64 {
    p.units as f64 / SCALE
}

fn kline(t: u64, o: f64, h: f64, l: f64, c: f64) -> Kline {
    Kline {
        time: t,
        open: Price { units: units(o) },
        high: Price { units: units(h) },
        low: Price { units: units(l) },
        close: Price { units: units(c) },
        volume: Volume::TotalOnly(Qty { units: units(1.0) }),
    }
}

fn vol_boost() -> Ratio {
    Ratio { num: 3, den: 2 }
}

#[test]
fn detects_a_simple_bullish_bos() {
    let klines = vec![
        kline(0, 100.0, 101.0, 99.0, 100.0),
        kline(1, 100.0, 105.0, 99.0, 104.0),
        kline(2, 104.0, 103.0, 95.0, 96.0),
        kline(3, 96.0, 97.0, 90.0, 91.0),
        kline(4, 91.0, 96.0, 90.0, 95.0),
        kline(5, 95.0, 108.0, 94.0, 107.0),
        kline(6, 107.0, 109.0, 100.0, 101.0),
    ];

    let mut state = SmcStructureState::new(40);
    state.rebuild(&klines, 1, vol_boost());

    assert!(
        state.levels.iter().any(|l| l.direction == Direction::Bullish
            && l.kind == BreakKind::Bos
            && (to_f64(l.price) - 105.0).abs() < 0.01),
        "expected a bullish BOS at 105, got {:?}",
        state.levels
    );
}

#[test]
fn no_break_when_price_stays_inside_range() {
    let klines = vec![
        kline(0, 100.0, 101.0, 99.0, 100.0),
        kline(1, 100.0, 105.0, 99.0, 104.0),
        kline(2, 104.0, 103.0, 95.0, 96.0),
        kline(3, 96.0, 97.0, 90.0, 91.0),
        kline(4, 91.0, 96.0, 90.0, 95.0),
        kline(5, 95.0, 102.0, 94.0, 98.0),
        kline(6, 98.0, 100.0, 93.0, 96.0),
    ];

    let mut state = SmcStructureState::new(40);
    state.rebuild(&klines, 1, vol_boost());

    assert!(
        state.levels.is_empty(),
        "expected no breaks, got {:?}",
        state.levels
    );
}

#[test]
fn detects_a_bullish_fvg_gap() {
    let mut klines: Vec<Kline> = (0..20)
        .map(|i| kline(i, 100.0, 100.5, 99.5, 100.0))
        .collect();
    klines.push(kline(20, 100.0, 100.5, 99.5, 100.2));
    klines.push(kline(21, 100.2, 100.6, 99.8, 100.3));
    klines.push(kline(22, 108.0, 110.0, 108.0, 109.0));

    let mut state = SmcStructureState::new(40);
    state.rebuild_fvgs(&klines, Ratio { num: 1, den: 10 });

    assert!(
        state.fvgs.iter().any(|f| f.direction == Direction::Bullish),
        "expected a bullish FVG, got {:?}",
        state.fvgs
    );
}

#[test]
fn too_few_bars_give_no_structure() {
    let klines = vec![
        kline(0, 100.0, 101.0, 99.0, 100.0),
        kline(1, 100.0, 105.0, 99.0, 104.0),
    ];
    let mut state = SmcStructureState::new(40);
    state.rebuild(&klines, 1, vol_boost());
    assert!(state.levels.is_empty());
    assert!(state.swing_tags.is_empty());
    assert!(state.fvgs.is_empty());
    assert!(state.zones.is_none());
    state.rebuild(&[], 0, vol_boost());
    assert!(state.levels.is_empty());
}

#[test]
fn swing_pivots_are_tagged() {
    let klines = vec![
        kline(0, 100.0, 101.0, 99.0, 100.0),
        kline(1, 100.0, 105.0, 99.0, 104.0),
        kline(2, 104.0, 103.0, 95.0, 96.0),
        kline(3, 96.0, 97.0, 90.0, 91.0),
        kline(4, 91.0, 98.0, 91.0, 95.0),
        kline(5, 95.0, 108.0, 94.0, 104.0),
        kline(6, 104.0, 107.0, 100.0, 101.0),
    ];
    let mut state = SmcStructureState::new(40);
    state.rebuild(&klines, 1, vol_boost());
    let tags: Vec<(u64, SwingTagKind)> =
        state.swing_tags.iter().map(|t| (t.time, t.kind)).collect();
    assert!(tags.contains(&(5, SwingTagKind::HigherHigh)), "{:?}", tags);
    assert_eq!(SwingTagKind::HigherHigh.label(), "HH");
    assert_eq!(SwingTagKind::LowerLow.label(), "LL");
    assert!(SwingTagKind::LowerHigh.is_high());
    assert!(!SwingTagKind::LowerHigh.is_higher());
}

/// Bars that swing up and down, farther each time.
fn swinging() -> Vec<Kline> {
    let wave = [0.0, 0.5, 0.95, 1.0, 0.0, -0.5, -0.95, -1.0];
    (0..48usize)
        .map(|i| {
            let mid = 500.0 + wave[i % 8] * (10.0 + 5.0 * (i / 8) as f64);
            kline(i as u64 * 60, mid, mid + 1.0, mid - 1.0, mid)
        })
        .collect()
}

#[test]
fn tags_are_the_pivots_but_the_first() {
    let k = swinging();
    let mut state = SmcStructureState::new(40);
    state.rebuild(&k, 1, vol_boost());
    let inner = 1..k.len() - 1;
    let highs: Vec<usize> = inner
        .clone()
        .filter(|i| (i - 1..=i + 1).all(|j| k[j].high.units <= k[*i].high.units))
        .collect();
    let lows: Vec<usize> =
        inner.filter(|i| (i - 1..=i + 1).all(|j| k[j].low.units >= k[*i].low.units)).collect();
    assert!(highs.len() > 3 && lows.len() > 3);
    let times = |high: bool| -> Vec<u64> {
        state.swing_tags.iter().filter(|t| t.kind.is_high() == high).map(|t| t.time).collect()
    };
    assert_eq!(times(true), highs[1..].iter().map(|i| k[*i].time).collect::<Vec<u64>>());
    assert_eq!(times(false), lows[1..].iter().map(|i| k[*i].time).collect::<Vec<u64>>());
    for (n, tag) in state.swing_tags.iter().filter(|t| t.kind.is_high()).enumerate() {
        assert_eq!(
            tag.kind.is_higher(),
            k[highs[n + 1]].high.units > k[highs[n]].high.units
        );
    }
}

#[test]
fn levels_are_confirmed_one_after_the_other() {
    let mut state = SmcStructureState::new(40);
    state.rebuild(&swinging(), 1, vol_boost());
    assert!(state.levels.len() > 2, "{:?}", state.levels);
    for (a, one) in state.levels.iter().enumerate() {
        for other in &state.levels[a + 1..] {
            assert!(one.confirmed_time < other.confirmed_time);
            assert!(one.direction != other.direction || one.from_time < other.from_time);
        }
    }
}

#[test]
fn ratings_lie_between_one_and_five() {
    assert_eq!(fvg_rating(0, None), 3);
    assert_eq!(fvg_rating(16, Some(10_000_000_000_000_000)), 5);
    assert_eq!(fvg_rating(5, Some(10_000_000_000_000_000)), 1);
    for size in [0i128, 1, 100, 1_000_000, 1 << 64] {
        for avg in [None, Some(0i128), Some(1), Some(1_000_000_000_000_000_000)] {
            let r = fvg_rating(size, avg);
            assert!((1..=5).contains(&r), "{} {:?} {}", size, avg, r);
        }
    }
}

#[test]
fn filled_gaps_are_dropped() {
    let mut klines: Vec<Kline> = (0..20)
        .map(|i| kline(i, 100.0, 100.5, 99.5, 100.0))
        .collect();
    klines.push(kline(20, 100.0, 100.5, 99.5, 100.2));
    klines.push(kline(21, 100.2, 100.6, 99.8, 100.3));
    klines.push(kline(22, 108.0, 110.0, 108.0, 109.0));
    klines.push(kline(23, 109.0, 110.0, 95.0, 96.0));
    let mut state = SmcStructureState::new(40);
    state.rebuild_fvgs(&klines, Ratio { num: 1, den: 10 });
    assert!(
        !state.fvgs.iter().any(|f| f.direction == Direction::Bullish && f.start_time <= 22),
        "{:?}",
        state.fvgs
    );
}

#[test]
fn zones_are_ordered_from_the_top() {
    let klines: Vec<Kline> = (0..70)
        .map(|i| {
            let p = 100.0 + (i % 7) as f64;
            kline(i, p, p + 2.0, p - 2.0, p + 1.0)
        })
        .collect();
    let mut state = SmcStructureState::new(40);
    state.rebuild(&klines, 10, vol_boost());
    let z = state.zones.unwrap();
    assert!(z.premium >= z.equilibrium && z.equilibrium >= z.discount);
    let rows = zone_rows(&state);
    assert_eq!(rows.len(), 3);
    assert_eq!(rows[0], ("Premium", z.premium));
    assert_eq!(rows[1], ("Eq", z.equilibrium));
    assert_eq!(rows[2], ("Discount", z.discount));
}

#[test]
fn only_what_is_in_view_is_drawn() {
    let klines = vec![
        kline(0, 100.0, 101.0, 99.0, 100.0),
        kline(1, 100.0, 105.0, 99.0, 104.0),
        kline(2, 104.0, 103.0, 95.0, 96.0),
        kline(3, 96.0, 97.0, 90.0, 91.0),
        kline(4, 91.0, 96.0, 90.0, 95.0),
        kline(5, 95.0, 108.0, 94.0, 107.0),
        kline(6, 107.0, 109.0, 100.0, 101.0),
    ];
    let mut state = SmcStructureState::new(40);
    state.rebuild(&klines, 1, vol_boost());
    let all: Vec<StructureLevel> = visible_levels(&state, 0, 10);
    assert_eq!(all.len(), state.levels.len());
    assert!(visible_levels(&state, 100, 200).is_empty());
    assert!(visible_tags(&state, 100, 200).is_empty());
    assert!(visible_fvgs(&state, 100, 200).is_empty());
    let label = level_label(&all[0]);
    assert!(label.starts_with("BOS "));
    assert_eq!(label.chars().count(), 4 + all[0].rating as usize);
}

#[test]
fn an_open_gap_reaches_to_the_right_edge() {
    let mut klines: Vec<Kline> = (0..20)
        .map(|i| kline(i, 100.0, 100.5, 99.5, 100.0))
        .collect();
    klines.push(kline(20, 100.0, 100.5, 99.5, 100.2));
    klines.push(kline(21, 100.2, 100.6, 99.8, 100.3));
    klines.push(kline(22, 108.0, 110.0, 108.0, 109.0));
    let mut state = SmcStructureState::new(40);
    state.rebuild_fvgs(&klines, Ratio { num: 1, den: 10 });
    let gap = state.fvgs.iter().find(|f| f.direction == Direction::Bullish).unwrap();
    assert_eq!(right_edge(*gap, 77), 77);
    assert_eq!(gap.bottom.units, units(100.5));
    assert_eq!(gap.top.units, units(108.0));
    assert!(fvg_label(gap).starts_with("FVG "));
}
