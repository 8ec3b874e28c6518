use flowsurface::heatmap::depth_grid::{DepthRun, GridRing, HeatmapUpload, ScaledLevel};
use flowsurface::heatmap::levels::{merge_levels, RoundedLevel};
use flowsurface::units::{Price, PriceStep, Qty};

fn price(units: i64) -> Price {
    Price { units }
}

fn level(units: i64, qty: u32) -> ScaledLevel {
    ScaledLevel { price: price(units), qty }
}

const STEP: PriceStep = PriceStep { units: 10 };

fn laid_out() -> GridRing {
    let mut ring = GridRing::new();
    ring.ensure_layout(100);
    ring
}

fn cell(ring: &GridRing, bid: bool, x: u32, y: usize) -> u32 {
    let idx = y * ring.tex_w() as usize + x as usize;
    if bid {
        ring.get_bid(idx).unwrap()
    } else {
        ring.get_ask(idx).unwrap()
    }
}

#[test]
fn a_new_ring_has_no_texture() {
    let mut ring = GridRing::new();
    assert_eq!(ring.tex_w(), 0);
    assert_eq!(ring.bids_len(), 0);
    assert!(ring.upload_to_scene(true).is_none());
    ring.ensure_layout(100);
    assert_eq!(ring.tex_w(), 8192);
    assert_eq!(ring.tex_h(), 2048);
    assert_eq!(ring.bids_len(), 8192 * 2048);
    assert_eq!(ring.get_pair(0), Some((0, 0)));
    assert_eq!(ring.get_pair(8192 * 2048 - 1), Some((0, 0)));
    assert_eq!(ring.get_pair(8192 * 2048), None);
}

#[test]
fn a_snapshot_fills_one_column() {
    let mut ring = laid_out();
    let bids = vec![level(1000, 5), level(990, 7)];
    let asks = vec![level(1010, 9)];
    ring.ingest_snapshot(&bids, &asks, 500, STEP, price(1000), 1);
    let x = ring.ring_x_for_bucket(5);
    assert_eq!(x, 5);
    let base = 1024usize;
    assert_eq!(cell(&ring, true, x, base), 5);
    let rows: Vec<usize> = (0..2048).filter(|y| cell(&ring, true, x, *y) > 0).collect();
    assert_eq!(rows.len(), 2);
    let asks_rows: Vec<usize> = (0..2048).filter(|y| cell(&ring, false, x, *y) > 0).collect();
    assert_eq!(asks_rows.len(), 1);
    assert_eq!(cell(&ring, false, x, asks_rows[0]), 9);
    assert_eq!(ring.y_anchor_price(), Some(price(1000)));
}

#[test]
fn levels_of_one_row_keep_the_largest() {
    let mut ring = laid_out();
    let bids = vec![level(1000, 5), level(1001, 3), level(1002, 8)];
    ring.ingest_snapshot(&bids, &vec![], 500, STEP, price(1000), 1);
    assert_eq!(cell(&ring, true, 5, 1024), 8);
}

#[test]
fn late_snapshots_are_ignored() {
    let mut ring = laid_out();
    ring.ingest_snapshot(&vec![level(1000, 5)], &vec![], 500, STEP, price(1000), 1);
    ring.ingest_snapshot(&vec![level(1000, 50)], &vec![], 300, STEP, price(1000), 1);
    assert_eq!(cell(&ring, true, 3, 1024), 0);
    assert_eq!(cell(&ring, true, 5, 1024), 5);
}

#[test]
fn gaps_carry_the_last_column_on() {
    let mut ring = laid_out();
    let asks = |qty: u32| vec![level(1000 + STEP.units, qty)];
    ring.ingest_snapshot(&vec![level(1000, 5)], &asks(3), 500, STEP, price(1000), 1);
    ring.ingest_snapshot(&vec![level(1000, 6)], &asks(4), 800, STEP, price(1000), 1);
    assert_eq!(cell(&ring, true, 6, 1024), 5);
    assert_eq!(cell(&ring, true, 7, 1024), 5);
    assert_eq!(cell(&ring, true, 8, 1024), 6);
    assert_eq!(cell(&ring, false, 6, 1025), 3);
    assert_eq!(cell(&ring, false, 7, 1025), 3);
    assert_eq!(cell(&ring, false, 8, 1025), 4);
}

#[test]
fn an_upload_empties_what_waits() {
    let mut ring = laid_out();
    match ring.upload_to_scene(false) {
        Some(HeatmapUpload::Full { width, height, bid, ask }) => {
            assert_eq!((width, height), (8192, 2048));
            assert_eq!(bid.len(), 8192 * 2048);
            assert_eq!(ask.len(), 8192 * 2048);
        }
        other => panic!("{:?}", other.is_some()),
    }
    assert!(ring.upload_to_scene(false).is_none());
    ring.ingest_snapshot(&vec![level(1000, 5)], &vec![], 500, STEP, price(1000), 1);
    ring.upload_to_scene(false);
    ring.ingest_snapshot(&vec![level(1000, 7)], &vec![], 600, STEP, price(1000), 1);
    match ring.upload_to_scene(false) {
        Some(HeatmapUpload::Cols { width, height, cols }) => {
            assert_eq!((width, height), (8192, 2048));
            let col = cols.iter().find(|c| c.x == 6).unwrap();
            assert_eq!(col.bid_col[1024], 7);
            assert_eq!(col.ask_col[1024], 0);
        }
        other => panic!("{:?}", other.is_some()),
    }
    ring.force_full_upload();
    assert!(matches!(ring.upload_to_scene(false), Some(HeatmapUpload::Full { .. })));
}

#[test]
fn history_is_written_over_its_time() {
    let mut ring = laid_out();
    let runs = vec![
        DepthRun { price: price(1000), is_bid: true, start_time: 100, until_time: 300, qty: 4 },
        DepthRun { price: price(1000), is_bid: true, start_time: 200, until_time: 300, qty: 9 },
        DepthRun { price: price(1010), is_bid: false, start_time: 0, until_time: 500, qty: 3 },
    ];
    ring.rebuild_from_historical(&runs, 0, 500, price(1000), STEP, 1);
    assert_eq!(cell(&ring, true, 1, 1024), 4);
    assert_eq!(cell(&ring, true, 2, 1024), 9);
    assert_eq!(ring.y_anchor_price(), Some(price(1000)));
    assert_eq!(ring.steps_per_y_bin(), 1);
}

#[test]
fn far_targets_recenter() {
    let mut ring = laid_out();
    assert!(ring.should_recenter(price(1000), STEP) || ring.y_anchor_price().is_none());
    ring.ingest_snapshot(&vec![level(1000, 5)], &vec![], 500, STEP, price(1000), 1);
    assert!(!ring.should_recenter(price(1000), STEP));
    assert!(ring.should_recenter(price(1000 + 10 * 2048), STEP));
    assert!(ring.should_full_rebuild(1, 2, price(1000), STEP, false));
    assert!(ring.should_full_rebuild(1, 1, price(1000), STEP, true));
    assert!(!ring.should_full_rebuild(1, 1, price(1000), STEP, false));
}

#[test]
fn the_window_of_a_rebuild_reaches_over_the_horizon() {
    let ring = laid_out();
    assert_eq!(ring.horizon_time_window_ms(1_000_000, 100), (520_000, 1_000_000));
    assert_eq!(ring.horizon_time_window_ms(1_000, 100), (0, 1_000));
    let (hi, lo) = ring.rebuild_price_bounds(price(100_000), STEP, 2);
    assert_eq!(hi.units, 100_000 + 1024 * 2 * 10);
    assert_eq!(lo.units, 100_000 - 1024 * 2 * 10);
}

#[test]
fn buckets_wrap_around_the_ring() {
    let ring = laid_out();
    assert_eq!(ring.ring_x_for_bucket(8192), 0);
    assert_eq!(ring.ring_x_for_bucket(8195), 3);
    assert_eq!(ring.ring_x_for_bucket(-1), 8191);
}

#[test]
fn neighbouring_levels_are_merged() {
    let l = |p: i64, q: i64| RoundedLevel { price: price(p), qty: Qty { units: q } };
    let merged = merge_levels(&vec![l(10, 1), l(10, 2), l(20, 5), l(10, 4)]);
    let got: Vec<(i64, i128)> = merged.iter().map(|m| (m.price.units, m.qty_units)).collect();
    assert_eq!(got, vec![(10, 3), (20, 5), (10, 4)]);
    assert!(merge_levels(&vec![]).is_empty());
}
