use std::collections::BTreeMap;

use flowsurface::domain::{align_ceil, align_floor, bracket, visible_points, window, Bracket, Zoom};
use flowsurface::float_bits::{F32Bits, F64Bits};
use flowsurface::ordered::{greatest_in, keys_in, least_in, sorted_keys};
use flowsurface::indicator::plot::{
    hovered_point, line_segments, newest_point, point_tooltip, y_extents, AnySeries, BasisKind,
    ForwardSeries, PlotTooltip, ReversedBTreeSeries, Series, TooltipKind,
};

fn map(keys: &[u64]) -> BTreeMap<u64, u32> {
    keys.iter().map(|k| (*k, *k as u32 * 10)).collect()
}

#[test]
fn a_forward_series_is_read_by_time() {
    let m = map(&[10, 20, 30]);
    let s = ForwardSeries { inner: &m };
    assert_eq!(s.at(20), Some(&200));
    assert_eq!(s.at(21), None);
    assert_eq!(s.next_after(20), Some((30, &300)));
    assert_eq!(s.next_after(30), None);
    assert_eq!(s.first_in(11, 40), Some((20, &200)));
    assert_eq!(s.last_in(0, 29), Some((20, &200)));
    assert_eq!(s.xs_in(10, 20), vec![10, 20]);
}

#[test]
fn a_reversed_series_is_counted_from_the_newest() {
    let m = map(&[0, 1, 3]);
    let s = ReversedBTreeSeries::new(&m);
    assert_eq!(s.offset, 3);
    assert_eq!(s.at(0), Some(&30));
    assert_eq!(s.at(1), None);
    assert_eq!(s.at(9), None);
    assert_eq!(s.next_after(0), Some((2, &10)));
    assert_eq!(s.next_after(3), None);
    assert_eq!(s.first_in(1, 3), Some((2, &10)));
    assert_eq!(s.last_in(0, 3), Some((3, &0)));
    assert_eq!(s.xs_in(0, 3), vec![0, 2, 3]);
    assert_eq!(s.xs_in(10, 20), vec![3]);
    let empty: BTreeMap<u64, u32> = BTreeMap::new();
    assert_eq!(ReversedBTreeSeries::new(&empty).offset, 0);
}

#[test]
fn any_series_reads_like_its_kind() {
    let m = map(&[0, 1, 3]);
    let f = AnySeries::forward_unix_ms(&m);
    assert_eq!(f.at(3), Some(&30));
    assert_eq!(f.next_after(u64::MAX), None);
    let r = AnySeries::reversed_u64(&m);
    assert_eq!(r.at(3), Some(&0));
    assert_eq!(r.first_in(0, 0), Some((0, &30)));
    assert_eq!(r.last_in(0, 2), Some((2, &10)));
    assert_eq!(r.next_after(0), Some((2, &10)));
    assert_eq!(r.xs_in(0, 1), vec![0]);
}

#[test]
fn a_cursor_picks_a_point() {
    let m = map(&[10, 20, 30]);
    let s = ForwardSeries { inner: &m };
    let at = |x: u64| hovered_point(&s, BasisKind::Time, x, 10, 25).map(|(k, _)| k);
    assert_eq!(at(20), Some(20));
    assert_eq!(at(24), Some(20));
    assert_eq!(at(40), Some(20));
    assert_eq!(at(5), None);
    assert_eq!(hovered_point(&s, BasisKind::Time, 20, 25, 10), None);
    let t = map(&[0, 1, 2]);
    let r = ReversedBTreeSeries::new(&t);
    assert_eq!(hovered_point(&r, BasisKind::Tick, 1, 0, 2), Some((1, &10)));
    assert_eq!(hovered_point(&r, BasisKind::Tick, 0, 1, 2), Some((1, &10)));
    assert_eq!(hovered_point(&r, BasisKind::Tick, 9, 0, 2), None);
    assert_eq!(newest_point(&r, BasisKind::Tick, 0, 2), Some((0, &20)));
    assert_eq!(newest_point(&s, BasisKind::Time, 0, 100), Some((30, &300)));
}

#[test]
fn lines_break_at_invalid_points() {
    assert_eq!(
        line_segments(&vec![true, true, false, true, true]),
        vec![(0, 1), (3, 4)]
    );
    assert!(line_segments(&vec![]).is_empty());
    assert!(line_segments(&vec![true]).is_empty());
}

#[test]
fn maps_are_read_in_order() {
    let m = map(&[30, 10, 20]);
    assert_eq!(sorted_keys(&m), vec![10, 20, 30]);
    assert_eq!(keys_in(&m, 11, 30), vec![20, 30]);
    assert_eq!(least_in(&m, 11, 30), Some(20));
    assert_eq!(greatest_in(&m, 0, 29), Some(20));
    assert_eq!(greatest_in(&m, 31, 99), None);
}

fn f(v: f32) -> F32Bits {
    F32Bits { bits: v.to_bits() }
}

#[test]
fn extents_reach_over_valid_values() {
    let values = vec![f(3.5), f(-2.0), f(100.0), f(f32::NAN)];
    assert_eq!(
        y_extents(&values, &vec![true, true, false, true]),
        Some((f(-2.0), f(3.5)))
    );
    assert_eq!(y_extents(&values, &vec![false, false, false, true]), None);
    assert_eq!(y_extents(&vec![], &vec![]), None);
}

#[test]
fn tooltips_take_as_much_room_as_their_text() {
    let t = PlotTooltip::new("abc\nlonger line".to_string());
    assert_eq!(t.guesstimate(), (11, 2));
    let w = PlotTooltip::warning("abcdef\nx".to_string());
    assert_eq!(w.guesstimate(), (10, 2));
    assert_eq!(w.kind.segments(), vec![("<!> ", true), ("abcdef\nx", false)]);
    assert_eq!(t.kind.text(), "abc\nlonger line");
    assert_eq!(PlotTooltip::new(String::new()).guesstimate(), (0, 1));
}

#[test]
fn invalid_points_show_their_message() {
    let tip = point_tooltip(true, Some(PlotTooltip::new("a".to_string())), None).unwrap();
    assert!(matches!(tip.kind, TooltipKind::Info(_)));
    let tip = point_tooltip(false, None, Some("b".to_string())).unwrap();
    assert!(matches!(tip.kind, TooltipKind::Warning(s) if s == "b"));
    assert!(point_tooltip(false, Some(PlotTooltip::new("a".to_string())), None).is_none());
}

#[test]
fn numbers_are_ordered_by_their_bits() {
    let d = |v: f64| F64Bits { bits: v.to_bits() };
    let values = [
        f64::NEG_INFINITY,
        -3.5,
        -1e-300,
        -0.0,
        0.0,
        5e-324,
        1.0,
        1000.0,
        f64::INFINITY,
        f64::NAN,
    ];
    for a in values {
        for b in values {
            assert_eq!(d(a).lt(d(b)), a < b);
            assert_eq!(d(a).le(d(b)), a <= b);
            assert_eq!(d(a).ge(d(b)), a >= b);
            assert_eq!(
                d(a).total_key().cmp(&d(b).total_key()),
                a.total_cmp(&b),
                "{} {}",
                a,
                b
            );
            let (x, y) = (a as f32, b as f32);
            assert_eq!(f(x).lt(f(y)), x < y);
            assert_eq!(f(x).le(f(y)), x <= y);
            assert_eq!(f(x).equals(f(y)), x == y);
        }
    }
}

#[test]
fn times_are_aligned() {
    assert_eq!(align_floor(1234, 100), 1200);
    assert_eq!(align_ceil(1234, 100), 1300);
    assert_eq!(align_ceil(1200, 100), 1200);
    assert_eq!(align_floor(7, 0), 7);
    assert_eq!(align_ceil(7, 0), 7);
    assert_eq!(align_ceil(u64::MAX, 1000), u64::MAX);
    assert_eq!(align_floor(u64::MAX, 1000), u64::MAX / 1000 * 1000);
}

#[test]
fn a_window_shows_the_last_points() {
    let series = vec![vec![1_000, 2_000, 3_000], vec![500, 2_500]];
    assert_eq!(window(&series, Zoom::all(), 0, 1_000), Some((0, 3_000)));
    assert_eq!(window(&series, Zoom::points(2), 0, 1_000), Some((2_000, 3_000)));
    assert_eq!(window(&series, Zoom::points(2), -1_000, 1_000), Some((1_000, 2_000)));
    assert_eq!(window(&series, Zoom::points(2), 50_000, 1_000), Some((3_000, 4_000)));
    assert_eq!(window(&vec![], Zoom::all(), 0, 1_000), None);
    assert_eq!(window(&vec![vec![]], Zoom::all(), 0, 1_000), None);
    assert!(Zoom::default().is_all());
    assert!(!Zoom::points(5).is_all());
}

#[test]
fn times_lie_between_points() {
    let xs = vec![10, 20, 40];
    assert_eq!(bracket(&xs, 5), Some(Bracket::First));
    assert_eq!(bracket(&xs, 10), Some(Bracket::First));
    assert_eq!(
        bracket(&xs, 25),
        Some(Bracket::Between { left: 1, part: 5, span: 20 })
    );
    assert_eq!(
        bracket(&xs, 40),
        Some(Bracket::Between { left: 1, part: 20, span: 20 })
    );
    assert_eq!(bracket(&xs, 41), None);
    assert_eq!(bracket(&vec![], 41), None);
    assert_eq!(visible_points(&xs, 15, 40), vec![1, 2]);
}