//! What holds of what an indicator plots, said of the points and the cursor: which point is picked,
//! how bars are counted back, how far the values reach, and how wide a tooltip is.
use crate::float_bits::{F32Bits, F32_MAX, F32_MIN};
use crate::indicator::plot;
use crate::indicator::plot::{BasisKind, ForwardSeries, PlotTooltip, ReversedBTreeSeries, Series};
use crate::ordered;
use vstd::prelude::*;

verus! {

/// Over time, a cursor at a visible point picks it.
pub proof fn cursor_picks_the_point_under_it<'a, Y>(
    s: ForwardSeries<'a, Y>,
    basis: BasisKind,
    x: u64,
    earliest: u64,
    latest: u64,
    r: Option<u64>,
)
    requires
        plot::is_hovered(&s, basis, x, earliest, latest, r),
        s.inner@.contains_key(x),
        earliest <= x <= latest,
    ensures
        r == Some(x),
{
}

/// Over time, a cursor between points picks the last visible one before it; right of what is
/// visible, the last visible one of all; left of it, none.
pub proof fn cursor_picks_the_last_point_before_it<'a, Y>(
    s: ForwardSeries<'a, Y>,
    x: u64,
    earliest: u64,
    latest: u64,
    r: Option<u64>,
    p: u64,
)
    requires
        plot::is_hovered(&s, BasisKind::Time, x, earliest, latest, r),
        earliest <= latest,
        s.inner@.contains_key(p),
        earliest <= p <= latest,
        p <= x,
        forall|q: u64| p < q && q <= x && q <= latest ==> !s.inner@.contains_key(q),
    ensures
        r == Some(p),
{
    if x <= latest {
        if !s.inner@.contains_key(x) {
            assert(ordered::is_greatest_in(s.inner@, earliest, x, r));
        }
    } else {
        assert(ordered::is_greatest_in(s.inner@, earliest, latest, r));
    }
}

/// Over time, nothing is picked left of what is visible.
pub proof fn cursor_left_of_the_view_picks_nothing<'a, Y>(
    s: ForwardSeries<'a, Y>,
    x: u64,
    earliest: u64,
    latest: u64,
    r: Option<u64>,
)
    requires
        plot::is_hovered(&s, BasisKind::Time, x, earliest, latest, r),
        x < earliest,
    ensures
        r is None,
{
}

/// Over bars, a cursor picks the bar under it and no other; right of what is visible it picks the
/// newest visible bar, which has the least place.
pub proof fn cursor_over_bars_picks_exactly<'a, Y>(
    s: ReversedBTreeSeries<'a, Y>,
    x: u64,
    earliest: u64,
    latest: u64,
    r: Option<u64>,
)
    requires
        plot::is_hovered(&s, BasisKind::Tick, x, earliest, latest, r),
        earliest <= latest <= s.offset,
    ensures
        earliest <= x <= latest ==> r == if s.inner@.contains_key((s.offset - x) as u64) {
            Some(x)
        } else {
            None
        },
        x > latest ==> r is None,
        x < earliest ==> (r matches Some(p) ==> earliest <= p <= latest && s.inner@.contains_key(
            (s.offset - p) as u64,
        ) && forall|k: u64|
            s.offset - p < k && k <= s.offset - earliest ==> !s.inner@.contains_key(k)),
{
    if x < earliest {
        assert(ordered::is_least_in(s.points(), earliest, latest, r));
        if let Some(p) = r {
            assert forall|k: u64|
                s.offset - p < k && k <= s.offset - earliest implies !s.inner@.contains_key(k) by {
                let y = (s.offset - k) as u64;
                if s.inner@.contains_key(k) {
                    assert(s.points().contains_key(y));
                }
            }
        }
    }
}

/// Counted back from the newest bar, bar `offset - x` stands at place `x`.
pub proof fn bars_are_counted_back<Y>(m: Map<u64, Y>, offset: u64, x: u64)
    ensures
        plot::mirrored(m, offset).contains_key(x) <==> x <= offset && m.contains_key(
            (offset - x) as u64,
        ),
        plot::mirrored(m, offset).contains_key(x) ==> plot::mirrored(m, offset)[x] == m[(offset
            - x) as u64],
{
}

/// No valid value lies below the lowest one or above the highest one.
pub proof fn extents_hold_every_value(values: Seq<F32Bits>, valid: Seq<bool>, i: int)
    requires
        values.len() == valid.len(),
        0 <= i < values.len(),
        valid[i],
        !values[i].is_nan(),
    ensures
        !plot::lowest_value(values, valid).is_nan(),
        !plot::highest_value(values, valid).is_nan(),
        plot::lowest_value(values, valid).rank() <= values[i].rank()
            <= plot::highest_value(values, valid).rank(),
    decreases values.len(),
{
    lemma_extents_are_numbers(values.drop_last(), valid.drop_last());
    if i < values.len() - 1 {
        extents_hold_every_value(values.drop_last(), valid.drop_last(), i);
    }
}

proof fn lemma_extents_are_numbers(values: Seq<F32Bits>, valid: Seq<bool>)
    ensures
        !plot::lowest_value(values, valid).is_nan(),
        !plot::highest_value(values, valid).is_nan(),
    decreases values.len(),
{
    if values.len() > 0 {
        lemma_extents_are_numbers(values.drop_last(), valid.drop_last());
    }
}

/// The lowest value is a valid one, or the largest number there is where none is less.
pub proof fn lowest_value_is_one_of_them(values: Seq<F32Bits>, valid: Seq<bool>)
    requires
        values.len() == valid.len(),
    ensures
        plot::lowest_value(values, valid) == (F32Bits { bits: F32_MAX }) || exists|i: int|
            #![trigger values[i]]
            0 <= i < values.len() && valid[i] && values[i] == plot::lowest_value(values, valid),
        plot::highest_value(values, valid) == (F32Bits { bits: F32_MIN }) || exists|i: int|
            #![trigger values[i]]
            0 <= i < values.len() && valid[i] && values[i] == plot::highest_value(values, valid),
    decreases values.len(),
{
    if values.len() > 0 {
        let v = values.drop_last();
        let w = valid.drop_last();
        let n = values.len() - 1;
        lowest_value_is_one_of_them(v, w);
        let low = plot::lowest_value(v, w);
        let high = plot::highest_value(v, w);
        if plot::lowest_value(values, valid) == low {
            if low != (F32Bits { bits: F32_MAX }) {
                let i = choose|i: int| #![trigger v[i]] 0 <= i < v.len() && w[i] && v[i] == low;
                assert(values[i] == low && valid[i]);
            }
        } else {
            assert(values[n] == plot::lowest_value(values, valid));
        }
        if plot::highest_value(values, valid) == high {
            if high != (F32Bits { bits: F32_MIN }) {
                let i = choose|i: int| #![trigger v[i]] 0 <= i < v.len() && w[i] && v[i] == high;
                assert(values[i] == high && valid[i]);
            }
        } else {
            assert(values[n] == plot::highest_value(values, valid));
        }
    }
}

/// The characters from `i` up to `j` stand in one line.
pub open spec fn in_one_line(text: Seq<char>, i: int, j: int) -> bool {
    0 <= i <= j <= text.len() && forall|k: int| #![trigger text[k]] i <= k < j ==> text[k] != '\n'
}

proof fn lemma_current_line(text: Seq<char>, first: int, n: int, i: int)
    requires
        first >= 0,
        0 <= n <= text.len(),
    ensures
        plot::widest(text, first, n).0 >= plot::widest(text, first, n).1 >= 0,
        plot::widest(text, first, n).0 >= first,
        in_one_line(text, i, n) ==> plot::widest(text, first, n).1 >= n - i + if i == 0 {
            first
        } else {
            0
        },
    decreases n,
{
    if n > 0 {
        lemma_current_line(text, first, n - 1, i);
        if in_one_line(text, i, n) {
            if i < n {
                assert(text[n - 1] != '\n');
            } else {
                lemma_current_line(text, first, n - 1, n - 1);
            }
        }
    }
}

/// A tooltip is as wide as each of its lines, and the first one has what goes before it.
pub proof fn tooltips_are_as_wide_as_their_lines(
    text: Seq<char>,
    first: int,
    n: int,
    i: int,
    j: int,
)
    requires
        first >= 0,
        0 <= n <= text.len(),
        j <= n,
        in_one_line(text, i, j),
    ensures
        plot::widest(text, first, n).0 >= j - i + if i == 0 {
            first
        } else {
            0
        },
    decreases n,
{
    lemma_current_line(text, first, n, i);
    if j < n {
        tooltips_are_as_wide_as_their_lines(text, first, n - 1, i, j);
        lemma_current_line(text, first, n - 1, i);
    }
}

/// A text of one line is as wide as it is long, and takes one line; each line break adds one.
pub proof fn tooltips_are_no_wider_than_they_are_long(text: Seq<char>, first: int, n: int)
    requires
        first >= 0,
        in_one_line(text, 0, n),
    ensures
        plot::widest(text, first, n).0 == first + n,
        plot::widest(text, first, n).1 == first + n,
        plot::line_ends(text, n) == 0,
    decreases n,
{
    if n > 0 {
        assert(text[n - 1] != '\n');
        tooltips_are_no_wider_than_they_are_long(text, first, n - 1);
    }
}

/// The four characters of a warning's mark stand in front of its first line only; what displays
/// data has none.
pub proof fn only_warnings_have_a_mark(info: PlotTooltip, warning: PlotTooltip)
    requires
        info.kind is Info,
        warning.kind is Warning,
    ensures
        info.prefix_len() == 0,
        warning.prefix_len() == 4,
{
}

/// A point that is picked is a point of the series, with its own value.
pub proof fn picked_points_are_of_the_series<Y>(points: Map<u64, Y>, x: u64, y: &Y)
    ensures
        plot::is_point(points, Some((x, y))) ==> points.contains_key(x) && points[x] == *y,
        points.contains_key(x) && points[x] == *y ==> plot::is_point(points, Some((x, y))),
        plot::place(Some((x, y))) == Some(x),
{
}

} // verus!
