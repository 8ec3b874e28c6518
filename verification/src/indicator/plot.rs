//! What an indicator plots: series of points over time or over bars, and which of their points a
//! cursor picks.
use crate::float_bits::{F32Bits, F32_MAX, F32_MIN};
use crate::math;
use crate::ordered;
use crate::ordered::{greatest_in, keys_in, least_in};
use std::collections::BTreeMap;
use vstd::prelude::*;
use vstd::string::*;

verus! {

/// Points that are plotted from left to right or from right to left, each at a place `x`.
pub trait Series {
    type Y;

    /// The points, by their places.
    spec fn points(&self) -> Map<u64, Self::Y>;

    /// How far a place reaches: places beyond the last one are taken for it.
    spec fn clip(&self, x: u64) -> u64;

    /// The places from `lo` to `hi` at which there are points, in ascending order.
    fn xs_in(&self, lo: u64, hi: u64) -> (xs: Vec<u64>)
        requires
            lo <= hi,
        ensures
            ordered::are_keys_in(self.points(), self.clip(lo), self.clip(hi), xs@),
    ;

    /// The point at `x`.
    fn at(&self, x: u64) -> (y: Option<&Self::Y>)
        ensures
            y is Some <==> self.points().contains_key(x),
            y is Some ==> *y->0 == self.points()[x],
    ;

    /// The first point after `x`.
    fn next_after(&self, x: u64) -> (r: Option<(u64, &Self::Y)>)
        ensures
            x < u64::MAX ==> ordered::is_least_in(
                self.points(),
                (x + 1) as u64,
                u64::MAX,
                place(r),
            ),
            is_point(self.points(), r),
    ;

    /// The first point from `lo` to `hi`.
    fn first_in(&self, lo: u64, hi: u64) -> (r: Option<(u64, &Self::Y)>)
        requires
            lo <= hi,
        ensures
            ordered::is_least_in(self.points(), self.clip(lo), self.clip(hi), place(r)),
            is_point(self.points(), r),
    ;

    /// The last point from `lo` to `hi`.
    fn last_in(&self, lo: u64, hi: u64) -> (r: Option<(u64, &Self::Y)>)
        requires
            lo <= hi,
        ensures
            ordered::is_greatest_in(self.points(), self.clip(lo), self.clip(hi), place(r)),
            is_point(self.points(), r),
    ;
}

/// The place of a point, if there is one.
pub open spec fn place<Y>(r: Option<(u64, &Y)>) -> Option<u64> {
    match r {
        Some((x, _)) => Some(x),
        None => None,
    }
}

/// What was found, if anything, is a point of the series.
pub open spec fn is_point<Y>(points: Map<u64, Y>, r: Option<(u64, &Y)>) -> bool {
    r matches Some((x, y)) ==> points.contains_key(x) && *y == points[x]
}

/// Points over time: the place of a point is its time.
pub struct ForwardSeries<'a, Y> {
    pub inner: &'a BTreeMap<u64, Y>,
}

impl<'a, Y> ForwardSeries<'a, Y> {
    fn pick(&self, k: Option<u64>) -> (r: Option<(u64, &Y)>)
        requires
            k matches Some(k) ==> self.inner@.contains_key(k),
        ensures
            place(r) == k,
            is_point(self.points(), r),
    {
        match k {
            Some(k) => match self.inner.get(&k) {
                Some(y) => Some((k, y)),
                None => None,
            },
            None => None,
        }
    }
}

impl<'m, Y> Series for ForwardSeries<'m, Y> {
    type Y = Y;

    open spec fn points(&self) -> Map<u64, Y> {
        self.inner@
    }

    open spec fn clip(&self, x: u64) -> u64 {
        x
    }

    fn xs_in(&self, lo: u64, hi: u64) -> (xs: Vec<u64>) {
        keys_in(self.inner, lo, hi)
    }

    fn at(&self, x: u64) -> (y: Option<&Y>) {
        self.inner.get(&x)
    }

    fn next_after(&self, x: u64) -> (r: Option<(u64, &Y)>)
        ensures
            x == u64::MAX ==> ordered::is_least_in(self.points(), u64::MAX, u64::MAX, place(r)),
    {
        self.pick(least_in(self.inner, x.saturating_add(1), u64::MAX))
    }

    fn first_in(&self, lo: u64, hi: u64) -> (r: Option<(u64, &Y)>) {
        self.pick(least_in(self.inner, lo, hi))
    }

    fn last_in(&self, lo: u64, hi: u64) -> (r: Option<(u64, &Y)>) {
        self.pick(greatest_in(self.inner, lo, hi))
    }
}

/// Points over bars, counted back from the newest bar: the place of a point is its distance from
/// the largest index.
pub struct ReversedBTreeSeries<'a, Y> {
    pub inner: &'a BTreeMap<u64, Y>,
    /// The largest index.
    pub offset: u64,
}

/// Points by their distance from `offset`.
pub open spec fn mirrored<Y>(m: Map<u64, Y>, offset: u64) -> Map<u64, Y> {
    Map::new(
        |x: u64| x <= offset && m.contains_key((offset - x) as u64),
        |x: u64| m[(offset - x) as u64],
    )
}

impl<'a, Y> ReversedBTreeSeries<'a, Y> {
    /// No index is larger than the offset.
    pub open spec fn wf(&self) -> bool {
        forall|k: u64| self.inner@.contains_key(k) ==> k <= self.offset
    }

    /// The series over a map from bar indices.
    pub fn new(inner: &'a BTreeMap<u64, Y>) -> (s: ReversedBTreeSeries<'a, Y>)
        ensures
            s.wf(),
            s.inner@ == inner@,
            s.offset == 0 || inner@.contains_key(s.offset),
    {
        let offset: u64 = match greatest_in(inner, 0, u64::MAX) {
            Some(k) => k,
            None => 0,
        };
        ReversedBTreeSeries { inner, offset }
    }

    /// The index at a place.
    pub open spec fn index_at(&self, x: u64) -> u64 {
        (self.offset - self.clip(x)) as u64
    }

    fn key_range(&self, lo: u64, hi: u64) -> (r: (u64, u64))
        requires
            lo <= hi,
        ensures
            r.0 == self.index_at(hi),
            r.1 == self.index_at(lo),
            r.0 <= r.1 <= self.offset,
    {
        (self.offset.saturating_sub(hi), self.offset.saturating_sub(lo))
    }

    fn pick(&self, k: Option<u64>) -> (r: Option<(u64, &Y)>)
        requires
            k matches Some(k) ==> self.inner@.contains_key(k) && k <= self.offset,
        ensures
            place(r) == (match k {
                Some(k) => Some((self.offset - k) as u64),
                None => None,
            }),
            is_point(self.points(), r),
    {
        match k {
            Some(k) => match self.inner.get(&k) {
                Some(y) => Some((self.offset - k, y)),
                None => None,
            },
            None => None,
        }
    }

    proof fn lemma_mirror_least(&self, lo: u64, hi: u64, k: Option<u64>)
        requires
            lo <= hi <= self.offset,
            ordered::is_greatest_in(
                self.inner@,
                (self.offset - hi) as u64,
                (self.offset - lo) as u64,
                k,
            ),
        ensures
            ordered::is_least_in(
                self.points(),
                lo,
                hi,
                match k {
                    Some(k) => Some((self.offset - k) as u64),
                    None => None,
                },
            ),
    {
        let p = self.points();
        assert forall|x: u64| p.contains_key(x) && lo <= x <= hi implies self.inner@.contains_key(
            (self.offset - x) as u64,
        ) && self.offset - hi <= self.offset - x <= self.offset - lo by {}
    }

    proof fn lemma_mirror_greatest(&self, lo: u64, hi: u64, k: Option<u64>)
        requires
            lo <= hi <= self.offset,
            ordered::is_least_in(
                self.inner@,
                (self.offset - hi) as u64,
                (self.offset - lo) as u64,
                k,
            ),
        ensures
            ordered::is_greatest_in(
                self.points(),
                lo,
                hi,
                match k {
                    Some(k) => Some((self.offset - k) as u64),
                    None => None,
                },
            ),
    {
        let p = self.points();
        assert forall|x: u64| p.contains_key(x) && lo <= x <= hi implies self.inner@.contains_key(
            (self.offset - x) as u64,
        ) && self.offset - hi <= self.offset - x <= self.offset - lo by {}
    }
}

impl<'m, Y> Series for ReversedBTreeSeries<'m, Y> {
    type Y = Y;

    open spec fn points(&self) -> Map<u64, Y> {
        mirrored(self.inner@, self.offset)
    }

    open spec fn clip(&self, x: u64) -> u64 {
        if x <= self.offset {
            x
        } else {
            self.offset
        }
    }

    fn xs_in(&self, lo: u64, hi: u64) -> (xs: Vec<u64>) {
        let (earliest, latest) = self.key_range(lo, hi);
        let keys: Vec<u64> = keys_in(self.inner, earliest, latest);
        let mut xs: Vec<u64> = Vec::new();
        let n: usize = keys.len();
        let mut i: usize = n;
        proof {
            assert forall|j: int| 0 <= j < n implies keys@[j] <= self.offset by {
                assert(keys@.contains(keys@[j]));
            }
        }
        while i > 0
            invariant
                i <= n,
                n == keys@.len(),
                xs@.len() == n - i,
                ordered::ascending(keys@),
                forall|j: int| 0 <= j < n ==> #[trigger] keys@[j] <= self.offset,
                forall|j: int|
                    0 <= j < xs@.len() ==> #[trigger] xs@[j] == self.offset - keys@[n - 1 - j],
            decreases i,
        {
            i -= 1;
            xs.push(self.offset - keys[i]);
        }
        proof {
            assert forall|a: int, b: int| 0 <= a < b < xs@.len() implies xs@[a] < xs@[b] by {
                assert(keys@[n - 1 - b] < keys@[n - 1 - a]);
            }
            let p = self.points();
            assert forall|x: u64|
                (p.contains_key(x) && self.clip(lo) <= x <= self.clip(hi)) <==> xs@.contains(x) by {
                if p.contains_key(x) && self.clip(lo) <= x <= self.clip(hi) {
                    let k = (self.offset - x) as u64;
                    assert(keys@.contains(k));
                    let j = keys@.index_of(k);
                    assert(xs@[n - 1 - j] == x);
                }
                if xs@.contains(x) {
                    let j = xs@.index_of(x);
                    assert(keys@.contains(keys@[n - 1 - j]));
                }
            }
        }
        xs
    }

    fn at(&self, x: u64) -> (y: Option<&Y>) {
        if x > self.offset {
            None
        } else {
            self.inner.get(&(self.offset - x))
        }
    }

    fn next_after(&self, x: u64) -> (r: Option<(u64, &Y)>)
        ensures
            x == u64::MAX ==> r is None,
    {
        if x >= self.offset {
            return None;
        }
        let k: Option<u64> = greatest_in(self.inner, 0, self.offset - x - 1);
        proof {
            self.lemma_mirror_least((x + 1) as u64, self.offset, k);
        }
        self.pick(k)
    }

    fn first_in(&self, lo: u64, hi: u64) -> (r: Option<(u64, &Y)>) {
        let (earliest, latest) = self.key_range(lo, hi);
        let k: Option<u64> = greatest_in(self.inner, earliest, latest);
        proof {
            self.lemma_mirror_least(self.clip(lo), self.clip(hi), k);
        }
        self.pick(k)
    }

    fn last_in(&self, lo: u64, hi: u64) -> (r: Option<(u64, &Y)>) {
        let (earliest, latest) = self.key_range(lo, hi);
        let k: Option<u64> = least_in(self.inner, earliest, latest);
        proof {
            self.lemma_mirror_greatest(self.clip(lo), self.clip(hi), k);
        }
        self.pick(k)
    }
}

/// A series over time or over bars.
pub enum AnySeries<'a, Y> {
    ForwardUnixMs(ForwardSeries<'a, Y>),
    Reversed(ReversedBTreeSeries<'a, Y>),
}

impl<'a, Y> AnySeries<'a, Y> {
    /// The series over a map from times.
    pub fn forward_unix_ms(data: &'a BTreeMap<u64, Y>) -> (s: AnySeries<'a, Y>)
        ensures
            s matches AnySeries::ForwardUnixMs(f) && f.inner@ == data@,
    {
        AnySeries::ForwardUnixMs(ForwardSeries { inner: data })
    }

    /// The series over a map from bar indices.
    pub fn reversed_u64(data: &'a BTreeMap<u64, Y>) -> (s: AnySeries<'a, Y>)
        ensures
            s matches AnySeries::Reversed(r) && r.wf() && r.inner@ == data@ && (r.offset == 0
                || data@.contains_key(r.offset)),
    {
        AnySeries::Reversed(ReversedBTreeSeries::new(data))
    }
}

impl<'m, Y> Series for AnySeries<'m, Y> {
    type Y = Y;

    open spec fn points(&self) -> Map<u64, Y> {
        match self {
            AnySeries::ForwardUnixMs(s) => s.points(),
            AnySeries::Reversed(s) => s.points(),
        }
    }

    open spec fn clip(&self, x: u64) -> u64 {
        match self {
            AnySeries::ForwardUnixMs(s) => s.clip(x),
            AnySeries::Reversed(s) => s.clip(x),
        }
    }

    fn xs_in(&self, lo: u64, hi: u64) -> (xs: Vec<u64>) {
        match self {
            AnySeries::ForwardUnixMs(s) => s.xs_in(lo, hi),
            AnySeries::Reversed(s) => s.xs_in(lo, hi),
        }
    }

    fn at(&self, x: u64) -> (y: Option<&Y>) {
        match self {
            AnySeries::ForwardUnixMs(s) => s.at(x),
            AnySeries::Reversed(s) => s.at(x),
        }
    }

    fn next_after(&self, x: u64) -> (r: Option<(u64, &Y)>)
        ensures
            x == u64::MAX ==> match self {
                AnySeries::ForwardUnixMs(s) => ordered::is_least_in(
                    s.points(),
                    u64::MAX,
                    u64::MAX,
                    place(r),
                ),
                AnySeries::Reversed(_) => r is None,
            },
    {
        match self {
            AnySeries::ForwardUnixMs(s) => s.next_after(x),
            AnySeries::Reversed(s) => s.next_after(x),
        }
    }

    fn first_in(&self, lo: u64, hi: u64) -> (r: Option<(u64, &Y)>) {
        match self {
            AnySeries::ForwardUnixMs(s) => s.first_in(lo, hi),
            AnySeries::Reversed(s) => s.first_in(lo, hi),
        }
    }

    fn last_in(&self, lo: u64, hi: u64) -> (r: Option<(u64, &Y)>) {
        match self {
            AnySeries::ForwardUnixMs(s) => s.last_in(lo, hi),
            AnySeries::Reversed(s) => s.last_in(lo, hi),
        }
    }
}

/// Whether the bars of a chart are made by time or by counting trades.
#[derive(Debug, Clone, Copy, PartialEq, Eq, Structural)]
pub enum BasisKind {
    Time,
    Tick,
}

/// `r` is the newest point from `earliest` to `latest`.
pub open spec fn is_newest<S: Series>(
    series: &S,
    basis: BasisKind,
    earliest: u64,
    latest: u64,
    r: Option<u64>,
) -> bool {
    match basis {
        BasisKind::Time => ordered::is_greatest_in(
            series.points(),
            series.clip(earliest),
            series.clip(latest),
            r,
        ),
        BasisKind::Tick => ordered::is_least_in(
            series.points(),
            series.clip(earliest),
            series.clip(latest),
            r,
        ),
    }
}

/// `r` is the point that a cursor at `x` picks: the one at `x`; over time, where there is none,
/// the last one before it; and beyond the newest bar, the newest point that is visible.
pub open spec fn is_hovered<S: Series>(
    series: &S,
    basis: BasisKind,
    x: u64,
    earliest: u64,
    latest: u64,
    r: Option<u64>,
) -> bool {
    if earliest > latest {
        r is None
    } else if earliest <= x <= latest {
        if series.points().contains_key(x) {
            r == Some(x)
        } else {
            match basis {
                BasisKind::Time => ordered::is_greatest_in(
                    series.points(),
                    series.clip(earliest),
                    series.clip(x),
                    r,
                ),
                BasisKind::Tick => r is None,
            }
        }
    } else if (basis is Time && x > latest) || (basis is Tick && x < earliest) {
        is_newest(series, basis, earliest, latest, r)
    } else {
        r is None
    }
}

/// The newest point that is visible.
pub fn newest_point<S: Series>(series: &S, basis: BasisKind, earliest: u64, latest: u64) -> (r:
    Option<(u64, &S::Y)>)
    requires
        earliest <= latest,
    ensures
        is_newest(series, basis, earliest, latest, place(r)),
        is_point(series.points(), r),
{
    match basis {
        BasisKind::Time => series.last_in(earliest, latest),
        BasisKind::Tick => series.first_in(earliest, latest),
    }
}

/// The point that a cursor at `x` picks of those that are visible.
pub fn hovered_point<S: Series>(
    series: &S,
    basis: BasisKind,
    x: u64,
    earliest: u64,
    latest: u64,
) -> (r: Option<(u64, &S::Y)>)
    ensures
        is_hovered(series, basis, x, earliest, latest, place(r)),
        is_point(series.points(), r),
{
    if earliest > latest {
        return None;
    }
    if earliest <= x && x <= latest {
        match series.at(x) {
            Some(y) => Some((x, y)),
            None => match basis {
                BasisKind::Time => series.last_in(earliest, x),
                BasisKind::Tick => None,
            },
        }
    } else {
        let right_of_latest: bool = match basis {
            BasisKind::Time => x > latest,
            BasisKind::Tick => x < earliest,
        };
        if right_of_latest {
            newest_point(series, basis, earliest, latest)
        } else {
            None
        }
    }
}

/// The pairs of neighbouring points, among the first `n`, that a line connects: both are valid.
pub open spec fn segments(valid: Seq<bool>, n: int) -> Seq<(usize, usize)>
    decreases n,
{
    if n <= 1 {
        Seq::empty()
    } else if valid[n - 2] && valid[n - 1] {
        segments(valid, n - 1).push(((n - 2) as usize, (n - 1) as usize))
    } else {
        segments(valid, n - 1)
    }
}

/// Which points a line connects: neighbours that are both valid.
pub fn line_segments(valid: &Vec<bool>) -> (r: Vec<(usize, usize)>)
    ensures
        r@ == segments(valid@, valid@.len() as int),
{
    let mut r: Vec<(usize, usize)> = Vec::new();
    let n: usize = valid.len();
    let mut i: usize = 1;
    while i < n
        invariant
            1 <= i,
            n == valid@.len(),
            i <= n || (n == 0 && i == 1),
            r@ == segments(valid@, i as int),
        decreases n - i,
    {
        if valid[i - 1] && valid[i] {
            r.push((i - 1, i));
        }
        i += 1;
    }
    assert(segments(valid@, 0) == segments(valid@, 1));
    r
}

/// A line connects only points that are both valid and next to each other, and every such pair.
pub proof fn lines_connect_valid_neighbours(valid: Seq<bool>, i: int)
    requires
        0 < i < valid.len() <= usize::MAX,
    ensures
        segments(valid, valid.len() as int).contains(((i - 1) as usize, i as usize)) <==> (valid[i
            - 1] && valid[i]),
{
    lemma_segments(valid, valid.len() as int, i);
}

proof fn lemma_segments(valid: Seq<bool>, n: int, i: int)
    requires
        0 < i < valid.len() <= usize::MAX,
        0 <= n <= valid.len(),
    ensures
        segments(valid, n).contains(((i - 1) as usize, i as usize)) <==> (i < n && valid[i - 1]
            && valid[i]),
    decreases n,
{
    if n > 1 {
        lemma_segments(valid, n - 1, i);
        let before = segments(valid, n - 1);
        let pair = ((i - 1) as usize, i as usize);
        if valid[n - 2] && valid[n - 1] {
            let after = before.push(((n - 2) as usize, (n - 1) as usize));
            if before.contains(pair) {
                let j = before.index_of(pair);
                assert(after[j] == pair);
            }
            if i == n - 1 {
                assert(after[before.len() as int] == pair);
            }
            if after.contains(pair) {
                let j = after.index_of(pair);
                if j < before.len() {
                    assert(before[j] == pair);
                }
            }
        }
    }
}

/// The smallest of the values that are valid, found from the largest finite number down.
pub open spec fn lowest_value(values: Seq<F32Bits>, valid: Seq<bool>) -> F32Bits
    decreases values.len(),
{
    if values.len() == 0 {
        F32Bits { bits: F32_MAX }
    } else {
        let low = lowest_value(values.drop_last(), valid.drop_last());
        if valid.last() && values.last().spec_lt(low) {
            values.last()
        } else {
            low
        }
    }
}

/// The largest of the values that are valid, found from the smallest finite number up.
pub open spec fn highest_value(values: Seq<F32Bits>, valid: Seq<bool>) -> F32Bits
    decreases values.len(),
{
    if values.len() == 0 {
        F32Bits { bits: F32_MIN }
    } else {
        let high = highest_value(values.drop_last(), valid.drop_last());
        if valid.last() && high.spec_lt(values.last()) {
            values.last()
        } else {
            high
        }
    }
}

/// The range of the values that are valid; none where nothing lies below the largest finite
/// number.
pub fn y_extents(values: &Vec<F32Bits>, valid: &Vec<bool>) -> (r: Option<(F32Bits, F32Bits)>)
    requires
        values@.len() == valid@.len(),
    ensures
        r == (if lowest_value(values@, valid@).rank() == (F32Bits { bits: F32_MAX }).rank() {
            None
        } else {
            Some((lowest_value(values@, valid@), highest_value(values@, valid@)))
        }),
{
    let mut low: F32Bits = F32Bits { bits: F32_MAX };
    let mut high: F32Bits = F32Bits { bits: F32_MIN };
    let n: usize = values.len();
    let mut i: usize = 0;
    while i < n
        invariant
            i <= n,
            n == values@.len(),
            n == valid@.len(),
            low == lowest_value(values@.take(i as int), valid@.take(i as int)),
            high == highest_value(values@.take(i as int), valid@.take(i as int)),
            !low.is_nan(),
        decreases n - i,
    {
        proof {
            assert(values@.take(i + 1).drop_last() =~= values@.take(i as int));
            assert(valid@.take(i + 1).drop_last() =~= valid@.take(i as int));
        }
        if valid[i] {
            let v: F32Bits = values[i];
            if v.lt(low) {
                low = v;
            }
            if high.lt(v) {
                high = v;
            }
        }
        i += 1;
    }
    proof {
        assert(values@.take(n as int) =~= values@);
        assert(valid@.take(n as int) =~= valid@);
    }
    if low.bits == F32_MAX {
        None
    } else {
        Some((low, high))
    }
}

/// The visual style of a tooltip: either normal data display or a warning.
#[derive(Debug, Clone)]
pub enum TooltipKind {
    Info(String),
    Warning(String),
}

impl TooltipKind {
    /// What the tooltip says.
    pub open spec fn spec_text(&self) -> Seq<char> {
        match self {
            TooltipKind::Info(t) => t@,
            TooltipKind::Warning(t) => t@,
        }
    }

    /// What the tooltip says.
    pub fn text(&self) -> (t: &str)
        ensures
            t@ == self.spec_text(),
    {
        match self {
            TooltipKind::Info(t) => t.as_str(),
            TooltipKind::Warning(t) => t.as_str(),
        }
    }

    /// The segments that make up the tooltip, each with whether it is drawn in the colour of
    /// danger.
    pub fn segments(&self) -> (r: Vec<(&str, bool)>)
        ensures
            match self {
                TooltipKind::Info(t) => r@.len() == 1 && r@[0].0@ == t@ && !r@[0].1,
                TooltipKind::Warning(t) => r@.len() == 2 && r@[0].0@ == WARNING_PREFIX@ && r@[0].1
                    && r@[1].0@ == t@ && !r@[1].1,
            },
    {
        let mut r: Vec<(&str, bool)> = Vec::new();
        match self {
            TooltipKind::Info(t) => {
                r.push((t.as_str(), false));
            },
            TooltipKind::Warning(t) => {
                r.push((WARNING_PREFIX, true));
                r.push((t.as_str(), false));
            },
        }
        r
    }
}

/// What a warning begins with.
pub const WARNING_PREFIX: &'static str = "<!> ";

/// A box of text that is shown at a point of a plot.
#[derive(Debug, Clone)]
pub struct PlotTooltip {
    pub kind: TooltipKind,
}

/// The longest line of a text, in characters, where `first` are added to its first line, and how
/// many characters its last line has so far, among the first `n` characters.
pub open spec fn widest(text: Seq<char>, first: int, n: int) -> (int, int)
    decreases n,
{
    if n <= 0 {
        (first, first)
    } else {
        let (best, current) = widest(text, first, n - 1);
        if text[n - 1] == '\n' {
            (best, 0)
        } else {
            (math::max_int(best, current + 1), current + 1)
        }
    }
}

/// How many of the first `n` characters end a line.
pub open spec fn line_ends(text: Seq<char>, n: int) -> int
    decreases n,
{
    if n <= 0 {
        0
    } else {
        line_ends(text, n - 1) + if text[n - 1] == '\n' {
            1int
        } else {
            0
        }
    }
}

impl PlotTooltip {
    /// A tooltip that displays data.
    pub fn new(text: String) -> (t: PlotTooltip)
        ensures
            t.kind matches TooltipKind::Info(s) && s@ == text@,
    {
        PlotTooltip { kind: TooltipKind::Info(text) }
    }

    /// A tooltip that warns.
    pub fn warning(text: String) -> (t: PlotTooltip)
        ensures
            t.kind matches TooltipKind::Warning(s) && s@ == text@,
    {
        PlotTooltip { kind: TooltipKind::Warning(text) }
    }

    /// How many characters go before the first line.
    pub open spec fn prefix_len(&self) -> int {
        if self.kind is Warning {
            4
        } else {
            0
        }
    }

    /// How many columns and lines of text the tooltip takes.
    pub fn guesstimate(&self) -> (r: (usize, usize))
        requires
            self.kind.spec_text().len() + 4 <= usize::MAX,
        ensures
            r.0 == widest(
                self.kind.spec_text(),
                self.prefix_len(),
                self.kind.spec_text().len() as int,
            ).0,
            r.1 == line_ends(self.kind.spec_text(), self.kind.spec_text().len() as int) + 1,
    {
        let prefix: usize = match self.kind {
            TooltipKind::Info(_) => 0,
            TooltipKind::Warning(_) => 4,
        };
        let text: &str = self.kind.text();
        let n: usize = text.unicode_len();
        let mut best: usize = prefix;
        let mut current: usize = prefix;
        let mut lines: usize = 1;
        let mut i: usize = 0;
        while i < n
            invariant
                i <= n,
                n == text@.len(),
                n + 4 <= usize::MAX,
                prefix <= 4,
                current <= prefix + i,
                lines <= 1 + i,
                (best as int, current as int) == widest(text@, prefix as int, i as int),
                lines == line_ends(text@, i as int) + 1,
            decreases n - i,
        {
            if text.get_char(i) == '\n' {
                lines += 1;
                current = 0;
            } else {
                current += 1;
                if current > best {
                    best = current;
                }
            }
            i += 1;
        }
        (best, lines)
    }
}

/// Which tooltip is shown of a point: the one of a valid point, or the message of one that is not.
pub fn point_tooltip(
    valid: bool,
    tooltip: Option<PlotTooltip>,
    invalid_message: Option<String>,
) -> (r: Option<PlotTooltip>)
    ensures
        valid ==> r == tooltip,
        !valid ==> match invalid_message {
            Some(m) => r matches Some(t) && (t.kind matches TooltipKind::Warning(s) && s@ == m@),
            None => r is None,
        },
{
    if valid {
        tooltip
    } else {
        match invalid_message {
            Some(m) => Some(PlotTooltip::warning(m)),
            None => None,
        }
    }
}

} // verus!
