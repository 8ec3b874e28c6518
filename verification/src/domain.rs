//! The window of time that a comparison of several series shows.
use crate::math;
use vstd::prelude::*;

verus! {

/// How many points are shown; none stands for all of them.
#[derive(Debug, Clone, Copy, PartialEq, Eq, Structural)]
pub struct Zoom(pub usize);

impl Zoom {
    /// All data is shown.
    pub fn all() -> (z: Zoom)
        ensures
            z == Zoom(0),
    {
        Zoom(0)
    }

    /// The last `n` points are shown.
    pub fn points(n: usize) -> (z: Zoom)
        ensures
            z == Zoom(n),
    {
        Zoom(n)
    }

    /// Whether all data is shown.
    pub fn is_all(self) -> (r: bool)
        ensures
            r == (self.0 == 0),
    {
        self.0 == 0
    }
}

impl Default for Zoom {
    fn default() -> (z: Zoom)
        ensures
            z == Zoom(0),
    {
        Zoom(0)
    }
}

/// The last multiple of `dt` that is not after `ts`; `ts` itself where there is no interval.
pub open spec fn floor_to(ts: int, dt: int) -> int {
    if dt == 0 {
        ts
    } else {
        ts / dt * dt
    }
}

/// The first multiple of `dt` that is not before `ts`, as far as it can be written down; `ts`
/// itself where there is no interval.
pub open spec fn ceil_to(ts: int, dt: int) -> int {
    if dt == 0 || ts % dt == 0 {
        ts
    } else {
        math::min_int(ts / dt * dt + dt, u64::MAX as int)
    }
}

/// The last multiple of `dt` that is not after `ts`.
pub fn align_floor(ts: u64, dt: u64) -> (r: u64)
    ensures
        r == floor_to(ts as int, dt as int),
        r <= ts,
{
    if dt == 0 {
        return ts;
    }
    proof {
        assert(0 <= ts as int / dt as int * dt as int <= ts as int) by (nonlinear_arith)
            requires
                ts >= 0,
                dt > 0,
        ;
    }
    (ts / dt) * dt
}

/// The first multiple of `dt` that is not before `ts`.
pub fn align_ceil(ts: u64, dt: u64) -> (r: u64)
    ensures
        r == ceil_to(ts as int, dt as int),
        r >= ts,
{
    if dt == 0 {
        return ts;
    }
    proof {
        let t = ts as int;
        let d = dt as int;
        assert(t == t / d * d + t % d && 0 <= t % d < d) by (nonlinear_arith)
            requires
                t >= 0,
                d > 0,
        ;
        assert(0 <= t / d * d) by (nonlinear_arith)
            requires
                t >= 0,
                d > 0,
        ;
    }
    let f: u64 = (ts / dt) * dt;
    if f == ts {
        ts
    } else {
        f.saturating_add(dt)
    }
}

/// Aligning brackets a time: what lies between the two is at most an interval, and a time that is
/// aligned already is kept. Only where the interval after a time goes beyond the last time that
/// there is, its upper bound need not be aligned.
pub proof fn alignment_brackets(ts: u64, dt: u64)
    requires
        dt > 0,
    ensures
        floor_to(ts as int, dt as int) <= ts <= ceil_to(ts as int, dt as int),
        ts - floor_to(ts as int, dt as int) < dt,
        ceil_to(ts as int, dt as int) - floor_to(ts as int, dt as int) <= dt,
        floor_to(ts as int, dt as int) % (dt as int) == 0,
        floor_to(ts as int, dt as int) + dt <= u64::MAX ==> ceil_to(ts as int, dt as int) % (
        dt as int) == 0,
        ts % dt == 0 ==> floor_to(ts as int, dt as int) == ts && ceil_to(ts as int, dt as int)
            == ts,
{
    let t = ts as int;
    let d = dt as int;
    vstd::arithmetic::div_mod::lemma_fundamental_div_mod(t, d);
    vstd::arithmetic::div_mod::lemma_mod_multiples_basic(t / d, d);
    vstd::arithmetic::div_mod::lemma_mod_multiples_basic(t / d + 1, d);
    assert((t / d + 1) * d == t / d * d + d) by (nonlinear_arith);
    assert(d * (t / d) == t / d * d) by (nonlinear_arith);
}

/// Where a time lies among the places of a series, which are walked from the left.
#[derive(Debug, Clone, Copy, PartialEq, Eq, Structural)]
pub enum Bracket {
    /// Not after the first place.
    First,
    /// Between two places: `part` of the `span` between `left` and the next one.
    Between { left: usize, part: u64, span: u64 },
    /// At a place that the next one repeats or goes back from.
    Flat { left: usize },
}

/// The first place that is not before `x`.
pub open spec fn first_not_before(xs: Seq<u64>, x: u64, i: int) -> bool {
    &&& 0 <= i < xs.len()
    &&& xs[i] >= x
    &&& forall|j: int| 0 <= j < i ==> xs[j] < x
}

/// Where `x` lies among the places of a series; nowhere where all of them are before it.
pub fn bracket(xs: &Vec<u64>, x: u64) -> (r: Option<Bracket>)
    ensures
        match r {
            None => forall|j: int| 0 <= j < xs@.len() ==> xs@[j] < x,
            Some(Bracket::First) => first_not_before(xs@, x, 0),
            Some(Bracket::Between { left, part, span }) => {
                &&& first_not_before(xs@, x, left + 1)
                &&& part == x - xs@[left as int]
                &&& span == xs@[left + 1] - xs@[left as int]
                &&& 0 < part <= span
            },
            Some(Bracket::Flat { left }) => first_not_before(xs@, x, left + 1) && xs@[left + 1]
                <= xs@[left as int],
        },
{
    let n: usize = xs.len();
    let mut i: usize = 0;
    while i < n
        invariant
            i <= n,
            n == xs@.len(),
            forall|j: int| 0 <= j < i ==> xs@[j] < x,
        decreases n - i,
    {
        if xs[i] >= x {
            if i == 0 {
                return Some(Bracket::First);
            }
            let x0: u64 = xs[i - 1];
            let x1: u64 = xs[i];
            if x1 > x0 {
                return Some(Bracket::Between { left: i - 1, part: x - x0, span: x1 - x0 });
            }
            return Some(Bracket::Flat { left: i - 1 });
        }
        i += 1;
    }
    None
}

/// `x` is a place of one of the series.
pub open spec fn occurs(series: Seq<Vec<u64>>, x: u64) -> bool {
    exists|s: int, i: int|
        0 <= s < series.len() && 0 <= i < series[s]@.len() && #[trigger] series[s]@[i] == x
}

/// `lo` and `hi` are the first and the last place of all the series.
pub open spec fn are_ends(series: Seq<Vec<u64>>, lo: u64, hi: u64) -> bool {
    &&& occurs(series, lo)
    &&& occurs(series, hi)
    &&& forall|s: int, i: int|
        0 <= s < series.len() && 0 <= i < series[s]@.len() ==> lo <= #[trigger] series[s]@[i]
            <= hi
}

fn ends(series: &Vec<Vec<u64>>) -> (r: Option<(u64, u64)>)
    ensures
        match r {
            None => forall|s: int| 0 <= s < series@.len() ==> (#[trigger] series@[s])@.len() == 0,
            Some((lo, hi)) => are_ends(series@, lo, hi),
        },
{
    let mut r: Option<(u64, u64)> = None;
    let mut s: usize = 0;
    while s < series.len()
        invariant
            s <= series@.len(),
            match r {
                None => forall|t: int| 0 <= t < s ==> (#[trigger] series@[t])@.len() == 0,
                Some((lo, hi)) => {
                    &&& occurs(series@, lo)
                    &&& occurs(series@, hi)
                    &&& forall|t: int, i: int|
                        0 <= t < s && 0 <= i < series@[t]@.len() ==> lo <= #[trigger] series@[t]@[i]
                            <= hi
                },
            },
        decreases series@.len() - s,
    {
        let xs: &Vec<u64> = &series[s];
        let mut i: usize = 0;
        while i < xs.len()
            invariant
                i <= xs@.len(),
                s < series@.len(),
                *xs == series@[s as int],
                match r {
                    None => i == 0 && forall|t: int|
                        0 <= t < s ==> (#[trigger] series@[t])@.len() == 0,
                    Some((lo, hi)) => {
                        &&& occurs(series@, lo)
                        &&& occurs(series@, hi)
                        &&& forall|t: int, j: int|
                            0 <= t < s && 0 <= j < series@[t]@.len() ==> lo
                                <= #[trigger] series@[t]@[j] <= hi
                        &&& forall|j: int| 0 <= j < i ==> lo <= #[trigger] xs@[j] <= hi
                    },
                },
            decreases xs@.len() - i,
        {
            let x: u64 = xs[i];
            proof {
                assert(series@[s as int]@[i as int] == x);
            }
            r = match r {
                None => Some((x, x)),
                Some((lo, hi)) => Some(
                    (
                        if x < lo {
                            x
                        } else {
                            lo
                        },
                        if x > hi {
                            x
                        } else {
                            hi
                        },
                    ),
                ),
            };
            i += 1;
        }
        s += 1;
    }
    r
}

/// The window over data from `lo` to `hi`: `zoom` says how wide it is, `pad_ms` how far it lies
/// beyond the data; it never lies farther than its own width.
pub open spec fn window_over(lo: int, hi: int, zoom: Zoom, pad_ms: int, dt: int) -> (int, int) {
    let max = u64::MAX as int;
    let last = if hi == lo {
        math::min_int(hi + 1, max)
    } else {
        hi
    };
    let span = if zoom.0 == 0 {
        math::max_int(last - lo, 1)
    } else {
        math::max_int(math::min_int((zoom.0 - 1) * dt, max), 1)
    };
    let right = math::min_int(
        math::max_int(math::min_int(last + pad_ms, max), 0),
        math::min_int(last + span, max),
    );
    let left = math::max_int(right - span, 0);
    (floor_to(left, dt), ceil_to(right, dt))
}

/// The window of time that is shown of several series, given their places.
pub fn window(series: &Vec<Vec<u64>>, zoom: Zoom, pad_ms: i64, dt: u64) -> (r: Option<(u64, u64)>)
    ensures
        match r {
            None => forall|s: int| 0 <= s < series@.len() ==> (#[trigger] series@[s])@.len() == 0,
            Some((left, right)) => exists|lo: u64, hi: u64|
                #![trigger are_ends(series@, lo, hi)]
                are_ends(series@, lo, hi) && (left as int, right as int) == window_over(
                    lo as int,
                    hi as int,
                    zoom,
                    pad_ms as int,
                    dt as int,
                ),
        },
{
    let (lo, hi) = match ends(series) {
        None => {
            return None;
        },
        Some(e) => e,
    };
    proof {
        let (s, i) = choose|s: int, i: int|
            0 <= s < series@.len() && 0 <= i < series@[s]@.len() && #[trigger] series@[s]@[i] == lo;
        assert(lo <= series@[s]@[i] <= hi);
    }
    let last: u64 = if hi == lo {
        hi.saturating_add(1)
    } else {
        hi
    };
    let span: u64 = if zoom.is_all() {
        if last - lo > 1 {
            last - lo
        } else {
            1
        }
    } else {
        let steps: u64 = (zoom.0 - 1) as u64;
        proof {
            assert(0 <= steps * dt) by (nonlinear_arith)
                requires
                    steps >= 0,
                    dt >= 0,
            ;
        }
        let s: u64 = match steps.checked_mul(dt) {
            Some(s) => s,
            None => u64::MAX,
        };
        if s == 0 {
            1
        } else {
            s
        }
    };
    let shifted: i128 = last as i128 + pad_ms as i128;
    let padded: u64 = if shifted < 0 {
        0
    } else if shifted > u64::MAX as i128 {
        u64::MAX
    } else {
        shifted as u64
    };
    let right_cap: u64 = last.saturating_add(span);
    let right: u64 = if padded > right_cap {
        right_cap
    } else {
        padded
    };
    let left: u64 = right.saturating_sub(span);
    Some((align_floor(left, dt), align_ceil(right, dt)))
}

/// A window is not empty, and holds the last place of the data unless it was moved away from it.
pub proof fn window_is_not_empty(lo: u64, hi: u64, zoom: Zoom, pad_ms: i64, dt: u64)
    requires
        lo <= hi,
        hi < u64::MAX,
    ensures
        window_over(lo as int, hi as int, zoom, pad_ms as int, dt as int).0 <= window_over(
            lo as int,
            hi as int,
            zoom,
            pad_ms as int,
            dt as int,
        ).1,
        pad_ms == 0 ==> window_over(lo as int, hi as int, zoom, pad_ms as int, dt as int).1 >= hi,
{
    let max = u64::MAX as int;
    let last = if hi == lo {
        hi + 1
    } else {
        hi as int
    };
    let span = if zoom.0 == 0 {
        math::max_int(last - lo, 1)
    } else {
        math::max_int(math::min_int((zoom.0 - 1) * dt, max), 1)
    };
    let right = math::min_int(
        math::max_int(math::min_int(last + pad_ms, max), 0),
        math::min_int(last + span, max),
    );
    let left = math::max_int(right - span, 0);
    if dt > 0 {
        let d = dt as int;
        assert(0 <= left / d * d <= left) by (nonlinear_arith)
            requires
                left >= 0,
                d > 0,
        ;
        assert(right == right / d * d + right % d && 0 <= right % d < d) by (nonlinear_arith)
            requires
                right >= 0,
                d > 0,
        ;
    }
}

/// Which points of a series are visible.
pub fn visible_points(xs: &Vec<u64>, min_x: u64, max_x: u64) -> (r: Vec<usize>)
    ensures
        forall|a: int, b: int| 0 <= a < b < r@.len() ==> r@[a] < r@[b],
        forall|i: usize|
            #![trigger r@.contains(i)]
            r@.contains(i) <==> (i < xs@.len() && min_x <= xs@[i as int] <= max_x),
{
    let mut r: Vec<usize> = Vec::new();
    let n: usize = xs.len();
    let mut i: usize = 0;
    while i < n
        invariant
            i <= n,
            n == xs@.len(),
            forall|a: int, b: int| 0 <= a < b < r@.len() ==> r@[a] < r@[b],
            forall|a: int| 0 <= a < r@.len() ==> #[trigger] r@[a] < i,
            forall|j: usize|
                #![trigger r@.contains(j)]
                r@.contains(j) <==> (j < i && min_x <= xs@[j as int] <= max_x),
        decreases n - i,
    {
        if xs[i] >= min_x && xs[i] <= max_x {
            let ghost before = r@;
            r.push(i);
            proof {
                assert forall|j: usize|
                    #![trigger r@.contains(j)]
                    r@.contains(j) <==> (before.contains(j) || j == i) by {
                    if before.contains(j) {
                        let a = before.index_of(j);
                        assert(r@[a] == j);
                    }
                    if j == i {
                        assert(r@[before.len() as int] == j);
                    }
                    if r@.contains(j) {
                        let a = r@.index_of(j);
                        if a < before.len() {
                            assert(before[a] == j);
                        }
                    }
                }
            }
        }
        i += 1;
    }
    r
}

} // verus!
