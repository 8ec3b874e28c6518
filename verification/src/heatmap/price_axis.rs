//! The price axis of the heatmap: which of its labels are drawn.
use crate::float_bits::F32Bits;
use crate::math;
use crate::units::{Price, PriceStep};
use vstd::prelude::*;

verus! {

/// The part of the axis that a label covers.
#[derive(Debug, Clone, Copy, PartialEq, Eq, Structural)]
pub struct LabelSpan {
    pub low: F32Bits,
    pub high: F32Bits,
}

impl LabelSpan {
    /// The two parts overlap or touch.
    pub open spec fn spec_overlaps(self, other: LabelSpan) -> bool {
        other.low.spec_le(self.high) && self.low.spec_le(other.high)
    }

    /// Whether the two parts overlap or touch.
    pub fn overlaps(self, other: LabelSpan) -> (r: bool)
        ensures
            r == self.spec_overlaps(other),
    {
        other.low.le(self.high) && self.low.le(other.high)
    }
}

/// How many steps a tick lies above the base price; none where it lies between two rows.
pub fn tick_step(tick: Price, base: Price, step: PriceStep) -> (r: Option<i64>)
    ensures
        ({
            let s = math::max_int(step.units as int, 1);
            let d = math::max_int(
                math::min_int(tick.units - base.units, i64::MAX as int),
                i64::MIN as int,
            );
            match r {
                None => d % s != 0,
                Some(k) => d % s == 0 && k * s == d,
            }
        }),
{
    let s: i64 = if step.units > 1 {
        step.units
    } else {
        1
    };
    let wide: i128 = tick.units as i128 - base.units as i128;
    let d: i64 = if wide > i64::MAX as i128 {
        i64::MAX
    } else if wide < i64::MIN as i128 {
        i64::MIN
    } else {
        wide as i64
    };
    let q: i128 = math::floor_div(d as i128, s);
    proof {
        vstd::arithmetic::div_mod::lemma_fundamental_div_mod(d as int, s as int);
        assert(-0x8000_0000_0000_0000 <= (d as int) / (s as int) <= 0x7fff_ffff_ffff_ffff)
            by (nonlinear_arith)
            requires
                -0x8000_0000_0000_0000 <= d <= 0x7fff_ffff_ffff_ffff,
                s >= 1,
        ;
        assert(q * s == s * q) by (nonlinear_arith);
        assert(-0x8000_0000_0000_0000 * 0x8000_0000_0000_0000 <= q * s <= 0x8000_0000_0000_0000
            * 0x8000_0000_0000_0000) by (nonlinear_arith)
            requires
                -0x8000_0000_0000_0000 <= q <= 0x7fff_ffff_ffff_ffff,
                1 <= s <= 0x7fff_ffff_ffff_ffff,
        ;
    }
    if q * (s as i128) == d as i128 {
        Some(q as i64)
    } else {
        None
    }
}

/// A tick is drawn where it meets neither the label of the cursor nor that of the base price.
pub open spec fn is_drawn(tick: LabelSpan, base: LabelSpan, cursor: Option<LabelSpan>) -> bool {
    !tick.spec_overlaps(base) && (cursor matches Some(c) ==> !tick.spec_overlaps(c))
}

/// Which ticks are drawn.
pub fn drawn_ticks(ticks: &Vec<LabelSpan>, base: LabelSpan, cursor: Option<LabelSpan>) -> (r: Vec<
    bool,
>)
    ensures
        r@.len() == ticks@.len(),
        forall|i: int| 0 <= i < r@.len() ==> #[trigger] r@[i] == is_drawn(ticks@[i], base, cursor),
{
    let mut r: Vec<bool> = Vec::new();
    let mut i: usize = 0;
    while i < ticks.len()
        invariant
            i <= ticks@.len(),
            r@.len() == i,
            forall|j: int|
                0 <= j < i ==> #[trigger] r@[j] == is_drawn(ticks@[j], base, cursor),
        decreases ticks@.len() - i,
    {
        let t: LabelSpan = ticks[i];
        let clear: bool = match cursor {
            Some(c) => !t.overlaps(c),
            None => true,
        };
        r.push(clear && !t.overlaps(base));
        i += 1;
    }
    r
}

/// Whether the label of the base price is drawn: it is in view, and the cursor's does not meet it.
pub fn base_drawn(in_view: bool, base: LabelSpan, cursor: Option<LabelSpan>) -> (r: bool)
    ensures
        r == (in_view && (cursor matches Some(c) ==> !base.spec_overlaps(c))),
{
    in_view && match cursor {
        Some(c) => !base.overlaps(c),
        None => true,
    }
}

/// No label that is drawn meets another one of a higher rank: the cursor's comes first, then the
/// base price, then the ticks.
pub proof fn drawn_labels_keep_clear(
    tick: LabelSpan,
    base: LabelSpan,
    cursor: LabelSpan,
)
    requires
        is_drawn(tick, base, Some(cursor)),
    ensures
        !tick.spec_overlaps(base),
        !tick.spec_overlaps(cursor),
{
}

} // verus!
