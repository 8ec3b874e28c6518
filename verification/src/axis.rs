//! The labels on the axes of a chart: which of them fit, and what some of them say.
use crate::float_bits::F32Bits;
use crate::text;
use crate::text::decimal_two;
use crate::units::Price;
use vstd::prelude::*;
use vstd::string::*;

verus! {

/// The axis that a label belongs to.
#[derive(Debug, Clone, Copy, PartialEq, Eq, Structural)]
pub enum Axis {
    X,
    Y,
}

/// The place of a label: its axis and the edges of its box.
#[derive(Debug, Clone, Copy, PartialEq, Eq, Structural)]
pub struct LabelBox {
    pub axis: Axis,
    pub left: F32Bits,
    pub right: F32Bits,
    pub top: F32Bits,
    pub bottom: F32Bits,
}

impl LabelBox {
    /// The two boxes lie on the same axis and share an area: the later of their left edges is
    /// before the earlier of their right ones, and so for top and bottom. An edge that is not a
    /// number does not count.
    pub open spec fn spec_intersects(self, other: LabelBox) -> bool {
        &&& self.axis == other.axis
        &&& self.left.spec_max(other.left).spec_lt(self.right.spec_min(other.right))
        &&& self.top.spec_max(other.top).spec_lt(self.bottom.spec_min(other.bottom))
    }

    /// Whether the two boxes lie on the same axis and share an area.
    pub fn intersects(&self, other: &LabelBox) -> (r: bool)
        ensures
            r == self.spec_intersects(*other),
    {
        self.axis == other.axis && self.left.max(other.left).lt(self.right.min(other.right))
            && self.top.max(other.top).lt(self.bottom.min(other.bottom))
    }
}

/// Label `i` meets none of the labels at `kept`.
pub open spec fn meets_none(labels: Seq<LabelBox>, kept: Seq<usize>, i: int) -> bool {
    forall|a: int|
        0 <= a < kept.len() ==> !labels[#[trigger] kept[a] as int].spec_intersects(labels[i])
}

/// Label `i` meets one of the labels at `kept` that comes after it.
pub open spec fn meets_later(labels: Seq<LabelBox>, kept: Seq<usize>, i: int) -> bool {
    exists|a: int|
        0 <= a < kept.len() && #[trigger] kept[a] > i && labels[kept[a] as int].spec_intersects(
            labels[i],
        )
}

/// The labels that are kept of those from `from` on, the last one first: each that meets none of
/// those kept before it.
pub open spec fn kept_from(labels: Seq<LabelBox>, from: int) -> Seq<usize>
    decreases labels.len() - from,
{
    if from >= labels.len() || from < 0 {
        Seq::empty()
    } else {
        let later = kept_from(labels, from + 1);
        if meets_none(labels, later, from) {
            later.push(from as usize)
        } else {
            later
        }
    }
}

fn fits(labels: &Vec<LabelBox>, kept: &Vec<usize>, i: usize) -> (r: bool)
    requires
        i < labels@.len(),
        forall|a: int| 0 <= a < kept@.len() ==> #[trigger] kept@[a] < labels@.len(),
    ensures
        r == meets_none(labels@, kept@, i as int),
{
    let mut a: usize = 0;
    while a < kept.len()
        invariant
            a <= kept@.len(),
            i < labels@.len(),
            forall|b: int| 0 <= b < kept@.len() ==> #[trigger] kept@[b] < labels@.len(),
            forall|b: int|
                0 <= b < a ==> !labels@[#[trigger] kept@[b] as int].spec_intersects(
                    labels@[i as int],
                ),
        decreases kept@.len() - a,
    {
        if labels[kept[a]].intersects(&labels[i]) {
            return false;
        }
        a += 1;
    }
    true
}

/// The labels that are drawn where not all fit: the last one goes first, and each one stays that
/// meets none of those that stay already.
pub fn filter(labels: &Vec<LabelBox>) -> (kept: Vec<usize>)
    ensures
        kept@ == kept_from(labels@, 0),
        forall|a: int| 0 <= a < kept@.len() ==> #[trigger] kept@[a] < labels@.len(),
{
    let mut kept: Vec<usize> = Vec::new();
    let mut i: usize = labels.len();
    while i > 0
        invariant
            i <= labels@.len(),
            kept@ == kept_from(labels@, i as int),
            forall|a: int| 0 <= a < kept@.len() ==> #[trigger] kept@[a] < labels@.len(),
        decreases i,
    {
        i -= 1;
        if fits(labels, &kept, i) {
            kept.push(i);
        }
    }
    kept
}

/// The labels that are drawn beside a crosshair label: those of `kept` that do not meet it.
pub fn beside_crosshair(
    labels: &Vec<LabelBox>,
    kept: &Vec<usize>,
    crosshair: &LabelBox,
) -> (r: Vec<usize>)
    requires
        forall|a: int| 0 <= a < kept@.len() ==> #[trigger] kept@[a] < labels@.len(),
    ensures
        r@ == kept@.filter(|i: usize| !labels@[i as int].spec_intersects(*crosshair)),
{
    let ghost p = |i: usize| !labels@[i as int].spec_intersects(*crosshair);
    let mut r: Vec<usize> = Vec::new();
    let mut a: usize = 0;
    proof {
        crate::math::lemma_filter_ends(kept@, p);
    }
    while a < kept.len()
        invariant
            a <= kept@.len(),
            p == |i: usize| !labels@[i as int].spec_intersects(*crosshair),
            forall|b: int| 0 <= b < kept@.len() ==> #[trigger] kept@[b] < labels@.len(),
            r@ == kept@.take(a as int).filter(p),
        decreases kept@.len() - a,
    {
        proof {
            crate::math::lemma_filter_step(kept@, a as int, p);
        }
        let i: usize = kept[a];
        if !labels[i].intersects(crosshair) {
            r.push(i);
        }
        a += 1;
    }
    proof {
        crate::math::lemma_filter_ends(kept@, p);
    }
    r
}

proof fn lemma_kept(labels: Seq<LabelBox>, from: int)
    requires
        0 <= from <= labels.len() <= usize::MAX,
    ensures
        forall|a: int|
            0 <= a < kept_from(labels, from).len() ==> from <= #[trigger] kept_from(
                labels,
                from,
            )[a] < labels.len(),
        forall|a: int, b: int|
            0 <= a < b < kept_from(labels, from).len() ==> !labels[#[trigger] kept_from(
                labels,
                from,
            )[a] as int].spec_intersects(labels[#[trigger] kept_from(labels, from)[b] as int]),
        forall|i: usize|
            from <= i < labels.len() && !(#[trigger] kept_from(labels, from).contains(i))
                ==> meets_later(labels, kept_from(labels, from), i as int),
        from < labels.len() ==> kept_from(labels, from).len() > 0 && kept_from(labels, from)[0]
            == labels.len() - 1,
    decreases labels.len() - from,
{
    if from < labels.len() {
        lemma_kept(labels, from + 1);
        let later = kept_from(labels, from + 1);
        let now = kept_from(labels, from);
        assert forall|i: usize| later.contains(i) implies now.contains(i) by {
            let a = later.index_of(i);
            assert(now[a] == i);
        }
        if meets_none(labels, later, from) {
            assert(now[later.len() as int] == from);
        }
        assert forall|i: usize|
            from <= i < labels.len() && !(#[trigger] now.contains(i)) implies meets_later(
            labels,
            now,
            i as int,
        ) by {
            if i != from {
                assert(!later.contains(i));
                assert(meets_later(labels, later, i as int));
            }
            let a = choose|a: int|
                0 <= a < later.len() && #[trigger] later[a] > i
                    && labels[later[a] as int].spec_intersects(labels[i as int]);
            assert(now[a] == later[a]);
        }
        if from + 1 == labels.len() {
            assert(later =~= Seq::<usize>::empty());
            assert(meets_none(labels, later, from));
        }
    }
}

/// No two of the labels that are kept meet, and each that is left out meets one that is kept and
/// comes later; the last label is always kept.
pub proof fn kept_labels_do_not_meet(labels: Seq<LabelBox>)
    requires
        labels.len() <= usize::MAX,
    ensures
        forall|a: int, b: int|
            0 <= a < b < kept_from(labels, 0).len() ==> !labels[#[trigger] kept_from(
                labels,
                0,
            )[a] as int].spec_intersects(labels[#[trigger] kept_from(labels, 0)[b] as int]),
        forall|i: usize|
            i < labels.len() && !(#[trigger] kept_from(labels, 0).contains(i)) ==> meets_later(
                labels,
                kept_from(labels, 0),
                i as int,
            ),
        labels.len() > 0 ==> kept_from(labels, 0)[0] == labels.len() - 1,
{
    lemma_kept(labels, 0);
}

/// The last price, with the direction that it is shown in.
#[derive(Debug, Clone, Copy, PartialEq, Eq, Structural)]
pub enum PriceInfoLabel {
    Up(Price),
    Down(Price),
    Neutral(Price),
}

impl PriceInfoLabel {
    /// The label of a bar that closed at `close_price` after opening at `open_price`.
    pub fn new(close_price: Price, open_price: Price) -> (l: PriceInfoLabel)
        ensures
            l == (if close_price.units >= open_price.units {
                PriceInfoLabel::Up(close_price)
            } else {
                PriceInfoLabel::Down(close_price)
            }),
    {
        if close_price.units >= open_price.units {
            PriceInfoLabel::Up(close_price)
        } else {
            PriceInfoLabel::Down(close_price)
        }
    }

    /// The price that is shown.
    pub fn price(self) -> (p: Price)
        ensures
            p == (match self {
                PriceInfoLabel::Up(p) => p,
                PriceInfoLabel::Down(p) => p,
                PriceInfoLabel::Neutral(p) => p,
            }),
    {
        match self {
            PriceInfoLabel::Up(p) => p,
            PriceInfoLabel::Down(p) => p,
            PriceInfoLabel::Neutral(p) => p,
        }
    }
}

/// The seconds that are left of the bar at `now`.
pub open spec fn seconds_left(now: int, interval: int) -> int {
    (interval - now % interval) / 1000
}

/// A duration as minutes and seconds, with hours before them where there are any.
pub open spec fn clock_text(seconds: int) -> Seq<char> {
    let h = seconds / 3600;
    let m = seconds % 3600 / 60;
    let s = seconds % 60;
    if h > 0 {
        text::two_digits(h as nat) + ":"@ + text::two_digits(m as nat) + ":"@ + text::two_digits(s as nat)
    } else {
        text::two_digits(m as nat) + ":"@ + text::two_digits(s as nat)
    }
}

/// How long the bar that is open at `now` still lasts; nothing in its last second.
pub fn candle_countdown(now: u64, interval: u64) -> (r: Option<String>)
    requires
        interval > 0,
    ensures
        match r {
            None => seconds_left(now as int, interval as int) == 0,
            Some(s) => seconds_left(now as int, interval as int) > 0 && s@ == clock_text(
                seconds_left(now as int, interval as int),
            ),
        },
{
    let left: u64 = (interval - now % interval) / 1000;
    if left == 0 {
        return None;
    }
    let h: u64 = left / 3600;
    let m: u64 = left % 3600 / 60;
    let s: u64 = left % 60;
    let tail: String = decimal_two(m).concat(":").concat(decimal_two(s).as_str());
    if h > 0 {
        let full: String = decimal_two(h).concat(":").concat(tail.as_str());
        assert(full@ =~= clock_text(left as int));
        Some(full)
    } else {
        Some(tail)
    }
}

/// The time of the bar that a crosshair over bars by ticks is on, `cell` cells right of the newest
/// one: bars lie at and left of it.
pub fn crosshair_key(keys: &Vec<u64>, cell: i32) -> (r: Option<u64>)
    requires
        keys@.len() > 0,
    ensures
        r == (if -(keys@.len() as int) < cell <= 0 {
            Some(keys@[keys@.len() - 1 + cell])
        } else {
            None
        }),
{
    let n: usize = keys.len();
    if cell > 0 {
        return None;
    }
    let offset: u64 = (-(cell as i64)) as u64;
    if offset >= n as u64 {
        return None;
    }
    Some(keys[n - 1 - offset as usize])
}

/// The interval at a distance of `diff` from `max`, to the left or to the right of it.
pub fn interval_at(max: u64, diff: u64, left: bool) -> (r: u64)
    ensures
        r == (if left {
            crate::math::max_int(max - diff, 0)
        } else {
            crate::math::min_int(max + diff, u64::MAX as int)
        }),
{
    if left {
        max.saturating_sub(diff)
    } else {
        max.saturating_add(diff)
    }
}

} // verus!
