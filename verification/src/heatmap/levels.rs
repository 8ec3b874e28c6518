//! The levels of one side of the book, merged where they round to the same price.
use crate::units::{Price, Qty};
use vstd::prelude::*;

verus! {

/// A level of the book after its price has been rounded to the step.
#[derive(Debug, Clone, Copy, PartialEq, Eq, Structural)]
pub struct RoundedLevel {
    pub price: Price,
    pub qty: Qty,
}

/// Neighbouring levels of one rounded price, with their sizes added up.
#[derive(Debug, Clone, Copy, PartialEq, Eq, Structural)]
pub struct MergedLevel {
    pub price: Price,
    pub qty_units: i128,
}

/// The levels with neighbours of the same price merged, in order.
pub open spec fn merged(levels: Seq<RoundedLevel>) -> Seq<(int, int)>
    decreases levels.len(),
{
    if levels.len() == 0 {
        Seq::empty()
    } else {
        let before = merged(levels.drop_last());
        let price = levels.last().price.units as int;
        let qty = levels.last().qty.units as int;
        if before.len() > 0 && before.last().0 == price {
            before.drop_last().push((price, before.last().1 + qty))
        } else {
            before.push((price, qty))
        }
    }
}

/// Merged levels as price and size.
pub open spec fn merged_view(out: Seq<MergedLevel>) -> Seq<(int, int)> {
    out.map_values(|m: MergedLevel| (m.price.units as int, m.qty_units as int))
}

proof fn lemma_merged_bounds(levels: Seq<RoundedLevel>)
    ensures
        merged(levels).len() <= levels.len(),
        levels.len() > 0 ==> merged(levels).len() > 0,
        forall|i: int|
            0 <= i < merged(levels).len() ==> -(levels.len() * 0x8000_0000_0000_0000) <= (
            #[trigger] merged(levels)[i]).1 <= levels.len() * 0x8000_0000_0000_0000,
    decreases levels.len(),
{
    if levels.len() > 0 {
        lemma_merged_bounds(levels.drop_last());
        let before = merged(levels.drop_last());
        let after = merged(levels);
        assert forall|i: int| 0 <= i < after.len() implies -(levels.len() * 0x8000_0000_0000_0000)
            <= (#[trigger] after[i]).1 <= levels.len() * 0x8000_0000_0000_0000 by {
            if i < before.len() {
                assert(-((levels.len() - 1) * 0x8000_0000_0000_0000) <= before[i].1 <= (
                levels.len() - 1) * 0x8000_0000_0000_0000);
            }
            if before.len() > 0 {
                assert(before.last() == before[before.len() - 1]);
            }
        }
    }
}

/// Merges neighbouring levels that have the same rounded price.
pub fn merge_levels(levels: &Vec<RoundedLevel>) -> (out: Vec<MergedLevel>)
    requires
        levels@.len() <= 0x1000_0000_0000_0000,
    ensures
        merged_view(out@) == merged(levels@),
{
    let mut out: Vec<MergedLevel> = Vec::new();
    let mut i: usize = 0;
    assert(levels@.take(0) =~= Seq::<RoundedLevel>::empty());
    assert(merged_view(out@) =~= merged(levels@.take(0)));
    while i < levels.len()
        invariant
            i <= levels@.len(),
            levels@.len() <= 0x1000_0000_0000_0000,
            merged_view(out@) == merged(levels@.take(i as int)),
        decreases levels@.len() - i,
    {
        let level: RoundedLevel = levels[i];
        let ghost before = out@;
        let ghost prefix = levels@.take(i as int);
        proof {
            lemma_merged_bounds(prefix);
            assert(levels@.take(i + 1).drop_last() =~= prefix);
            assert(levels@.take(i + 1).last() == level);
        }
        let n: usize = out.len();
        if n > 0 && out[n - 1].price.units == level.price.units {
            let last: MergedLevel = out[n - 1];
            proof {
                assert(merged_view(before)[n - 1] == merged(prefix)[n - 1]);
            }
            out.set(
                n - 1,
                MergedLevel { price: last.price, qty_units: last.qty_units + level.qty.units as i128 },
            );
        } else {
            out.push(MergedLevel { price: level.price, qty_units: level.qty.units as i128 });
        }
        proof {
            assert(merged_view(before).len() == before.len());
            if before.len() > 0 {
                assert(merged_view(before).last().0 == before[before.len() - 1].price.units);
            }
            assert(merged_view(out@) =~= merged(levels@.take(i + 1)));
        }
        i += 1;
    }
    proof {
        assert(levels@.take(levels@.len() as int) =~= levels@);
    }
    out
}

/// The sizes of the levels, added up.
pub open spec fn level_total(levels: Seq<RoundedLevel>) -> int
    decreases levels.len(),
{
    if levels.len() == 0 {
        0
    } else {
        level_total(levels.drop_last()) + levels.last().qty.units
    }
}

/// The sizes of merged levels, added up.
pub open spec fn merged_total(m: Seq<(int, int)>) -> int
    decreases m.len(),
{
    if m.len() == 0 {
        0
    } else {
        merged_total(m.drop_last()) + m.last().1
    }
}

/// Merging loses no size, and no two neighbours have the same price afterwards.
pub proof fn merging_keeps_the_total(levels: Seq<RoundedLevel>)
    ensures
        merged_total(merged(levels)) == level_total(levels),
        forall|i: int, j: int|
            0 <= i && j == i + 1 && j < merged(levels).len() ==> (#[trigger] merged(levels)[i]).0
                != (#[trigger] merged(levels)[j]).0,
    decreases levels.len(),
{
    if levels.len() > 0 {
        merging_keeps_the_total(levels.drop_last());
        let before = merged(levels.drop_last());
        let after = merged(levels);
        let price = levels.last().price.units as int;
        if before.len() > 0 && before.last().0 == price {
            assert(after.drop_last() =~= before.drop_last());
            assert forall|i: int, j: int|
                0 <= i && j == i + 1 && j < after.len() implies (#[trigger] after[i]).0 != (
            #[trigger] after[j]).0 by {
                assert(after[i].0 == before[i].0);
                assert(after[j].0 == before[j].0);
            }
        } else {
            assert(after.drop_last() =~= before);
            assert forall|i: int, j: int|
                0 <= i && j == i + 1 && j < after.len() implies (#[trigger] after[i]).0 != (
            #[trigger] after[j]).0 by {
                assert(after[i] == before[i]);
                if j < before.len() {
                    assert(after[j] == before[j]);
                }
            }
        }
    }
}

} // verus!
