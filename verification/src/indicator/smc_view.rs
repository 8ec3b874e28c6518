//! What of the market structure shows in a stretch of time, and how it is labelled.
use crate::indicator::smc_structure::{
    BreakKind, FvgZone, SmcStructureState, StructureLevel, SwingTagEntry,
};
use crate::math;
use crate::text;
use crate::units::Price;
use vstd::prelude::*;

verus! {

/// The line of the level touches the visible stretch.
pub open spec fn level_shows(level: StructureLevel, earliest: u64, latest: u64) -> bool {
    level.confirmed_time >= earliest && level.from_time <= latest
}

/// The pivot lies in the visible stretch.
pub open spec fn tag_shows(tag: SwingTagEntry, earliest: u64, latest: u64) -> bool {
    earliest <= tag.time <= latest
}

/// The right edge of a gap box: where it was filled, or the end of what is visible.
pub open spec fn spec_right_edge(zone: FvgZone, latest: u64) -> u64 {
    match zone.end_time {
        Some(t) => t,
        None => latest,
    }
}

/// The gap box touches the visible stretch.
pub open spec fn fvg_shows(zone: FvgZone, earliest: u64, latest: u64) -> bool {
    spec_right_edge(zone, latest) >= earliest && zone.start_time <= latest
}

/// The levels that show between `earliest` and `latest`, in order.
pub fn visible_levels(
    state: &SmcStructureState,
    earliest: u64,
    latest: u64,
) -> (out: Vec<StructureLevel>)
    ensures
        out@ == state.levels@.filter(|l: StructureLevel| level_shows(l, earliest, latest)),
{
    let mut out: Vec<StructureLevel> = Vec::new();
    let ghost pred = |l: StructureLevel| level_shows(l, earliest, latest);
    let mut i: usize = 0;
    proof {
        math::lemma_filter_ends(state.levels@, pred);
    }
    while i < state.levels.len()
        invariant
            i <= state.levels@.len(),
            pred == (|l: StructureLevel| level_shows(l, earliest, latest)),
            out@ == state.levels@.take(i as int).filter(pred),
        decreases state.levels@.len() - i,
    {
        let level: StructureLevel = state.levels[i];
        proof {
            math::lemma_filter_step(state.levels@, i as int, pred);
        }
        if level.confirmed_time >= earliest && level.from_time <= latest {
            out.push(level);
        }
        i += 1;
    }
    out
}

/// The swing tags that show between `earliest` and `latest`, in order.
pub fn visible_tags(
    state: &SmcStructureState,
    earliest: u64,
    latest: u64,
) -> (out: Vec<SwingTagEntry>)
    ensures
        out@ == state.swing_tags@.filter(|t: SwingTagEntry| tag_shows(t, earliest, latest)),
{
    let mut out: Vec<SwingTagEntry> = Vec::new();
    let ghost pred = |t: SwingTagEntry| tag_shows(t, earliest, latest);
    let mut i: usize = 0;
    proof {
        math::lemma_filter_ends(state.swing_tags@, pred);
    }
    while i < state.swing_tags.len()
        invariant
            i <= state.swing_tags@.len(),
            pred == (|t: SwingTagEntry| tag_shows(t, earliest, latest)),
            out@ == state.swing_tags@.take(i as int).filter(pred),
        decreases state.swing_tags@.len() - i,
    {
        let tag: SwingTagEntry = state.swing_tags[i];
        proof {
            math::lemma_filter_step(state.swing_tags@, i as int, pred);
        }
        if earliest <= tag.time && tag.time <= latest {
            out.push(tag);
        }
        i += 1;
    }
    out
}

/// Where a gap box ends on the right.
pub fn right_edge(zone: FvgZone, latest: u64) -> (t: u64)
    ensures
        t == spec_right_edge(zone, latest),
{
    match zone.end_time {
        Some(t) => t,
        None => latest,
    }
}

/// The gap boxes that show between `earliest` and `latest`, in order.
pub fn visible_fvgs(state: &SmcStructureState, earliest: u64, latest: u64) -> (out: Vec<FvgZone>)
    ensures
        out@ == state.fvgs@.filter(|z: FvgZone| fvg_shows(z, earliest, latest)),
{
    let mut out: Vec<FvgZone> = Vec::new();
    let ghost pred = |z: FvgZone| fvg_shows(z, earliest, latest);
    let mut i: usize = 0;
    proof {
        math::lemma_filter_ends(state.fvgs@, pred);
    }
    while i < state.fvgs.len()
        invariant
            i <= state.fvgs@.len(),
            pred == (|z: FvgZone| fvg_shows(z, earliest, latest)),
            out@ == state.fvgs@.take(i as int).filter(pred),
        decreases state.fvgs@.len() - i,
    {
        let zone: FvgZone = state.fvgs[i];
        proof {
            math::lemma_filter_step(state.fvgs@, i as int, pred);
        }
        if right_edge(zone, latest) >= earliest && zone.start_time <= latest {
            out.push(zone);
        }
        i += 1;
    }
    out
}

/// The label of a level: its kind and its stars.
pub fn level_label(level: &StructureLevel) -> (s: String)
    ensures
        s@ == (match level.kind {
            BreakKind::Bos => "BOS "@,
            BreakKind::Choch => "CHoCH "@,
        }) + text::stars(level.rating as nat),
{
    match level.kind {
        BreakKind::Bos => text::with_stars("BOS ", level.rating),
        BreakKind::Choch => text::with_stars("CHoCH ", level.rating),
    }
}

/// The label of a gap box: its stars.
pub fn fvg_label(zone: &FvgZone) -> (s: String)
    ensures
        s@ == "FVG "@ + text::stars(zone.rating as nat),
{
    text::with_stars("FVG ", zone.rating)
}

/// The zone lines with their labels, from the top down; none before there are zones.
pub fn zone_rows(state: &SmcStructureState) -> (rows: Vec<(&'static str, Price)>)
    ensures
        match state.zones {
            None => rows@.len() == 0,
            Some(z) => {
                &&& rows@.len() == 3
                &&& rows@[0].0@ == "Premium"@ && rows@[0].1 == z.premium
                &&& rows@[1].0@ == "Eq"@ && rows@[1].1 == z.equilibrium
                &&& rows@[2].0@ == "Discount"@ && rows@[2].1 == z.discount
            },
        },
{
    let mut rows: Vec<(&'static str, Price)> = Vec::new();
    if let Some(z) = state.zones {
        rows.push(("Premium", z.premium));
        rows.push(("Eq", z.equilibrium));
        rows.push(("Discount", z.discount));
    }
    rows
}

} // verus!
