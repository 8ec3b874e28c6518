//! What holds of what the renderer is handed, said of the values and ranges that go in: bytes give
//! back their texels, ranges cover what there is, merged levels keep their sizes, and the texture
//! lies where the overlays do.
use crate::heatmap::controller;
use crate::heatmap::depth_grid;
use crate::heatmap::depth_grid::RingView;
use crate::heatmap::levels;
use crate::heatmap::levels::RoundedLevel;
use crate::heatmap::price_axis::LabelSpan;
use crate::heatmap::scene;
use crate::heatmap::scene::{DrawItem, DrawOp, OverlayRanges, TexturePlacement};
use crate::heatmap::side_grid::GRID_TEX_H;
use crate::heatmap::view;
use crate::units::{Price, PriceStep};
use vstd::arithmetic::div_mod::*;
use vstd::prelude::*;

verus! {

/// Instance `i` is drawn just if the step asks for it and it is there.
pub proof fn clipping_keeps_what_is_there(start: int, count: int, total: int, i: int)
    requires
        start >= 0,
        count >= 0,
        total >= 0,
    ensures
        (scene::clipped(start, count, total) matches Some((first, n)) && first <= i < first + n)
            <==> (start <= i < start + count && 0 <= i < total),
{
}

/// The four bytes of a value give it back.
pub proof fn bytes_give_the_value_back(v: u32)
    ensures
        v == scene::le_byte(v, 0) + 256 * scene::le_byte(v, 1) + 65536 * scene::le_byte(v, 2)
            + 16777216 * scene::le_byte(v, 3),
{
    assert(v == (v % 256) + 256 * (v / 256 % 256) + 65536 * (v / 65536 % 256) + 16777216 * (v
        / 16777216 % 256)) by (bit_vector);
}

/// Rows of a texture copy start at multiples of 256 bytes, each at the first that leaves room for
/// the row before it.
pub proof fn rows_are_padded(n: int)
    requires
        n >= 0,
    ensures
        scene::padded(n) % 256 == 0,
        n <= scene::padded(n) < n + 256,
{
}

/// Texel `(x, y)` can be read back: the first four bytes at its place give the bid, the next four
/// the ask.
pub proof fn staged_texels_can_be_read_back(
    bytes: Seq<u8>,
    bid: Seq<u32>,
    ask: Seq<u32>,
    w: int,
    h: int,
    x: int,
    y: int,
)
    requires
        scene::staged(bytes, bid, ask, w, h, 0),
        0 <= x < w,
        0 <= y < h,
    ensures
        ({
            let at = y * scene::padded(w * 8) + x * 8;
            &&& bid[y * w + x] == bytes[at] + 256 * bytes[at + 1] + 65536 * bytes[at + 2] + 16777216
                * bytes[at + 3]
            &&& ask[y * w + x] == bytes[at + 4] + 256 * bytes[at + 5] + 65536 * bytes[at + 6]
                + 16777216 * bytes[at + 7]
        }),
{
    bytes_give_the_value_back(bid[y * w + x]);
    bytes_give_the_value_back(ask[y * w + x]);
    let at = y * scene::padded(w * 8) + x * 8;
    assert(scene::texel_pos(w, x, y, 0) == at);
    assert(scene::texel_pos(w, x, y, 1) == at + 1);
    assert(scene::texel_pos(w, x, y, 2) == at + 2);
    assert(scene::texel_pos(w, x, y, 3) == at + 3);
    assert(scene::texel_pos(w, x, y, 4) == at + 4);
    assert(scene::texel_pos(w, x, y, 5) == at + 5);
    assert(scene::texel_pos(w, x, y, 6) == at + 6);
    assert(scene::texel_pos(w, x, y, 7) == at + 7);
    assert(bytes[scene::texel_pos(w, x, y, 0)] == scene::texel_byte(
        bid[y * w + x],
        ask[y * w + x],
        0,
    ));
    assert(bytes[scene::texel_pos(w, x, y, 1)] == scene::le_byte(bid[y * w + x], 1));
    assert(bytes[scene::texel_pos(w, x, y, 2)] == scene::le_byte(bid[y * w + x], 2));
    assert(bytes[scene::texel_pos(w, x, y, 3)] == scene::le_byte(bid[y * w + x], 3));
    assert(bytes[scene::texel_pos(w, x, y, 4)] == scene::le_byte(ask[y * w + x], 0));
    assert(bytes[scene::texel_pos(w, x, y, 5)] == scene::le_byte(ask[y * w + x], 1));
    assert(bytes[scene::texel_pos(w, x, y, 6)] == scene::le_byte(ask[y * w + x], 2));
    assert(bytes[scene::texel_pos(w, x, y, 7)] == scene::le_byte(ask[y * w + x], 3));
}

/// The step draws rectangle `i` on the layer.
pub open spec fn draws_rect(d: DrawItem, layer: i16, i: int) -> bool {
    d.layer.0 == layer && (d.op matches DrawOp::Rects { start, count } && start <= i < start
        + count)
}

/// A frame draws the heatmap first, and then exactly the rectangles of each range on the layer of
/// that range, and all circles.
pub proof fn frames_draw_every_instance(r: OverlayRanges, i: int)
    ensures
        ({
            let list = r.spec_draw_list();
            &&& list.len() > 0 && list[0].op == DrawOp::Heatmap
            &&& (exists|k: int|
                0 <= k < list.len() && #[trigger] draws_rect(
                    list[k],
                    scene::DEPTH_PROFILE_LAYER,
                    i,
                )) <==> r.depth_profile.0 <= i < r.depth_profile.1
            &&& (exists|k: int|
                0 <= k < list.len() && #[trigger] draws_rect(list[k], scene::VOLUME_LAYER, i))
                <==> r.volume.0 <= i < r.volume.1
            &&& (exists|k: int|
                0 <= k < list.len() && #[trigger] draws_rect(
                    list[k],
                    scene::VOLUME_PROFILE_LAYER,
                    i,
                )) <==> r.volume_profile.0 <= i < r.volume_profile.1
            &&& r.circles > 0 <==> exists|k: int|
                0 <= k < list.len() && (#[trigger] list[k]).op == (DrawOp::Circles {
                    start: 0,
                    count: r.circles,
                })
        }),
{
    let list = r.spec_draw_list();
    let a: int = 1;
    let b: int = if r.depth_profile.1 > r.depth_profile.0 {
        a + 1
    } else {
        a
    };
    let c: int = if r.circles > 0 {
        b + 1
    } else {
        b
    };
    let d: int = if r.volume.1 > r.volume.0 {
        c + 1
    } else {
        c
    };
    if r.depth_profile.0 <= i < r.depth_profile.1 {
        assert(draws_rect(list[a], scene::DEPTH_PROFILE_LAYER, i));
    }
    if r.circles > 0 {
        assert(list[b].op == (DrawOp::Circles { start: 0, count: r.circles }));
    }
    if r.volume.0 <= i < r.volume.1 {
        assert(draws_rect(list[c], scene::VOLUME_LAYER, i));
    }
    if r.volume_profile.0 <= i < r.volume_profile.1 {
        assert(draws_rect(list[d], scene::VOLUME_PROFILE_LAYER, i));
    }
}

/// Sorting by layers loses no step and adds none.
pub proof fn layering_keeps_every_step(list: Seq<DrawItem>, sorted: Seq<DrawItem>, item: DrawItem)
    requires
        scene::layered(list, sorted),
    ensures
        list.contains(item) <==> sorted.contains(item),
{
    let layer = item.layer.0;
    let pred = |d: DrawItem| d.layer.0 == layer;
    list.filter_lemma(pred);
    sorted.filter_lemma(pred);
    assert(scene::of_layer(sorted, layer) == scene::of_layer(list, layer));
    assert(scene::of_layer(list, layer) == list.filter(pred));
    assert(scene::of_layer(sorted, layer) == sorted.filter(pred));
    if list.contains(item) {
        let i = list.index_of(item);
        assert(list.filter(pred).contains(list[i]));
        lemma_filtered_was_there(sorted, pred, item);
    }
    if sorted.contains(item) {
        let i = sorted.index_of(item);
        assert(sorted.filter(pred).contains(sorted[i]));
        lemma_filtered_was_there(list, pred, item);
    }
}

proof fn lemma_filtered_was_there(s: Seq<DrawItem>, pred: spec_fn(DrawItem) -> bool, item: DrawItem)
    requires
        s.filter(pred).contains(item),
    ensures
        s.contains(item),
    decreases s.len(),
{
    reveal(Seq::filter);
    if s.len() > 0 {
        let front = s.drop_last();
        let i = s.filter(pred).index_of(item);
        if i < front.filter(pred).len() {
            assert(front.filter(pred)[i] == item);
            lemma_filtered_was_there(front, pred, item);
            let j = front.index_of(item);
            assert(s[j] == item);
        } else {
            assert(s[s.len() - 1] == item);
        }
    }
}

/// What the levels of one price have in size, added up.
pub open spec fn size_at(ls: Seq<RoundedLevel>, price: int) -> int
    decreases ls.len(),
{
    if ls.len() == 0 {
        0
    } else {
        size_at(ls.drop_last(), price) + if ls.last().price.units == price {
            ls.last().qty.units as int
        } else {
            0
        }
    }
}

/// What merged levels have at one price in size, added up.
pub open spec fn merged_size_at(m: Seq<(int, int)>, price: int) -> int
    decreases m.len(),
{
    if m.len() == 0 {
        0
    } else {
        merged_size_at(m.drop_last(), price) + if m.last().0 == price {
            m.last().1
        } else {
            0
        }
    }
}

/// Merging keeps the size at every price.
pub proof fn merging_keeps_the_size_at_every_price(ls: Seq<RoundedLevel>, price: int)
    ensures
        merged_size_at(levels::merged(ls), price) == size_at(ls, price),
    decreases ls.len(),
{
    if ls.len() > 0 {
        merging_keeps_the_size_at_every_price(ls.drop_last(), price);
        let before = levels::merged(ls.drop_last());
        let after = levels::merged(ls);
        if before.len() > 0 && before.last().0 == ls.last().price.units {
            assert(after.drop_last() =~= before.drop_last());
        } else {
            assert(after.drop_last() =~= before);
        }
    }
}

/// Levels that all have another price than the one before are not merged.
pub proof fn levels_of_different_prices_stay(ls: Seq<RoundedLevel>, i: int)
    requires
        forall|j: int, k: int|
            #![trigger ls[j], ls[k]]
            0 <= j && k == j + 1 && k < ls.len() ==> ls[j].price.units != ls[k].price.units,
        0 <= i < ls.len(),
    ensures
        levels::merged(ls).len() == ls.len(),
        levels::merged(ls)[i] == (ls[i].price.units as int, ls[i].qty.units as int),
    decreases ls.len(),
{
    let front = ls.drop_last();
    assert forall|j: int, k: int|
        #![trigger front[j], front[k]]
        0 <= j && k == j + 1 && k < front.len() implies front[j].price.units != front[k].price.units by {
        assert(ls[j].price.units != ls[k].price.units);
    }
    if front.len() > 0 {
        levels_of_different_prices_stay(front, front.len() - 1);
        assert(ls[front.len() - 1].price.units != ls[front.len() as int].price.units);
        assert(front[front.len() - 1] == ls[front.len() - 1]);
        assert(levels::merged(front).last() == levels::merged(front)[front.len() - 1]);
        if i < front.len() {
            levels_of_different_prices_stay(front, i);
        }
    } else {
        assert(levels::merged(front).len() == 0);
    }
}

/// The texture lies where the overlays do: a price is drawn in the row of the texture that, counted
/// from where the texture starts, is its row among the overlays.
pub proof fn texture_rows_meet_the_overlays(
    ring: RingView,
    base: Price,
    step: PriceStep,
    latest_time: u64,
    aggr: u64,
    scroll_ref: i64,
    p: TexturePlacement,
    price: int,
)
    requires
        scene::is_placed(ring, base, step, latest_time, aggr, scroll_ref, Some(p)),
        ring.anchor is Some,
    ensures
        p.y_start_bin + depth_grid::price_row(
            price,
            ring.anchor->0,
            step.units as int,
            ring.steps,
        ) == view::aligned_bin(
            price,
            base.units as int,
            step.units as int,
            ring.steps,
            ring.anchor,
        ),
{
}

/// The latest bucket lies as far from the reference as its time says, and in the column in which
/// snapshots of that bucket are written.
pub proof fn texture_columns_meet_the_buckets(
    ring: RingView,
    base: Price,
    step: PriceStep,
    latest_time: u64,
    aggr: u64,
    scroll_ref: i64,
    p: TexturePlacement,
    b: int,
)
    requires
        scene::is_placed(ring, base, step, latest_time, aggr, scroll_ref, Some(p)),
        aggr > 0,
        b * aggr <= latest_time < (b + 1) * aggr,
        b <= i64::MAX,
    ensures
        p.latest_rel_bucket == b - scroll_ref,
        p.latest_x_ring == b % ring.width,
        p.tex_w == ring.width,
        p.tex_h == GRID_TEX_H,
{
    assert((b + 1) * aggr == b * aggr + aggr) by (nonlinear_arith);
    lemma_fundamental_div_mod_converse(latest_time as int, aggr as int, b, latest_time - b * aggr);
}

/// What is removed is older than all that the texture can show, and starts at a bucket; no more
/// than a bucket beyond that is kept.
pub proof fn cleanup_spares_what_is_shown(latest: int, tex_w: int, aggr: int)
    requires
        latest >= 0,
        tex_w > 0,
        aggr > 0,
    ensures
        ({
            let cutoff = controller::cleanup_cutoff(latest, tex_w, aggr);
            &&& cutoff % aggr == 0
            &&& 0 <= cutoff
            &&& cutoff > 0 ==> latest - cutoff >= tex_w * aggr
            &&& latest - cutoff < (tex_w + 1) * aggr
        }),
{
    let from = crate::math::max_int(latest - tex_w * aggr, 0);
    lemma_fundamental_div_mod(from, aggr);
    lemma_mod_bound(from, aggr);
    lemma_div_pos_is_pos(from, aggr);
    let q = from / aggr;
    assert(q * aggr == aggr * q) by (nonlinear_arith);
    assert(q * aggr >= 0) by (nonlinear_arith)
        requires
            q >= 0,
            aggr > 0,
    ;
    assert((tex_w + 1) * aggr == tex_w * aggr + aggr) by (nonlinear_arith);
    assert(tex_w * aggr > 0) by (nonlinear_arith)
        requires
            tex_w > 0,
            aggr > 0,
    ;
    lemma_mod_multiples_basic(q, aggr);
}

/// Two labels meet just if neither lies wholly above the other.
pub proof fn labels_meet_unless_apart(a: LabelSpan, b: LabelSpan)
    requires
        !a.low.is_nan() && !a.high.is_nan() && !b.low.is_nan() && !b.high.is_nan(),
    ensures
        a.spec_overlaps(b) <==> !(a.high.rank() < b.low.rank() || b.high.rank() < a.low.rank()),
        a.spec_overlaps(b) == b.spec_overlaps(a),
{
}

} // verus!
