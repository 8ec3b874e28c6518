//! What the renderer is handed: the layers in the order in which they are drawn, the bytes of
//! the texture, and which buffers have to be uploaded again.
use crate::heatmap::depth_grid;
use crate::heatmap::depth_grid::{GridRing, HeatmapUpload};
use crate::heatmap::side_grid::GRID_TEX_H;
use crate::math;
use crate::math::{next_power_of_two, u64_as_i64};
use crate::units::{Price, PriceStep};
use vstd::prelude::*;

verus! {

/// The place of a layer in the order of drawing; lower ones are drawn first.
#[derive(Debug, Clone, Copy, PartialEq, Eq, PartialOrd, Ord, Structural)]
pub struct DrawLayer(pub i16);

pub const HEATMAP_LAYER: i16 = 0;

pub const DEPTH_PROFILE_LAYER: i16 = 10;

pub const CIRCLES_LAYER: i16 = 20;

pub const VOLUME_LAYER: i16 = 30;

pub const VOLUME_PROFILE_LAYER: i16 = 40;

/// One step of drawing: the heatmap, or some of the instances.
#[derive(Debug, Clone, Copy, PartialEq, Eq, Structural)]
pub enum DrawOp {
    Heatmap,
    Rects { start: u32, count: u32 },
    Circles { start: u32, count: u32 },
}

#[derive(Debug, Clone, Copy, PartialEq, Eq, Structural)]
pub struct DrawItem {
    pub layer: DrawLayer,
    pub op: DrawOp,
}

impl DrawItem {
    pub fn new(layer: DrawLayer, op: DrawOp) -> (item: DrawItem)
        ensures
            item == (DrawItem { layer, op }),
    {
        DrawItem { layer, op }
    }
}

/// The part of `start..start + count` that lies below `total`, as its start and its length;
/// nothing where it is empty.
pub open spec fn clipped(start: int, count: int, total: int) -> Option<(int, int)> {
    let first = math::min_int(start, total);
    let n = math::min_int(count, total - first);
    if n == 0 {
        None
    } else {
        Some((first, n))
    }
}

/// The instances of a step that there are.
pub fn clip_instances(start: u32, count: u32, total: u32) -> (r: Option<(u32, u32)>)
    ensures
        match r {
            Some((first, n)) => clipped(start as int, count as int, total as int) == Some(
                (first as int, n as int),
            ) && first + n <= total && n > 0,
            None => clipped(start as int, count as int, total as int) is None,
        },
{
    let first: u32 = if start < total {
        start
    } else {
        total
    };
    let rest: u32 = total - first;
    let n: u32 = if count < rest {
        count
    } else {
        rest
    };
    if n == 0 {
        None
    } else {
        Some((first, n))
    }
}

/// The bytes of the instances `first..first + n`, where each has `stride` bytes.
pub fn instance_bytes(first: u32, n: u32, stride: u32) -> (r: (u64, u64))
    requires
        first + n <= u32::MAX,
    ensures
        r.0 == first * stride,
        r.1 == (first + n) * stride,
{
    proof {
        assert(first * stride <= 0xffff_ffff * 0xffff_ffff) by (nonlinear_arith)
            requires
                first <= 0xffff_ffff,
                stride <= 0xffff_ffff,
        ;
        assert((first + n) * stride <= 0xffff_ffff * 0xffff_ffff) by (nonlinear_arith)
            requires
                first + n <= 0xffff_ffff,
                stride <= 0xffff_ffff,
        ;
        assert((first + n) * stride == first * stride + n * stride) by (nonlinear_arith);
        assert(n * stride >= 0) by (nonlinear_arith);
    }
    let a: u64 = first as u64 * stride as u64;
    (a, a + n as u64 * stride as u64)
}

/// The layers never go down.
pub open spec fn in_order(list: Seq<DrawItem>) -> bool {
    forall|i: int, j: int| 0 <= i < j < list.len() ==> list[i].layer.0 <= list[j].layer.0
}

/// The items of one layer, in order.
pub open spec fn of_layer(list: Seq<DrawItem>, layer: i16) -> Seq<DrawItem> {
    list.filter(|d: DrawItem| d.layer.0 == layer)
}

/// `sorted` is `list` in the order of the layers, with the items of each layer in the order in
/// which they were.
pub open spec fn layered(list: Seq<DrawItem>, sorted: Seq<DrawItem>) -> bool {
    &&& in_order(sorted)
    &&& sorted.len() == list.len()
    &&& forall|layer: i16| #[trigger] of_layer(sorted, layer) == of_layer(list, layer)
}

proof fn lemma_filter_none(s: Seq<DrawItem>, layer: i16)
    requires
        forall|i: int| 0 <= i < s.len() ==> (#[trigger] s[i]).layer.0 != layer,
    ensures
        of_layer(s, layer) == Seq::<DrawItem>::empty(),
    decreases s.len(),
{
    reveal(Seq::filter);
    if s.len() > 0 {
        lemma_filter_none(s.drop_last(), layer);
    }
}

proof fn lemma_insert_layer(a: Seq<DrawItem>, x: DrawItem, b: Seq<DrawItem>, layer: i16)
    requires
        forall|i: int| 0 <= i < b.len() ==> (#[trigger] b[i]).layer.0 > x.layer.0,
    ensures
        of_layer(a.push(x) + b, layer) == if x.layer.0 == layer {
            of_layer(a + b, layer).push(x)
        } else {
            of_layer(a + b, layer)
        },
{
    let pred = |d: DrawItem| d.layer.0 == layer;
    Seq::filter_distributes_over_add(a.push(x), b, pred);
    Seq::filter_distributes_over_add(a, b, pred);
    reveal(Seq::filter);
    assert(a.push(x).drop_last() =~= a);
    if x.layer.0 == layer {
        lemma_filter_none(b, layer);
        assert(of_layer(a.push(x) + b, layer) =~= of_layer(a + b, layer).push(x));
    } else {
        assert(of_layer(a.push(x) + b, layer) =~= of_layer(a + b, layer));
    }
}

/// Puts the items in the order of their layers; items of one layer keep their order.
pub fn sort_by_layer(list: &Vec<DrawItem>) -> (sorted: Vec<DrawItem>)
    ensures
        layered(list@, sorted@),
{
    let mut sorted: Vec<DrawItem> = Vec::new();
    let mut i: usize = 0;
    proof {
        assert(list@.take(0) =~= Seq::<DrawItem>::empty());
    }
    while i < list.len()
        invariant
            i <= list@.len(),
            layered(list@.take(i as int), sorted@),
        decreases list@.len() - i,
    {
        let item: DrawItem = list[i];
        let ghost before = sorted@;
        let mut p: usize = sorted.len();
        while p > 0 && sorted[p - 1].layer.0 > item.layer.0
            invariant
                p <= sorted@.len(),
                forall|j: int| p <= j < sorted@.len() ==> (#[trigger] sorted@[j]).layer.0
                    > item.layer.0,
            decreases p,
        {
            p -= 1;
        }
        sorted.insert(p, item);
        proof {
            let a = before.take(p as int);
            let b = before.skip(p as int);
            assert(before =~= a + b);
            assert(sorted@ =~= a.push(item) + b);
            let next = list@.take(i + 1);
            assert(next =~= list@.take(i as int).push(item));
            assert forall|layer: i16| #[trigger] of_layer(sorted@, layer) == of_layer(
                next,
                layer,
            ) by {
                lemma_insert_layer(a, item, b, layer);
                assert(of_layer(before, layer) == of_layer(list@.take(i as int), layer));
                reveal(Seq::filter);
                assert(next.drop_last() =~= list@.take(i as int));
            }
            assert forall|x: int, y: int| 0 <= x < y < sorted@.len() implies sorted@[x].layer.0
                <= sorted@[y].layer.0 by {
                if x < p {
                    if p > 0 {
                        assert(before[p - 1].layer.0 <= item.layer.0);
                        if x < p - 1 {
                            assert(before[x].layer.0 <= before[p - 1].layer.0);
                        }
                    }
                    if y > p {
                        assert(before[x].layer.0 <= before[y - 1].layer.0);
                    } else if y < p {
                        assert(before[x].layer.0 <= before[y].layer.0);
                    }
                } else if x == p {
                    assert(sorted@[y] == b[y - p - 1]);
                    assert(before[y - 1].layer.0 > item.layer.0);
                } else {
                    assert(before[x - 1].layer.0 <= before[y - 1].layer.0);
                }
            }
        }
        i += 1;
    }
    proof {
        assert(list@.take(list@.len() as int) =~= list@);
    }
    sorted
}

/// The instances of an overlay, by layer: a range of the rectangles each, and the circles.
#[derive(Debug, Clone, Copy, PartialEq, Eq)]
pub struct OverlayRanges {
    pub circles: u32,
    pub depth_profile: (u32, u32),
    pub volume: (u32, u32),
    pub volume_profile: (u32, u32),
}

/// The steps that a range of rectangles takes: one, or none where it is empty.
pub open spec fn rect_steps(layer: i16, range: (u32, u32)) -> Seq<DrawItem> {
    if range.1 > range.0 {
        seq![
            DrawItem {
                layer: DrawLayer(layer),
                op: DrawOp::Rects { start: range.0, count: (range.1 - range.0) as u32 },
            },
        ]
    } else {
        Seq::empty()
    }
}

/// The steps that the circles take: one, or none where there are none.
pub open spec fn circle_steps(n: u32) -> Seq<DrawItem> {
    if n > 0 {
        seq![
            DrawItem {
                layer: DrawLayer(CIRCLES_LAYER),
                op: DrawOp::Circles { start: 0, count: n },
            },
        ]
    } else {
        Seq::empty()
    }
}

fn push_rects(out: &mut Vec<DrawItem>, layer: i16, range: (u32, u32))
    ensures
        final(out)@ == old(out)@ + rect_steps(layer, range),
{
    if range.1 > range.0 {
        out.push(
            DrawItem::new(
                DrawLayer(layer),
                DrawOp::Rects { start: range.0, count: range.1 - range.0 },
            ),
        );
    }
    proof {
        assert(out@ =~= old(out)@ + rect_steps(layer, range));
    }
}

impl OverlayRanges {
    /// The ranges of overlays that were built one behind the other, by how many instances each of
    /// them has.
    pub fn of_counts(circles: u32, depth_profile: u32, volume: u32, volume_profile: u32) -> (r:
        OverlayRanges)
        requires
            depth_profile + volume + volume_profile <= u32::MAX,
        ensures
            r.circles == circles,
            r.depth_profile == (0u32, depth_profile),
            r.volume == (depth_profile, (depth_profile + volume) as u32),
            r.volume_profile == (
                (depth_profile + volume) as u32,
                (depth_profile + volume + volume_profile) as u32,
            ),
    {
        let volume_end: u32 = depth_profile + volume;
        OverlayRanges {
            circles,
            depth_profile: (0, depth_profile),
            volume: (depth_profile, volume_end),
            volume_profile: (volume_end, volume_end + volume_profile),
        }
    }

    /// The steps of a frame: the heatmap, then what there is of the overlays.
    pub open spec fn spec_draw_list(self) -> Seq<DrawItem> {
        seq![DrawItem { layer: DrawLayer(HEATMAP_LAYER), op: DrawOp::Heatmap }] + rect_steps(
            DEPTH_PROFILE_LAYER,
            self.depth_profile,
        ) + circle_steps(self.circles) + rect_steps(VOLUME_LAYER, self.volume) + rect_steps(
            VOLUME_PROFILE_LAYER,
            self.volume_profile,
        )
    }

    /// The steps of a frame: the heatmap, then what there is of the overlays.
    pub fn draw_list(&self) -> (out: Vec<DrawItem>)
        ensures
            out@ == self.spec_draw_list(),
            in_order(out@),
    {
        let mut out: Vec<DrawItem> = Vec::new();
        out.push(DrawItem::new(DrawLayer(HEATMAP_LAYER), DrawOp::Heatmap));
        proof {
            assert(out@ =~= seq![
                DrawItem { layer: DrawLayer(HEATMAP_LAYER), op: DrawOp::Heatmap },
            ]);
        }
        push_rects(&mut out, DEPTH_PROFILE_LAYER, self.depth_profile);
        let ghost before = out@;
        if self.circles > 0 {
            out.push(
                DrawItem::new(
                    DrawLayer(CIRCLES_LAYER),
                    DrawOp::Circles { start: 0, count: self.circles },
                ),
            );
        }
        proof {
            assert(out@ =~= before + circle_steps(self.circles));
        }
        push_rects(&mut out, VOLUME_LAYER, self.volume);
        push_rects(&mut out, VOLUME_PROFILE_LAYER, self.volume_profile);
        out
    }
}

/// Byte `k` of `v`, the lowest first.
pub open spec fn le_byte(v: u32, k: int) -> u8 {
    if k == 0 {
        (v % 256) as u8
    } else if k == 1 {
        (v / 256 % 256) as u8
    } else if k == 2 {
        (v / 65536 % 256) as u8
    } else {
        (v / 16777216 % 256) as u8
    }
}

/// `n` rounded up to a multiple of 256, as rows of a texture copy are.
pub open spec fn padded(n: int) -> int {
    (n + 255) / 256 * 256
}

/// The bytes of two values, one behind the other.
pub open spec fn texel_byte(bid: u32, ask: u32, k: int) -> u8 {
    if k < 4 {
        le_byte(bid, k)
    } else {
        le_byte(ask, k - 4)
    }
}

/// The offset of byte `k` of texel `(x, y)`.
pub open spec fn texel_pos(w: int, x: int, y: int, k: int) -> int {
    y * padded(w * 8) + (x * 8 + k)
}

/// The first texels of a texture, row by row up to row `rows` and there up to column `cols`, are
/// in place.
pub open spec fn staged(
    bytes: Seq<u8>,
    bid: Seq<u32>,
    ask: Seq<u32>,
    w: int,
    rows: int,
    cols: int,
) -> bool {
    forall|x: int, y: int, k: int|
        #![trigger bytes[texel_pos(w, x, y, k)]]
        0 <= x < w && 0 <= k < 8 && (0 <= y < rows || (y == rows && x < cols))
            ==> bytes[texel_pos(w, x, y, k)] == texel_byte(
            bid[y * w + x],
            ask[y * w + x],
            k,
        )
}

proof fn lemma_padded(n: int)
    requires
        n >= 0,
    ensures
        n <= padded(n) <= n + 255,
        padded(n) % 256 == 0,
{
}

proof fn lemma_texel_pos(w: int, h: int, x: int, y: int, k: int)
    requires
        0 <= x < w,
        0 <= y < h,
        0 <= k < 8,
    ensures
        0 <= texel_pos(w, x, y, k) < padded(w * 8) * h,
        0 <= y * padded(w * 8),
{
    lemma_padded(w * 8);
    crate::heatmap::side_grid::lemma_at_bounds(padded(w * 8), h, x * 8 + k, y);
    assert(0 <= y * padded(w * 8)) by (nonlinear_arith)
        requires
            0 <= y,
            0 <= padded(w * 8),
    ;
}

proof fn lemma_texel_injective(w: int, x1: int, y1: int, k1: int, x2: int, y2: int, k2: int)
    requires
        0 <= x1 < w,
        0 <= x2 < w,
        0 <= k1 < 8,
        0 <= k2 < 8,
        texel_pos(w, x1, y1, k1) == texel_pos(w, x2, y2, k2),
    ensures
        x1 == x2,
        y1 == y2,
        k1 == k2,
{
    lemma_padded(w * 8);
    crate::heatmap::side_grid::lemma_at_injective(
        padded(w * 8),
        x1 * 8 + k1,
        y1,
        x2 * 8 + k2,
        y2,
    );
}

fn put_texel(bytes: &mut Vec<u8>, off: usize, bid: u32, ask: u32)
    requires
        off + 8 <= old(bytes)@.len(),
    ensures
        final(bytes)@.len() == old(bytes)@.len(),
        forall|i: int|
            0 <= i < old(bytes)@.len() ==> #[trigger] final(bytes)@[i] == if off <= i < off + 8 {
                texel_byte(bid, ask, i - off)
            } else {
                old(bytes)@[i]
            },
{
    let total: usize = bytes.len();
    assert(off + 8 <= total);
    bytes.set(off, (bid % 256) as u8);
    bytes.set(off + 1, (bid / 256 % 256) as u8);
    bytes.set(off + 2, (bid / 65536 % 256) as u8);
    bytes.set(off + 3, (bid / 16777216 % 256) as u8);
    bytes.set(off + 4, (ask % 256) as u8);
    bytes.set(off + 5, (ask / 256 % 256) as u8);
    bytes.set(off + 6, (ask / 65536 % 256) as u8);
    bytes.set(off + 7, (ask / 16777216 % 256) as u8);
}

/// Writes the texels of a texture, or of one column of it where `width` is 1, into `scratch` as
/// the renderer copies them: bid then ask, lowest byte first, rows padded. Returns the length of
/// a row and of the whole. `scratch` is only ever grown; bytes between the rows are left alone.
pub fn stage_texels(width: u32, height: u32, bid: &[u32], ask: &[u32], scratch: &mut Vec<u8>) -> (r:
    (usize, usize))
    requires
        bid@.len() == width * height,
        ask@.len() == width * height,
        padded(width * 8) <= usize::MAX,
        padded(width * 8) * height <= usize::MAX,
    ensures
        r.0 == padded(width * 8),
        r.1 == padded(width * 8) * height,
        final(scratch)@.len() == math::max_int(old(scratch)@.len() as int, r.1 as int),
        staged(final(scratch)@, bid@, ask@, width as int, height as int, 0),
{
    let w: usize = width as usize;
    let h: usize = height as usize;
    proof {
        lemma_padded(width * 8);
    }
    let whole: usize = w * 8 / 256 * 256;
    let bpr: usize = if whole < w * 8 {
        whole + 256
    } else {
        whole
    };
    assert(bpr == padded(width * 8));
    let needed: usize = bpr * h;
    if scratch.len() < needed {
        scratch.resize(needed, 0);
    }
    let ghost total = scratch@.len();
    let cells: usize = bid.len();
    let mut y: usize = 0;
    while y < h
        invariant
            y <= h,
            w == width,
            h == height,
            bpr == padded(w * 8),
            w * 8 <= usize::MAX,
            needed == bpr * h,
            needed <= scratch@.len(),
            scratch@.len() == total,
            bid@.len() == w * h,
                cells == w * h,
            ask@.len() == w * h,
            staged(scratch@, bid@, ask@, w as int, y as int, 0),
        decreases h - y,
    {
        let mut x: usize = 0;
        while x < w
            invariant
                x <= w,
                y < h,
                bpr == padded(w * 8),
                w * 8 <= usize::MAX,
                needed == bpr * h,
                needed <= scratch@.len(),
                scratch@.len() == total,
                bid@.len() == w * h,
                cells == w * h,
                ask@.len() == w * h,
                staged(scratch@, bid@, ask@, w as int, y as int, x as int),
            decreases w - x,
        {
            proof {
                lemma_texel_pos(w as int, h as int, x as int, y as int, 0);
                lemma_texel_pos(w as int, h as int, x as int, y as int, 7);
                crate::heatmap::side_grid::lemma_at_bounds(w as int, h as int, x as int, y as int);
                assert(0 <= y * w) by (nonlinear_arith)
                    requires
                        0 <= y,
                        0 <= w,
                ;
            }
            let i: usize = y * w + x;
            let off: usize = y * bpr + x * 8;
            let ghost before = scratch@;
            put_texel(scratch, off, bid[i], ask[i]);
            proof {
                assert forall|x2: int, y2: int, k: int|
                    #![trigger scratch@[texel_pos(w as int, x2, y2, k)]]
                    0 <= x2 < w && 0 <= k < 8 && (0 <= y2 < y || (y2 == y && x2 < x
                        + 1)) implies scratch@[texel_pos(w as int, x2, y2, k)] == texel_byte(
                    bid@[y2 * w + x2],
                    ask@[y2 * w + x2],
                    k,
                ) by {
                    let p = texel_pos(w as int, x2, y2, k);
                    lemma_texel_pos(w as int, h as int, x2, y2, k);
                    if off <= p < off + 8 {
                        lemma_texel_injective(
                            w as int,
                            x2,
                            y2,
                            k,
                            x as int,
                            y as int,
                            p - off,
                        );
                    } else {
                        if y2 == y && x2 == x {
                            assert(p == off + k);
                        }
                        assert(before[p] == texel_byte(
                            bid@[y2 * w + x2],
                            ask@[y2 * w + x2],
                            k,
                        ));
                    }
                }
            }
            x += 1;
        }
        y += 1;
    }
    (bpr, needed)
}

/// A buffer of instances on the renderer's side.
#[derive(Debug, Clone, Copy, PartialEq, Eq, Structural)]
pub struct InstanceBuffer {
    pub capacity: usize,
    pub uploaded_gen: u64,
}

/// What has to be done with a buffer of instances.
#[derive(Debug, Clone, Copy, PartialEq, Eq, Structural)]
pub enum BufferUpload {
    /// Nothing.
    Keep,
    /// Write the instances.
    Write,
    /// Make a larger buffer of this capacity, then write the instances.
    Grow(usize),
}

/// How many instances a buffer holds at first.
pub const INITIAL_INSTANCES: usize = 4096;

impl InstanceBuffer {
    pub fn new() -> (b: InstanceBuffer)
        ensures
            b == (InstanceBuffer { capacity: INITIAL_INSTANCES, uploaded_gen: 0 }),
    {
        InstanceBuffer { capacity: INITIAL_INSTANCES, uploaded_gen: 0 }
    }

    /// Takes in that the instances of `generation` are `len` many. Instances that were uploaded
    /// already are not uploaded again.
    pub fn update(&mut self, len: u32, generation: u64) -> (r: BufferUpload)
        requires
            len <= 0x8000_0000,
        ensures
            final(self).uploaded_gen == generation,
            final(self).capacity >= old(self).capacity,
            r == BufferUpload::Keep <==> generation == old(self).uploaded_gen || len == 0,
            r == BufferUpload::Write <==> generation != old(self).uploaded_gen && 0 < len
                <= old(self).capacity,
            r is Grow <==> generation != old(self).uploaded_gen && len > old(self).capacity,
            match r {
                BufferUpload::Grow(n) => n == final(self).capacity && math::is_next_power_of_two(
                    len as int,
                    n as int,
                ),
                _ => final(self).capacity == old(self).capacity,
            },
            r !is Keep ==> final(self).capacity >= len,
    {
        if generation == self.uploaded_gen {
            return BufferUpload::Keep;
        }
        self.uploaded_gen = generation;
        if len == 0 {
            return BufferUpload::Keep;
        }
        if len as usize > self.capacity {
            let grown: usize = next_power_of_two(len) as usize;
            self.capacity = grown;
            return BufferUpload::Grow(grown);
        }
        BufferUpload::Write
    }
}

/// The heatmap texture on the renderer's side.
#[derive(Debug, Clone, Copy, PartialEq, Eq, Structural)]
pub struct TextureState {
    pub width: u32,
    pub height: u32,
    pub uploaded_gen: u64,
}

/// What has to be done with the texture.
#[derive(Debug, Clone, Copy, PartialEq, Eq, Structural)]
pub enum TextureUpload {
    /// Nothing.
    Keep,
    /// Copy the upload into the texture.
    Copy,
    /// Make a texture of the new size, then copy the upload into it.
    ResizeAndCopy,
}

impl TextureState {
    /// A texture of a single texel.
    pub fn new() -> (t: TextureState)
        ensures
            t == (TextureState { width: 1, height: 1, uploaded_gen: 0 }),
    {
        TextureState { width: 1, height: 1, uploaded_gen: 0 }
    }

    /// Takes in an upload of `generation` for a texture of the given size. An upload that was
    /// copied already, or that is for a texture without texels, is not copied.
    pub fn update(&mut self, width: u32, height: u32, generation: u64) -> (r: TextureUpload)
        ensures
            r == (if generation == old(self).uploaded_gen || width == 0 || height == 0 {
                TextureUpload::Keep
            } else if (old(self).width, old(self).height) == (width, height) {
                TextureUpload::Copy
            } else {
                TextureUpload::ResizeAndCopy
            }),
            *final(self) == (if r == TextureUpload::Keep {
                *old(self)
            } else {
                TextureState { width, height, uploaded_gen: generation }
            }),
    {
        if generation == self.uploaded_gen || width == 0 || height == 0 {
            return TextureUpload::Keep;
        }
        let same: bool = self.width == width && self.height == height;
        self.width = width;
        self.height = height;
        self.uploaded_gen = generation;
        if same {
            TextureUpload::Copy
        } else {
            TextureUpload::ResizeAndCopy
        }
    }
}

/// The identifiers of scenes: which comes next, and which are no longer in use.
#[derive(Debug, Clone)]
pub struct SceneIds {
    pub next: u64,
    pub dropped: Vec<u64>,
}

impl SceneIds {
    pub fn new() -> (s: SceneIds)
        ensures
            s.next == 1,
            s.dropped@ == Seq::<u64>::empty(),
    {
        SceneIds { next: 1, dropped: Vec::new() }
    }

    /// A new identifier. They come in order, and start over once they have run out.
    pub fn next_scene_id(&mut self) -> (id: u64)
        ensures
            id == old(self).next,
            final(self).next == (if id == u64::MAX {
                0
            } else {
                id + 1
            }),
            final(self).dropped == old(self).dropped,
    {
        let id: u64 = self.next;
        self.next = id.wrapping_add(1);
        id
    }

    /// A scene is no longer in use.
    pub fn enqueue_dropped_scene_id(&mut self, id: u64)
        ensures
            final(self).dropped@ == old(self).dropped@.push(id),
            final(self).next == old(self).next,
    {
        self.dropped.push(id);
    }

    /// The scenes that have gone out of use since the last call, in order.
    pub fn drain_dropped_scene_ids(&mut self) -> (ids: Vec<u64>)
        ensures
            ids@ == old(self).dropped@,
            final(self).dropped@ == Seq::<u64>::empty(),
            final(self).next == old(self).next,
    {
        let mut ids: Vec<u64> = Vec::new();
        std::mem::swap(&mut ids, &mut self.dropped);
        ids
    }
}

/// What the renderer is handed of a scene, and which of it is new.
#[derive(Debug, Clone)]
pub struct Scene {
    pub id: u64,
    pub rectangles_gen: u64,
    pub circles_gen: u64,
    pub draw_list: Vec<DrawItem>,
    pub heatmap_tex_gen: u64,
    pub heatmap_upload: Option<(u64, HeatmapUpload)>,
}

/// The generation after `g`; they start over once they have run out.
pub open spec fn next_gen(g: u64) -> u64 {
    if g == u64::MAX {
        0
    } else {
        (g + 1) as u64
    }
}

/// What had changed of `ring` has been handed from it to the scene.
pub open spec fn is_handed_over(
    ring: depth_grid::RingView,
    force_full: bool,
    scene: Scene,
    ring_after: depth_grid::RingView,
    scene_after: Scene,
) -> bool {
    &&& ring_after == (if ring.width == 0 {
        ring
    } else {
        depth_grid::RingView { full_dirty: false, dirty: Set::empty(), ..ring }
    })
    &&& if depth_grid::is_upload(ring, force_full, None) {
        scene_after == scene
    } else {
        &&& scene_after == (Scene {
            heatmap_tex_gen: next_gen(scene.heatmap_tex_gen),
            heatmap_upload: scene_after.heatmap_upload,
            ..scene
        })
        &&& scene_after.heatmap_upload matches Some((generation, upload))
        &&& generation == scene_after.heatmap_tex_gen
        &&& depth_grid::is_upload(ring, force_full, Some(upload))
    }
}

impl Scene {
    pub fn new(id: u64) -> (s: Scene)
        ensures
            s.id == id,
            s.rectangles_gen == 1,
            s.circles_gen == 1,
            s.draw_list@ == Seq::<DrawItem>::empty(),
            s.heatmap_tex_gen == 1,
            s.heatmap_upload is None,
    {
        Scene {
            id,
            rectangles_gen: 1,
            circles_gen: 1,
            draw_list: Vec::new(),
            heatmap_tex_gen: 1,
            heatmap_upload: None,
        }
    }

    /// There are new rectangles.
    pub fn set_rectangles(&mut self)
        ensures
            *final(self) == (Scene {
                rectangles_gen: next_gen(old(self).rectangles_gen),
                ..*old(self)
            }),
    {
        self.rectangles_gen = self.rectangles_gen.wrapping_add(1);
    }

    /// There are new circles.
    pub fn set_circles(&mut self)
        ensures
            *final(self) == (Scene { circles_gen: next_gen(old(self).circles_gen), ..*old(self) }),
    {
        self.circles_gen = self.circles_gen.wrapping_add(1);
    }

    /// Sets what is drawn, in the order of the layers.
    pub fn set_draw_list(&mut self, draw_list: &Vec<DrawItem>)
        ensures
            layered(draw_list@, final(self).draw_list@),
            *final(self) == (Scene { draw_list: final(self).draw_list, ..*old(self) }),
    {
        self.draw_list = sort_by_layer(draw_list);
    }

    /// Nothing but an empty heatmap is drawn.
    pub fn clear(&mut self)
        ensures
            final(self).id == old(self).id,
            final(self).rectangles_gen == next_gen(old(self).rectangles_gen),
            final(self).circles_gen == next_gen(old(self).circles_gen),
            final(self).draw_list@ == seq![
                DrawItem { layer: DrawLayer(HEATMAP_LAYER), op: DrawOp::Heatmap },
            ],
            final(self).heatmap_tex_gen == old(self).heatmap_tex_gen,
            final(self).heatmap_upload is None,
    {
        self.set_rectangles();
        self.set_circles();
        let mut list: Vec<DrawItem> = Vec::new();
        list.push(DrawItem::new(DrawLayer(HEATMAP_LAYER), DrawOp::Heatmap));
        self.draw_list = list;
        self.heatmap_upload = None;
        proof {
            assert(self.draw_list@ =~= seq![
                DrawItem { layer: DrawLayer(HEATMAP_LAYER), op: DrawOp::Heatmap },
            ]);
        }
    }

    fn schedule_heatmap_upload(&mut self, upload: HeatmapUpload)
        ensures
            *final(self) == (Scene {
                heatmap_tex_gen: next_gen(old(self).heatmap_tex_gen),
                heatmap_upload: Some((next_gen(old(self).heatmap_tex_gen), upload)),
                ..*old(self)
            }),
    {
        self.heatmap_tex_gen = self.heatmap_tex_gen.wrapping_add(1);
        self.heatmap_upload = Some((self.heatmap_tex_gen, upload));
    }

    /// Takes what has changed out of the ring and schedules it, and says whether that is the
    /// whole texture.
    pub fn sync_heatmap_upload_from_grid(&mut self, grid: &mut GridRing, force_full: bool) -> (full:
        bool)
        requires
            old(grid).wf(),
        ensures
            final(grid).wf(),
            full == (old(grid)@.width != 0 && (force_full || old(grid)@.full_dirty)),
            is_handed_over(old(grid)@, force_full, *old(self), final(grid)@, *final(self)),
    {
        match grid.upload_to_scene(force_full) {
            None => false,
            Some(upload) => {
                let full: bool = match &upload {
                    HeatmapUpload::Full { .. } => true,
                    HeatmapUpload::Cols { .. } => false,
                };
                self.schedule_heatmap_upload(upload);
                full
            },
        }
    }
}

/// How the texture is placed: the distance of the latest bucket from the reference, its column,
/// the texture's size, and the row at which it starts.
#[derive(Debug, Clone, Copy, PartialEq, Eq, Structural)]
pub struct TexturePlacement {
    pub latest_rel_bucket: i128,
    pub latest_x_ring: u32,
    pub tex_w: u32,
    pub tex_h: u32,
    pub y_start_bin: i128,
}

/// `placed` is where the texture of `ring` lies, once the ring is laid out.
pub open spec fn is_placed(
    ring: depth_grid::RingView,
    base_price: Price,
    step: PriceStep,
    latest_time: u64,
    aggr_time: u64,
    scroll_ref_bucket: i64,
    placed: Option<TexturePlacement>,
) -> bool {
    match placed {
        None => ring.width == 0,
        Some(p) => {
            let bucket = math::wrap_i64(latest_time as int / aggr_time as int);
            &&& ring.width > 0
            &&& p.latest_rel_bucket == bucket - scroll_ref_bucket
            &&& p.latest_x_ring == depth_grid::ring_x(bucket, ring.width)
            &&& p.tex_w == ring.width
            &&& p.tex_h == GRID_TEX_H
            &&& p.y_start_bin == (match ring.anchor {
                None => -(GRID_TEX_H as int / 2),
                Some(anchor) => -(GRID_TEX_H as int / 2) - depth_grid::delta_bins(
                    base_price.units as int,
                    anchor,
                    step.units as int,
                    ring.steps,
                ),
            })
        },
    }
}

/// How the texture is placed, once the ring is laid out.
pub fn place_texture(
    grid: &GridRing,
    base_price: Price,
    step: PriceStep,
    latest_time: u64,
    aggr_time: u64,
    scroll_ref_bucket: i64,
) -> (r: Option<TexturePlacement>)
    requires
        grid.wf(),
        aggr_time > 0,
    ensures
        is_placed(grid@, base_price, step, latest_time, aggr_time, scroll_ref_bucket, r),
{
    let tex_w: u32 = grid.tex_w();
    if tex_w == 0 {
        return None;
    }
    let bucket: i64 = u64_as_i64(latest_time / aggr_time);
    Some(
        TexturePlacement {
            latest_rel_bucket: bucket as i128 - scroll_ref_bucket as i128,
            latest_x_ring: grid.ring_x_for_bucket(bucket),
            tex_w,
            tex_h: grid.tex_h(),
            y_start_bin: grid.heatmap_y_start_bin(base_price, step),
        },
    )
}

} // verus!
