use flowsurface::heatmap::layout::{
    circle_attributes, quad_corners, quad_indices, rect_attributes, AttributeFormat,
    CIRCLE_STRIDE, RECT_STRIDE,
};
use flowsurface::heatmap::price_axis::{base_drawn, drawn_ticks, tick_step, LabelSpan};
use flowsurface::heatmap::scene::{
    clip_instances, instance_bytes, sort_by_layer, stage_texels, BufferUpload, DrawItem, DrawLayer,
    DrawOp, InstanceBuffer, OverlayRanges, Scene, SceneIds, TextureState, TextureUpload,
    CIRCLES_LAYER, HEATMAP_LAYER, VOLUME_LAYER,
};
use flowsurface::float_bits::F32Bits;
use flowsurface::units::{Price, PriceStep};

fn item(layer: i16, start: u32) -> DrawItem {
    DrawItem::new(DrawLayer(layer), DrawOp::Rects { start, count: 1 })
}

#[test]
fn layers_are_sorted_and_ties_keep_their_order() {
    let list = vec![
        item(VOLUME_LAYER, 1),
        item(HEATMAP_LAYER, 2),
        item(VOLUME_LAYER, 3),
        item(CIRCLES_LAYER, 4),
    ];
    let sorted = sort_by_layer(&list);
    let order: Vec<DrawOp> = sorted.iter().map(|i| i.op).collect();
    assert_eq!(
        order,
        vec![
            DrawOp::Rects { start: 2, count: 1 },
            DrawOp::Rects { start: 4, count: 1 },
            DrawOp::Rects { start: 1, count: 1 },
            DrawOp::Rects { start: 3, count: 1 },
        ]
    );
}

#[test]
fn instances_beyond_the_buffer_are_not_drawn() {
    assert_eq!(clip_instances(0, 10, 4), Some((0, 4)));
    assert_eq!(clip_instances(4, 10, 4), None);
    assert_eq!(clip_instances(2, 0, 4), None);
    assert_eq!(instance_bytes(2, 3, 52), (104, 260));
}

#[test]
fn an_empty_range_is_not_drawn() {
    let ranges = OverlayRanges {
        circles: 0,
        depth_profile: (0, 0),
        volume: (0, 3),
        volume_profile: (3, 3),
    };
    let list = ranges.draw_list();
    assert_eq!(list[0].op, DrawOp::Heatmap);
    assert!(list.iter().any(|i| i.op == DrawOp::Rects { start: 0, count: 3 }));
    assert!(!list.iter().any(|i| matches!(i.op, DrawOp::Circles { .. })));
}

#[test]
fn texels_hold_both_sides() {
    let mut scratch: Vec<u8> = Vec::new();
    let (row, total) = stage_texels(1, 2, &[1, 2], &[3, 0x0102_0304], &mut scratch);
    assert_eq!(row % 256, 0);
    assert_eq!(total, 2 * row);
    assert_eq!(&scratch[0..8], &[1, 0, 0, 0, 3, 0, 0, 0]);
    assert_eq!(&scratch[row..row + 8], &[2, 0, 0, 0, 4, 3, 2, 1]);
}

#[test]
fn buffers_grow_and_skip_what_is_uploaded() {
    let mut b = InstanceBuffer::new();
    assert_eq!(b.update(10, 1), BufferUpload::Write);
    assert_eq!(b.update(10, 1), BufferUpload::Keep);
    assert!(matches!(b.update(5000, 2), BufferUpload::Grow(n) if n >= 5000));
    let mut t = TextureState::new();
    assert_eq!(t.update(16, 8, 1), TextureUpload::ResizeAndCopy);
    assert_eq!(t.update(16, 8, 1), TextureUpload::Keep);
    assert_eq!(t.update(16, 8, 2), TextureUpload::Copy);
}

#[test]
fn scene_ids_are_fresh_and_dropped_ones_come_back_once() {
    let mut ids = SceneIds::new();
    let a = ids.next_scene_id();
    let b = ids.next_scene_id();
    assert_ne!(a, b);
    ids.enqueue_dropped_scene_id(a);
    assert_eq!(ids.drain_dropped_scene_ids(), vec![a]);
    assert!(ids.drain_dropped_scene_ids().is_empty());
}

#[test]
fn new_instances_get_a_new_generation() {
    let mut s = Scene::new(3);
    let (r, c) = (s.rectangles_gen, s.circles_gen);
    s.set_rectangles();
    assert_eq!(s.rectangles_gen, r + 1);
    assert_eq!(s.circles_gen, c);
    s.set_circles();
    assert_eq!(s.circles_gen, c + 1);
    s.set_draw_list(&vec![item(VOLUME_LAYER, 1), item(HEATMAP_LAYER, 2)]);
    assert_eq!(s.draw_list.len(), 2);
}

#[test]
fn attributes_fill_their_instances() {
    let rect = rect_attributes();
    let end = rect.last().unwrap();
    assert_eq!(end.offset + end.format.size(), RECT_STRIDE);
    assert_eq!(rect[2].format, AttributeFormat::Float32x4);
    let circle = circle_attributes();
    let end = circle.last().unwrap();
    assert_eq!(end.offset + end.format.size(), CIRCLE_STRIDE);
    for pair in rect.windows(2).chain(circle.windows(2)) {
        assert!(pair[0].offset + pair[0].format.size() <= pair[1].offset);
    }
    let corners = quad_corners();
    for i in quad_indices() {
        assert!((i as usize) < corners.len());
    }
}

fn span(low: f32, high: f32) -> LabelSpan {
    LabelSpan {
        low: F32Bits { bits: low.to_bits() },
        high: F32Bits { bits: high.to_bits() },
    }
}

#[test]
fn price_labels_give_way() {
    let base = span(40.0, 60.0);
    let ticks = vec![span(0.0, 10.0), span(55.0, 65.0), span(60.0, 70.0), span(90.0, 99.0)];
    assert_eq!(drawn_ticks(&ticks, base, None), vec![true, false, false, true]);
    let cursor = Some(span(85.0, 91.0));
    assert_eq!(drawn_ticks(&ticks, base, cursor), vec![true, false, false, false]);
    assert!(base_drawn(true, base, cursor));
    assert!(!base_drawn(true, base, Some(span(59.0, 61.0))));
    assert!(!base_drawn(false, base, None));
}

#[test]
fn ticks_lie_on_rows() {
    let at = |t: i64| tick_step(Price { units: t }, Price { units: 1000 }, PriceStep { units: 10 });
    assert_eq!(at(1030), Some(3));
    assert_eq!(at(970), Some(-3));
    assert_eq!(at(1005), None);
    assert_eq!(
        tick_step(Price { units: 5 }, Price { units: 3 }, PriceStep { units: 0 }),
        Some(2)
    );
}

#[test]
fn ranges_lie_one_behind_the_other() {
    let r = OverlayRanges::of_counts(4, 3, 0, 2);
    assert_eq!(r.circles, 4);
    assert_eq!(r.depth_profile, (0, 3));
    assert_eq!(r.volume, (3, 3));
    assert_eq!(r.volume_profile, (3, 5));
}
