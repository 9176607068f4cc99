//! Packed scenes and their parts.

use backdrop_render::encoding::{DrawBeginClip, DrawTag, PathTag, Style, Transform};
use backdrop_render::layout::{align_up_to, pack_streams, Layout};
use backdrop_render::layers::layer_seed_states;
use backdrop_render::packing::{
    append_synthetic_end_clips, build_packed_contiguous_range, build_packed_prefix,
    build_packed_range, draws_are_available, merge_packed_parts, path_tag_end_for_path_count,
    range_is_ready, repack_streams, scene_is_readable, segment_is_ready, try_build_packed_range,
};

/// A path with a transform, a style and one line to an f32 point.
fn path_tags() -> Vec<u8> {
    vec![PathTag::TRANSFORM, PathTag::STYLE, 0x9, PathTag::PATH]
}

fn transform(tx: u32) -> Transform {
    Transform { tx, ..Transform::identity() }
}

fn style(line_width: u32) -> Style {
    Style { flags_and_miter_limit: 7, line_width }
}

/// A scene of a color, a layer around a color, and a color.
fn scene() -> (Layout, Vec<u8>) {
    let mut tags = Vec::new();
    for _ in 0..4 {
        tags.extend(path_tags());
    }
    tags.push(PathTag::PATH);
    let draw_tags = vec![
        DrawTag::COLOR,
        DrawTag::BEGIN_CLIP,
        DrawTag::COLOR,
        DrawTag::END_CLIP,
        DrawTag::COLOR,
    ];
    // The end of the layer has a path marker of its own.
    tags.swap(15, 16);
    let draw_data = vec![10, DrawBeginClip::CLIP_BLEND_MODE, 0, 20, 30];
    let path_data: Vec<u8> = (0..32).collect();
    let transforms = (0..4).map(transform).collect::<Vec<_>>();
    let styles = (0..4).map(style).collect::<Vec<_>>();
    let counts = Layout {
        n_draw_objects: 5,
        n_paths: 5,
        n_clips: 2,
        bin_data_start: 4,
        ..Layout::default()
    };
    pack_streams(&tags, &path_data, &draw_tags, &draw_data, &transforms, &styles, counts)
}

#[test]
fn alignment() {
    assert_eq!(align_up_to(0, 4), 0);
    assert_eq!(align_up_to(1, 4), 4);
    assert_eq!(align_up_to(4, 4), 4);
    assert_eq!(align_up_to(9, 4), 12);
    assert_eq!(align_up_to(9, 0), 9);
    assert_eq!(align_up_to(usize::MAX, 1), usize::MAX);
}

#[test]
fn streams_are_read_back() {
    let (layout, packed) = scene();
    assert_eq!(layout.path_tag_base, 0);
    assert_eq!(layout.path_data_base, 5);
    assert_eq!(layout.draw_tag_base, 13);
    assert_eq!(layout.draw_data_base, 18);
    assert_eq!(layout.transform_base, 23);
    assert_eq!(layout.style_base, 47);
    assert_eq!(packed.len(), 4 * 55);
    assert_eq!(layout.path_tags(&packed).len(), 20);
    assert_eq!(layout.path_tags(&packed)[17..], [0, 0, 0]);
    assert_eq!(layout.path_data(&packed), (0..32).collect::<Vec<u8>>());
    assert_eq!(layout.draw_data(&packed), vec![10, DrawBeginClip::CLIP_BLEND_MODE, 0, 20, 30]);
    assert_eq!(layout.transforms(&packed)[3], transform(3));
    assert_eq!(layout.styles(&packed)[2], style(2));
}

#[test]
fn path_tags_of_the_first_paths() {
    let tags = [PathTag::TRANSFORM, PathTag::PATH, 0x9, PathTag::PATH, PathTag::PATH];
    assert_eq!(path_tag_end_for_path_count(&tags, 0), 0);
    assert_eq!(path_tag_end_for_path_count(&tags, 1), 2);
    assert_eq!(path_tag_end_for_path_count(&tags, 2), 4);
    assert_eq!(path_tag_end_for_path_count(&tags, 3), 5);
    assert_eq!(path_tag_end_for_path_count(&tags, 9), 5);
}

#[test]
fn a_prefix_is_a_range_from_the_start() {
    let (layout, packed) = scene();
    for end in 0..7 {
        let prefix = build_packed_prefix(&packed, layout, end);
        assert_eq!(prefix, build_packed_contiguous_range(&packed, layout, 0, end));
    }
    let (part, bytes) = build_packed_prefix(&packed, layout, 2);
    assert_eq!(part.n_draw_objects, 2);
    assert_eq!(part.n_paths, 2);
    assert_eq!(part.n_clips, 1);
    assert_eq!(part.bin_data_start, 2);
    assert_eq!(part.draw_tags(&bytes), vec![DrawTag::COLOR, DrawTag::BEGIN_CLIP]);
    assert_eq!(part.draw_data(&bytes), vec![10, DrawBeginClip::CLIP_BLEND_MODE, 0]);
    assert_eq!(part.path_data(&bytes), (0..16).collect::<Vec<u8>>());
    assert_eq!(part.transforms(&bytes), vec![transform(0), transform(1)]);
    let (empty, no_bytes) = build_packed_prefix(&packed, layout, 0);
    assert_eq!(empty, Layout::default());
    assert!(no_bytes.is_empty());
}

#[test]
fn a_range_takes_over_the_active_state() {
    let (layout, packed) = scene();
    let (part, bytes) = build_packed_contiguous_range(&packed, layout, 2, 3);
    assert_eq!(part.draw_tags(&bytes), vec![DrawTag::COLOR]);
    assert_eq!(part.draw_data(&bytes), vec![20]);
    assert_eq!(
        part.path_tags(&bytes)[..6],
        [
            PathTag::TRANSFORM,
            PathTag::STYLE,
            PathTag::TRANSFORM,
            PathTag::STYLE,
            0x9,
            PathTag::PATH
        ]
    );
    assert_eq!(part.transforms(&bytes), vec![transform(1), transform(2)]);
    assert_eq!(part.styles(&bytes), vec![style(1), style(2)]);
    assert_eq!(part.path_data(&bytes), (16..24).collect::<Vec<u8>>());
}

#[test]
fn ranges_in_a_row_join() {
    let (layout, packed) = scene();
    for cut in 0..6 {
        let (a, a_bytes) = build_packed_contiguous_range(&packed, layout, 0, cut);
        let (b, b_bytes) = build_packed_contiguous_range(&packed, layout, cut, 5);
        let mut tags = a.draw_tags(&a_bytes);
        tags.extend(b.draw_tags(&b_bytes));
        assert_eq!(tags, layout.draw_tags(&packed));
        let mut data = a.draw_data(&a_bytes);
        data.extend(b.draw_data(&b_bytes));
        assert_eq!(data, layout.draw_data(&packed));
    }
}

#[test]
fn merged_parts_come_one_after_the_other() {
    let (layout, packed) = scene();
    let first = build_packed_contiguous_range(&packed, layout, 1, 2);
    let nothing = build_packed_contiguous_range(&packed, layout, 2, 2);
    let second = build_packed_contiguous_range(&packed, layout, 2, 4);
    let (merged, bytes) = merge_packed_parts(&[first, nothing, second]);
    assert_eq!(merged.n_draw_objects, 3);
    assert_eq!(merged.n_paths, 3);
    assert_eq!(merged.n_clips, 2);
    assert_eq!(merged.bin_data_start, 2);
    assert_eq!(
        merged.draw_tags(&bytes),
        vec![DrawTag::BEGIN_CLIP, DrawTag::COLOR, DrawTag::END_CLIP]
    );
    let (empty, no_bytes) = merge_packed_parts(&[]);
    assert_eq!(empty, Layout::default());
    assert!(no_bytes.is_empty());
}

#[test]
fn a_segment_opens_and_closes_its_layers() {
    let (layout, packed) = scene();
    let (part, bytes) = try_build_packed_range(&packed, layout, 2, 3, &[1], 1).unwrap();
    assert_eq!(
        part.draw_tags(&bytes),
        vec![DrawTag::BEGIN_CLIP, DrawTag::COLOR, DrawTag::END_CLIP]
    );
    assert_eq!(part.draw_data(&bytes), vec![DrawBeginClip::CLIP_BLEND_MODE, 0, 20]);
    assert_eq!(part.n_draw_objects, 3);
    assert_eq!(part.n_paths, 3);
    assert_eq!(part.n_clips, 2);
    assert_eq!(part.bin_data_start, 2);
    assert_eq!((part, bytes), build_packed_range(&packed, layout, 2, 3, &[1], 1));
    let (open, open_bytes) = build_packed_range(&packed, layout, 2, 3, &[1], 0);
    assert_eq!(open.draw_tags(&open_bytes), vec![DrawTag::BEGIN_CLIP, DrawTag::COLOR]);
    // A draw object that is not in the scene opens nothing.
    let (plain, plain_bytes) = build_packed_range(&packed, layout, 2, 3, &[9], 0);
    assert_eq!(plain.draw_tags(&plain_bytes), vec![DrawTag::COLOR]);
}

#[test]
fn synthetic_ends_have_paths() {
    let (layout, packed) = scene();
    let same = append_synthetic_end_clips(layout, packed.clone(), 0);
    assert_eq!(same, (layout, packed.clone()));
    let (more, bytes) = append_synthetic_end_clips(layout, packed, 2);
    assert_eq!(more.n_draw_objects, 7);
    assert_eq!(more.n_paths, 7);
    assert_eq!(more.n_clips, 4);
    assert_eq!(more.draw_tags(&bytes)[5..], [DrawTag::END_CLIP, DrawTag::END_CLIP]);
    assert_eq!(more.path_tags(&bytes)[20..22], [PathTag::PATH, PathTag::PATH]);
}

#[test]
fn repacking_adds_missing_paths() {
    let (layout, packed) = repack_streams(
        Vec::new(),
        Vec::new(),
        vec![DrawTag::COLOR, DrawTag::COLOR],
        vec![1, 2],
        Vec::new(),
        Vec::new(),
        0,
    );
    assert_eq!(layout.path_tags(&packed), [PathTag::PATH, PathTag::PATH, 0, 0]);
    assert_eq!(layout.n_paths, 2);
    assert_eq!(layout.bin_data_start, 2);
}

#[test]
fn scenes_that_are_readable() {
    let (layout, packed) = scene();
    assert!(scene_is_readable(&packed, layout));
    assert!(scene_is_readable(&[], Layout::default()));
    // The buffer is cut short.
    assert!(!scene_is_readable(&packed[..packed.len() - 4], layout));
    assert!(!scene_is_readable(&packed[..40], layout));
    // Streams out of order.
    let swapped = Layout { draw_tag_base: 30, ..layout };
    assert!(!scene_is_readable(&packed, swapped));
}

#[test]
fn draws_that_are_available() {
    let (layout, packed) = scene();
    assert!(draws_are_available(&packed, layout, 0));
    assert!(draws_are_available(&packed, layout, layout.n_draw_objects));
    assert!(draws_are_available(&packed, layout, u32::MAX));
    assert!(segment_is_ready(&packed, layout, 0, layout.n_draw_objects, &[0]));
    // The draw data are too short for the draw tags.
    let short = Layout { draw_data_base: 19, ..layout };
    assert!(draws_are_available(&packed, short, 0));
    assert!(!draws_are_available(&packed, short, u32::MAX));
    assert!(!segment_is_ready(&packed, short, 0, u32::MAX, &[]));
    assert!(segment_is_ready(&packed, short, 3, 3, &[]));
    assert!(segment_is_ready(&packed, short, 0, 0, &[u32::MAX]));
    // An empty range needs its draw tags alone.
    let unreadable = Layout { style_base: layout.style_base + 1, ..layout };
    assert!(!scene_is_readable(&packed, unreadable));
    assert!(range_is_ready(&packed, unreadable, 3, 2));
    assert!(range_is_ready(&packed, unreadable, 5, 9));
    assert!(!range_is_ready(&packed, unreadable, 0, 1));
    assert!(!range_is_ready(&packed[..8], layout, 0, 0));
    let nothing = (Layout::default(), Vec::new());
    assert_eq!(build_packed_contiguous_range(&packed, unreadable, 3, 2), nothing);
    assert_eq!(build_packed_contiguous_range(&packed, unreadable, 5, 9), nothing);
    assert_eq!(build_packed_range(&packed, unreadable, 2, 2, &[], 0), nothing);
}

#[test]
fn packed_ranges_in_a_row_join() {
    let (layout, packed) = scene();
    let range = |start, end| build_packed_contiguous_range(&packed, layout, start, end);
    assert_eq!(range(2, 2), (Layout::default(), Vec::new()));
    for b in 0..=5 {
        let (first, first_bytes) = range(0, b);
        let (second, second_bytes) = range(b, 5);
        let (both, both_bytes) = range(0, 5);
        let mut tags = first.draw_tags(&first_bytes);
        tags.extend(second.draw_tags(&second_bytes));
        assert_eq!(both.draw_tags(&both_bytes), tags);
        let mut data = first.draw_data(&first_bytes);
        data.extend(second.draw_data(&second_bytes));
        assert_eq!(both.draw_data(&both_bytes), data);
        let mut path_data = first.path_data(&first_bytes).to_vec();
        path_data.extend_from_slice(second.path_data(&second_bytes));
        assert_eq!(both.path_data(&both_bytes), path_data);
        assert_eq!(both.n_draw_objects, first.n_draw_objects + second.n_draw_objects);
        assert_eq!(both.n_paths, first.n_paths + second.n_paths);
        assert_eq!(both.n_clips, first.n_clips + second.n_clips);
        assert_eq!(both.bin_data_start, first.bin_data_start + second.bin_data_start);
    }
}

#[test]
fn closed_segments_are_balanced() {
    let (layout, packed) = scene();
    let states =
        layer_seed_states(&layout.draw_tags(&packed), &layout.draw_data(&packed)).unwrap();
    for start in 0..=5 {
        for end in start..=5 {
            let seeds = &states[start as usize].begin_draws;
            let ends = states[end as usize].begin_draws.len() as u32;
            let (part, bytes) = build_packed_range(&packed, layout, start, end, seeds, ends);
            let mut open = 0i32;
            for tag in part.draw_tags(&bytes) {
                match tag {
                    DrawTag::BEGIN_CLIP => open += 1,
                    DrawTag::END_CLIP => open -= 1,
                    _ => {}
                }
                assert!(open >= 0);
            }
            assert_eq!(open, 0);
        }
    }
}
