//! The rules of replay on small scenes.

use backdrop_render::encoding::{
    src_over_begin_clip_blend_mode, DrawBeginClip, DrawTag, PathTag, Style, Transform,
};
use backdrop_render::layers::{
    allow_prefirst_paint_free_non_replay_safe_boundary, draw_data_offsets, layer_seed_states,
    post_first_backdrop_boundary_allows_non_replay_safe_painted, LayerSeedState,
};
use backdrop_render::packing::{append_synthetic_end_clips, repack_streams};
use backdrop_render::ranges::{
    draw_tag_is_effective_paint, first_range_supports_seeded_non_clip_layers,
    replay_range_non_replay_safe_layers_paint_free, replay_range_supports_layers,
};

#[test]
fn layer_seed_stack_ignores_closed_non_clip_layers() {
    let draw_tags = [DrawTag::BEGIN_CLIP, DrawTag::END_CLIP];
    let draw_data = [DrawBeginClip::CLIP_BLEND_MODE + 1, 0];
    let states = layer_seed_states(&draw_tags, &draw_data).unwrap();
    let seed = &states[2];
    assert_eq!(seed.begin_draws, Vec::<u32>::new());
    assert!(!seed.has_active_non_clip);
}

#[test]
fn layer_seed_stack_includes_active_non_clip_layers() {
    let draw_tags = [DrawTag::BEGIN_CLIP];
    let draw_data = [DrawBeginClip::CLIP_BLEND_MODE + 1, 0.6f32.to_bits()];
    let states = layer_seed_states(&draw_tags, &draw_data).unwrap();
    let seed = &states[1];
    assert_eq!(seed.begin_draws, vec![0]);
    assert!(seed.has_active_non_clip);
    assert!(!seed.active_non_clip_src_over);
    assert!(!seed.active_non_clip_replay_safe);
    assert_eq!(seed.non_replay_safe_non_clip_begin_draws, vec![0]);
}

#[test]
fn layer_seed_stack_marks_src_over_active_non_clip_layers() {
    let draw_tags = [DrawTag::BEGIN_CLIP];
    let draw_data = [src_over_begin_clip_blend_mode(), 0.72f32.to_bits()];
    let states = layer_seed_states(&draw_tags, &draw_data).unwrap();
    let seed = &states[1];
    assert_eq!(seed.begin_draws, vec![0]);
    assert!(seed.has_active_non_clip);
    assert!(seed.active_non_clip_src_over);
    assert!(!seed.active_non_clip_replay_safe);
    assert_eq!(seed.non_replay_safe_non_clip_begin_draws, vec![0]);
}

#[test]
fn layer_seed_stack_treats_zero_alpha_src_over_as_non_contributing() {
    let draw_tags = [DrawTag::BEGIN_CLIP];
    let draw_data = [src_over_begin_clip_blend_mode(), 0.0f32.to_bits()];
    let states = layer_seed_states(&draw_tags, &draw_data).unwrap();
    let seed = &states[1];
    assert_eq!(seed.begin_draws, vec![0]);
    assert!(seed.has_active_non_clip);
    assert!(seed.active_non_clip_src_over);
    assert!(!seed.active_non_clip_replay_safe);
    assert_eq!(seed.non_replay_safe_non_clip_begin_draws, Vec::<u32>::new());
}

#[test]
fn layer_seed_stack_treats_zero_alpha_non_luminance_as_non_contributing() {
    let draw_tags = [DrawTag::BEGIN_CLIP];
    let draw_data = [
        vello_encoding::DrawBeginClip::new(
            peniko::BlendMode::new(peniko::Mix::Multiply, peniko::Compose::SrcOver),
            1.0,
        )
        .blend_mode,
        0.0f32.to_bits(),
    ];
    let states = layer_seed_states(&draw_tags, &draw_data).unwrap();
    let seed = &states[1];
    assert_eq!(seed.begin_draws, vec![0]);
    assert!(seed.has_active_non_clip);
    assert!(!seed.active_non_clip_src_over);
    assert!(!seed.active_non_clip_replay_safe);
    assert_eq!(seed.non_replay_safe_non_clip_begin_draws, Vec::<u32>::new());
}

#[test]
fn layer_seed_stack_keeps_zero_alpha_luminance_mask_as_paint_sensitive() {
    let draw_tags = [DrawTag::BEGIN_CLIP];
    let draw_data = [DrawBeginClip::LUMINANCE_MASK_BLEND_MODE, 0.0f32.to_bits()];
    let states = layer_seed_states(&draw_tags, &draw_data).unwrap();
    let seed = &states[1];
    assert_eq!(seed.begin_draws, vec![0]);
    assert!(seed.has_active_non_clip);
    assert!(!seed.active_non_clip_src_over);
    assert!(!seed.active_non_clip_replay_safe);
    assert_eq!(seed.non_replay_safe_non_clip_begin_draws, vec![0]);
}

#[test]
fn layer_seed_stack_marks_replay_safe_active_non_clip_layers() {
    let draw_tags = [DrawTag::BEGIN_CLIP];
    let draw_data = [src_over_begin_clip_blend_mode(), 1.0f32.to_bits()];
    let states = layer_seed_states(&draw_tags, &draw_data).unwrap();
    let seed = &states[1];
    assert_eq!(seed.begin_draws, vec![0]);
    assert!(seed.has_active_non_clip);
    assert!(seed.active_non_clip_src_over);
    assert!(seed.active_non_clip_replay_safe);
    assert_eq!(seed.non_replay_safe_non_clip_begin_draws, Vec::<u32>::new());
}

#[test]
fn layer_seed_stack_returns_active_clip_begin_indices() {
    let draw_tags = [
        DrawTag::BEGIN_CLIP,
        DrawTag::BEGIN_CLIP,
        DrawTag::END_CLIP,
        DrawTag::BEGIN_CLIP,
    ];
    let draw_data = [
        DrawBeginClip::CLIP_BLEND_MODE,
        0,
        DrawBeginClip::CLIP_BLEND_MODE,
        0,
        DrawBeginClip::CLIP_BLEND_MODE,
        0,
    ];
    let states = layer_seed_states(&draw_tags, &draw_data).unwrap();
    let seed = &states[4];
    assert_eq!(seed.begin_draws, vec![0, 3]);
    assert!(!seed.has_active_non_clip);
}

#[test]
fn first_range_supports_active_non_clip_only() {
    let draw_tags = [DrawTag::BEGIN_CLIP, DrawTag::BEGIN_CLIP];
    let draw_data = [
        DrawBeginClip::CLIP_BLEND_MODE + 1,
        0,
        DrawBeginClip::CLIP_BLEND_MODE,
        0,
    ];
    let offsets = draw_data_offsets(&draw_tags);
    assert!(first_range_supports_seeded_non_clip_layers(
        &draw_tags, &draw_data, &offsets, 2, false, false
    ));
    assert!(!first_range_supports_seeded_non_clip_layers(
        &draw_tags, &draw_data, &offsets, 2, true, false
    ));
    assert!(!first_range_supports_seeded_non_clip_layers(
        &draw_tags, &draw_data, &offsets, 2, true, true
    ));
}

#[test]
fn first_range_rejects_closed_non_clip() {
    let draw_tags = [DrawTag::BEGIN_CLIP, DrawTag::END_CLIP];
    let draw_data = [DrawBeginClip::CLIP_BLEND_MODE + 1, 0];
    let offsets = draw_data_offsets(&draw_tags);
    assert!(!first_range_supports_seeded_non_clip_layers(
        &draw_tags, &draw_data, &offsets, 2, false, false
    ));
}

#[test]
fn first_range_supports_src_over_active_non_clip() {
    let draw_tags = [DrawTag::BEGIN_CLIP, DrawTag::BEGIN_CLIP];
    let draw_data = [
        src_over_begin_clip_blend_mode(),
        0.68f32.to_bits(),
        DrawBeginClip::CLIP_BLEND_MODE,
        0,
    ];
    let offsets = draw_data_offsets(&draw_tags);
    assert!(first_range_supports_seeded_non_clip_layers(
        &draw_tags, &draw_data, &offsets, 2, true, false
    ));
    assert!(!first_range_supports_seeded_non_clip_layers(
        &draw_tags, &draw_data, &offsets, 2, true, true
    ));
}

#[test]
fn first_range_supports_replay_safe_active_non_clip() {
    let draw_tags = [DrawTag::BEGIN_CLIP, DrawTag::BEGIN_CLIP];
    let draw_data = [
        src_over_begin_clip_blend_mode(),
        1.0f32.to_bits(),
        DrawBeginClip::CLIP_BLEND_MODE,
        0,
    ];
    let offsets = draw_data_offsets(&draw_tags);
    assert!(first_range_supports_seeded_non_clip_layers(
        &draw_tags, &draw_data, &offsets, 2, true, true
    ));
}

#[test]
fn replay_range_supports_src_over_non_clip_layers() {
    let draw_tags = [DrawTag::BEGIN_CLIP];
    let draw_data = [src_over_begin_clip_blend_mode(), 0.7f32.to_bits()];
    let offsets = draw_data_offsets(&draw_tags);
    assert!(replay_range_supports_layers(
        &draw_tags, &draw_data, &offsets, 0, 1, true, false
    ));
    assert!(!replay_range_supports_layers(
        &draw_tags, &draw_data, &offsets, 0, 1, true, true
    ));
    assert!(!replay_range_supports_layers(
        &draw_tags, &draw_data, &offsets, 0, 1, false, false
    ));
}

#[test]
fn post_first_backdrop_boundary_allows_non_replay_safe_painted_if_opened_after_first_backdrop()
{
    let seed = LayerSeedState {
        begin_draws: vec![7, 12],
        has_active_non_clip: true,
        active_non_clip_src_over: false,
        active_non_clip_replay_safe: false,
        non_replay_safe_non_clip_begin_draws: vec![12],
    };
    assert!(post_first_backdrop_boundary_allows_non_replay_safe_painted(
        &seed, 8, true, false
    ));
    assert!(!post_first_backdrop_boundary_allows_non_replay_safe_painted(
        &seed, 12, true, false
    ));
    assert!(!post_first_backdrop_boundary_allows_non_replay_safe_painted(
        &seed, 8, false, false
    ));
}

#[test]
fn post_first_backdrop_boundary_rejects_non_replay_safe_painted_if_opened_before_first_backdrop(
) {
    let seed = LayerSeedState {
        begin_draws: vec![4],
        has_active_non_clip: true,
        active_non_clip_src_over: false,
        active_non_clip_replay_safe: false,
        non_replay_safe_non_clip_begin_draws: vec![4],
    };
    assert!(!post_first_backdrop_boundary_allows_non_replay_safe_painted(
        &seed, 8, true, false
    ));
    assert!(post_first_backdrop_boundary_allows_non_replay_safe_painted(
        &seed, 8, true, true
    ));
}

#[test]
fn post_first_backdrop_boundary_rejects_mixed_non_replay_safe_origins() {
    let seed = LayerSeedState {
        begin_draws: vec![4, 12],
        has_active_non_clip: true,
        active_non_clip_src_over: false,
        active_non_clip_replay_safe: false,
        non_replay_safe_non_clip_begin_draws: vec![4, 12],
    };
    assert!(!post_first_backdrop_boundary_allows_non_replay_safe_painted(
        &seed, 8, true, false
    ));
    assert!(post_first_backdrop_boundary_allows_non_replay_safe_painted(
        &seed, 8, true, true
    ));
}

#[test]
fn post_first_backdrop_boundary_rejects_src_over_non_replay_safe_layers() {
    let seed = LayerSeedState {
        begin_draws: vec![4],
        has_active_non_clip: true,
        active_non_clip_src_over: true,
        active_non_clip_replay_safe: false,
        non_replay_safe_non_clip_begin_draws: vec![4],
    };
    assert!(!post_first_backdrop_boundary_allows_non_replay_safe_painted(
        &seed, 8, true, true
    ));
}

#[test]
fn prefirst_paint_free_boundary_allowance_requires_three_backdrops() {
    assert!(!allow_prefirst_paint_free_non_replay_safe_boundary(0));
    assert!(!allow_prefirst_paint_free_non_replay_safe_boundary(1));
    assert!(!allow_prefirst_paint_free_non_replay_safe_boundary(2));
    assert!(allow_prefirst_paint_free_non_replay_safe_boundary(3));
    assert!(allow_prefirst_paint_free_non_replay_safe_boundary(4));
}

#[test]
fn replay_range_supports_closed_non_replay_safe_non_clip_layers() {
    let draw_tags = [
        DrawTag::COLOR,
        DrawTag::BEGIN_CLIP,
        DrawTag::COLOR,
        DrawTag::END_CLIP,
    ];
    let draw_data = [
        0xff010203u32,
        DrawBeginClip::CLIP_BLEND_MODE + 1,
        0.84f32.to_bits(),
        0xff000000,
    ];
    let offsets = draw_data_offsets(&draw_tags);
    assert!(replay_range_supports_layers(
        &draw_tags, &draw_data, &offsets, 1, 4, false, false
    ));
    assert!(replay_range_supports_layers(
        &draw_tags, &draw_data, &offsets, 1, 4, true, true
    ));
    assert!(!replay_range_supports_layers(
        &draw_tags, &draw_data, &offsets, 0, 4, false, false
    ));
}

#[test]
fn replay_range_rejects_active_non_replay_safe_non_clip_layers() {
    let draw_tags = [DrawTag::COLOR, DrawTag::BEGIN_CLIP, DrawTag::COLOR];
    let draw_data = [
        0xff010203u32,
        DrawBeginClip::CLIP_BLEND_MODE + 1,
        0.84f32.to_bits(),
        0xff000000,
    ];
    let offsets = draw_data_offsets(&draw_tags);
    assert!(!replay_range_supports_layers(
        &draw_tags, &draw_data, &offsets, 1, 3, false, false
    ));
    assert!(!replay_range_supports_layers(
        &draw_tags, &draw_data, &offsets, 1, 3, true, true
    ));
}

#[test]
fn replay_range_seeded_non_replay_safe_paint_rules() {
    let draw_tags = [DrawTag::END_CLIP, DrawTag::COLOR];
    let draw_data = [0xff000000u32];
    let offsets = draw_data_offsets(&draw_tags);
    let seed = LayerSeedState {
        begin_draws: vec![8],
        has_active_non_clip: true,
        active_non_clip_src_over: false,
        active_non_clip_replay_safe: false,
        non_replay_safe_non_clip_begin_draws: vec![8],
    };
    assert!(replay_range_non_replay_safe_layers_paint_free(
        &draw_tags,
        &draw_data,
        &offsets,
        0,
        2,
        Some(&seed),
    ));

    let draw_tags = [DrawTag::COLOR, DrawTag::END_CLIP];
    let offsets = draw_data_offsets(&draw_tags);
    assert!(!replay_range_non_replay_safe_layers_paint_free(
        &draw_tags,
        &draw_data,
        &offsets,
        0,
        2,
        Some(&seed),
    ));

    let draw_tags = [DrawTag::BEGIN_CLIP, DrawTag::END_CLIP, DrawTag::COLOR];
    let draw_data = [DrawBeginClip::CLIP_BLEND_MODE + 1, 0.6f32.to_bits(), 0xff000000];
    let offsets = draw_data_offsets(&draw_tags);
    assert!(replay_range_non_replay_safe_layers_paint_free(
        &draw_tags,
        &draw_data,
        &offsets,
        0,
        3,
        None,
    ));

    let draw_tags = [DrawTag::BEGIN_CLIP, DrawTag::COLOR, DrawTag::END_CLIP];
    let offsets = draw_data_offsets(&draw_tags);
    assert!(!replay_range_non_replay_safe_layers_paint_free(
        &draw_tags,
        &draw_data,
        &offsets,
        0,
        3,
        None,
    ));
}

#[test]
fn replay_range_luminance_mask_post_pop_paint_is_supported() {
    let draw_tags = [DrawTag::BEGIN_CLIP, DrawTag::END_CLIP, DrawTag::COLOR];
    let draw_data = [
        DrawBeginClip::LUMINANCE_MASK_BLEND_MODE,
        1.0f32.to_bits(),
        0xff000000,
    ];
    let offsets = draw_data_offsets(&draw_tags);
    assert!(replay_range_non_replay_safe_layers_paint_free(
        &draw_tags,
        &draw_data,
        &offsets,
        0,
        3,
        None,
    ));

    let draw_tags = [DrawTag::BEGIN_CLIP, DrawTag::COLOR, DrawTag::END_CLIP];
    let offsets = draw_data_offsets(&draw_tags);
    assert!(!replay_range_non_replay_safe_layers_paint_free(
        &draw_tags,
        &draw_data,
        &offsets,
        0,
        3,
        None,
    ));
}

#[test]
fn replay_range_allows_strictly_transparent_paint_while_non_replay_safe_active() {
    let draw_tags = [DrawTag::BEGIN_CLIP, DrawTag::COLOR, DrawTag::END_CLIP];
    let transparent = 0x00ffffffu32;
    let draw_data = [DrawBeginClip::CLIP_BLEND_MODE + 1, 0.7f32.to_bits(), transparent];
    let offsets = draw_data_offsets(&draw_tags);
    assert!(!draw_tag_is_effective_paint(&draw_tags, &draw_data, &offsets, 0));
    assert!(!draw_tag_is_effective_paint(&draw_tags, &draw_data, &offsets, 1));
    assert!(replay_range_non_replay_safe_layers_paint_free(
        &draw_tags,
        &draw_data,
        &offsets,
        0,
        3,
        None,
    ));
}

#[test]
fn replay_range_allows_paint_inside_zero_alpha_src_over_layer() {
    let draw_tags = [DrawTag::BEGIN_CLIP, DrawTag::COLOR, DrawTag::END_CLIP];
    let opaque = 0xff2a2a2au32;
    let draw_data = [src_over_begin_clip_blend_mode(), 0.0f32.to_bits(), opaque];
    let offsets = draw_data_offsets(&draw_tags);
    assert!(draw_tag_is_effective_paint(&draw_tags, &draw_data, &offsets, 1));
    assert!(replay_range_non_replay_safe_layers_paint_free(
        &draw_tags,
        &draw_data,
        &offsets,
        0,
        3,
        None,
    ));
}

#[test]
fn replay_range_allows_paint_inside_zero_alpha_non_luminance_layer() {
    let draw_tags = [DrawTag::BEGIN_CLIP, DrawTag::COLOR, DrawTag::END_CLIP];
    let opaque = 0xff2a2a2au32;
    let draw_data = [
        vello_encoding::DrawBeginClip::new(
            peniko::BlendMode::new(peniko::Mix::Multiply, peniko::Compose::SrcOver),
            1.0,
        )
        .blend_mode,
        0.0f32.to_bits(),
        opaque,
    ];
    let offsets = draw_data_offsets(&draw_tags);
    assert!(draw_tag_is_effective_paint(&draw_tags, &draw_data, &offsets, 1));
    assert!(replay_range_non_replay_safe_layers_paint_free(
        &draw_tags,
        &draw_data,
        &offsets,
        0,
        3,
        None,
    ));
}

#[test]
fn replay_range_rejects_paint_inside_zero_alpha_luminance_mask_layer() {
    let draw_tags = [DrawTag::BEGIN_CLIP, DrawTag::COLOR, DrawTag::END_CLIP];
    let opaque = 0xff2a2a2au32;
    let draw_data = [
        DrawBeginClip::LUMINANCE_MASK_BLEND_MODE,
        0.0f32.to_bits(),
        opaque,
    ];
    let offsets = draw_data_offsets(&draw_tags);
    assert!(draw_tag_is_effective_paint(&draw_tags, &draw_data, &offsets, 1));
    assert!(!replay_range_non_replay_safe_layers_paint_free(
        &draw_tags,
        &draw_data,
        &offsets,
        0,
        3,
        None,
    ));
}

#[test]
fn synthetic_end_clips_extend_draw_and_path_streams() {
    let (layout, packed) = repack_streams(
        vec![PathTag::PATH],
        Vec::new(),
        vec![DrawTag::BEGIN_CLIP],
        vec![DrawBeginClip::CLIP_BLEND_MODE, 0],
        vec![Transform::identity()],
        vec![Style::default()],
        1,
    );
    let (extended_layout, extended_packed) = append_synthetic_end_clips(layout, packed, 1);
    assert_eq!(extended_layout.n_draw_objects, 2);
    assert_eq!(extended_layout.n_paths, 2);
    assert_eq!(extended_layout.n_clips, 2);
    assert!(extended_layout.draw_tags(&extended_packed) == [DrawTag::BEGIN_CLIP, DrawTag::END_CLIP]);
    assert!(extended_layout.path_tags(&extended_packed).len() >= 2);
    assert_eq!(
        extended_layout.draw_data(&extended_packed),
        &[DrawBeginClip::CLIP_BLEND_MODE, 0]
    );
}

#[test]
fn layers_past_the_deciding_draw_object_need_no_offset() {
    let draw_tags = [DrawTag::END_CLIP, DrawTag::BEGIN_CLIP];
    assert!(!first_range_supports_seeded_non_clip_layers(
        &draw_tags,
        &[],
        &[0],
        2,
        false,
        false,
    ));

    let draw_tags = [DrawTag::BEGIN_CLIP, DrawTag::COLOR, DrawTag::BEGIN_CLIP];
    let draw_data = [DrawBeginClip::CLIP_BLEND_MODE + 1, 0.6f32.to_bits(), 0xff000000];
    assert!(!replay_range_non_replay_safe_layers_paint_free(
        &draw_tags,
        &draw_data,
        &[0, 2],
        0,
        3,
        None,
    ));
}
