//! Which scenes are replayed, and in which segments.

use backdrop_render::encoding::{src_over_begin_clip_blend_mode, DrawBeginClip, DrawTag};
use backdrop_render::layers::{layer_seed_state_at, layer_seed_states};
use backdrop_render::replay::{supports_segment_replay, ReplayScene, Segment};

const COLOR: u32 = 0xff00_00ff;

fn replay(draw_tags: &[u32], draw_data: &[u32], ops: &[u32]) -> ReplayScene {
    ReplayScene::new(draw_tags.to_vec(), draw_data.to_vec(), draw_tags.len() as u32, ops.to_vec())
        .unwrap()
}

fn segment(draw_start: u32, draw_end: u32, seeds: &[u32], ends: u32) -> Segment {
    Segment {
        draw_start,
        draw_end,
        clip_seed_begin_draws: seeds.to_vec(),
        synthetic_end_clip_count: ends,
    }
}

#[test]
fn plain_scenes_are_replayed_around_their_backdrops() {
    let scene = replay(&[DrawTag::COLOR; 6], &[COLOR; 6], &[2, 3, 3]);
    assert!(scene.replayable());
    assert_eq!(scene.op_count(), 3);
    assert_eq!(scene.first_segment(), segment(0, 2, &[], 0));
    assert_eq!(scene.segment_before(0), None);
    assert_eq!(scene.segment_before(1), None);
    assert_eq!(scene.segment_before(2), None);
    assert_eq!(scene.tail_segment(), Some(segment(4, 6, &[], 0)));
}

#[test]
fn a_scene_without_backdrops_is_one_segment() {
    let scene = replay(&[DrawTag::COLOR; 3], &[COLOR; 3], &[]);
    assert!(scene.replayable());
    assert_eq!(scene.first_segment(), segment(0, 3, &[], 0));
    assert_eq!(scene.tail_segment(), None);
}

#[test]
fn every_draw_lies_in_one_segment() {
    let ops = [1u32, 4, 5, 8];
    let scene = replay(&[DrawTag::COLOR; 10], &[COLOR; 10], &ops);
    let mut segments = vec![scene.first_segment()];
    for k in 0..ops.len() {
        segments.extend(scene.segment_before(k));
    }
    segments.extend(scene.tail_segment());
    for draw in 0..10u32 {
        let count =
            segments.iter().filter(|s| s.draw_start <= draw && draw < s.draw_end).count();
        assert_eq!(count, if ops.contains(&draw) { 0 } else { 1 });
    }
}

#[test]
fn clips_are_opened_again_behind_a_backdrop() {
    let tags = [
        DrawTag::BEGIN_CLIP,
        DrawTag::COLOR,
        DrawTag::COLOR,
        DrawTag::COLOR,
        DrawTag::COLOR,
        DrawTag::END_CLIP,
    ];
    let data = [DrawBeginClip::CLIP_BLEND_MODE, 0, COLOR, COLOR, COLOR, COLOR];
    let scene = replay(&tags, &data, &[1, 3]);
    assert!(scene.replayable());
    assert_eq!(scene.first_segment(), segment(0, 1, &[], 0));
    assert_eq!(scene.segment_before(1), Some(segment(2, 3, &[0], 0)));
    assert_eq!(scene.tail_segment(), Some(segment(4, 6, &[0], 0)));
}

#[test]
fn one_backdrop_may_stand_inside_any_layer() {
    let tags = [DrawTag::BEGIN_CLIP, DrawTag::COLOR, DrawTag::COLOR, DrawTag::END_CLIP];
    let data = [DrawBeginClip::LUMINANCE_MASK_BLEND_MODE, 1.0f32.to_bits(), COLOR, COLOR];
    let scene = replay(&tags, &data, &[2]);
    assert!(scene.replayable());
    assert_eq!(scene.first_segment(), segment(0, 2, &[], 1));
    assert_eq!(scene.tail_segment(), Some(segment(3, 4, &[0], 0)));
}

#[test]
fn replay_safe_layers_allow_two_backdrops() {
    let tags = [
        DrawTag::BEGIN_CLIP,
        DrawTag::COLOR,
        DrawTag::COLOR,
        DrawTag::COLOR,
        DrawTag::COLOR,
        DrawTag::END_CLIP,
    ];
    let safe = [src_over_begin_clip_blend_mode(), 1.0f32.to_bits(), COLOR, COLOR, COLOR, COLOR];
    let scene = replay(&tags, &safe, &[2, 4]);
    assert!(scene.replayable());
    assert_eq!(scene.first_segment(), segment(0, 2, &[], 1));
    assert_eq!(scene.segment_before(1), Some(segment(3, 4, &[0], 1)));
    assert_eq!(scene.tail_segment(), Some(segment(5, 6, &[0], 0)));
    let faint = [src_over_begin_clip_blend_mode(), 0.5f32.to_bits(), COLOR, COLOR, COLOR, COLOR];
    assert!(!replay(&tags, &faint, &[2, 4]).replayable());
    let clear = [src_over_begin_clip_blend_mode(), 0.5f32.to_bits(), 0, 0, 0, 0];
    assert!(replay(&tags, &clear, &[2, 4]).replayable());
}

#[test]
fn late_layers_allow_paint_between_backdrops() {
    let tags = [
        DrawTag::COLOR,
        DrawTag::BEGIN_CLIP,
        DrawTag::COLOR,
        DrawTag::COLOR,
        DrawTag::COLOR,
        DrawTag::END_CLIP,
    ];
    let data = [
        COLOR,
        DrawBeginClip::CLIP_BLEND_MODE + 1,
        0.5f32.to_bits(),
        COLOR,
        COLOR,
        COLOR,
    ];
    // The layer begins behind the first backdrop. The range in which it begins and
    // stays open has paint under it, so that the range itself is not supported.
    assert!(!replay(&tags, &data, &[0, 3]).replayable());
    // Cut right behind its beginning, all is supported.
    assert!(replay(&tags, &data, &[0, 2]).replayable());
    let early = [
        DrawTag::BEGIN_CLIP,
        DrawTag::COLOR,
        DrawTag::COLOR,
        DrawTag::COLOR,
        DrawTag::COLOR,
        DrawTag::END_CLIP,
    ];
    let early_data = [
        DrawBeginClip::CLIP_BLEND_MODE + 1,
        0.5f32.to_bits(),
        COLOR,
        COLOR,
        COLOR,
        COLOR,
    ];
    assert!(!replay(&early, &early_data, &[1, 3]).replayable());
}

#[test]
fn scenes_whose_layers_do_not_nest_are_refused() {
    assert!(ReplayScene::new(vec![DrawTag::END_CLIP], vec![], 1, vec![0]).is_none());
    assert!(ReplayScene::new(vec![DrawTag::BEGIN_CLIP], vec![], 1, vec![0]).is_none());
}

#[test]
fn backdrops_have_to_be_draw_objects() {
    assert!(supports_segment_replay(&[0, 2], &[DrawTag::COLOR; 3]));
    assert!(!supports_segment_replay(&[0, 3], &[DrawTag::COLOR; 3]));
    assert!(supports_segment_replay(&[], &[]));
    let scene = ReplayScene::new(vec![DrawTag::COLOR; 2], vec![COLOR; 2], 5, vec![3]).unwrap();
    assert!(!scene.replayable());
}

#[test]
fn closed_layers_leave_no_trace() {
    let tags = [
        DrawTag::BEGIN_CLIP,
        DrawTag::BEGIN_CLIP,
        DrawTag::COLOR,
        DrawTag::END_CLIP,
        DrawTag::END_CLIP,
    ];
    let data = [DrawBeginClip::CLIP_BLEND_MODE, 0, 7, 0, COLOR];
    let states = layer_seed_states(&tags, &data).unwrap();
    assert_eq!(states[1], states[4]);
    assert_eq!(states[0], states[5]);
    assert_eq!(layer_seed_state_at(&states, 2).unwrap().begin_draws, vec![0, 1]);
    assert!(layer_seed_state_at(&states, 6).is_none());
}
