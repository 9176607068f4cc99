//! Tags, counts and colors, held against the outside crates.

use backdrop_render::color::{
    filled_image, image_fits, premultiplied_rgba, solid_image_data, Color,
};
use backdrop_render::encoding::{
    draw_data_size, draw_info_size, draw_prefix_monoid, info_size_sum, pack_path_tags,
    src_over_begin_clip_blend_mode, try_draw_prefix_monoid, try_pack_path_tags, DrawBeginClip,
    DrawMonoid, DrawTag, PathMonoid, PathTag,
};
use backdrop_render::recording::{AlphaType, ImageFormat};

fn color(r: f32, g: f32, b: f32, a: f32) -> Color {
    Color { red: r.to_bits(), green: g.to_bits(), blue: b.to_bits(), alpha: a.to_bits() }
}

#[test]
fn tags_are_those_of_the_encoding() {
    assert_eq!(DrawTag::NOP, vello_encoding::DrawTag::NOP.0);
    assert_eq!(DrawTag::COLOR, vello_encoding::DrawTag::COLOR.0);
    assert_eq!(DrawTag::LINEAR_GRADIENT, vello_encoding::DrawTag::LINEAR_GRADIENT.0);
    assert_eq!(DrawTag::RADIAL_GRADIENT, vello_encoding::DrawTag::RADIAL_GRADIENT.0);
    assert_eq!(DrawTag::SWEEP_GRADIENT, vello_encoding::DrawTag::SWEEP_GRADIENT.0);
    assert_eq!(DrawTag::IMAGE, vello_encoding::DrawTag::IMAGE.0);
    assert_eq!(DrawTag::BLUR_RECT, vello_encoding::DrawTag::BLUR_RECT.0);
    assert_eq!(DrawTag::BEGIN_CLIP, vello_encoding::DrawTag::BEGIN_CLIP.0);
    assert_eq!(DrawTag::END_CLIP, vello_encoding::DrawTag::END_CLIP.0);
    assert_eq!(PathTag::PATH, vello_encoding::PathTag::PATH.0);
    assert_eq!(PathTag::TRANSFORM, vello_encoding::PathTag::TRANSFORM.0);
    assert_eq!(PathTag::STYLE, vello_encoding::PathTag::STYLE.0);
}

#[test]
fn blend_modes_are_those_of_the_encoding() {
    assert_eq!(
        DrawBeginClip::LUMINANCE_MASK_BLEND_MODE,
        vello_encoding::DrawBeginClip::LUMINANCE_MASK_BLEND_MODE
    );
    assert_eq!(
        DrawBeginClip::CLIP_BLEND_MODE,
        vello_encoding::DrawBeginClip::CLIP_BLEND_MODE
    );
    assert_eq!(src_over_begin_clip_blend_mode(), DrawBeginClip::SRC_OVER_BLEND_MODE);
    assert_eq!(src_over_begin_clip_blend_mode(), 3);
}

#[test]
fn sizes_of_draw_tags() {
    assert_eq!(draw_data_size(DrawTag::COLOR), 1);
    assert_eq!(draw_data_size(DrawTag::BEGIN_CLIP), 2);
    assert_eq!(draw_data_size(DrawTag::END_CLIP), 0);
    assert_eq!(draw_data_size(DrawTag::IMAGE), 3);
    assert_eq!(draw_data_size(DrawTag::BLUR_RECT), 5);
    assert_eq!(draw_data_size(DrawTag::BACKDROP_BLUR_RECT), 5);
    assert_eq!(draw_info_size(DrawTag::COLOR), 1);
    assert_eq!(draw_info_size(DrawTag::END_CLIP), 0);
    assert_eq!(draw_info_size(DrawTag::BLUR_RECT), 11);
    assert_eq!(draw_info_size(DrawTag::BACKDROP_BLUR_RECT), 11);
}

#[test]
fn counts_of_draw_tags() {
    let tags = [DrawTag::COLOR, DrawTag::BEGIN_CLIP, DrawTag::NOP, DrawTag::END_CLIP];
    let counts = DrawMonoid { path_ix: 3, clip_ix: 2, scene_offset: 3, info_offset: 2 };
    assert_eq!(draw_prefix_monoid(&tags), counts);
    assert_eq!(try_draw_prefix_monoid(&tags), Some(counts));
    assert_eq!(info_size_sum(&tags), 2);
    let none = DrawMonoid { path_ix: 0, clip_ix: 0, scene_offset: 0, info_offset: 0 };
    assert_eq!(draw_prefix_monoid(&[]), none);
}

#[test]
fn counts_of_path_tags() {
    // A transform, a style, a line to an f32 point, a quadratic with i16 points that
    // ends a subpath, and a path marker: five tags, so that the last word has one.
    let tags = [PathTag::TRANSFORM, PathTag::STYLE, 0x9, 0x6, PathTag::PATH];
    let counts = PathMonoid {
        trans_ix: 1,
        pathseg_ix: 2,
        pathseg_offset: 5,
        style_ix: 2,
        path_ix: 1,
    };
    assert_eq!(pack_path_tags(&tags), counts);
    assert_eq!(try_pack_path_tags(&tags), Some(counts));
}

#[test]
fn colors_are_premultiplied() {
    assert_eq!(premultiplied_rgba(color(1.0, 0.0, 0.0, 1.0)), 0xff00_00ff);
    assert_eq!(premultiplied_rgba(color(0.0, 1.0, 0.0, 1.0)), 0xff00_ff00);
    assert_eq!(premultiplied_rgba(color(1.0, 1.0, 1.0, 0.5)), 0x8080_8080);
    assert_eq!(premultiplied_rgba(Color::transparent()), 0);
    assert_eq!(premultiplied_rgba(color(f32::NAN, 0.0, 0.0, 1.0)), 0xff00_0000);
}

#[test]
fn solid_images_repeat_one_pixel() {
    let image = solid_image_data(3, 2, color(1.0, 0.0, 0.0, 0.5));
    assert_eq!(image.width, 3);
    assert_eq!(image.height, 2);
    assert_eq!(image.format, ImageFormat::Rgba8);
    assert_eq!(image.alpha_type, AlphaType::Alpha);
    assert_eq!(image.data, [0x80, 0, 0, 0x80].repeat(6));
    assert_eq!(image.copy(), image);
    assert_eq!(filled_image(1, 1, 0x0403_0201).data, vec![1, 2, 3, 4]);
    assert!(filled_image(0, 7, 0xffff_ffff).data.is_empty());
}

#[test]
fn images_that_fit() {
    assert!(image_fits(8192, 8192));
    assert!(image_fits(0, u32::MAX));
    assert!(!image_fits(u32::MAX, u32::MAX));
}
