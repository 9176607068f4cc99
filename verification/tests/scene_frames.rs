//! Frames of scenes with and without backdrops.

use backdrop_render::backdrop::{
    apply_backdrop_op, apply_tinted_backdrop_op, compose_src_over, copy_image, BackdropBlurOp,
    BackdropImages, Rect,
};
use backdrop_render::coarse::{AaConfig, FullShaders, Ramps, RenderParams};
use backdrop_render::color::Color;
use backdrop_render::encoding::DrawTag;
use backdrop_render::frame::{render_scene_with_backdrop_legacy, FrameSetup};
use backdrop_render::layout::{pack_streams, Layout};
use backdrop_render::recording::{
    BufferProxy, Command, ImageFormat, ImageProxy, Recording, ResourceIds, ResourceProxy, ShaderId,
};
use backdrop_render::render::Render;
use backdrop_render::resolve::{resolve, ResolvedScene};
use backdrop_render::scene::{
    backdrops_in_order, render_encoding_full, render_full, render_resolved_full,
    render_resolved_with_backdrop, render_scene_with_backdrop, Scene,
};
use peniko::kurbo::{Diagonal2, Join, Rect as Shape};
use vello_encoding::{Encoding, FontEmbolden, Glyph, GlyphRun, Patch, Resolver, Transform};

fn shaders() -> FullShaders {
    FullShaders {
        pathtag_reduce: ShaderId(1),
        pathtag_reduce2: ShaderId(2),
        pathtag_scan1: ShaderId(3),
        pathtag_scan: ShaderId(4),
        pathtag_scan_large: ShaderId(5),
        bbox_clear: ShaderId(6),
        flatten: ShaderId(7),
        draw_reduce: ShaderId(8),
        draw_leaf: ShaderId(9),
        clip_reduce: ShaderId(10),
        clip_leaf: ShaderId(11),
        binning: ShaderId(12),
        tile_alloc: ShaderId(13),
        backdrop: ShaderId(14),
        path_count_setup: ShaderId(15),
        path_count: ShaderId(16),
        coarse: ShaderId(17),
        path_tiling_setup: ShaderId(18),
        path_tiling: ShaderId(19),
        fine_area: Some(ShaderId(20)),
        fine_msaa8: Some(ShaderId(21)),
        fine_msaa16: None,
        backdrop_src_over: ShaderId(23),
        backdrop_copy: ShaderId(24),
        backdrop_blur_h: ShaderId(25),
        backdrop_blur_v: ShaderId(26),
        backdrop_apply: ShaderId(27),
        pathtag_is_cpu: false,
    }
}

fn params() -> RenderParams {
    let one = 1.0f32.to_bits();
    RenderParams {
        base_color: Color { red: one, green: one, blue: one, alpha: one },
        width: 100,
        height: 50,
        antialiasing_method: AaConfig::Area,
    }
}

fn rect(x0: f64, y0: f64, x1: f64, y1: f64) -> Rect {
    Rect { x0: x0.to_bits(), y0: y0.to_bits(), x1: x1.to_bits(), y1: y1.to_bits() }
}

fn op(draw_index: u32) -> BackdropBlurOp {
    BackdropBlurOp {
        draw_index,
        blur_bounds: rect(5.0, 5.0, 45.0, 30.0),
        apply_bounds: rect(10.0, 10.0, 40.0, 25.0),
        blur_radius: 6,
        sigma: 2.0f32.to_bits(),
        inv_row0: [1, 2, 3, 4],
        inv_row1: [5, 6, 7, 8],
        rect: [9, 10, 11, 12],
        radius_soft: [13, 14, 15, 16],
        tint: Color { red: 0, green: 0, blue: 0, alpha: 1.0f32.to_bits() },
    }
}

/// A backdrop that does not touch the frame.
fn hidden(draw_index: u32) -> BackdropBlurOp {
    BackdropBlurOp { apply_bounds: rect(500.0, 0.0, 600.0, 10.0), ..op(draw_index) }
}

fn draw_rect(encoding: &mut Encoding) {
    encoding.encode_transform(Transform::IDENTITY);
    encoding.encode_fill_style(peniko::Fill::NonZero);
    encoding.encode_shape(&Shape::new(0.0, 0.0, 20.0, 20.0), true);
    encoding.encode_color(peniko::Color::from_rgba8(1, 2, 3, 255));
}

fn begin_layer(encoding: &mut Encoding, mix: peniko::Mix, alpha: f32) {
    encoding.encode_transform(Transform::IDENTITY);
    encoding.encode_fill_style(peniko::Fill::NonZero);
    encoding.encode_shape(&Shape::new(0.0, 0.0, 90.0, 40.0), true);
    let mode = peniko::BlendMode::new(mix, peniko::Compose::SrcOver);
    encoding.encode_begin_clip(vello_encoding::DrawBeginClip::new(mode, alpha));
}

fn colors(count: usize) -> Encoding {
    let mut encoding = Encoding::new();
    for _ in 0..count {
        draw_rect(&mut encoding);
    }
    encoding
}

fn resolved(encoding: &Encoding) -> ResolvedScene {
    resolve(encoding, &mut Resolver::new()).unwrap()
}

fn dispatches(recording: &Recording, shader: usize) -> Vec<&Vec<ResourceProxy>> {
    recording
        .commands
        .iter()
        .filter_map(|command| match command {
            Command::Dispatch(id, _, bindings) if id.0 == shader => Some(bindings),
            _ => None,
        })
        .collect()
}

fn image_of(resource: &ResourceProxy) -> ImageProxy {
    match resource {
        ResourceProxy::Image(image) => *image,
        ResourceProxy::Buffer(buffer) => panic!("{buffer:?}"),
    }
}

/// Every resource but the image of the frame is freed, and nothing else is.
fn assert_leaves_only(recording: &Recording, image: ImageProxy, first: u64) {
    let mut freed: Vec<u64> = recording
        .commands
        .iter()
        .filter_map(|command| match command {
            Command::FreeBuffer(buffer) => Some(buffer.id),
            Command::FreeImage(image) => Some(image.id),
            _ => None,
        })
        .collect();
    freed.sort();
    freed.dedup();
    assert_eq!(freed, (first..image.id).collect::<Vec<u64>>());
}

/// The number of draw objects of each scene that is uploaded.
fn uploaded_draws(recording: &Recording) -> Vec<u32> {
    recording
        .commands
        .iter()
        .filter_map(|command| match command {
            Command::UploadUniform(buffer, bytes) if buffer.name == "vello.config" => {
                Some(u32::from_le_bytes([bytes[20], bytes[21], bytes[22], bytes[23]]))
            }
            _ => None,
        })
        .collect()
}

#[test]
fn resolved_scenes_are_packed() {
    let scene = resolved(&colors(2));
    assert_eq!(scene.layout.n_draw_objects, 2);
    assert_eq!(scene.layout.n_paths, 2);
    assert_eq!(scene.layout.path_tag_base, 0);
    assert_eq!(scene.layout.draw_tags(&scene.packed), vec![DrawTag::COLOR, DrawTag::COLOR]);
    assert_eq!(scene.layout.draw_data(&scene.packed), vec![0xff03_0201, 0xff03_0201]);
    assert!(scene.ramps.data.is_empty());
    assert!(scene.images.is_empty());
}

#[test]
fn resolved_streams_stand_in_a_row() {
    let mut encoding = colors(1);
    begin_layer(&mut encoding, peniko::Mix::Normal, 0.5);
    draw_rect(&mut encoding);
    assert_eq!(encoding.n_open_clips, 1);
    let scene = resolved(&encoding);

    let mut path_tags: Vec<u8> = encoding.path_tags.iter().map(|tag| tag.0).collect();
    path_tags.push(0x10);
    path_tags.resize(1024, 0);
    let mut draw_tags: Vec<u32> = encoding.draw_tags.iter().map(|tag| tag.0).collect();
    draw_tags.push(DrawTag::END_CLIP);
    let mut words = encoding.path_data.clone();
    let draw_tag_base = 256 + words.len();
    words.extend_from_slice(&draw_tags);
    let draw_data_base = 256 + words.len();
    words.extend_from_slice(&encoding.draw_data);
    let transform_base = 256 + words.len();
    for transform in &encoding.transforms {
        words.extend(transform.matrix.iter().map(|value| value.to_bits()));
        words.extend(transform.translation.iter().map(|value| value.to_bits()));
    }
    let style_base = 256 + words.len();
    for style in &encoding.styles {
        words.extend_from_slice(&[style.flags_and_miter_limit, style.line_width.to_bits()]);
    }
    let mut packed = path_tags;
    packed.extend(words.iter().flat_map(|word| word.to_le_bytes()));

    assert_eq!(scene.packed, packed);
    assert_eq!(scene.layout.n_draw_objects, encoding.n_paths);
    assert_eq!(scene.layout.n_paths, encoding.n_paths);
    assert_eq!(scene.layout.n_clips, encoding.n_clips);
    assert_eq!(scene.layout.bin_data_start, 3);
    assert_eq!(scene.layout.path_tag_base, 0);
    assert_eq!(scene.layout.path_data_base, 256);
    assert_eq!(scene.layout.draw_tag_base as usize, draw_tag_base);
    assert_eq!(scene.layout.draw_data_base as usize, draw_data_base);
    assert_eq!(scene.layout.transform_base as usize, transform_base);
    assert_eq!(scene.layout.style_base as usize, style_base);
    assert_eq!((scene.atlas_width, scene.atlas_height), (0, 0));
    assert_eq!((scene.ramps.width, scene.ramps.height), (0, 0));
}

#[test]
fn resolved_gradients_have_ramps() {
    let mut encoding = Encoding::new();
    encoding.encode_transform(Transform::IDENTITY);
    encoding.encode_fill_style(peniko::Fill::NonZero);
    encoding.encode_shape(&Shape::new(0.0, 0.0, 20.0, 20.0), true);
    let gradient = peniko::Gradient::new_linear((0.0, 0.0), (20.0, 0.0))
        .with_stops([peniko::Color::WHITE, peniko::Color::BLACK]);
    encoding.encode_brush(&peniko::Brush::Gradient(gradient), 1.0);
    let scene = resolved(&encoding);
    assert_eq!((scene.ramps.width, scene.ramps.height), (512, 1));
    assert_eq!(scene.ramps.data.len(), 512);
    assert_eq!(scene.ramps.data[0], 0xffff_ffff);
    assert_eq!(scene.layout.draw_tags(&scene.packed), vec![DrawTag::LINEAR_GRADIENT]);
    assert_eq!(scene.layout.n_clips, 0);
    assert_eq!(scene.layout.bin_data_start, 4);
    assert_eq!(scene.layout.n_paths, 1);
    let offset = match &encoding.resources.patches[0] {
        Patch::Ramp { draw_data_offset, .. } => *draw_data_offset,
        _ => panic!("no gradient"),
    };
    let mut expected = encoding.draw_data.clone();
    expected[offset] = 0;
    assert_eq!(scene.layout.draw_data(&scene.packed), expected);
    assert_eq!((scene.atlas_width, scene.atlas_height), (1024, 1024));
}

#[test]
fn resolved_gradients_get_their_ramps_and_extends() {
    let mut encoding = Encoding::new();
    for extend in [peniko::Extend::Pad, peniko::Extend::Reflect] {
        encoding.encode_transform(Transform::IDENTITY);
        encoding.encode_fill_style(peniko::Fill::NonZero);
        encoding.encode_shape(&Shape::new(0.0, 0.0, 20.0, 20.0), true);
        let end = if extend == peniko::Extend::Pad {
            peniko::Color::BLACK
        } else {
            peniko::Color::WHITE
        };
        let gradient = peniko::Gradient::new_linear((0.0, 0.0), (20.0, 0.0))
            .with_extend(extend)
            .with_stops([peniko::Color::WHITE, end]);
        encoding.encode_brush(&peniko::Brush::Gradient(gradient), 1.0);
    }
    let scene = resolved(&encoding);
    let data = scene.layout.draw_data(&scene.packed);
    assert_eq!(scene.ramps.height, 2);
    assert_eq!(data[0], 0);
    assert_eq!(data[5], (1 << 2) | 2);
    assert_eq!(data[1..5], encoding.draw_data[1..5]);
    assert_eq!(data[6..], encoding.draw_data[6..]);
}

fn ramp(draw_data_offset: usize, stops: std::ops::Range<usize>) -> Patch {
    Patch::Ramp {
        draw_data_offset,
        stops,
        extend: peniko::Extend::Pad,
        interpolation_alpha_space: peniko::InterpolationAlphaSpace::Premultiplied,
    }
}

fn image(draw_data_offset: usize) -> Patch {
    Patch::Image {
        draw_data_offset,
        image: peniko::ImageData {
            data: peniko::Blob::new(std::sync::Arc::new(vec![0u8; 4])),
            format: peniko::ImageFormat::Rgba8,
            alpha_type: peniko::ImageAlphaType::Alpha,
            width: 1,
            height: 1,
        },
    }
}

fn glyph_run(glyphs: std::ops::Range<usize>, coords: std::ops::Range<usize>) -> GlyphRun {
    GlyphRun {
        font: peniko::FontData::new(peniko::Blob::new(std::sync::Arc::new(Vec::<u8>::new())), 0),
        transform: Transform::IDENTITY,
        glyph_transform: None,
        brush_transform: None,
        font_size: 16.0,
        font_embolden: Default::default(),
        hint: false,
        normalized_coords: coords,
        style: peniko::Style::Fill(peniko::Fill::NonZero),
        glyphs,
        stream_offsets: Default::default(),
    }
}

fn resolves(encoding: &Encoding) -> bool {
    resolve(encoding, &mut Resolver::new()).is_some()
}

#[test]
fn encodings_that_refer_to_nothing_are_not_resolved() {
    let stop = peniko::ColorStop::from((0.0, peniko::Color::WHITE));
    let mut with_stops = colors(4);
    with_stops.resources.color_stops = vec![stop; 3];
    let patched = |patches: Vec<Patch>| {
        let mut encoding = with_stops.clone();
        encoding.resources.patches = patches;
        encoding
    };
    assert!(resolves(&patched(vec![ramp(0, 0..3), ramp(3, 1..2)])));
    assert!(!resolves(&patched(vec![ramp(0, 0..4)])));
    assert!(!resolves(&patched(vec![ramp(0, 1..1)])));
    assert!(!resolves(&patched(vec![ramp(0, 3..2)])));
    assert!(!resolves(&patched(vec![ramp(4, 0..3)])));
    assert!(!resolves(&patched(vec![ramp(1, 0..3), ramp(1, 0..3)])));
    assert!(!resolves(&patched(vec![ramp(1, 0..3), ramp(0, 0..3)])));
    assert!(resolves(&patched(vec![image(0), image(2)])));
    assert!(!resolves(&patched(vec![image(3)])));
    assert!(!resolves(&patched(vec![image(0), ramp(1, 0..3)])));
    assert!(!resolves(&patched(vec![image(usize::MAX)])));
    assert!(!resolves(&patched(vec![Patch::GlyphRun { index: 0 }])));

    let mut encoding = patched(vec![Patch::GlyphRun { index: 0 }]);
    encoding.resources.glyph_runs = vec![glyph_run(0..0, 0..0)];
    let scene = resolved(&encoding);
    assert_eq!(scene.layout.n_paths, 4);
    assert_eq!(scene.layout.draw_data(&scene.packed), encoding.draw_data);
    for run in [glyph_run(0..1, 0..0), glyph_run(0..0, 0..1), glyph_run(2..1, 0..0)] {
        encoding.resources.glyph_runs = vec![run];
        assert!(!resolves(&encoding));
    }
    let mut run = glyph_run(0..0, 0..0);
    run.stream_offsets.styles = encoding.styles.len();
    encoding.resources.glyph_runs = vec![run.clone()];
    assert!(resolves(&encoding));
    run.stream_offsets.styles += 1;
    encoding.resources.glyph_runs = vec![run.clone()];
    assert!(!resolves(&encoding));
    run.stream_offsets.styles = 0;
    run.glyphs = 0..1;
    encoding.resources.glyphs = vec![Glyph::default()];
    let (inf, nan) = (f64::INFINITY, f64::NAN);
    for (x, y, join, tolerance, bounded) in [
        (0.0, 0.0, Join::Round, 0.0, true),
        (0.0, 1.5, Join::Round, 0.0, true),
        (1.5, 0.0, Join::Miter, 0.0, true),
        (1.5, 0.0, Join::Bevel, 0.0, true),
        (1.5, 0.0, Join::Round, 0.1, true),
        (1.5, 0.0, Join::Round, 1.0e-40, true),
        (1.5, -2.0, Join::Round, 1.0e-105, true),
        (1.5, 0.0, Join::Round, -0.1, true),
        (1.5, 0.0, Join::Round, nan, true),
        (1.5, 0.0, Join::Round, inf, true),
        (nan, 1.5, Join::Round, 0.0, true),
        (1.5, nan, Join::Round, 0.0, true),
        (inf, inf, Join::Round, 0.0, true),
        (inf, 0.0, Join::Round, 0.0, true),
        (5.0e-324, 0.0, Join::Round, 5.0e-324, true),
        (1.5, 0.0, Join::Round, 0.0, false),
        (1.5, 0.0, Join::Round, -0.0, false),
        (-1.5, 0.0, Join::Round, 5.0e-324, false),
        (1.5, 0.0, Join::Round, 1.0e-107, false),
        (1.0e-100, 1.0e100, Join::Round, 1.0e-10, false),
        (inf, 1.0, Join::Round, 0.1, false),
        (1.0, -inf, Join::Round, 0.1, false),
    ] {
        run.font_embolden = FontEmbolden::new(Diagonal2::new(x, y)).with_join(join);
        run.font_embolden.tolerance = tolerance;
        encoding.resources.glyph_runs = vec![run.clone()];
        assert_eq!(resolves(&encoding), bounded, "{x} {y} {join:?} {tolerance}");
    }
    // There is no corner without a glyph.
    run.glyphs = 1..1;
    run.font_embolden = FontEmbolden::new(Diagonal2::new(1.5, 0.0)).with_join(Join::Round);
    run.font_embolden.tolerance = 0.0;
    encoding.resources.glyph_runs = vec![run.clone()];
    assert!(resolves(&encoding));
    encoding.resources.glyphs = Vec::new();
    encoding.resources.glyph_runs = vec![glyph_run(0..0, 0..0)];
    encoding.n_paths = u32::MAX;
    assert!(!resolves(&encoding));

    let mut ids = ResourceIds::new();
    let frame =
        render_encoding_full(&encoding, &mut Resolver::new(), &mut ids, &shaders(), &params());
    assert!(frame.is_none());
    let scene = Scene { encoding, backdrop_blur_ops: Vec::new() };
    let frame = render_full(&scene, &mut Resolver::new(), &mut ids, &shaders(), &params());
    assert!(frame.is_none());
    assert_eq!(ids.allocate(), 1);
}

#[test]
fn resolved_images_come_with_their_pixels() {
    let pixels: Vec<u8> = (0..16).collect();
    let image = peniko::ImageData {
        data: peniko::Blob::new(std::sync::Arc::new(pixels.clone())),
        format: peniko::ImageFormat::Bgra8,
        alpha_type: peniko::ImageAlphaType::AlphaPremultiplied,
        width: 2,
        height: 2,
    };
    let mut encoding = Encoding::new();
    encoding.encode_transform(Transform::IDENTITY);
    encoding.encode_fill_style(peniko::Fill::NonZero);
    encoding.encode_shape(&Shape::new(0.0, 0.0, 20.0, 20.0), true);
    let brush = peniko::ImageBrush::new(image);
    encoding.encode_image(&brush, 1.0);
    let scene = resolved(&encoding);
    assert_eq!(scene.images.len(), 1);
    assert_eq!(scene.images[0].0.data, pixels);
    assert_eq!(scene.images[0].0.format, ImageFormat::Bgra8);
    assert_eq!((scene.images[0].0.width, scene.images[0].0.height), (2, 2));
    assert!(scene.atlas_width > 0 && scene.atlas_height > 0);
}

#[test]
fn a_scene_without_backdrops_is_one_pass() {
    let encoding = colors(2);
    let mut ids = ResourceIds::new();
    let (recording, image) =
        render_encoding_full(&encoding, &mut Resolver::new(), &mut ids, &shaders(), &params())
            .unwrap();
    assert_eq!(dispatches(&recording, 20).len(), 1);
    assert_eq!(image_of(&image).id, 25);
    assert_eq!(uploaded_draws(&recording), vec![2]);

    let scene = Scene { encoding, backdrop_blur_ops: Vec::new() };
    let (full, full_image) = render_full(
        &scene,
        &mut Resolver::new(),
        &mut ResourceIds::new(),
        &shaders(),
        &params(),
    )
    .unwrap();
    assert_eq!(full, recording);
    assert_eq!(full_image, image);

    let mut render = Render::new();
    let mut ids = ResourceIds::new();
    let mut coarse = render
        .render_encoding_coarse(
            &mut ids,
            &scene.encoding,
            &mut Resolver::new(),
            &shaders(),
            &params(),
            false,
        )
        .unwrap();
    render.record_fine(&mut ids, &shaders(), &mut coarse);
    assert_eq!(coarse, recording);
}

#[test]
fn a_frame_that_is_too_large_is_refused() {
    let large = RenderParams { width: u32::MAX, ..params() };
    let scene = resolved(&colors(1));
    let setup = FrameSetup {
        scene: &scene,
        shaders: &shaders(),
        params: &large,
        mask_lut: &[],
    };
    assert!(render_resolved_full(&setup, &mut ResourceIds::new()).is_none());
    let encoding = colors(1);
    let refused = Render::new().render_encoding_coarse(
        &mut ResourceIds::new(),
        &encoding,
        &mut Resolver::new(),
        &shaders(),
        &large,
        false,
    );
    assert!(refused.is_none());
    let backdrops = Scene { encoding: colors(2), backdrop_blur_ops: vec![op(1)] };
    let mut ids = ResourceIds::new();
    assert!(render_full(&backdrops, &mut Resolver::new(), &mut ids, &shaders(), &large).is_none());
}

#[test]
fn an_unreadable_scene_is_refused() {
    let mut scene = resolved(&colors(2));
    scene.packed.truncate(20);
    let setup = FrameSetup {
        scene: &scene,
        shaders: &shaders(),
        params: &params(),
        mask_lut: &[],
    };
    let mut ids = ResourceIds::new();
    assert!(render_resolved_with_backdrop(&setup, &mut ids, &[op(1)]).is_none());
}

#[test]
fn a_backdrop_with_a_side_that_ends_nowhere_is_refused() {
    let scene = resolved(&colors(2));
    let setup = FrameSetup {
        scene: &scene,
        shaders: &shaders(),
        params: &params(),
        mask_lut: &[],
    };
    let broken = BackdropBlurOp { blur_bounds: rect(5.0, 5.0, f64::NAN, 30.0), ..op(1) };
    let mut ids = ResourceIds::new();
    assert!(render_resolved_with_backdrop(&setup, &mut ids, &[broken]).is_none());
    // One that is not in the scene is not looked at.
    let absent = BackdropBlurOp { draw_index: 9, ..broken };
    assert!(render_resolved_with_backdrop(&setup, &mut ids, &[absent]).is_some());
}

#[test]
fn backdrops_are_sorted_and_stable() {
    let a = BackdropBlurOp { blur_radius: 1, ..op(4) };
    let b = BackdropBlurOp { blur_radius: 2, ..op(2) };
    let c = BackdropBlurOp { blur_radius: 3, ..op(4) };
    let d = BackdropBlurOp { blur_radius: 4, ..op(7) };
    let e = BackdropBlurOp { blur_radius: 5, ..op(2) };
    assert_eq!(backdrops_in_order(&[a, b, c, d, e], 7), vec![b, e, a, c]);
    assert_eq!(backdrops_in_order(&[a, b], 0), vec![]);
}

#[test]
fn composition_covers_the_frame() {
    let mut ids = ResourceIds::new();
    let params_buf = BufferProxy::new(&mut ids, 16, "params");
    let a = ImageProxy::new(&mut ids, 17, 8, ImageFormat::Rgba8);
    let b = ImageProxy::new(&mut ids, 17, 8, ImageFormat::Rgba8);
    let c = ImageProxy::new(&mut ids, 17, 8, ImageFormat::Rgba8);
    let mut recording = Recording::default();
    compose_src_over(&mut recording, &shaders(), params_buf, 17, 8, a, b, c);
    copy_image(&mut recording, &shaders(), params_buf, 16, 0, b, c);
    assert_eq!(
        recording.commands,
        vec![
            Command::Dispatch(
                ShaderId(23),
                (3, 1, 1),
                vec![
                    ResourceProxy::Buffer(params_buf),
                    ResourceProxy::Image(a),
                    ResourceProxy::Image(b),
                    ResourceProxy::Image(c)
                ]
            ),
            Command::Dispatch(
                ShaderId(24),
                (2, 0, 1),
                vec![
                    ResourceProxy::Buffer(params_buf),
                    ResourceProxy::Image(b),
                    ResourceProxy::Image(c)
                ]
            ),
        ]
    );
}

#[test]
fn a_backdrop_blurs_and_is_applied() {
    let mut ids = ResourceIds::new();
    let params_buf = BufferProxy::new(&mut ids, 16, "params");
    let mut image = || ImageProxy::new(&mut ids, 100, 50, ImageFormat::Rgba8);
    let images = BackdropImages {
        source: image(),
        scene_image: image(),
        blur_tmp: image(),
        blur_image: image(),
        scene_tmp: image(),
    };
    let mut recording = Recording::default();
    let applied = apply_tinted_backdrop_op(
        &mut recording,
        &mut ids,
        &shaders(),
        &params(),
        params_buf,
        &op(1),
        0x0403_0201,
        images,
    );
    assert!(applied);
    let words = |words: &[u32]| words.iter().flat_map(|word| word.to_le_bytes()).collect::<Vec<u8>>();
    let blur_buf = BufferProxy { size: 48, id: 7, name: "vello.backdrop_blur_params" };
    let apply_buf = BufferProxy { size: 96, id: 8, name: "vello.backdrop_apply_params" };
    assert_eq!(
        recording.commands[0],
        Command::UploadUniform(
            blur_buf,
            words(&[100, 50, 6, 0, 5, 5, 40, 25, 2.0f32.to_bits(), 0, 0, 0])
        )
    );
    assert_eq!(
        recording.commands[1],
        Command::Dispatch(
            ShaderId(25),
            (5, 4, 1),
            vec![
                ResourceProxy::Buffer(blur_buf),
                ResourceProxy::Image(images.source),
                ResourceProxy::Image(images.blur_tmp)
            ]
        )
    );
    assert_eq!(recording.commands[3], Command::FreeBuffer(blur_buf));
    assert_eq!(
        recording.commands[4],
        Command::UploadUniform(
            apply_buf,
            words(&[
                100, 50, 0x0403_0201, 0, 10, 10, 30, 15, 1, 2, 3, 4, 5, 6, 7, 8, 9, 10, 11, 12, 13,
                14, 15, 16
            ])
        )
    );
    assert_eq!(
        recording.commands[6],
        Command::Dispatch(
            ShaderId(27),
            (4, 2, 1),
            vec![
                ResourceProxy::Buffer(apply_buf),
                ResourceProxy::Image(images.scene_image),
                ResourceProxy::Image(images.blur_image),
                ResourceProxy::Image(images.scene_tmp)
            ]
        )
    );
    assert_eq!(recording.commands[7], Command::FreeBuffer(apply_buf));
    assert_eq!(recording.commands.len(), 8);
    // The tint of the backdrop is opaque black.
    let mut tinted = Recording::default();
    assert!(apply_backdrop_op(
        &mut tinted,
        &mut ids,
        &shaders(),
        &params(),
        params_buf,
        &op(1),
        images
    ));
    match &tinted.commands[4] {
        Command::UploadUniform(_, bytes) => assert_eq!(bytes[8..12], [0, 0, 0, 255]),
        other => panic!("{other:?}"),
    }
    let mut nothing = Recording::default();
    assert!(!apply_backdrop_op(
        &mut nothing,
        &mut ids,
        &shaders(),
        &params(),
        params_buf,
        &hidden(1),
        images
    ));
    assert!(nothing.commands.is_empty());
}

#[test]
fn segments_are_composed_around_a_backdrop() {
    let scene = resolved(&colors(4));
    let setup = FrameSetup {
        scene: &scene,
        shaders: &shaders(),
        params: &params(),
        mask_lut: &[],
    };
    let mut ids = ResourceIds::new();
    let (recording, image) = render_resolved_with_backdrop(&setup, &mut ids, &[op(1)]).unwrap();
    // One draw object before the backdrop, two behind it.
    assert_eq!(uploaded_draws(&recording), vec![1, 2]);
    let blur = dispatches(&recording, 25);
    let composed = dispatches(&recording, 23);
    assert_eq!(blur.len(), 1);
    assert_eq!(composed.len(), 1);
    // The backdrop blurs the image of the first segment, and what it gives is what
    // the last segment is composed over.
    let fine = dispatches(&recording, 20);
    assert_eq!(fine.len(), 2);
    assert_eq!(blur[0][1], fine[0][5]);
    let applied = dispatches(&recording, 27);
    assert_eq!(applied[0][3], composed[0][1]);
    assert_eq!(composed[0][2], fine[1][5]);
    let copies = dispatches(&recording, 24);
    assert_eq!(copies.last().unwrap()[1], composed[0][3]);
    assert_eq!(copies.last().unwrap()[2], image);
    assert_leaves_only(&recording, image_of(&image), 1);
}

#[test]
fn a_first_segment_without_draws_is_an_image() {
    let scene = resolved(&colors(2));
    let setup = FrameSetup {
        scene: &scene,
        shaders: &shaders(),
        params: &params(),
        mask_lut: &[],
    };
    let mut ids = ResourceIds::new();
    let (recording, image) = render_resolved_with_backdrop(&setup, &mut ids, &[op(0)]).unwrap();
    assert_eq!(uploaded_draws(&recording), vec![1]);
    match &recording.commands[1] {
        Command::UploadImage(_, bytes) => assert_eq!(*bytes, vec![255; 100 * 50 * 4]),
        other => panic!("{other:?}"),
    }
    assert_leaves_only(&recording, image_of(&image), 1);
}

#[test]
fn backdrops_at_the_same_draw_follow_each_other() {
    let scene = resolved(&colors(3));
    let setup = FrameSetup {
        scene: &scene,
        shaders: &shaders(),
        params: &params(),
        mask_lut: &[],
    };
    let mut ids = ResourceIds::new();
    let (recording, image) =
        render_resolved_with_backdrop(&setup, &mut ids, &[op(1), op(1), hidden(2)]).unwrap();
    assert_eq!(uploaded_draws(&recording), vec![1]);
    let blur = dispatches(&recording, 25);
    let applied = dispatches(&recording, 27);
    assert_eq!(blur.len(), 2);
    assert_eq!(blur[1][1], applied[0][3]);
    assert_leaves_only(&recording, image_of(&image), 1);
}

#[test]
fn a_layer_is_closed_and_opened_again_at_a_backdrop() {
    let mut encoding = Encoding::new();
    begin_layer(&mut encoding, peniko::Mix::Multiply, 0.5);
    draw_rect(&mut encoding);
    draw_rect(&mut encoding);
    draw_rect(&mut encoding);
    encoding.encode_end_clip();
    let scene = resolved(&encoding);
    let setup = FrameSetup {
        scene: &scene,
        shaders: &shaders(),
        params: &params(),
        mask_lut: &[],
    };
    let mut ids = ResourceIds::new();
    let (recording, image) = render_resolved_with_backdrop(&setup, &mut ids, &[op(2)]).unwrap();
    // The layer, a color and a synthetic end; the layer again, a color and its end.
    assert_eq!(uploaded_draws(&recording), vec![3, 3]);
    assert_eq!(dispatches(&recording, 23).len(), 1);
    assert_leaves_only(&recording, image_of(&image), 1);
}

#[test]
fn painted_layers_with_two_backdrops_fall_back() {
    let mut encoding = Encoding::new();
    begin_layer(&mut encoding, peniko::Mix::Multiply, 0.5);
    draw_rect(&mut encoding);
    draw_rect(&mut encoding);
    draw_rect(&mut encoding);
    draw_rect(&mut encoding);
    encoding.encode_end_clip();
    let scene = resolved(&encoding);
    let setup = FrameSetup {
        scene: &scene,
        shaders: &shaders(),
        params: &params(),
        mask_lut: &[],
    };
    let ops = [op(2), op(4)];
    let mut ids = ResourceIds::new();
    let (recording, image) = render_resolved_with_backdrop(&setup, &mut ids, &ops).unwrap();
    // The whole scene, and what is drawn before each backdrop.
    assert_eq!(uploaded_draws(&recording), vec![6, 2, 4]);
    assert!(dispatches(&recording, 23).is_empty());
    let fine = dispatches(&recording, 20);
    let blur = dispatches(&recording, 25);
    let applied = dispatches(&recording, 27);
    assert_eq!(blur[0][1], fine[1][5]);
    assert_eq!(blur[1][1], fine[2][5]);
    assert_eq!(applied[0][1], fine[0][5]);
    assert_eq!(applied[1][1], applied[0][3]);
    assert_leaves_only(&recording, image_of(&image), 1);
    let mut ids = ResourceIds::new();
    let (legacy, legacy_image) = render_scene_with_backdrop_legacy(&setup, &mut ids, &ops).unwrap();
    assert_eq!(legacy, recording);
    assert_eq!(ResourceProxy::Image(legacy_image), image);
}

#[test]
fn hidden_backdrops_need_no_prefix() {
    let scene = resolved(&colors(2));
    let setup = FrameSetup {
        scene: &scene,
        shaders: &shaders(),
        params: &params(),
        mask_lut: &[],
    };
    let mut ids = ResourceIds::new();
    let (recording, image) =
        render_scene_with_backdrop_legacy(&setup, &mut ids, &[hidden(1)]).unwrap();
    assert_eq!(uploaded_draws(&recording), vec![2]);
    assert_eq!(dispatches(&recording, 24).len(), 1);
    assert_leaves_only(&recording, image, 1);
}

#[test]
fn sampled_frames_free_their_masks() {
    let sampled = RenderParams { antialiasing_method: AaConfig::Msaa8, ..params() };
    let scene = Scene { encoding: colors(3), backdrop_blur_ops: vec![op(1)] };
    let mut ids = ResourceIds::new();
    let (recording, image) =
        render_scene_with_backdrop(&scene, &mut Resolver::new(), &mut ids, &shaders(), &sampled)
            .unwrap();
    assert_eq!(dispatches(&recording, 21).len(), 2);
    let masks = recording
        .commands
        .iter()
        .filter(|command| matches!(command, Command::Upload(buffer, bytes)
            if buffer.name == "vello.mask_lut" && bytes.len() == 1024))
        .count();
    assert_eq!(masks, 2);
    assert_leaves_only(&recording, image_of(&image), 1);
}

/// A scene with these draw tags and draw data, and without paths.
fn bare_scene(draw_tags: &[u32], draw_data: &[u32]) -> ResolvedScene {
    let n_draw_objects = draw_tags.len() as u32;
    let counts = Layout { n_draw_objects, n_paths: n_draw_objects, ..Layout::default() };
    let (layout, packed) = pack_streams(&[], &[], draw_tags, draw_data, &[], &[], counts);
    ResolvedScene {
        layout,
        packed,
        ramps: Ramps { data: Vec::new(), width: 0, height: 0 },
        atlas_width: 0,
        atlas_height: 0,
        images: Vec::new(),
    }
}

#[test]
fn a_scene_needs_only_what_its_parts_need() {
    let (shaders, params) = (shaders(), params());
    let render = |scene: &ResolvedScene, ops: &[BackdropBlurOp]| {
        let setup = FrameSetup { scene, shaders: &shaders, params: &params, mask_lut: &[] };
        render_resolved_with_backdrop(&setup, &mut ResourceIds::new(), ops)
    };
    // The backdrop takes the place of a color without draw data.
    let scene = bare_scene(&[DrawTag::COLOR], &[]);
    let (recording, _) = render(&scene, &[op(0)]).unwrap();
    assert_eq!(uploaded_draws(&recording), Vec::<u32>::new());
    // A color without draw data is drawn before the backdrop, and behind it.
    let scene = bare_scene(&[DrawTag::COLOR, DrawTag::COLOR], &[]);
    assert!(render(&scene, &[op(1)]).is_none());
    assert!(render(&scene, &[op(0)]).is_none());
    // The transforms cannot be read, and no part reads them.
    let mut scene = bare_scene(&[DrawTag::COLOR], &[]);
    scene.layout.style_base += 1;
    let (recording, _) = render(&scene, &[op(0)]).unwrap();
    assert_eq!(uploaded_draws(&recording), Vec::<u32>::new());
    assert!(render(&scene, &[]).is_none());
    // A layer without parameters is drawn as a part of the whole scene.
    let scene = bare_scene(&[DrawTag::COLOR, DrawTag::BEGIN_CLIP], &[7]);
    let (recording, _) = render(&scene, &[op(1)]).unwrap();
    assert_eq!(uploaded_draws(&recording), vec![2, 1]);
}

#[test]
fn images_are_freed_once_and_the_frame_is_written_last() {
    for count in [3, 4] {
        let scene = resolved(&colors(count));
        let (shaders, params) = (shaders(), params());
        let setup = FrameSetup { scene: &scene, shaders: &shaders, params: &params, mask_lut: &[] };
        let ops = [op(1), op(2)];
        let replayed =
            render_resolved_with_backdrop(&setup, &mut ResourceIds::new(), &ops).unwrap();
        let whole =
            render_scene_with_backdrop_legacy(&setup, &mut ResourceIds::new(), &ops).unwrap();
        for (recording, image) in [(replayed.0, image_of(&replayed.1)), whole] {
            let mut freed = Vec::new();
            let mut writers = Vec::new();
            let mut dispatches = Vec::new();
            for (i, command) in recording.commands.iter().enumerate() {
                match command {
                    Command::FreeImage(image) => freed.push(image.id),
                    Command::Dispatch(_, _, bindings) => {
                        dispatches.push(i);
                        if bindings.contains(&ResourceProxy::Image(image)) {
                            writers.push(i);
                        }
                    }
                    Command::DispatchIndirect(..) => dispatches.push(i),
                    _ => {}
                }
            }
            let all = freed.len();
            freed.sort();
            freed.dedup();
            assert_eq!(freed.len(), all);
            assert!(!freed.contains(&image.id));
            assert_eq!(writers, vec![*dispatches.last().unwrap()]);
        }
    }
}
