//! Configurations and recordings of single passes.

use backdrop_render::coarse::{AaConfig, FullShaders, Ramps, RenderParams};
use backdrop_render::color::Color;
use backdrop_render::config::{exceeds_bins, render_config_fits, RenderConfig};
use backdrop_render::layout::Layout;
use backdrop_render::masks::sample_masks;
use backdrop_render::recording::{
    AlphaType, BufferProxy, Command, ImageData, ImageFormat, ImageProxy, Recording, ResourceIds,
    ResourceProxy, ShaderId,
};
use backdrop_render::render::Render;

fn shaders() -> FullShaders {
    FullShaders {
        pathtag_reduce: ShaderId(1),
        pathtag_reduce2: ShaderId(2),
        pathtag_scan1: ShaderId(3),
        pathtag_scan: ShaderId(4),
        pathtag_scan_large: ShaderId(5),
        bbox_clear: ShaderId(6),
        flatten: ShaderId(7),
        draw_reduce: ShaderId(8),
        draw_leaf: ShaderId(9),
        clip_reduce: ShaderId(10),
        clip_leaf: ShaderId(11),
        binning: ShaderId(12),
        tile_alloc: ShaderId(13),
        backdrop: ShaderId(14),
        path_count_setup: ShaderId(15),
        path_count: ShaderId(16),
        coarse: ShaderId(17),
        path_tiling_setup: ShaderId(18),
        path_tiling: ShaderId(19),
        fine_area: Some(ShaderId(20)),
        fine_msaa8: Some(ShaderId(21)),
        fine_msaa16: Some(ShaderId(22)),
        backdrop_src_over: ShaderId(23),
        backdrop_copy: ShaderId(24),
        backdrop_blur_h: ShaderId(25),
        backdrop_blur_v: ShaderId(26),
        backdrop_apply: ShaderId(27),
        pathtag_is_cpu: false,
    }
}

fn params(antialiasing_method: AaConfig) -> RenderParams {
    let one = 1.0f32.to_bits();
    RenderParams {
        base_color: Color { red: one, green: 0, blue: 0, alpha: one },
        width: 100,
        height: 50,
        antialiasing_method,
    }
}

fn layout() -> Layout {
    Layout {
        n_draw_objects: 3,
        n_paths: 4,
        n_clips: 2,
        bin_data_start: 3,
        path_tag_base: 0,
        path_data_base: 6,
        draw_tag_base: 8,
        draw_data_base: 11,
        transform_base: 14,
        style_base: 20,
    }
}

fn no_ramps() -> Ramps {
    Ramps { data: Vec::new(), width: 0, height: 0 }
}

fn dispatched(recording: &Recording) -> Vec<usize> {
    recording
        .commands
        .iter()
        .filter_map(|command| match command {
            Command::Dispatch(shader, _, _) => Some(shader.0),
            Command::DispatchIndirect(shader, _, _, _) => Some(shader.0),
            _ => None,
        })
        .collect()
}

fn freed(recording: &Recording) -> Vec<u64> {
    recording
        .commands
        .iter()
        .filter_map(|command| match command {
            Command::FreeBuffer(buffer) => Some(buffer.id),
            Command::FreeImage(image) => Some(image.id),
            _ => None,
        })
        .collect()
}

#[test]
fn configuration_of_a_small_scene() {
    let params = params(AaConfig::Area);
    let config = RenderConfig::new(layout(), 100, 50, params.base_color);
    let expected = vello_encoding::RenderConfig::new(
        &vello_encoding::Layout {
            n_draw_objects: 3,
            n_paths: 4,
            n_clips: 2,
            bin_data_start: 3,
            path_tag_base: 0,
            path_data_base: 6,
            draw_tag_base: 8,
            draw_data_base: 11,
            transform_base: 14,
            style_base: 20,
        },
        100,
        50,
        &peniko::Color::from_rgba8(255, 0, 0, 255),
    );
    // Seven by four tiles, the size of the frame, and the base color.
    assert_eq!(config.gpu[..5], [7, 4, 100, 50, 0xff00_00ff]);
    assert_eq!(config.gpu[5..15], [3, 4, 2, 3, 0, 6, 8, 11, 14, 20]);
    assert_eq!(config.gpu[15..], [1 << 21, (1 << 18) - 3, 1 << 21, 1 << 21, 1 << 21, 1 << 20, 1 << 23]);
    let counts = config.workgroup_counts;
    assert!(!counts.use_large_path_scan);
    assert_eq!(counts.path_reduce, (1, 1, 1));
    assert_eq!(counts.path_reduce2, expected.workgroup_counts.path_reduce2);
    assert_eq!(counts.path_scan1, expected.workgroup_counts.path_scan1);
    assert_eq!(counts.path_scan, expected.workgroup_counts.path_scan);
    assert_eq!(counts.bbox_clear, expected.workgroup_counts.bbox_clear);
    assert_eq!(counts.flatten, expected.workgroup_counts.flatten);
    assert_eq!(counts.draw_reduce, expected.workgroup_counts.draw_reduce);
    assert_eq!(counts.draw_leaf, expected.workgroup_counts.draw_leaf);
    assert_eq!(counts.clip_reduce, (0, 1, 1));
    assert_eq!(counts.clip_leaf, (1, 1, 1));
    assert_eq!(counts.binning, expected.workgroup_counts.binning);
    assert_eq!(counts.tile_alloc, expected.workgroup_counts.tile_alloc);
    assert_eq!(counts.path_count_setup, expected.workgroup_counts.path_count_setup);
    assert_eq!(counts.backdrop, expected.workgroup_counts.backdrop);
    assert_eq!(counts.coarse, (1, 1, 1));
    assert_eq!(counts.path_tiling_setup, expected.workgroup_counts.path_tiling_setup);
    assert_eq!(counts.fine, (7, 4, 1));
    let sizes = config.buffer_sizes;
    assert_eq!(sizes.path_reduced, 20);
    assert_eq!(sizes.path_reduced2, 20 * 256);
    assert_eq!(sizes.path_reduced_scan, 20);
    assert_eq!(sizes.path_monoids, 20 * 256);
    assert_eq!(sizes.path_bboxes, 24 * 4);
    assert_eq!(sizes.draw_reduced, 16);
    assert_eq!(sizes.draw_monoids, 16 * 3);
    assert_eq!(sizes.clip_inps, 8 * 2);
    assert_eq!(sizes.clip_els, 32 * 2);
    assert_eq!(sizes.clip_bics, 8);
    assert_eq!(sizes.clip_bboxes, 16 * 2);
    assert_eq!(sizes.draw_bboxes, 16 * 4);
    assert_eq!(sizes.bump_alloc, 32);
    assert_eq!(sizes.indirect_count, 16);
    assert_eq!(sizes.bin_headers, 8 * 256);
    assert_eq!(sizes.paths, 32 * 256);
    assert_eq!(sizes.lines, 24 << 21);
    assert_eq!(sizes.bin_data, 4 << 18);
    assert_eq!(sizes.tiles, 8 << 21);
    assert_eq!(sizes.seg_counts, 8 << 21);
    assert_eq!(sizes.segments, 24 << 21);
    assert_eq!(sizes.blend_spill, 4 << 20);
    assert_eq!(sizes.ptcl, 4 << 23);
}

#[test]
fn configurations_that_fit() {
    assert!(render_config_fits(layout(), 100, 50));
    assert!(render_config_fits(Layout::default(), 0, 0));
    assert!(!render_config_fits(layout(), u32::MAX, 50));
    assert!(!render_config_fits(layout(), 100, u32::MAX - 14));
    assert!(!render_config_fits(Layout { path_tag_base: 7, ..layout() }, 100, 50));
    assert!(!render_config_fits(Layout { path_data_base: 0x4000_0000, ..layout() }, 100, 50));
    assert!(!render_config_fits(Layout { n_paths: u32::MAX, ..layout() }, 100, 50));
    assert!(!render_config_fits(Layout { n_draw_objects: 0x1000_0000, ..layout() }, 100, 50));
    assert!(!render_config_fits(Layout { n_clips: 0x0800_0000, ..layout() }, 100, 50));
    assert!(!render_config_fits(Layout { bin_data_start: 0x40001, ..layout() }, 100, 50));
    assert!(!render_config_fits(layout(), 1 << 31, 1 << 31));
    assert!(render_config_fits(Layout { bin_data_start: 0x40000, ..layout() }, 100, 50));
}

#[test]
fn identities_are_given_out_once() {
    let mut ids = ResourceIds::new();
    assert!(ids.has_room_for(u64::MAX - 1));
    assert!(!ids.has_room_for(u64::MAX));
    assert_eq!(ids.allocate(), 1);
    assert_eq!(ids.allocate(), 2);
    let buffer = BufferProxy::new(&mut ids, 12, "buffer");
    assert_eq!(buffer, BufferProxy { size: 12, id: 3, name: "buffer" });
    let image = ImageProxy::new(&mut ids, 4, 5, ImageFormat::Bgra8);
    assert_eq!(image.id, 4);
    assert_eq!(ResourceProxy::Buffer(buffer).as_buf(), Some(buffer));
    assert_eq!(ResourceProxy::Image(image).as_buf(), None);
}

#[test]
fn recordings_append() {
    let mut ids = ResourceIds::new();
    let mut first = Recording::default();
    let buffer = first.upload(&mut ids, "a", vec![1, 2, 3]);
    let mut second = Recording::default();
    second.clear_all(buffer);
    second.download(buffer);
    second.free_resource(ResourceProxy::Buffer(buffer));
    first.append(&mut second);
    assert!(second.commands.is_empty());
    assert_eq!(
        first.commands,
        vec![
            Command::Upload(buffer, vec![1, 2, 3]),
            Command::Clear(buffer, 0, None),
            Command::Download(buffer),
            Command::FreeBuffer(buffer),
        ]
    );
    assert_eq!(buffer.size, 3);
}

#[test]
fn coarse_commands_of_a_scene_with_clips() {
    let mut ids = ResourceIds::new();
    let mut render = Render::new();
    let recording = render.render_packed_coarse(
        &mut ids,
        vec![9; 96],
        layout(),
        &no_ramps(),
        512,
        512,
        &[],
        &shaders(),
        &params(AaConfig::Area),
        false,
    );
    assert_eq!(
        dispatched(&recording),
        vec![1, 4, 6, 7, 8, 9, 11, 12, 13, 15, 16, 14, 17, 18, 19]
    );
    let scene = BufferProxy { size: 96, id: 3, name: "vello.scene" };
    let config = BufferProxy { size: 88, id: 4, name: "vello.config" };
    assert_eq!(recording.commands[0], Command::Upload(scene, vec![9; 96]));
    match &recording.commands[1] {
        Command::UploadUniform(buffer, bytes) => {
            assert_eq!(*buffer, config);
            assert_eq!(bytes.len(), 88);
            assert_eq!(bytes[8..12], [100, 0, 0, 0]);
            assert_eq!(bytes[16..20], [255, 0, 0, 255]);
        }
        other => panic!("{other:?}"),
    }
    let reduced = BufferProxy { size: 20, id: 9, name: "vello.reduced_buf" };
    assert_eq!(
        recording.commands[2],
        Command::Dispatch(
            ShaderId(1),
            (1, 1, 1),
            vec![
                ResourceProxy::Buffer(config),
                ResourceProxy::Buffer(scene),
                ResourceProxy::Buffer(reduced)
            ]
        )
    );
    assert_eq!(render.out_image(), ImageProxy { width: 100, height: 50, format: ImageFormat::Rgba8, id: 25 });
    assert_eq!(render.bump_buf(), BufferProxy { size: 32, id: 12, name: "vello.bump_buf" });
    assert_eq!(ids.allocate(), 27);
    assert!(render.take_captured_buffers().is_none());
}

#[test]
fn coarse_pass_frees_what_fine_does_not_need() {
    let mut ids = ResourceIds::new();
    let mut render = Render::default();
    let mut recording = render.render_packed_coarse(
        &mut ids,
        vec![9; 96],
        layout(),
        &no_ramps(),
        0,
        0,
        &[],
        &shaders(),
        &params(AaConfig::Area),
        false,
    );
    render.record_fine(&mut ids, &shaders(), &mut recording);
    let mut freed = freed(&recording);
    freed.sort();
    // The draw monoid buffer is freed twice, and the image is not freed.
    let mut expected: Vec<u64> = (1..=26).filter(|id| *id != 25).collect();
    expected.push(15);
    expected.sort();
    assert_eq!(freed, expected);
    assert_eq!(dispatched(&recording).last(), Some(&20));
}

#[test]
fn an_empty_scene_is_uploaded_as_one_word() {
    let mut ids = ResourceIds::new();
    let mut render = Render::new();
    let recording = render.render_packed_coarse(
        &mut ids,
        Vec::new(),
        Layout::default(),
        &no_ramps(),
        0,
        0,
        &[],
        &shaders(),
        &params(AaConfig::Area),
        false,
    );
    let scene = BufferProxy { size: 4, id: 3, name: "vello.scene" };
    assert_eq!(recording.commands[0], Command::Upload(scene, vec![255; 4]));
    assert_eq!(
        dispatched(&recording),
        vec![1, 4, 6, 7, 8, 9, 12, 13, 15, 16, 14, 17, 18, 19]
    );
}

#[test]
fn ramps_and_images_are_uploaded_first() {
    let mut ids = ResourceIds::new();
    let mut render = Render::new();
    let ramps = Ramps { data: vec![0x0403_0201, 0x0807_0605], width: 2, height: 1 };
    let image = ImageData {
        data: vec![1, 2, 3, 4],
        format: ImageFormat::Rgba8,
        alpha_type: AlphaType::AlphaPremultiplied,
        width: 1,
        height: 1,
    };
    let images = [(image.copy(), 5, 6)];
    let recording = render.render_packed_coarse(
        &mut ids,
        vec![9; 96],
        layout(),
        &ramps,
        64,
        32,
        &images,
        &shaders(),
        &params(AaConfig::Area),
        false,
    );
    let gradient = ImageProxy { width: 2, height: 1, format: ImageFormat::Rgba8, id: 1 };
    let atlas = ImageProxy { width: 64, height: 32, format: ImageFormat::Rgba8, id: 2 };
    assert_eq!(
        recording.commands[0],
        Command::UploadImage(gradient, vec![1, 2, 3, 4, 5, 6, 7, 8])
    );
    assert_eq!(recording.commands[1], Command::WriteImage(atlas, 5, 6, image));
}

#[test]
fn large_scenes_are_scanned_in_two_steps() {
    let large = Layout { path_data_base: 0x20000, ..Layout::default() };
    let mut ids = ResourceIds::new();
    let mut render = Render::new();
    let recording = render.render_packed_coarse(
        &mut ids,
        vec![9; 96],
        large,
        &no_ramps(),
        0,
        0,
        &[],
        &shaders(),
        &params(AaConfig::Area),
        false,
    );
    assert_eq!(dispatched(&recording)[..4], [1, 2, 3, 5]);
    assert_eq!(ids.allocate(), 29);
    let on_cpu = FullShaders { pathtag_is_cpu: true, ..shaders() };
    let recording = Render::new().render_packed_coarse(
        &mut ids,
        vec![9; 96],
        large,
        &no_ramps(),
        0,
        0,
        &[],
        &on_cpu,
        &params(AaConfig::Area),
        false,
    );
    assert_eq!(dispatched(&recording)[..2], [1, 4]);
}

#[test]
fn robust_passes_make_the_bump_buffer_available() {
    let mut ids = ResourceIds::new();
    let mut render = Render::new();
    let recording = render.render_packed_coarse(
        &mut ids,
        vec![9; 96],
        layout(),
        &no_ramps(),
        0,
        0,
        &[],
        &shaders(),
        &params(AaConfig::Area),
        true,
    );
    let bump = render.bump_buf();
    let count = recording.commands.len();
    assert_eq!(recording.commands[count - 4], Command::Download(bump));
    assert_eq!(recording.commands[count - 3], Command::FreeBuffer(bump));
    assert!(render.take_captured_buffers().is_none());
}

#[test]
fn debug_layers_capture_buffers() {
    let mut ids = ResourceIds::new();
    let mut render = Render::with_debug_layers();
    let mut recording = render.render_packed_coarse(
        &mut ids,
        vec![9; 96],
        layout(),
        &no_ramps(),
        0,
        0,
        &[],
        &shaders(),
        &params(AaConfig::Area),
        true,
    );
    let captured = render.take_captured_buffers().unwrap();
    assert_eq!(captured.path_bboxes.name, "vello.path_bbox_buf");
    assert_eq!(captured.lines.name, "vello.lines_buf");
    assert_eq!(captured.sizes.path_bboxes, 96);
    assert_eq!(recording.commands.last(), Some(&Command::Download(captured.lines)));
    assert!(!freed(&recording).contains(&captured.lines.id));
    assert!(render.take_captured_buffers().is_none());
    captured.release_buffers(&mut recording);
    let count = recording.commands.len();
    assert_eq!(recording.commands[count - 2], Command::FreeBuffer(captured.path_bboxes));
    assert_eq!(recording.commands[count - 1], Command::FreeBuffer(captured.lines));
    // Without the download nothing is captured.
    let recording = render.render_packed_coarse(
        &mut ids,
        vec![9; 96],
        layout(),
        &no_ramps(),
        0,
        0,
        &[],
        &shaders(),
        &params(AaConfig::Area),
        false,
    );
    assert!(render.take_captured_buffers().is_none());
    assert!(matches!(
        recording.commands.last(),
        Some(Command::FreeBuffer(buffer)) if buffer.name == "vello.lines_buf"
    ));
}

#[test]
fn frames_of_many_bins_are_told_apart() {
    assert!(!exceeds_bins(0, 0));
    assert!(!exceeds_bins(4096, 4096));
    assert!(exceeds_bins(4097, 4096));
    assert!(exceeds_bins(4096, 4097));
    assert!(!exceeds_bins(65536, 256));
    assert!(exceeds_bins(65537, 256));
    assert!(exceeds_bins(u32::MAX, u32::MAX));
}

/// Whether a sample lies in the half-plane of an entry, in whole numbers.
fn in_half_plane(columns: &[i64], entry: i64, row: i64) -> bool {
    let n = columns.len() as i64;
    let positive = entry / (4 * n) >= 2 * n;
    let slope = 2 * (entry / (4 * n) % (2 * n)) + 1;
    let along = 2 * (entry % (4 * n)) + 1;
    let translation = if positive { 8 * n - along } else { along };
    let x = 8 * columns[row as usize] + 4;
    let y = if positive { 8 * row + 4 } else { 8 * n - (8 * row + 4) };
    (x - (8 * n - translation)) * (4 * n - slope) >= (y - translation) * slope
}

#[test]
fn sample_masks_tell_the_samples_in_half_planes() {
    let columns: [i64; 8] = [0, 5, 3, 7, 1, 4, 6, 2];
    let masks = sample_masks(AaConfig::Msaa8);
    for entry in 0..1024 {
        for row in 0..8 {
            let inside = masks[entry] & (1 << row) != 0;
            assert_eq!(inside, in_half_plane(&columns, entry as i64, row), "{entry} {row}");
        }
    }
    let columns: [i64; 16] = [1, 8, 4, 11, 15, 7, 3, 12, 0, 9, 5, 13, 2, 10, 6, 14];
    let masks = sample_masks(AaConfig::Msaa16);
    for entry in 0..4096 {
        let mask = u16::from_le_bytes([masks[2 * entry], masks[2 * entry + 1]]);
        for row in 0..16 {
            let inside = mask & (1 << row) != 0;
            assert_eq!(inside, in_half_plane(&columns, entry as i64, row), "{entry} {row}");
        }
    }
}

#[test]
fn sample_masks_have_their_sizes() {
    assert!(sample_masks(AaConfig::Area).is_empty());
    assert_eq!(sample_masks(AaConfig::Msaa8), vello_encoding::make_mask_lut());
    assert_eq!(sample_masks(AaConfig::Msaa8).len(), 1024);
    assert_eq!(sample_masks(AaConfig::Msaa16), vello_encoding::make_mask_lut_16());
    assert_eq!(sample_masks(AaConfig::Msaa16).len(), 8192);
}

#[test]
fn fine_with_samples_uploads_masks() {
    for (aa, shader, size) in [(AaConfig::Msaa8, 21, 1024), (AaConfig::Msaa16, 22, 8192)] {
        let mut ids = ResourceIds::new();
        let mut render = Render::new();
        let mut recording = render.render_packed_coarse(
            &mut ids,
            vec![9; 96],
            layout(),
            &no_ramps(),
            0,
            0,
            &[],
            &shaders(),
            &params(aa),
            false,
        );
        let coarse = recording.commands.len();
        render.record_fine(&mut ids, &shaders(), &mut recording);
        let mask = BufferProxy { size, id: 27, name: "vello.mask_lut" };
        assert_eq!(recording.commands[coarse], Command::Upload(mask, sample_masks(aa)));
        match &recording.commands[coarse + 1] {
            Command::Dispatch(id, size, bindings) => {
                assert_eq!(*id, ShaderId(shader));
                assert_eq!(*size, (7, 4, 1));
                assert_eq!(bindings.len(), 9);
                assert_eq!(bindings[8], ResourceProxy::Buffer(mask));
            }
            other => panic!("{other:?}"),
        }
        assert_eq!(recording.commands.last(), Some(&Command::FreeBuffer(mask)));
        assert_eq!(ids.allocate(), 28);
    }
}

#[test]
fn fine_takes_the_given_masks() {
    let mut ids = ResourceIds::new();
    let mut render = Render::new();
    let mut recording = render.render_packed_coarse(
        &mut ids,
        vec![9; 96],
        layout(),
        &no_ramps(),
        0,
        0,
        &[],
        &shaders(),
        &params(AaConfig::Msaa8),
        false,
    );
    let coarse = recording.commands.len();
    render.record_masked_fine(&mut ids, &shaders(), &mut recording, vec![1, 2, 3]);
    let mask = BufferProxy { size: 3, id: 27, name: "vello.mask_lut" };
    assert_eq!(recording.commands[coarse], Command::Upload(mask, vec![1, 2, 3]));
}

#[test]
fn a_given_configuration_is_used() {
    let params = params(AaConfig::Area);
    let mut config = RenderConfig::new(layout(), 100, 50, params.base_color);
    config.gpu[0] = 0x0102_0304;
    config.workgroup_counts.clip_reduce = (5, 1, 1);
    config.workgroup_counts.clip_leaf = (0, 1, 1);
    config.buffer_sizes.tiles = 77;
    let mut ids = ResourceIds::new();
    let mut render = Render::new();
    let recording = render.render_configured_coarse(
        &mut ids,
        vec![9; 96],
        &config,
        &no_ramps(),
        0,
        0,
        &[],
        &shaders(),
        &params,
        false,
    );
    match &recording.commands[1] {
        Command::UploadUniform(_, bytes) => assert_eq!(bytes[..4], [4, 3, 2, 1]),
        other => panic!("{other:?}"),
    }
    assert_eq!(dispatched(&recording)[6..8], [10, 12]);
    let tiles = recording.commands.iter().find_map(|command| match command {
        Command::Dispatch(ShaderId(13), _, bindings) => bindings[5].as_buf(),
        _ => None,
    });
    assert_eq!(tiles.unwrap().size, 77);
}
