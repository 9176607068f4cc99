//! The configuration of a render: the uniform that all stages share, the
//! workgroup counts and the sizes of the buffers.

use vstd::prelude::*;

use crate::color::Color;
use crate::layout::Layout;
use crate::recording::WorkgroupSize;

verus! {

use crate::layout::aligned_up;

/// The quotient, rounded up.
pub open spec fn ceil_div(value: int, divisor: int) -> int {
    (value + divisor - 1) / divisor
}

/// The larger of a count and one.
pub open spec fn at_least_one(count: int) -> int {
    if count > 0 {
        count
    } else {
        1
    }
}

/// The number of path tags of a scene, with their padding.
pub open spec fn path_tag_count(layout: Layout) -> int {
    4 * (layout.path_data_base - layout.path_tag_base)
}

/// The number of bins along a side: blocks of 16 tiles of 16 pixels.
pub open spec fn side_bins(length: u32) -> int {
    ceil_div(ceil_div(length as int, 16), 16)
}

/// The number of bins that a frame has.
pub open spec fn bin_count(width: u32, height: u32) -> int {
    side_bins(width) * side_bins(height)
}

/// The number of bin headers.
pub open spec fn bin_header_count(layout: Layout, width: u32, height: u32) -> int {
    ceil_div(layout.n_draw_objects as int, 256) * aligned_up(bin_count(width, height), 256)
}

/// Whether the sizes that are computed for a scene and a frame are 32-bit
/// numbers.
pub open spec fn config_fits(layout: Layout, width: u32, height: u32) -> bool {
    &&& aligned_up(width as int, 16) <= u32::MAX
    &&& aligned_up(height as int, 16) <= u32::MAX
    &&& layout.path_tag_base <= layout.path_data_base
    &&& 4 * layout.path_data_base <= u32::MAX
    &&& aligned_up(path_tag_count(layout), 1024) <= u32::MAX
    &&& 20 * at_least_one(256 * ceil_div(path_tag_count(layout), 1024)) <= u32::MAX
    &&& 24 * at_least_one(layout.n_paths as int) <= u32::MAX
    &&& 32 * at_least_one(aligned_up(layout.n_paths as int, 256)) <= u32::MAX
    &&& 16 * at_least_one(layout.n_draw_objects as int) <= u32::MAX
    &&& 32 * at_least_one(layout.n_clips as int) <= u32::MAX
    &&& aligned_up(bin_count(width, height), 256) <= u32::MAX
    &&& 8 * at_least_one(bin_header_count(layout, width, height)) <= u32::MAX
    &&& layout.bin_data_start <= 0x40000
}

/// The layout that its words say.
pub open spec fn layout_of_words(words: Seq<u32>) -> Layout {
    Layout {
        n_draw_objects: words[0],
        n_paths: words[1],
        n_clips: words[2],
        bin_data_start: words[3],
        path_tag_base: words[4],
        path_data_base: words[5],
        draw_tag_base: words[6],
        draw_data_base: words[7],
        transform_base: words[8],
        style_base: words[9],
    }
}

/// The words of a layout.
pub open spec fn layout_words(layout: Layout) -> Seq<u32> {
    seq![
        layout.n_draw_objects,
        layout.n_paths,
        layout.n_clips,
        layout.bin_data_start,
        layout.path_tag_base,
        layout.path_data_base,
        layout.draw_tag_base,
        layout.draw_data_base,
        layout.transform_base,
        layout.style_base,
    ]
}

/// The words of a layout.
fn words_of_layout(layout: Layout) -> (words: [u32; 10])
    ensures
        words@ == layout_words(layout),
        layout_of_words(words@) == layout,
{
    let words = [
        layout.n_draw_objects,
        layout.n_paths,
        layout.n_clips,
        layout.bin_data_start,
        layout.path_tag_base,
        layout.path_data_base,
        layout.draw_tag_base,
        layout.draw_data_base,
        layout.transform_base,
        layout.style_base,
    ];
    assert(words@ =~= layout_words(layout));
    words
}

/// What the outside crate computes for a render.
#[verifier::ext_equal]
pub struct ConfigValues {
    /// The words of the uniform, as the shaders read them.
    pub uniform: Seq<u32>,
    /// Whether the path tags are scanned in two steps.
    pub use_large_path_scan: bool,
    /// The workgroup counts, in the order of the fields of [`WorkgroupCounts`].
    pub workgroups: Seq<WorkgroupSize>,
    /// The sizes in bytes of the buffers whose size depends on the scene, in the
    /// order of the fields of [`BufferSizes`].
    pub sizes: Seq<u32>,
}

/// The configuration for a scene with these layout words, a frame with this
/// width and height, and a base color with these components.
pub uninterp spec fn render_config(
    layout: Seq<u32>,
    width: u32,
    height: u32,
    base_color: Seq<u32>,
) -> ConfigValues;

/// `vello_encoding::RenderConfig::new`: the uniform and the workgroup counts of
/// its result. The base color of the uniform is the same number for either byte
/// order of the machine. The workgroups of the coarse stage are the bins of the
/// frame.
#[verifier::external_body]
fn config_uniform_and_workgroups(layout: [u32; 10], width: u32, height: u32, base_color: [u32; 4])
    -> (config: ([u32; 22], bool, [WorkgroupSize; 17]))
    requires
        config_fits(layout_of_words(layout@), width, height),
    ensures
        config.0@ == render_config(layout@, width, height, base_color@).uniform,
        config.1 == render_config(layout@, width, height, base_color@).use_large_path_scan,
        config.2@ == render_config(layout@, width, height, base_color@).workgroups,
        config.2[14] == (side_bins(width) as u32, side_bins(height) as u32, 1u32),
{
    let layout: vello_encoding::Layout = bytemuck::cast(layout);
    let color = peniko::Color::new(bytemuck::cast(base_color));
    let config = vello_encoding::RenderConfig::new(&layout, width, height, &color);
    let mut gpu = config.gpu;
    gpu.base_color = gpu.base_color.to_le();
    let c = config.workgroup_counts;
    let counts = [
        c.path_reduce, c.path_reduce2, c.path_scan1, c.path_scan, c.bbox_clear, c.flatten,
        c.draw_reduce, c.draw_leaf, c.clip_reduce, c.clip_leaf, c.binning, c.tile_alloc,
        c.path_count_setup, c.backdrop, c.coarse, c.path_tiling_setup, c.fine,
    ];
    (bytemuck::cast(gpu), c.use_large_path_scan, counts)
}

/// `vello_encoding::RenderConfig::new`: the sizes in bytes of the buffers of its
/// result whose size depends on the scene.
#[verifier::external_body]
fn config_buffer_sizes(layout: [u32; 10], width: u32, height: u32, base_color: [u32; 4]) -> (sizes:
    [u32; 16])
    requires
        config_fits(layout_of_words(layout@), width, height),
    ensures
        sizes@ == render_config(layout@, width, height, base_color@).sizes,
{
    let layout: vello_encoding::Layout = bytemuck::cast(layout);
    let color = peniko::Color::new(bytemuck::cast(base_color));
    let s = vello_encoding::RenderConfig::new(&layout, width, height, &color).buffer_sizes;
    [
        s.path_reduced.size_in_bytes(), s.path_reduced2.size_in_bytes(),
        s.path_reduced_scan.size_in_bytes(), s.path_monoids.size_in_bytes(),
        s.path_bboxes.size_in_bytes(), s.draw_reduced.size_in_bytes(),
        s.draw_monoids.size_in_bytes(), s.clip_inps.size_in_bytes(), s.clip_els.size_in_bytes(),
        s.clip_bics.size_in_bytes(), s.clip_bboxes.size_in_bytes(), s.draw_bboxes.size_in_bytes(),
        s.bump_alloc.size_in_bytes(), s.indirect_count.size_in_bytes(),
        s.bin_headers.size_in_bytes(), s.paths.size_in_bytes(),
    ]
}

/// `vello_encoding::RenderConfig::new`: the sizes in bytes of the buffers of its
/// result that are filled on demand. They do not depend on the scene: room for
/// 2^21 lines of 24 bytes, 2^18 words of bin data, 2^21 tiles of 8 bytes, 2^21
/// segment counts of 8 bytes, 2^21 segments of 24 bytes, 2^20 words of blend
/// spill and 2^23 words of commands.
#[verifier::external_body]
fn config_bump_sizes(layout: [u32; 10], width: u32, height: u32, base_color: [u32; 4]) -> (sizes:
    [u32; 7])
    requires
        config_fits(layout_of_words(layout@), width, height),
    ensures
        sizes@ == bump_sizes(),
{
    let layout: vello_encoding::Layout = bytemuck::cast(layout);
    let color = peniko::Color::new(bytemuck::cast(base_color));
    let s = vello_encoding::RenderConfig::new(&layout, width, height, &color).buffer_sizes;
    [
        s.lines.size_in_bytes(), s.bin_data.size_in_bytes(), s.tiles.size_in_bytes(),
        s.seg_counts.size_in_bytes(), s.segments.size_in_bytes(), s.blend_spill.size_in_bytes(),
        s.ptcl.size_in_bytes(),
    ]
}

/// The sizes in bytes of the buffers that are filled on demand: lines, bin data,
/// tiles, segment counts, segments, blend spill and commands.
pub open spec fn bump_sizes() -> Seq<u32> {
    seq![
        0x300_0000u32,
        0x10_0000u32,
        0x100_0000u32,
        0x100_0000u32,
        0x300_0000u32,
        0x40_0000u32,
        0x200_0000u32,
    ]
}

/// The workgroup counts of all dispatches.
#[derive(Clone, Copy, Debug, PartialEq, Eq)]
pub struct WorkgroupCounts {
    pub use_large_path_scan: bool,
    pub path_reduce: WorkgroupSize,
    pub path_reduce2: WorkgroupSize,
    pub path_scan1: WorkgroupSize,
    pub path_scan: WorkgroupSize,
    pub bbox_clear: WorkgroupSize,
    pub flatten: WorkgroupSize,
    pub draw_reduce: WorkgroupSize,
    pub draw_leaf: WorkgroupSize,
    pub clip_reduce: WorkgroupSize,
    pub clip_leaf: WorkgroupSize,
    pub binning: WorkgroupSize,
    pub tile_alloc: WorkgroupSize,
    pub path_count_setup: WorkgroupSize,
    pub backdrop: WorkgroupSize,
    pub coarse: WorkgroupSize,
    pub path_tiling_setup: WorkgroupSize,
    pub fine: WorkgroupSize,
}

/// The sizes of all buffers in bytes.
#[derive(Clone, Copy, Debug, PartialEq, Eq, Structural)]
pub struct BufferSizes {
    pub path_reduced: u64,
    pub path_reduced2: u64,
    pub path_reduced_scan: u64,
    pub path_monoids: u64,
    pub path_bboxes: u64,
    pub draw_reduced: u64,
    pub draw_monoids: u64,
    pub clip_inps: u64,
    pub clip_els: u64,
    pub clip_bics: u64,
    pub clip_bboxes: u64,
    pub draw_bboxes: u64,
    pub bump_alloc: u64,
    pub indirect_count: u64,
    pub bin_headers: u64,
    pub paths: u64,
    pub lines: u64,
    pub bin_data: u64,
    pub tiles: u64,
    pub seg_counts: u64,
    pub segments: u64,
    pub blend_spill: u64,
    pub ptcl: u64,
}

/// The workgroup counts that the outside crate computed.
pub open spec fn workgroup_counts(config: ConfigValues) -> WorkgroupCounts {
    WorkgroupCounts {
        use_large_path_scan: config.use_large_path_scan,
        path_reduce: config.workgroups[0],
        path_reduce2: config.workgroups[1],
        path_scan1: config.workgroups[2],
        path_scan: config.workgroups[3],
        bbox_clear: config.workgroups[4],
        flatten: config.workgroups[5],
        draw_reduce: config.workgroups[6],
        draw_leaf: config.workgroups[7],
        clip_reduce: config.workgroups[8],
        clip_leaf: config.workgroups[9],
        binning: config.workgroups[10],
        tile_alloc: config.workgroups[11],
        path_count_setup: config.workgroups[12],
        backdrop: config.workgroups[13],
        coarse: config.workgroups[14],
        path_tiling_setup: config.workgroups[15],
        fine: config.workgroups[16],
    }
}

/// The buffer sizes that the outside crate computed.
pub open spec fn buffer_sizes(config: ConfigValues) -> BufferSizes {
    BufferSizes {
        path_reduced: config.sizes[0] as u64,
        path_reduced2: config.sizes[1] as u64,
        path_reduced_scan: config.sizes[2] as u64,
        path_monoids: config.sizes[3] as u64,
        path_bboxes: config.sizes[4] as u64,
        draw_reduced: config.sizes[5] as u64,
        draw_monoids: config.sizes[6] as u64,
        clip_inps: config.sizes[7] as u64,
        clip_els: config.sizes[8] as u64,
        clip_bics: config.sizes[9] as u64,
        clip_bboxes: config.sizes[10] as u64,
        draw_bboxes: config.sizes[11] as u64,
        bump_alloc: config.sizes[12] as u64,
        indirect_count: config.sizes[13] as u64,
        bin_headers: config.sizes[14] as u64,
        paths: config.sizes[15] as u64,
        lines: bump_sizes()[0] as u64,
        bin_data: bump_sizes()[1] as u64,
        tiles: bump_sizes()[2] as u64,
        seg_counts: bump_sizes()[3] as u64,
        segments: bump_sizes()[4] as u64,
        blend_spill: bump_sizes()[5] as u64,
        ptcl: bump_sizes()[6] as u64,
    }
}

/// The configuration of a render.
#[derive(Clone, Copy, Debug, PartialEq, Eq)]
pub struct RenderConfig {
    /// The words of the uniform.
    pub gpu: [u32; 22],
    pub workgroup_counts: WorkgroupCounts,
    pub buffer_sizes: BufferSizes,
}

/// The configuration of a render.
#[verifier::ext_equal]
pub struct Configured {
    pub uniform: Seq<u32>,
    pub workgroup_counts: WorkgroupCounts,
    pub buffer_sizes: BufferSizes,
}

/// The configuration that the outside crate computed.
pub open spec fn configured(config: ConfigValues) -> Configured {
    Configured {
        uniform: config.uniform,
        workgroup_counts: workgroup_counts(config),
        buffer_sizes: buffer_sizes(config),
    }
}

impl View for RenderConfig {
    type V = Configured;

    open spec fn view(&self) -> Configured {
        Configured {
            uniform: self.gpu@,
            workgroup_counts: self.workgroup_counts,
            buffer_sizes: self.buffer_sizes,
        }
    }
}

impl RenderConfig {
    /// The configuration for a scene and a frame.
    pub fn new(layout: Layout, width: u32, height: u32, base_color: Color) -> (config: RenderConfig)
        requires
            config_fits(layout, width, height),
        ensures
            config@ == configured(
                render_config(layout_words(layout), width, height, base_color.components()),
            ),
            ({
                let coarse = config.workgroup_counts.coarse;
                coarse.0 * coarse.1 * coarse.2 == bin_count(width, height)
            }),
    {
        let words = words_of_layout(layout);
        let color = base_color.to_components();
        let (gpu, use_large_path_scan, counts) = config_uniform_and_workgroups(
            words,
            width,
            height,
            color,
        );
        proof {
            let coarse = counts[14];
            assert(side_bins(width) <= u32::MAX && side_bins(height) <= u32::MAX);
            assert(coarse.0 * coarse.1 * coarse.2 == coarse.0 * coarse.1) by (nonlinear_arith)
                requires
                    coarse.2 == 1,
            ;
        }
        let sizes = config_buffer_sizes(words, width, height, color);
        let bump = config_bump_sizes(words, width, height, color);
        RenderConfig {
            gpu,
            workgroup_counts: WorkgroupCounts {
                use_large_path_scan,
                path_reduce: counts[0],
                path_reduce2: counts[1],
                path_scan1: counts[2],
                path_scan: counts[3],
                bbox_clear: counts[4],
                flatten: counts[5],
                draw_reduce: counts[6],
                draw_leaf: counts[7],
                clip_reduce: counts[8],
                clip_leaf: counts[9],
                binning: counts[10],
                tile_alloc: counts[11],
                path_count_setup: counts[12],
                backdrop: counts[13],
                coarse: counts[14],
                path_tiling_setup: counts[15],
                fine: counts[16],
            },
            buffer_sizes: BufferSizes {
                path_reduced: sizes[0] as u64,
                path_reduced2: sizes[1] as u64,
                path_reduced_scan: sizes[2] as u64,
                path_monoids: sizes[3] as u64,
                path_bboxes: sizes[4] as u64,
                draw_reduced: sizes[5] as u64,
                draw_monoids: sizes[6] as u64,
                clip_inps: sizes[7] as u64,
                clip_els: sizes[8] as u64,
                clip_bics: sizes[9] as u64,
                clip_bboxes: sizes[10] as u64,
                draw_bboxes: sizes[11] as u64,
                bump_alloc: sizes[12] as u64,
                indirect_count: sizes[13] as u64,
                bin_headers: sizes[14] as u64,
                paths: sizes[15] as u64,
                lines: bump[0] as u64,
                bin_data: bump[1] as u64,
                tiles: bump[2] as u64,
                seg_counts: bump[3] as u64,
                segments: bump[4] as u64,
                blend_spill: bump[5] as u64,
                ptcl: bump[6] as u64,
            },
        }
    }
}

/// The quotient, rounded up.
fn ceil_div_u64(value: u64, divisor: u64) -> (quotient: u64)
    requires
        divisor > 0,
        value + divisor <= u64::MAX,
    ensures
        quotient == ceil_div(value as int, divisor as int),
{
    (value + (divisor - 1)) / divisor
}

/// The larger of a count and one.
fn at_least_one_u64(count: u64) -> (at_least: u64)
    ensures
        at_least == at_least_one(count as int),
{
    if count > 0 {
        count
    } else {
        1
    }
}

/// The most bins that a frame is meant to have.
pub const MAX_BINS: u64 = 256;

/// Whether a frame has more bins, which are the workgroups of the coarse stage, than
/// it is meant to have. It is rendered all the same, but can come out wrong.
pub fn exceeds_bins(width: u32, height: u32) -> (exceeds: bool)
    ensures
        exceeds == (bin_count(width, height) > MAX_BINS),
{
    let width_in_bins: u64 = ceil_div_u64(ceil_div_u64(width as u64, 16), 16);
    let height_in_bins: u64 = ceil_div_u64(ceil_div_u64(height as u64, 16), 16);
    assert(width_in_bins * height_in_bins <= 0x100_0000 * 0x100_0000) by (nonlinear_arith)
        requires
            width_in_bins <= 0x100_0000,
            height_in_bins <= 0x100_0000,
    ;
    width_in_bins * height_in_bins > MAX_BINS
}

/// Whether the sizes that are computed for a scene and a frame are 32-bit
/// numbers.
pub fn render_config_fits(layout: Layout, width: u32, height: u32) -> (fits: bool)
    ensures
        fits == config_fits(layout, width, height),
{
    let max: u64 = u32::MAX as u64;
    let width_in_tiles: u64 = ceil_div_u64(width as u64, 16);
    let height_in_tiles: u64 = ceil_div_u64(height as u64, 16);
    if 16 * width_in_tiles > max || 16 * height_in_tiles > max {
        return false;
    }
    if layout.path_tag_base > layout.path_data_base || layout.path_data_base > 0x3fff_ffff {
        return false;
    }
    let path_tags: u64 = 4 * (layout.path_data_base - layout.path_tag_base) as u64;
    let path_tag_groups: u64 = ceil_div_u64(path_tags, 1024);
    if 1024 * path_tag_groups > max || 20 * at_least_one_u64(256 * path_tag_groups) > max {
        return false;
    }
    let path_groups: u64 = ceil_div_u64(layout.n_paths as u64, 256);
    if 24 * at_least_one_u64(layout.n_paths as u64) > max || 32 * at_least_one_u64(
        256 * path_groups,
    ) > max || 16 * at_least_one_u64(layout.n_draw_objects as u64) > max || 32 * at_least_one_u64(
        layout.n_clips as u64,
    ) > max || layout.bin_data_start > 0x40000 {
        return false;
    }
    let width_in_bins: u64 = ceil_div_u64(width_in_tiles, 16);
    let height_in_bins: u64 = ceil_div_u64(height_in_tiles, 16);
    proof {
        assert(width_in_bins * height_in_bins <= 0x100_0000 * 0x100_0000) by (nonlinear_arith)
            requires
                width_in_bins <= 0x100_0000,
                height_in_bins <= 0x100_0000,
        ;
    }
    let bin_groups: u64 = ceil_div_u64(width_in_bins * height_in_bins, 256);
    if 256 * bin_groups > max {
        return false;
    }
    let draw_groups: u64 = ceil_div_u64(layout.n_draw_objects as u64, 256);
    proof {
        assert(draw_groups * (256 * bin_groups) <= 0x100_0000 * 0xffff_ffff) by (nonlinear_arith)
            requires
                draw_groups <= 0x100_0000,
                256 * bin_groups <= 0xffff_ffff,
        ;
        assert(draw_groups * (256 * bin_groups) == draw_groups * (bin_groups * 256));
    }
    8 * at_least_one_u64(draw_groups * (256 * bin_groups)) <= max
}

} // verus!
