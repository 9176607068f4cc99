//! The stages of coarse rasterization: the resources that they work on, and the
//! commands that they record.

use vstd::prelude::*;

use crate::color::Color;
use crate::config::{BufferSizes, RenderConfig, WorkgroupCounts};
use crate::layout::write_words;
use crate::recording::{
    BufferProxy, Command, ImageData, ImageFormat, ImageProxy, Recording, ResourceIds,
    ResourceProxy, ShaderId,
};

verus! {

use crate::layout::words_bytes;
use crate::recording::{Action, Pixels};

/// How edges are smoothed.
#[derive(Clone, Copy, Debug, PartialEq, Eq, Structural)]
pub enum AaConfig {
    /// By the covered area.
    Area,
    /// By eight samples.
    Msaa8,
    /// By sixteen samples.
    Msaa16,
}

/// The parameters of a render.
#[derive(Clone, Copy, Debug, PartialEq, Eq, Structural)]
pub struct RenderParams {
    /// The color of the frame before anything is drawn.
    pub base_color: Color,
    pub width: u32,
    pub height: u32,
    pub antialiasing_method: AaConfig,
}

/// The shaders of all stages.
#[derive(Clone, Copy, Debug, PartialEq, Eq)]
pub struct FullShaders {
    pub pathtag_reduce: ShaderId,
    pub pathtag_reduce2: ShaderId,
    pub pathtag_scan1: ShaderId,
    pub pathtag_scan: ShaderId,
    pub pathtag_scan_large: ShaderId,
    pub bbox_clear: ShaderId,
    pub flatten: ShaderId,
    pub draw_reduce: ShaderId,
    pub draw_leaf: ShaderId,
    pub clip_reduce: ShaderId,
    pub clip_leaf: ShaderId,
    pub binning: ShaderId,
    pub tile_alloc: ShaderId,
    pub backdrop: ShaderId,
    pub path_count_setup: ShaderId,
    pub path_count: ShaderId,
    pub coarse: ShaderId,
    pub path_tiling_setup: ShaderId,
    pub path_tiling: ShaderId,
    pub fine_area: Option<ShaderId>,
    pub fine_msaa8: Option<ShaderId>,
    pub fine_msaa16: Option<ShaderId>,
    pub backdrop_src_over: ShaderId,
    pub backdrop_copy: ShaderId,
    pub backdrop_blur_h: ShaderId,
    pub backdrop_blur_v: ShaderId,
    pub backdrop_apply: ShaderId,
    /// Whether the path tag stages run on the CPU, where they need no second step.
    pub pathtag_is_cpu: bool,
}

/// The gradient ramps of a scene.
#[derive(Debug, PartialEq, Eq)]
pub struct Ramps {
    pub data: Vec<u32>,
    pub width: u32,
    pub height: u32,
}

/// The resources of coarse rasterization.
#[derive(Clone, Copy, Debug, PartialEq, Eq)]
pub struct CoarseResources {
    pub gradient_image: ImageProxy,
    pub image_atlas: ImageProxy,
    pub scene_buf: BufferProxy,
    pub config_buf: BufferProxy,
    pub info_bin_data_buf: BufferProxy,
    pub tile_buf: BufferProxy,
    pub segments_buf: BufferProxy,
    pub ptcl_buf: BufferProxy,
    pub reduced_buf: BufferProxy,
    /// The buffers of the scan in two steps.
    pub large_pathtag_bufs: Option<(BufferProxy, BufferProxy)>,
    pub tagmonoid_buf: BufferProxy,
    pub path_bbox_buf: BufferProxy,
    pub bump_buf: BufferProxy,
    pub lines_buf: BufferProxy,
    pub draw_reduced_buf: BufferProxy,
    pub draw_monoid_buf: BufferProxy,
    pub clip_inp_buf: BufferProxy,
    pub clip_el_buf: BufferProxy,
    pub clip_bic_buf: BufferProxy,
    pub clip_bbox_buf: BufferProxy,
    pub draw_bbox_buf: BufferProxy,
    pub bin_header_buf: BufferProxy,
    pub path_buf: BufferProxy,
    pub indirect_count_buf: BufferProxy,
    pub seg_counts_buf: BufferProxy,
    pub out_image: ImageProxy,
    pub blend_spill_buf: BufferProxy,
}

/// The buffer with the identity that comes `k` after `first`.
pub open spec fn nth_buffer(first: int, k: int, size: u64, name: &'static str) -> BufferProxy {
    BufferProxy { size, id: (first + k) as u64, name }
}

/// The image with the identity that comes `k` after `first`.
pub open spec fn nth_image(first: int, k: int, width: u32, height: u32) -> ImageProxy {
    ImageProxy { width, height, format: ImageFormat::Rgba8, id: (first + k) as u64 }
}

/// The bytes of the scene buffer: those of the scene, or four where it has none.
pub open spec fn scene_bytes(packed: Seq<u8>) -> Seq<u8> {
    if packed.len() == 0 {
        seq![255u8, 255u8, 255u8, 255u8]
    } else {
        packed
    }
}

/// The number of resources of coarse rasterization.
pub open spec fn coarse_resource_count(large: bool) -> int {
    if large {
        28
    } else {
        26
    }
}

/// The sizes of the images that a scene brings along.
#[derive(Clone, Copy, Debug, PartialEq, Eq, Structural)]
pub struct ImageSizes {
    pub gradient_width: u32,
    pub gradient_height: u32,
    pub atlas_width: u32,
    pub atlas_height: u32,
}

/// The sizes of the images of a scene with these ramps and this atlas. An image
/// without contents has one pixel.
pub open spec fn image_sizes(
    ramp_width: u32,
    ramp_height: u32,
    atlas_width: u32,
    atlas_height: u32,
    image_count: nat,
) -> ImageSizes {
    ImageSizes {
        gradient_width: if ramp_height == 0 {
            1
        } else {
            ramp_width
        },
        gradient_height: if ramp_height == 0 {
            1
        } else {
            ramp_height
        },
        atlas_width: if image_count == 0 {
            1
        } else {
            atlas_width
        },
        atlas_height: if image_count == 0 {
            1
        } else {
            atlas_height
        },
    }
}

/// The resources of coarse rasterization, with identities from `first` on.
pub open spec fn coarse_resources(
    first: int,
    images: ImageSizes,
    scene_size: u64,
    large: bool,
    sizes: BufferSizes,
    width: u32,
    height: u32,
) -> CoarseResources {
    let next = if large {
        first + 11
    } else {
        first + 9
    };
    CoarseResources {
        gradient_image: nth_image(first, 0, images.gradient_width, images.gradient_height),
        image_atlas: nth_image(first, 1, images.atlas_width, images.atlas_height),
        scene_buf: nth_buffer(first, 2, scene_size, "vello.scene"),
        config_buf: nth_buffer(first, 3, 88, "vello.config"),
        info_bin_data_buf: nth_buffer(first, 4, sizes.bin_data, "vello.info_bin_data_buf"),
        tile_buf: nth_buffer(first, 5, sizes.tiles, "vello.tile_buf"),
        segments_buf: nth_buffer(first, 6, sizes.segments, "vello.segments_buf"),
        ptcl_buf: nth_buffer(first, 7, sizes.ptcl, "vello.ptcl_buf"),
        reduced_buf: nth_buffer(first, 8, sizes.path_reduced, "vello.reduced_buf"),
        large_pathtag_bufs: if large {
            Some(
                (
                    nth_buffer(first, 9, sizes.path_reduced2, "vello.reduced2_buf"),
                    nth_buffer(first, 10, sizes.path_reduced_scan, "reduced_scan_buf"),
                ),
            )
        } else {
            None
        },
        tagmonoid_buf: nth_buffer(next, 0, sizes.path_monoids, "vello.tagmonoid_buf"),
        path_bbox_buf: nth_buffer(next, 1, sizes.path_bboxes, "vello.path_bbox_buf"),
        bump_buf: nth_buffer(next, 2, sizes.bump_alloc, "vello.bump_buf"),
        lines_buf: nth_buffer(next, 3, sizes.lines, "vello.lines_buf"),
        draw_reduced_buf: nth_buffer(next, 4, sizes.draw_reduced, "vello.draw_reduced_buf"),
        draw_monoid_buf: nth_buffer(next, 5, sizes.draw_monoids, "vello.draw_monoid_buf"),
        clip_inp_buf: nth_buffer(next, 6, sizes.clip_inps, "vello.clip_inp_buf"),
        clip_el_buf: nth_buffer(next, 7, sizes.clip_els, "vello.clip_el_buf"),
        clip_bic_buf: nth_buffer(next, 8, sizes.clip_bics, "vello.clip_bic_buf"),
        clip_bbox_buf: nth_buffer(next, 9, sizes.clip_bboxes, "vello.clip_bbox_buf"),
        draw_bbox_buf: nth_buffer(next, 10, sizes.draw_bboxes, "vello.draw_bbox_buf"),
        bin_header_buf: nth_buffer(next, 11, sizes.bin_headers, "vello.bin_header_buf"),
        path_buf: nth_buffer(next, 12, sizes.paths, "vello.path_buf"),
        indirect_count_buf: nth_buffer(next, 13, sizes.indirect_count, "vello.indirect_count"),
        seg_counts_buf: nth_buffer(next, 14, sizes.seg_counts, "vello.seg_counts_buf"),
        out_image: nth_image(next, 15, width, height),
        blend_spill_buf: nth_buffer(next, 16, sizes.blend_spill, "vello.blend_spill"),
    }
}

impl CoarseResources {
    /// New resources for coarse rasterization.
    pub fn allocate(
        ids: &mut ResourceIds,
        images: ImageSizes,
        scene_size: u64,
        large: bool,
        sizes: BufferSizes,
        width: u32,
        height: u32,
    ) -> (resources: CoarseResources)
        requires
            old(ids).has_room(coarse_resource_count(large)),
        ensures
            resources == coarse_resources(
                old(ids).next_id() as int,
                images,
                scene_size,
                large,
                sizes,
                width,
                height,
            ),
            final(ids).next_id() == old(ids).next_id() + coarse_resource_count(large),
    {
        let rgba8 = ImageFormat::Rgba8;
        let gradient_image = ImageProxy::new(
            ids,
            images.gradient_width,
            images.gradient_height,
            rgba8,
        );
        let image_atlas = ImageProxy::new(ids, images.atlas_width, images.atlas_height, rgba8);
        let scene_buf = BufferProxy::new(ids, scene_size, "vello.scene");
        let config_buf = BufferProxy::new(ids, 88, "vello.config");
        let info_bin_data_buf = BufferProxy::new(ids, sizes.bin_data, "vello.info_bin_data_buf");
        let tile_buf = BufferProxy::new(ids, sizes.tiles, "vello.tile_buf");
        let segments_buf = BufferProxy::new(ids, sizes.segments, "vello.segments_buf");
        let ptcl_buf = BufferProxy::new(ids, sizes.ptcl, "vello.ptcl_buf");
        let reduced_buf = BufferProxy::new(ids, sizes.path_reduced, "vello.reduced_buf");
        let large_pathtag_bufs = if large {
            let reduced2_buf = BufferProxy::new(ids, sizes.path_reduced2, "vello.reduced2_buf");
            let reduced_scan_buf = BufferProxy::new(
                ids,
                sizes.path_reduced_scan,
                "reduced_scan_buf",
            );
            Some((reduced2_buf, reduced_scan_buf))
        } else {
            None
        };
        CoarseResources {
            gradient_image,
            image_atlas,
            scene_buf,
            config_buf,
            info_bin_data_buf,
            tile_buf,
            segments_buf,
            ptcl_buf,
            reduced_buf,
            large_pathtag_bufs,
            tagmonoid_buf: BufferProxy::new(ids, sizes.path_monoids, "vello.tagmonoid_buf"),
            path_bbox_buf: BufferProxy::new(ids, sizes.path_bboxes, "vello.path_bbox_buf"),
            bump_buf: BufferProxy::new(ids, sizes.bump_alloc, "vello.bump_buf"),
            lines_buf: BufferProxy::new(ids, sizes.lines, "vello.lines_buf"),
            draw_reduced_buf: BufferProxy::new(ids, sizes.draw_reduced, "vello.draw_reduced_buf"),
            draw_monoid_buf: BufferProxy::new(ids, sizes.draw_monoids, "vello.draw_monoid_buf"),
            clip_inp_buf: BufferProxy::new(ids, sizes.clip_inps, "vello.clip_inp_buf"),
            clip_el_buf: BufferProxy::new(ids, sizes.clip_els, "vello.clip_el_buf"),
            clip_bic_buf: BufferProxy::new(ids, sizes.clip_bics, "vello.clip_bic_buf"),
            clip_bbox_buf: BufferProxy::new(ids, sizes.clip_bboxes, "vello.clip_bbox_buf"),
            draw_bbox_buf: BufferProxy::new(ids, sizes.draw_bboxes, "vello.draw_bbox_buf"),
            bin_header_buf: BufferProxy::new(ids, sizes.bin_headers, "vello.bin_header_buf"),
            path_buf: BufferProxy::new(ids, sizes.paths, "vello.path_buf"),
            indirect_count_buf: BufferProxy::new(
                ids,
                sizes.indirect_count,
                "vello.indirect_count",
            ),
            seg_counts_buf: BufferProxy::new(ids, sizes.seg_counts, "vello.seg_counts_buf"),
            out_image: ImageProxy::new(ids, width, height, rgba8),
            blend_spill_buf: BufferProxy::new(ids, sizes.blend_spill, "vello.blend_spill"),
        }
    }
}

/// A buffer as a resource.
pub open spec fn buf(buffer: BufferProxy) -> ResourceProxy {
    ResourceProxy::Buffer(buffer)
}

/// A buffer as a resource.
fn resource(buffer: BufferProxy) -> (resource: ResourceProxy)
    ensures
        resource == buf(buffer),
{
    ResourceProxy::Buffer(buffer)
}

/// The actions that bring the scene to the GPU: the gradient ramps, the images
/// that are new in the atlas, the scene and the configuration.
pub open spec fn input_actions(
    r: CoarseResources,
    packed: Seq<u8>,
    ramps: Seq<u32>,
    ramp_height: u32,
    images: Seq<(Pixels, u32, u32)>,
    uniform: Seq<u32>,
) -> Seq<Action> {
    let gradient = if ramp_height == 0 {
        Seq::<Action>::empty()
    } else {
        seq![Action::UploadImage(r.gradient_image, words_bytes(ramps))]
    };
    gradient + Seq::new(
        images.len(),
        |i: int| Action::WriteImage(r.image_atlas, images[i].1, images[i].2, images[i].0),
    ) + seq![
        Action::Upload(r.scene_buf, scene_bytes(packed)),
        Action::UploadUniform(r.config_buf, words_bytes(uniform)),
    ]
}

/// The images with their places, as pixels.
pub open spec fn placed_pixels(images: Seq<(ImageData, u32, u32)>) -> Seq<(Pixels, u32, u32)> {
    images.map_values(|image: (ImageData, u32, u32)| (image.0@, image.1, image.2))
}

/// Records the upload of the scene.
pub fn record_inputs(
    recording: &mut Recording,
    r: &CoarseResources,
    packed: Vec<u8>,
    ramps: &Ramps,
    images: &[(ImageData, u32, u32)],
    config: &RenderConfig,
)
    ensures
        final(recording)@ == old(recording)@ + input_actions(
            *r,
            packed@,
            ramps.data@,
            ramps.height,
            placed_pixels(images@),
            config.gpu@,
        ),
{
    if ramps.height != 0 {
        let mut data: Vec<u8> = Vec::new();
        write_words(&mut data, ramps.data.as_slice());
        assert(data@ =~= words_bytes(ramps.data@));
        recording.push(Command::UploadImage(r.gradient_image, data));
    }
    let ghost after_ramps = recording@;
    let ghost placed = placed_pixels(images@);
    let mut i: usize = 0;
    while i < images.len()
        invariant
            i <= images.len(),
            placed == placed_pixels(images@),
            recording@ == after_ramps + Seq::new(
                i as nat,
                |j: int| Action::WriteImage(r.image_atlas, placed[j].1, placed[j].2, placed[j].0),
            ),
        decreases images.len() - i,
    {
        let image = &images[i];
        assert(placed[i as int] == (image.0@, image.1, image.2));
        recording.write_image(r.image_atlas, image.1, image.2, image.0.copy());
        i += 1;
    }
    let mut packed = packed;
    let ghost scene = packed@;
    if packed.len() == 0 {
        packed.push(255);
        packed.push(255);
        packed.push(255);
        packed.push(255);
        assert(packed@ =~= scene_bytes(scene));
    }
    let mut uniform: Vec<u8> = Vec::new();
    write_words(&mut uniform, config.gpu.as_slice());
    assert(uniform@ =~= words_bytes(config.gpu@));
    recording.push(Command::Upload(r.scene_buf, packed));
    recording.push(Command::UploadUniform(r.config_buf, uniform));
    assert(recording@ =~= old(recording)@ + input_actions(
        *r,
        scene,
        ramps.data@,
        ramps.height,
        placed,
        config.gpu@,
    ));
}

/// The actions of the path tag stages, which find the place of each path's data.
pub open spec fn path_tag_actions(
    r: CoarseResources,
    shaders: FullShaders,
    counts: WorkgroupCounts,
) -> Seq<Action> {
    let reduce = Action::Dispatch(
        shaders.pathtag_reduce,
        counts.path_reduce,
        seq![buf(r.config_buf), buf(r.scene_buf), buf(r.reduced_buf)],
    );
    match r.large_pathtag_bufs {
        Some((reduced2, reduced_scan)) => seq![
            reduce,
            Action::Dispatch(
                shaders.pathtag_reduce2,
                counts.path_reduce2,
                seq![buf(r.reduced_buf), buf(reduced2)],
            ),
            Action::Dispatch(
                shaders.pathtag_scan1,
                counts.path_scan1,
                seq![buf(r.reduced_buf), buf(reduced2), buf(reduced_scan)],
            ),
            Action::Dispatch(
                shaders.pathtag_scan_large,
                counts.path_scan,
                seq![
                    buf(r.config_buf),
                    buf(r.scene_buf),
                    buf(reduced_scan),
                    buf(r.tagmonoid_buf),
                ],
            ),
            Action::FreeBuffer(r.reduced_buf),
            Action::FreeBuffer(reduced2),
            Action::FreeBuffer(reduced_scan),
        ],
        None => seq![
            reduce,
            Action::Dispatch(
                shaders.pathtag_scan,
                counts.path_scan,
                seq![
                    buf(r.config_buf),
                    buf(r.scene_buf),
                    buf(r.reduced_buf),
                    buf(r.tagmonoid_buf),
                ],
            ),
            Action::FreeBuffer(r.reduced_buf),
        ],
    }
}

/// Records the path tag stages.
fn record_path_tags(
    recording: &mut Recording,
    r: &CoarseResources,
    shaders: &FullShaders,
    counts: &WorkgroupCounts,
)
    ensures
        final(recording)@ == old(recording)@ + path_tag_actions(*r, *shaders, *counts),
{
    recording.dispatch(
        shaders.pathtag_reduce,
        counts.path_reduce,
        vec![resource(r.config_buf), resource(r.scene_buf), resource(r.reduced_buf)],
    );
    let mut pathtag_parent = r.reduced_buf;
    let mut pathtag_scan = shaders.pathtag_scan;
    if let Some((reduced2, reduced_scan)) = r.large_pathtag_bufs {
        recording.dispatch(
            shaders.pathtag_reduce2,
            counts.path_reduce2,
            vec![resource(r.reduced_buf), resource(reduced2)],
        );
        recording.dispatch(
            shaders.pathtag_scan1,
            counts.path_scan1,
            vec![resource(r.reduced_buf), resource(reduced2), resource(reduced_scan)],
        );
        pathtag_parent = reduced_scan;
        pathtag_scan = shaders.pathtag_scan_large;
    }
    recording.dispatch(
        pathtag_scan,
        counts.path_scan,
        vec![
            resource(r.config_buf),
            resource(r.scene_buf),
            resource(pathtag_parent),
            resource(r.tagmonoid_buf),
        ],
    );
    recording.free_buffer(r.reduced_buf);
    if let Some((reduced2, reduced_scan)) = r.large_pathtag_bufs {
        recording.free_buffer(reduced2);
        recording.free_buffer(reduced_scan);
    }
    assert(recording@ =~~= old(recording)@ + path_tag_actions(*r, *shaders, *counts));
}

/// The actions of the stages that turn paths into lines.
pub open spec fn flatten_actions(
    r: CoarseResources,
    shaders: FullShaders,
    counts: WorkgroupCounts,
) -> Seq<Action> {
    seq![
        Action::Dispatch(
            shaders.bbox_clear,
            counts.bbox_clear,
            seq![buf(r.config_buf), buf(r.path_bbox_buf)],
        ),
        Action::Clear(r.bump_buf, 0, None),
        Action::Dispatch(
            shaders.flatten,
            counts.flatten,
            seq![
                buf(r.config_buf),
                buf(r.scene_buf),
                buf(r.tagmonoid_buf),
                buf(r.path_bbox_buf),
                buf(r.bump_buf),
                buf(r.lines_buf),
            ],
        ),
    ]
}

/// Records the stages that turn paths into lines.
fn record_flatten(
    recording: &mut Recording,
    r: &CoarseResources,
    shaders: &FullShaders,
    counts: &WorkgroupCounts,
)
    ensures
        final(recording)@ == old(recording)@ + flatten_actions(*r, *shaders, *counts),
{
    recording.dispatch(
        shaders.bbox_clear,
        counts.bbox_clear,
        vec![resource(r.config_buf), resource(r.path_bbox_buf)],
    );
    recording.clear_all(r.bump_buf);
    recording.dispatch(
        shaders.flatten,
        counts.flatten,
        vec![
            resource(r.config_buf),
            resource(r.scene_buf),
            resource(r.tagmonoid_buf),
            resource(r.path_bbox_buf),
            resource(r.bump_buf),
            resource(r.lines_buf),
        ],
    );
    assert(recording@ =~~= old(recording)@ + flatten_actions(*r, *shaders, *counts));
}

/// The actions of the stages that find the place of each draw object's data.
pub open spec fn draw_actions(
    r: CoarseResources,
    shaders: FullShaders,
    counts: WorkgroupCounts,
) -> Seq<Action> {
    seq![
        Action::Dispatch(
            shaders.draw_reduce,
            counts.draw_reduce,
            seq![buf(r.config_buf), buf(r.scene_buf), buf(r.draw_reduced_buf)],
        ),
        Action::Dispatch(
            shaders.draw_leaf,
            counts.draw_leaf,
            seq![
                buf(r.config_buf),
                buf(r.scene_buf),
                buf(r.draw_reduced_buf),
                buf(r.path_bbox_buf),
                buf(r.draw_monoid_buf),
                buf(r.info_bin_data_buf),
                buf(r.clip_inp_buf),
            ],
        ),
        Action::FreeBuffer(r.draw_reduced_buf),
    ]
}

/// Records the stages that find the place of each draw object's data.
fn record_draw(
    recording: &mut Recording,
    r: &CoarseResources,
    shaders: &FullShaders,
    counts: &WorkgroupCounts,
)
    ensures
        final(recording)@ == old(recording)@ + draw_actions(*r, *shaders, *counts),
{
    recording.dispatch(
        shaders.draw_reduce,
        counts.draw_reduce,
        vec![resource(r.config_buf), resource(r.scene_buf), resource(r.draw_reduced_buf)],
    );
    recording.dispatch(
        shaders.draw_leaf,
        counts.draw_leaf,
        vec![
            resource(r.config_buf),
            resource(r.scene_buf),
            resource(r.draw_reduced_buf),
            resource(r.path_bbox_buf),
            resource(r.draw_monoid_buf),
            resource(r.info_bin_data_buf),
            resource(r.clip_inp_buf),
        ],
    );
    recording.free_buffer(r.draw_reduced_buf);
    assert(recording@ =~~= old(recording)@ + draw_actions(*r, *shaders, *counts));
}

/// The actions of the clip stages, which find the bounds of each clip. A stage
/// without workgroups is left out.
pub open spec fn clip_actions(
    r: CoarseResources,
    shaders: FullShaders,
    counts: WorkgroupCounts,
) -> Seq<Action> {
    let reduce = if counts.clip_reduce.0 > 0 {
        seq![
            Action::Dispatch(
                shaders.clip_reduce,
                counts.clip_reduce,
                seq![
                    buf(r.clip_inp_buf),
                    buf(r.path_bbox_buf),
                    buf(r.clip_bic_buf),
                    buf(r.clip_el_buf),
                ],
            ),
        ]
    } else {
        Seq::empty()
    };
    let leaf = if counts.clip_leaf.0 > 0 {
        seq![
            Action::Dispatch(
                shaders.clip_leaf,
                counts.clip_leaf,
                seq![
                    buf(r.config_buf),
                    buf(r.clip_inp_buf),
                    buf(r.path_bbox_buf),
                    buf(r.clip_bic_buf),
                    buf(r.clip_el_buf),
                    buf(r.draw_monoid_buf),
                    buf(r.clip_bbox_buf),
                ],
            ),
        ]
    } else {
        Seq::empty()
    };
    reduce + leaf + seq![
        Action::FreeBuffer(r.clip_inp_buf),
        Action::FreeBuffer(r.clip_bic_buf),
        Action::FreeBuffer(r.clip_el_buf),
    ]
}

/// Records the clip stages.
fn record_clip(
    recording: &mut Recording,
    r: &CoarseResources,
    shaders: &FullShaders,
    counts: &WorkgroupCounts,
)
    ensures
        final(recording)@ == old(recording)@ + clip_actions(*r, *shaders, *counts),
{
    if counts.clip_reduce.0 > 0 {
        recording.dispatch(
            shaders.clip_reduce,
            counts.clip_reduce,
            vec![
                resource(r.clip_inp_buf),
                resource(r.path_bbox_buf),
                resource(r.clip_bic_buf),
                resource(r.clip_el_buf),
            ],
        );
    }
    if counts.clip_leaf.0 > 0 {
        recording.dispatch(
            shaders.clip_leaf,
            counts.clip_leaf,
            vec![
                resource(r.config_buf),
                resource(r.clip_inp_buf),
                resource(r.path_bbox_buf),
                resource(r.clip_bic_buf),
                resource(r.clip_el_buf),
                resource(r.draw_monoid_buf),
                resource(r.clip_bbox_buf),
            ],
        );
    }
    recording.free_buffer(r.clip_inp_buf);
    recording.free_buffer(r.clip_bic_buf);
    recording.free_buffer(r.clip_el_buf);
    assert(recording@ =~~= old(recording)@ + clip_actions(*r, *shaders, *counts));
}

/// The actions of the stages that sort draw objects into bins and paths into tiles.
pub open spec fn bin_actions(
    r: CoarseResources,
    shaders: FullShaders,
    counts: WorkgroupCounts,
) -> Seq<Action> {
    seq![
        Action::Dispatch(
            shaders.binning,
            counts.binning,
            seq![
                buf(r.config_buf),
                buf(r.draw_monoid_buf),
                buf(r.path_bbox_buf),
                buf(r.clip_bbox_buf),
                buf(r.draw_bbox_buf),
                buf(r.bump_buf),
                buf(r.info_bin_data_buf),
                buf(r.bin_header_buf),
            ],
        ),
        Action::FreeBuffer(r.draw_monoid_buf),
        Action::FreeBuffer(r.clip_bbox_buf),
        Action::Dispatch(
            shaders.tile_alloc,
            counts.tile_alloc,
            seq![
                buf(r.config_buf),
                buf(r.scene_buf),
                buf(r.draw_bbox_buf),
                buf(r.bump_buf),
                buf(r.path_buf),
                buf(r.tile_buf),
            ],
        ),
        Action::FreeBuffer(r.draw_bbox_buf),
        Action::FreeBuffer(r.tagmonoid_buf),
    ]
}

/// Records the stages that sort draw objects into bins and paths into tiles.
fn record_bin(
    recording: &mut Recording,
    r: &CoarseResources,
    shaders: &FullShaders,
    counts: &WorkgroupCounts,
)
    ensures
        final(recording)@ == old(recording)@ + bin_actions(*r, *shaders, *counts),
{
    recording.dispatch(
        shaders.binning,
        counts.binning,
        vec![
            resource(r.config_buf),
            resource(r.draw_monoid_buf),
            resource(r.path_bbox_buf),
            resource(r.clip_bbox_buf),
            resource(r.draw_bbox_buf),
            resource(r.bump_buf),
            resource(r.info_bin_data_buf),
            resource(r.bin_header_buf),
        ],
    );
    recording.free_buffer(r.draw_monoid_buf);
    recording.free_buffer(r.clip_bbox_buf);
    recording.dispatch(
        shaders.tile_alloc,
        counts.tile_alloc,
        vec![
            resource(r.config_buf),
            resource(r.scene_buf),
            resource(r.draw_bbox_buf),
            resource(r.bump_buf),
            resource(r.path_buf),
            resource(r.tile_buf),
        ],
    );
    recording.free_buffer(r.draw_bbox_buf);
    recording.free_buffer(r.tagmonoid_buf);
    assert(recording@ =~~= old(recording)@ + bin_actions(*r, *shaders, *counts));
}

/// The actions of the stages that cut lines into segments and write the commands of each tile.
pub open spec fn tile_actions(
    r: CoarseResources,
    shaders: FullShaders,
    counts: WorkgroupCounts,
) -> Seq<Action> {
    seq![
        Action::Dispatch(
            shaders.path_count_setup,
            counts.path_count_setup,
            seq![buf(r.bump_buf), buf(r.indirect_count_buf)],
        ),
        Action::DispatchIndirect(
            shaders.path_count,
            r.indirect_count_buf,
            0,
            seq![
                buf(r.config_buf),
                buf(r.bump_buf),
                buf(r.lines_buf),
                buf(r.path_buf),
                buf(r.tile_buf),
                buf(r.seg_counts_buf),
            ],
        ),
        Action::Dispatch(
            shaders.backdrop,
            counts.backdrop,
            seq![buf(r.config_buf), buf(r.bump_buf), buf(r.path_buf), buf(r.tile_buf)],
        ),
        Action::Dispatch(
            shaders.coarse,
            counts.coarse,
            seq![
                buf(r.config_buf),
                buf(r.scene_buf),
                buf(r.draw_monoid_buf),
                buf(r.bin_header_buf),
                buf(r.info_bin_data_buf),
                buf(r.path_buf),
                buf(r.tile_buf),
                buf(r.bump_buf),
                buf(r.ptcl_buf),
            ],
        ),
        Action::Dispatch(
            shaders.path_tiling_setup,
            counts.path_tiling_setup,
            seq![buf(r.bump_buf), buf(r.indirect_count_buf), buf(r.ptcl_buf)],
        ),
        Action::DispatchIndirect(
            shaders.path_tiling,
            r.indirect_count_buf,
            0,
            seq![
                buf(r.bump_buf),
                buf(r.seg_counts_buf),
                buf(r.lines_buf),
                buf(r.path_buf),
                buf(r.tile_buf),
                buf(r.segments_buf),
            ],
        ),
        Action::FreeBuffer(r.indirect_count_buf),
        Action::FreeBuffer(r.seg_counts_buf),
        Action::FreeBuffer(r.scene_buf),
        Action::FreeBuffer(r.draw_monoid_buf),
        Action::FreeBuffer(r.bin_header_buf),
        Action::FreeBuffer(r.path_buf),
    ]
}

/// Records the stages that cut lines into segments and write the commands of each tile.
fn record_tile(
    recording: &mut Recording,
    r: &CoarseResources,
    shaders: &FullShaders,
    counts: &WorkgroupCounts,
)
    ensures
        final(recording)@ == old(recording)@ + tile_actions(*r, *shaders, *counts),
{
    recording.dispatch(
        shaders.path_count_setup,
        counts.path_count_setup,
        vec![resource(r.bump_buf), resource(r.indirect_count_buf)],
    );
    recording.dispatch_indirect(
        shaders.path_count,
        r.indirect_count_buf,
        0,
        vec![
            resource(r.config_buf),
            resource(r.bump_buf),
            resource(r.lines_buf),
            resource(r.path_buf),
            resource(r.tile_buf),
            resource(r.seg_counts_buf),
        ],
    );
    recording.dispatch(
        shaders.backdrop,
        counts.backdrop,
        vec![
            resource(r.config_buf),
            resource(r.bump_buf),
            resource(r.path_buf),
            resource(r.tile_buf),
        ],
    );
    recording.dispatch(
        shaders.coarse,
        counts.coarse,
        vec![
            resource(r.config_buf),
            resource(r.scene_buf),
            resource(r.draw_monoid_buf),
            resource(r.bin_header_buf),
            resource(r.info_bin_data_buf),
            resource(r.path_buf),
            resource(r.tile_buf),
            resource(r.bump_buf),
            resource(r.ptcl_buf),
        ],
    );
    recording.dispatch(
        shaders.path_tiling_setup,
        counts.path_tiling_setup,
        vec![resource(r.bump_buf), resource(r.indirect_count_buf), resource(r.ptcl_buf)],
    );
    recording.dispatch_indirect(
        shaders.path_tiling,
        r.indirect_count_buf,
        0,
        vec![
            resource(r.bump_buf),
            resource(r.seg_counts_buf),
            resource(r.lines_buf),
            resource(r.path_buf),
            resource(r.tile_buf),
            resource(r.segments_buf),
        ],
    );
    recording.free_buffer(r.indirect_count_buf);
    recording.free_buffer(r.seg_counts_buf);
    recording.free_buffer(r.scene_buf);
    recording.free_buffer(r.draw_monoid_buf);
    recording.free_buffer(r.bin_header_buf);
    recording.free_buffer(r.path_buf);
    assert(recording@ =~~= old(recording)@ + tile_actions(*r, *shaders, *counts));
}

/// The actions that end coarse rasterization: with `robust`, the bump buffer is
/// made available; with `capture`, the path bounds and the lines are kept and
/// the lines are made available.
pub open spec fn finish_actions(r: CoarseResources, robust: bool, capture: bool) -> Seq<Action> {
    let bump = if robust {
        seq![Action::Download(r.bump_buf), Action::FreeBuffer(r.bump_buf)]
    } else {
        seq![Action::FreeBuffer(r.bump_buf)]
    };
    bump + if capture {
        seq![Action::Download(r.lines_buf)]
    } else {
        seq![Action::FreeBuffer(r.path_bbox_buf), Action::FreeBuffer(r.lines_buf)]
    }
}

/// Records the end of coarse rasterization.
fn record_finish(recording: &mut Recording, r: &CoarseResources, robust: bool, capture: bool)
    ensures
        final(recording)@ == old(recording)@ + finish_actions(*r, robust, capture),
{
    if robust {
        recording.download(r.bump_buf);
    }
    recording.free_buffer(r.bump_buf);
    if capture {
        recording.download(r.lines_buf);
    } else {
        recording.free_buffer(r.path_bbox_buf);
        recording.free_buffer(r.lines_buf);
    }
    assert(recording@ =~= old(recording)@ + finish_actions(*r, robust, capture));
}

/// The actions of all stages of coarse rasterization, behind the upload of the
/// scene.
pub open spec fn stage_actions(
    r: CoarseResources,
    shaders: FullShaders,
    counts: WorkgroupCounts,
    robust: bool,
    capture: bool,
) -> Seq<Action> {
    path_tag_actions(r, shaders, counts) + flatten_actions(r, shaders, counts) + draw_actions(
        r,
        shaders,
        counts,
    ) + clip_actions(r, shaders, counts) + bin_actions(r, shaders, counts) + tile_actions(
        r,
        shaders,
        counts,
    ) + finish_actions(r, robust, capture)
}

/// Records all stages of coarse rasterization.
pub fn record_stages(
    recording: &mut Recording,
    r: &CoarseResources,
    shaders: &FullShaders,
    counts: &WorkgroupCounts,
    robust: bool,
    capture: bool,
)
    ensures
        final(recording)@ == old(recording)@ + stage_actions(
            *r,
            *shaders,
            *counts,
            robust,
            capture,
        ),
{
    record_path_tags(recording, r, shaders, counts);
    record_flatten(recording, r, shaders, counts);
    record_draw(recording, r, shaders, counts);
    record_clip(recording, r, shaders, counts);
    record_bin(recording, r, shaders, counts);
    record_tile(recording, r, shaders, counts);
    record_finish(recording, r, robust, capture);
    assert(recording@ =~= old(recording)@ + stage_actions(*r, *shaders, *counts, robust, capture));
}

} // verus!
