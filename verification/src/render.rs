//! Takes a packed scene and records the commands that render it.

use vstd::prelude::*;

use crate::coarse::{
    record_inputs, record_stages, AaConfig, CoarseResources, FullShaders, ImageSizes, Ramps,
    RenderParams,
};
use crate::config::{render_config_fits, BufferSizes, RenderConfig};
use crate::layout::Layout;
use crate::masks::sample_masks;
use crate::recording::{
    BufferProxy, ImageData, ImageProxy, Recording, ResourceIds, ResourceProxy, ShaderId,
    WorkgroupSize,
};
use crate::resolve::{resolve, ResolvedScene};

verus! {

use crate::coarse::{
    buf, coarse_resources, image_sizes, input_actions, nth_buffer, scene_bytes, stage_actions,
};
use crate::config::{config_fits, configured, layout_words, render_config, Configured};
use crate::encoded::encoded;
use crate::masks::holds_masks;
use crate::recording::{free, Action};
use crate::resolve::{held_images, scene_images, SceneImages, SceneInput};

/// Resources produced by coarse rasterization, needed for fine rasterization.
#[derive(Clone, Copy, Debug, PartialEq, Eq)]
pub struct FineResources {
    pub aa_config: AaConfig,
    pub config_buf: ResourceProxy,
    pub bump_buf: ResourceProxy,
    pub tile_buf: ResourceProxy,
    pub segments_buf: ResourceProxy,
    pub ptcl_buf: ResourceProxy,
    pub gradient_image: ResourceProxy,
    pub info_bin_data_buf: ResourceProxy,
    pub image_atlas: ResourceProxy,
    pub blend_spill_buf: ResourceProxy,
    pub out_image: ImageProxy,
}

/// Buffers that are kept for debug visualization. Their contents stay on the GPU
/// and are freed by the caller.
#[derive(Clone, Copy, Debug, PartialEq, Eq)]
pub struct CapturedBuffers {
    pub sizes: BufferSizes,
    /// Kept on the GPU only.
    pub path_bboxes: BufferProxy,
    /// Scheduled for download.
    pub lines: BufferProxy,
}

impl CapturedBuffers {
    /// Frees the buffers.
    pub fn release_buffers(self, recording: &mut Recording)
        ensures
            final(recording)@ == old(recording)@ + seq![
                Action::FreeBuffer(self.path_bboxes),
                Action::FreeBuffer(self.lines),
            ],
    {
        recording.free_buffer(self.path_bboxes);
        recording.free_buffer(self.lines);
        assert(recording@ =~= old(recording)@ + seq![
            Action::FreeBuffer(self.path_bboxes),
            Action::FreeBuffer(self.lines),
        ]);
    }
}

/// What is known of a render in progress.
pub struct RenderState {
    pub fine_wg_count: Option<WorkgroupSize>,
    pub fine_resources: Option<FineResources>,
    pub mask_buf: Option<ResourceProxy>,
    pub captured_buffers: Option<CapturedBuffers>,
    /// Whether buffers are captured for debug visualization.
    pub debug_layers: bool,
}

/// State for a render in progress.
pub struct Render {
    fine_wg_count: Option<WorkgroupSize>,
    fine_resources: Option<FineResources>,
    mask_buf: Option<ResourceProxy>,
    captured_buffers: Option<CapturedBuffers>,
    debug_layers: bool,
}

impl View for Render {
    type V = RenderState;

    closed spec fn view(&self) -> RenderState {
        RenderState {
            fine_wg_count: self.fine_wg_count,
            fine_resources: self.fine_resources,
            mask_buf: self.mask_buf,
            captured_buffers: self.captured_buffers,
            debug_layers: self.debug_layers,
        }
    }
}

/// The state before anything is rendered.
pub open spec fn idle(debug_layers: bool) -> RenderState {
    RenderState {
        fine_wg_count: None,
        fine_resources: None,
        mask_buf: None,
        captured_buffers: None,
        debug_layers,
    }
}

/// The resources that fine rasterization takes over.
pub open spec fn fine_resources(r: CoarseResources, aa_config: AaConfig) -> FineResources {
    FineResources {
        aa_config,
        config_buf: buf(r.config_buf),
        bump_buf: buf(r.bump_buf),
        tile_buf: buf(r.tile_buf),
        segments_buf: buf(r.segments_buf),
        ptcl_buf: buf(r.ptcl_buf),
        gradient_image: ResourceProxy::Image(r.gradient_image),
        info_bin_data_buf: buf(r.info_bin_data_buf),
        image_atlas: ResourceProxy::Image(r.image_atlas),
        blend_spill_buf: buf(r.blend_spill_buf),
        out_image: r.out_image,
    }
}

/// A scene in coarse rasterization: what is rendered, how, and with which
/// configuration.
pub struct CoarsePass {
    pub packed: Seq<u8>,
    pub images: SceneImages,
    pub shaders: FullShaders,
    pub params: RenderParams,
    pub config: Configured,
    /// Whether the bump buffer is made available.
    pub robust: bool,
}

impl CoarsePass {
    /// Whether the path tags are scanned in two steps.
    pub open spec fn large(self) -> bool {
        self.config.workgroup_counts.use_large_path_scan && !self.shaders.pathtag_is_cpu
    }

    /// The number of resources of the pass.
    pub open spec fn resource_count(self) -> int {
        crate::coarse::coarse_resource_count(self.large())
    }

    /// The resources of the pass, with identities from `first` on.
    pub open spec fn resources(self, first: int) -> CoarseResources {
        coarse_resources(
            first,
            image_sizes(
                self.images.ramp_width,
                self.images.ramp_height,
                self.images.atlas_width,
                self.images.atlas_height,
                self.images.atlas_images.len(),
            ),
            scene_bytes(self.packed).len() as u64,
            self.large(),
            self.config.buffer_sizes,
            self.params.width,
            self.params.height,
        )
    }

    /// The actions of the pass.
    pub open spec fn actions(self, first: int, debug_layers: bool) -> Seq<Action> {
        let r = self.resources(first);
        input_actions(
            r,
            self.packed,
            self.images.ramps,
            self.images.ramp_height,
            self.images.atlas_images,
            self.config.uniform,
        ) + stage_actions(
            r,
            self.shaders,
            self.config.workgroup_counts,
            self.robust,
            self.robust && debug_layers,
        )
    }

    /// The state behind the pass.
    pub open spec fn state_after(self, first: int, before: RenderState) -> RenderState {
        let r = self.resources(first);
        RenderState {
            fine_wg_count: Some(self.config.workgroup_counts.fine),
            fine_resources: Some(fine_resources(r, self.params.antialiasing_method)),
            mask_buf: before.mask_buf,
            captured_buffers: if self.robust && before.debug_layers {
                Some(
                    CapturedBuffers {
                        sizes: self.config.buffer_sizes,
                        path_bboxes: r.path_bbox_buf,
                        lines: r.lines_buf,
                    },
                )
            } else {
                before.captured_buffers
            },
            debug_layers: before.debug_layers,
        }
    }
}

/// Behind coarse rasterization fine rasterization can follow, where there is a shader
/// for it; and the bump buffer is a buffer.
pub proof fn lemma_coarse_prepares_fine(pass: CoarsePass, first: int, before: RenderState)
    ensures
        ({
            let state = pass.state_after(first, before);
            &&& state.ready_for_fine(pass.shaders) <==> fine_shader(
                pass.shaders,
                pass.params.antialiasing_method,
            ) is Some
            &&& state.fine_resources->0.bump_buf is Buffer
        }),
{
}

/// The configuration of a scene and a frame.
pub open spec fn scene_config(layout: Layout, params: RenderParams) -> Configured {
    configured(
        render_config(
            layout_words(layout),
            params.width,
            params.height,
            params.base_color.components(),
        ),
    )
}

/// The coarse pass of a scene, with the configuration that the outside crate
/// computes for it.
pub open spec fn coarse_pass(
    scene: SceneInput,
    shaders: FullShaders,
    params: RenderParams,
    robust: bool,
) -> CoarsePass {
    CoarsePass {
        packed: scene.packed,
        images: scene.images,
        shaders,
        params,
        config: scene_config(scene.layout, params),
        robust,
    }
}

/// The most resources that a coarse pass has.
pub const COARSE_RESOURCES: u64 = 28;

/// The shader of fine rasterization for a way to smooth edges.
pub open spec fn fine_shader(shaders: FullShaders, aa_config: AaConfig) -> Option<ShaderId> {
    match aa_config {
        AaConfig::Area => shaders.fine_area,
        AaConfig::Msaa8 => shaders.fine_msaa8,
        AaConfig::Msaa16 => shaders.fine_msaa16,
    }
}

impl RenderState {
    /// Whether fine rasterization can follow.
    pub open spec fn ready_for_fine(self, shaders: FullShaders) -> bool {
        &&& self.fine_wg_count is Some
        &&& self.fine_resources is Some
        &&& fine_shader(shaders, self.fine_resources->0.aa_config) is Some
    }

    /// Whether a table of sample masks has to be uploaded.
    pub open spec fn needs_mask(self) -> bool {
        self.fine_resources->0.aa_config != AaConfig::Area && self.mask_buf is None
    }

    /// The number of resources that fine rasterization makes.
    pub open spec fn fine_resource_count(self) -> int {
        if self.needs_mask() {
            1
        } else {
            0
        }
    }

    /// The buffer of sample masks.
    pub open spec fn mask(self, first: int, mask_lut: Seq<u8>) -> Option<ResourceProxy> {
        if self.needs_mask() {
            Some(buf(nth_buffer(first, 0, mask_lut.len() as u64, "vello.mask_lut")))
        } else {
            self.mask_buf
        }
    }

    /// The actions of fine rasterization, with this table of sample masks.
    pub open spec fn fine_actions(self, first: int, shaders: FullShaders, mask_lut: Seq<u8>) -> Seq<
        Action,
    > {
        let f = self.fine_resources->0;
        let mask = self.mask(first, mask_lut);
        let upload = if self.needs_mask() {
            seq![
                Action::Upload(
                    nth_buffer(first, 0, mask_lut.len() as u64, "vello.mask_lut"),
                    mask_lut,
                ),
            ]
        } else {
            Seq::empty()
        };
        let bindings = seq![
            f.config_buf,
            f.segments_buf,
            f.ptcl_buf,
            f.info_bin_data_buf,
            f.blend_spill_buf,
            ResourceProxy::Image(f.out_image),
            f.gradient_image,
            f.image_atlas,
        ];
        let dispatch = Action::Dispatch(
            fine_shader(shaders, f.aa_config)->0,
            self.fine_wg_count->0,
            if f.aa_config == AaConfig::Area {
                bindings
            } else {
                bindings.push(mask->0)
            },
        );
        let frees = seq![
            free(f.config_buf),
            free(f.tile_buf),
            free(f.segments_buf),
            free(f.ptcl_buf),
            free(f.gradient_image),
            free(f.image_atlas),
            free(f.info_bin_data_buf),
            free(f.blend_spill_buf),
        ];
        let mask_free = match mask {
            Some(mask) => seq![free(mask)],
            None => Seq::empty(),
        };
        upload.push(dispatch) + frees + mask_free
    }

    /// The state behind fine rasterization.
    pub open spec fn after_fine(self) -> RenderState {
        RenderState {
            fine_wg_count: None,
            fine_resources: None,
            mask_buf: None,
            captured_buffers: self.captured_buffers,
            debug_layers: self.debug_layers,
        }
    }
}

/// What coarse rasterization of a resolved scene leads to: a recording and a new
/// state, or nothing where the sizes of the scene and the frame do not fit.
pub open spec fn coarse_outcome(
    scene: SceneInput,
    shaders: FullShaders,
    params: RenderParams,
    robust: bool,
    first: int,
    before: RenderState,
    recorded: Option<Seq<Action>>,
    after: RenderState,
    next: int,
) -> bool {
    let pass = coarse_pass(scene, shaders, params, robust);
    if config_fits(scene.layout, params.width, params.height) {
        &&& recorded == Some(pass.actions(first, before.debug_layers))
        &&& after == pass.state_after(first, before)
        &&& next == first + pass.resource_count()
    } else {
        &&& recorded is None
        &&& after == before
        &&& next == first
    }
}

/// The actions of a recording, where there is one.
pub open spec fn recorded(recording: Option<Recording>) -> Option<Seq<Action>> {
    match recording {
        Some(recording) => Some(recording@),
        None => None,
    }
}

impl Default for Render {
    /// A render that was not started.
    fn default() -> (render: Render)
        ensures
            render@ == idle(false),
    {
        Render::new()
    }
}

impl Render {
    /// A render that was not started.
    pub fn new() -> (render: Render)
        ensures
            render@ == idle(false),
    {
        Render {
            fine_wg_count: None,
            fine_resources: None,
            mask_buf: None,
            captured_buffers: None,
            debug_layers: false,
        }
    }

    /// A render that was not started and that captures buffers for debug
    /// visualization.
    pub fn with_debug_layers() -> (render: Render)
        ensures
            render@ == idle(true),
    {
        Render {
            fine_wg_count: None,
            fine_resources: None,
            mask_buf: None,
            captured_buffers: None,
            debug_layers: true,
        }
    }

    /// Records coarse rasterization of a packed scene with the given configuration.
    pub fn render_configured_coarse(
        &mut self,
        ids: &mut ResourceIds,
        packed: Vec<u8>,
        config: &RenderConfig,
        ramps: &Ramps,
        image_atlas_width: u32,
        image_atlas_height: u32,
        image_atlas_images: &[(ImageData, u32, u32)],
        shaders: &FullShaders,
        params: &RenderParams,
        robust: bool,
    ) -> (recording: Recording)
        requires
            old(ids).has_room(COARSE_RESOURCES as int),
        ensures
            ({
                let pass = CoarsePass {
                    packed: packed@,
                    images: scene_images(
                        *ramps,
                        image_atlas_width,
                        image_atlas_height,
                        image_atlas_images@,
                    ),
                    shaders: *shaders,
                    params: *params,
                    config: config@,
                    robust,
                };
                let first = old(ids).next_id() as int;
                &&& recording@ == pass.actions(first, old(self)@.debug_layers)
                &&& final(self)@ == pass.state_after(first, old(self)@)
                &&& final(ids).next_id() == first + pass.resource_count()
            }),
    {
        let mut recording = Recording::default();
        let large = config.workgroup_counts.use_large_path_scan && !shaders.pathtag_is_cpu;
        let capture = robust && self.debug_layers;
        let gradient_is_empty = ramps.height == 0;
        let atlas_is_empty = image_atlas_images.len() == 0;
        let images = ImageSizes {
            gradient_width: if gradient_is_empty {
                1
            } else {
                ramps.width
            },
            gradient_height: if gradient_is_empty {
                1
            } else {
                ramps.height
            },
            atlas_width: if atlas_is_empty {
                1
            } else {
                image_atlas_width
            },
            atlas_height: if atlas_is_empty {
                1
            } else {
                image_atlas_height
            },
        };
        let scene_size: u64 = if packed.len() == 0 {
            4
        } else {
            packed.len() as u64
        };
        let r = CoarseResources::allocate(
            ids,
            images,
            scene_size,
            large,
            config.buffer_sizes,
            params.width,
            params.height,
        );
        record_inputs(&mut recording, &r, packed, ramps, image_atlas_images, config);
        record_stages(&mut recording, &r, shaders, &config.workgroup_counts, robust, capture);
        self.fine_wg_count = Some(config.workgroup_counts.fine);
        self.fine_resources = Some(
            FineResources {
                aa_config: params.antialiasing_method,
                config_buf: ResourceProxy::Buffer(r.config_buf),
                bump_buf: ResourceProxy::Buffer(r.bump_buf),
                tile_buf: ResourceProxy::Buffer(r.tile_buf),
                segments_buf: ResourceProxy::Buffer(r.segments_buf),
                ptcl_buf: ResourceProxy::Buffer(r.ptcl_buf),
                gradient_image: ResourceProxy::Image(r.gradient_image),
                info_bin_data_buf: ResourceProxy::Buffer(r.info_bin_data_buf),
                image_atlas: ResourceProxy::Image(r.image_atlas),
                blend_spill_buf: ResourceProxy::Buffer(r.blend_spill_buf),
                out_image: r.out_image,
            },
        );
        if capture {
            self.captured_buffers = Some(
                CapturedBuffers {
                    sizes: config.buffer_sizes,
                    path_bboxes: r.path_bbox_buf,
                    lines: r.lines_buf,
                },
            );
        }
        recording
    }

    /// Records coarse rasterization of a packed scene.
    ///
    /// The `robust` parameter controls whether the bump buffer is made available,
    /// so that the caller can see whether the memory sufficed.
    pub fn render_packed_coarse(
        &mut self,
        ids: &mut ResourceIds,
        packed: Vec<u8>,
        layout: Layout,
        ramps: &Ramps,
        image_atlas_width: u32,
        image_atlas_height: u32,
        image_atlas_images: &[(ImageData, u32, u32)],
        shaders: &FullShaders,
        params: &RenderParams,
        robust: bool,
    ) -> (recording: Recording)
        requires
            config_fits(layout, params.width, params.height),
            old(ids).has_room(COARSE_RESOURCES as int),
        ensures
            ({
                let scene = SceneInput {
                    layout,
                    packed: packed@,
                    images: scene_images(
                        *ramps,
                        image_atlas_width,
                        image_atlas_height,
                        image_atlas_images@,
                    ),
                };
                let pass = coarse_pass(scene, *shaders, *params, robust);
                let first = old(ids).next_id() as int;
                &&& recording@ == pass.actions(first, old(self)@.debug_layers)
                &&& final(self)@ == pass.state_after(first, old(self)@)
                &&& final(ids).next_id() == first + pass.resource_count()
            }),
    {
        let config = RenderConfig::new(layout, params.width, params.height, params.base_color);
        self.render_configured_coarse(
            ids,
            packed,
            &config,
            ramps,
            image_atlas_width,
            image_atlas_height,
            image_atlas_images,
            shaders,
            params,
            robust,
        )
    }

    /// Records coarse rasterization of a resolved scene, where the sizes of the
    /// scene and the frame fit.
    pub fn render_resolved_coarse(
        &mut self,
        ids: &mut ResourceIds,
        scene: ResolvedScene,
        shaders: &FullShaders,
        params: &RenderParams,
        robust: bool,
    ) -> (recording: Option<Recording>)
        requires
            old(ids).has_room(COARSE_RESOURCES as int),
        ensures
            coarse_outcome(
                scene@,
                *shaders,
                *params,
                robust,
                old(ids).next_id() as int,
                old(self)@,
                recorded(recording),
                final(self)@,
                final(ids).next_id() as int,
            ),
    {
        if !render_config_fits(scene.layout, params.width, params.height) {
            return None;
        }
        Some(
            self.render_packed_coarse(
                ids,
                scene.packed,
                scene.layout,
                &scene.ramps,
                scene.atlas_width,
                scene.atlas_height,
                scene.images.as_slice(),
                shaders,
                params,
                robust,
            ),
        )
    }

    /// Resolves an encoded scene and records its coarse rasterization, where the
    /// scene is well built and the sizes of the scene and the frame fit.
    ///
    /// The `robust` parameter controls whether the bump buffer is made available,
    /// so that the caller can see whether the memory sufficed.
    pub fn render_encoding_coarse(
        &mut self,
        ids: &mut ResourceIds,
        encoding: &vello_encoding::Encoding,
        resolver: &mut vello_encoding::Resolver,
        shaders: &FullShaders,
        params: &RenderParams,
        robust: bool,
    ) -> (recording: Option<Recording>)
        requires
            old(ids).has_room(COARSE_RESOURCES as int),
        ensures
            if encoded(*encoding).well_built() {
                exists|scene: SceneInput|
                    encoded(*encoding).resolves_to(scene, held_images(*final(resolver)))
                        && #[trigger] coarse_outcome(
                        scene,
                        *shaders,
                        *params,
                        robust,
                        old(ids).next_id() as int,
                        old(self)@,
                        recorded(recording),
                        final(self)@,
                        final(ids).next_id() as int,
                    )
            } else {
                &&& recording is None
                &&& final(self)@ == old(self)@
                &&& final(ids).next_id() == old(ids).next_id()
            },
            !encoded(*encoding).well_built() || encoded(*encoding).patches.len() == 0
                ==> *final(resolver) == *old(resolver),
    {
        let scene = match resolve(encoding, resolver) {
            Some(scene) => scene,
            None => {
                return None;
            },
        };
        self.render_resolved_coarse(ids, scene, shaders, params, robust)
    }

    /// Records fine rasterization with the given table of sample masks, which is
    /// only looked at where one is needed.
    pub fn record_masked_fine(
        &mut self,
        ids: &mut ResourceIds,
        shaders: &FullShaders,
        recording: &mut Recording,
        mask_lut: Vec<u8>,
    )
        requires
            old(self)@.ready_for_fine(*shaders),
            old(ids).has_room(1),
        ensures
            final(recording)@ == old(recording)@ + old(self)@.fine_actions(
                old(ids).next_id() as int,
                *shaders,
                mask_lut@,
            ),
            final(self)@ == old(self)@.after_fine(),
            final(ids).next_id() == old(ids).next_id() + old(self)@.fine_resource_count(),
    {
        let ghost before = self@;
        let ghost first = ids.next_id() as int;
        let ghost lut = mask_lut@;
        let fine_wg_count = self.fine_wg_count.take().unwrap();
        let fine = self.fine_resources.take().unwrap();
        let mut bindings = vec![
            fine.config_buf,
            fine.segments_buf,
            fine.ptcl_buf,
            fine.info_bin_data_buf,
            fine.blend_spill_buf,
            ResourceProxy::Image(fine.out_image),
            fine.gradient_image,
            fine.image_atlas,
        ];
        let fine_shader = match fine.aa_config {
            AaConfig::Area => shaders.fine_area.unwrap(),
            AaConfig::Msaa8 => shaders.fine_msaa8.unwrap(),
            AaConfig::Msaa16 => shaders.fine_msaa16.unwrap(),
        };
        if fine.aa_config != AaConfig::Area {
            if self.mask_buf.is_none() {
                let mask_buf = recording.upload(ids, "vello.mask_lut", mask_lut);
                self.mask_buf = Some(ResourceProxy::Buffer(mask_buf));
            }
            bindings.push(self.mask_buf.unwrap());
        }
        recording.dispatch(fine_shader, fine_wg_count, bindings);
        recording.free_resource(fine.config_buf);
        recording.free_resource(fine.tile_buf);
        recording.free_resource(fine.segments_buf);
        recording.free_resource(fine.ptcl_buf);
        recording.free_resource(fine.gradient_image);
        recording.free_resource(fine.image_atlas);
        recording.free_resource(fine.info_bin_data_buf);
        recording.free_resource(fine.blend_spill_buf);
        if let Some(mask_buf) = self.mask_buf.take() {
            recording.free_resource(mask_buf);
        }
        assert(recording@ =~~= old(recording)@ + before.fine_actions(first, *shaders, lut));
    }

    /// Records fine rasterization, behind coarse rasterization.
    pub fn record_fine(
        &mut self,
        ids: &mut ResourceIds,
        shaders: &FullShaders,
        recording: &mut Recording,
    )
        requires
            old(self)@.ready_for_fine(*shaders),
            old(ids).has_room(1),
        ensures
            exists|mask_lut: Seq<u8>|
                ({
                    &&& holds_masks(mask_lut, old(self)@.fine_resources->0.aa_config)
                    &&& final(recording)@ == old(recording)@
                        + #[trigger] old(self)@.fine_actions(
                        old(ids).next_id() as int,
                        *shaders,
                        mask_lut,
                    )
                }),
            final(self)@ == old(self)@.after_fine(),
            final(ids).next_id() == old(ids).next_id() + old(self)@.fine_resource_count(),
    {
        let mask_lut = sample_masks(self.fine_resources.unwrap().aa_config);
        self.record_masked_fine(ids, shaders, recording, mask_lut);
    }

    /// The output image.
    pub fn out_image(&self) -> (image: ImageProxy)
        requires
            self@.fine_resources is Some,
        ensures
            image == self@.fine_resources->0.out_image,
    {
        self.fine_resources.unwrap().out_image
    }

    /// The bump buffer.
    pub fn bump_buf(&self) -> (buffer: BufferProxy)
        requires
            self@.fine_resources is Some,
            self@.fine_resources->0.bump_buf is Buffer,
        ensures
            ResourceProxy::Buffer(buffer) == self@.fine_resources->0.bump_buf,
    {
        self.fine_resources.unwrap().bump_buf.as_buf().unwrap()
    }

    /// Takes the captured buffers out of the state.
    pub fn take_captured_buffers(&mut self) -> (captured: Option<CapturedBuffers>)
        ensures
            captured == old(self)@.captured_buffers,
            final(self)@ == (RenderState { captured_buffers: None, ..old(self)@ }),
    {
        self.captured_buffers.take()
    }
}

} // verus!
