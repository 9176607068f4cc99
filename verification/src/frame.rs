//! Frames of scenes with backdrops: the segments of the scene are rendered one
//! after the other, and each backdrop blurs what was rendered before it.

use vstd::prelude::*;

use crate::backdrop::{
    apply_backdrop_op, backdrop_is_visible, compose_src_over, copy_image, BackdropBlurOp,
    BackdropImages,
};
use crate::coarse::{AaConfig, FullShaders, RenderParams};
use crate::color::{solid_image_data, Color};
use crate::config::render_config_fits;
use crate::layout::{write_words, Layout};
use crate::packing::{
    build_packed_prefix, draws_are_available, scene_is_readable, segment_is_ready,
    try_build_packed_range,
};
use crate::recording::{
    BufferProxy, ImageData, ImageFormat, ImageProxy, Recording, ResourceIds,
};
use crate::render::{Render, COARSE_RESOURCES};
use crate::replay::{ReplayScene, Segment};
use crate::resolve::ResolvedScene;

verus! {

use crate::backdrop::{backdrop_actions, compose_action, copy_action};
use crate::coarse::{nth_buffer, nth_image};
use crate::color::{draw_color, pixels_fit, solid_pixels};
use crate::config::config_fits;
use crate::layout::words_bytes;
use crate::packing::{
    available, clamped_draw, packed_range, packed_segment, segment_fits, segment_ready,
};
use crate::recording::{Action, Pixels};
use crate::render::{coarse_pass, fine_shader, idle, CoarsePass};
use crate::replay::{ReplayInput, SegmentRange};
use crate::resolve::SceneInput;

/// What a frame is rendered from, and how.
#[verifier::ext_equal]
pub struct Setup {
    pub scene: SceneInput,
    pub shaders: FullShaders,
    pub params: RenderParams,
    /// The table of sample masks.
    pub mask_lut: Seq<u8>,
}

/// What a frame is rendered from, and how.
pub struct FrameSetup<'a> {
    pub scene: &'a ResolvedScene,
    pub shaders: &'a FullShaders,
    pub params: &'a RenderParams,
    /// The table of sample masks.
    pub mask_lut: &'a [u8],
}

impl<'a> View for FrameSetup<'a> {
    type V = Setup;

    open spec fn view(&self) -> Setup {
        Setup {
            scene: self.scene@,
            shaders: *self.shaders,
            params: *self.params,
            mask_lut: self.mask_lut@,
        }
    }
}

/// The most resources that a pass makes.
pub const PASS_RESOURCES: u64 = COARSE_RESOURCES + 1;

impl Setup {
    /// Whether there is a shader for the way to smooth edges.
    pub open spec fn has_fine_shader(self) -> bool {
        fine_shader(self.shaders, self.params.antialiasing_method) is Some
    }

    /// The coarse pass of a part of the scene over a base color.
    pub open spec fn pass(self, part: (Layout, Seq<u8>), base_color: Color) -> CoarsePass {
        coarse_pass(
            SceneInput { layout: part.0, packed: part.1, images: self.scene.images },
            self.shaders,
            RenderParams { base_color, ..self.params },
            false,
        )
    }

    /// The number of resources that a pass makes.
    #[verifier::opaque]
    pub open spec fn pass_ids(self, part: (Layout, Seq<u8>), base_color: Color) -> int {
        self.pass(part, base_color).resource_count() + if self.params.antialiasing_method
            == AaConfig::Area {
            0int
        } else {
            1
        }
    }

    /// The image that a pass renders.
    #[verifier::opaque]
    pub open spec fn pass_image(self, first: int, part: (Layout, Seq<u8>), base_color: Color) -> ImageProxy {
        self.pass(part, base_color).resources(first).out_image
    }

    /// The actions of a pass, with identities from `first` on. The background, where
    /// there is one, is written into the image before fine rasterization.
    #[verifier::opaque]
    pub open spec fn pass_actions(
        self,
        first: int,
        part: (Layout, Seq<u8>),
        base_color: Color,
        background: Option<Pixels>,
    ) -> Seq<Action> {
        let pass = self.pass(part, base_color);
        let between = match background {
            Some(pixels) => seq![
                Action::WriteImage(self.pass_image(first, part, base_color), 0, 0, pixels),
            ],
            None => Seq::empty(),
        };
        pass.actions(first, false) + between + pass.state_after(first, idle(false)).fine_actions(
            first + pass.resource_count(),
            self.shaders,
            self.mask_lut,
        )
    }

    /// An image of one color that fills the frame.
    pub open spec fn background(self, color: Color) -> Pixels {
        solid_pixels(self.params.width, self.params.height, draw_color(color.components()))
    }

    /// The packed scene of a segment.
    #[verifier::opaque]
    pub open spec fn part(self, segment: SegmentRange) -> (Layout, Seq<u8>) {
        packed_segment(
            self.scene.layout,
            self.scene.packed,
            segment.draw_start as int,
            segment.draw_end as int,
            segment.seeds,
            segment.ends,
        )
    }

    /// Whether the sizes of a part of the scene fit, where it has draw objects.
    pub open spec fn part_fits(self, part: (Layout, Seq<u8>)) -> bool {
        part.0.n_draw_objects > 0 ==> config_fits(part.0, self.params.width, self.params.height)
    }

    /// Whether a segment can be rendered: the scene holds all that it refers to, and
    /// its positions and sizes fit.
    #[verifier::opaque]
    pub open spec fn renders(self, segment: SegmentRange) -> bool {
        &&& segment_ready(
            self.scene.layout,
            self.scene.packed,
            segment.draw_start as int,
            segment.draw_end as int,
            segment.seeds,
        )
        &&& segment_fits(
            self.scene.layout,
            self.scene.packed,
            segment.draw_start as int,
            segment.draw_end as int,
            segment.seeds,
            segment.ends,
        )
        &&& self.part_fits(self.part(segment))
    }

    /// The number of resources that a part of the scene makes.
    #[verifier::opaque]
    pub open spec fn part_ids(self, part: (Layout, Seq<u8>), base_color: Color) -> int {
        if part.0.n_draw_objects == 0 {
            1
        } else {
            self.pass_ids(part, base_color)
        }
    }

    /// The image of a part of the scene.
    #[verifier::opaque]
    pub open spec fn part_image(self, first: int, part: (Layout, Seq<u8>), base_color: Color) -> ImageProxy {
        if part.0.n_draw_objects == 0 {
            nth_image(first, 0, self.params.width, self.params.height)
        } else {
            self.pass_image(first, part, base_color)
        }
    }

    /// The actions that render a part of the scene over a base color: a part without
    /// draw objects is an image of that color.
    #[verifier::opaque]
    pub open spec fn part_actions(self, first: int, part: (Layout, Seq<u8>), base_color: Color) -> Seq<
        Action,
    > {
        if part.0.n_draw_objects == 0 {
            seq![
                Action::UploadImage(
                    self.part_image(first, part, base_color),
                    self.background(base_color).data,
                ),
            ]
        } else {
            self.pass_actions(first, part, base_color, Some(self.background(base_color)))
        }
    }
}

/// The pixels of an image, where there is one.
pub open spec fn pixels_of(image: Option<ImageData>) -> Option<Pixels> {
    match image {
        Some(image) => Some(image@),
        None => None,
    }
}

/// A part of the scene makes at least one resource, and no more than a pass.
pub proof fn lemma_part_ids(setup: Setup, part: (Layout, Seq<u8>), base_color: Color)
    ensures
        1 <= setup.part_ids(part, base_color) <= PASS_RESOURCES,
{
    reveal(Setup::part_ids);
    lemma_pass_ids(setup, part, base_color);
}

/// A pass makes at least one resource, and no more than the most.
pub proof fn lemma_pass_ids(setup: Setup, part: (Layout, Seq<u8>), base_color: Color)
    ensures
        1 <= setup.pass_ids(part, base_color) <= PASS_RESOURCES,
{
    reveal(Setup::pass_ids);
}

/// Records the rendering of a part of the scene, and says which image holds it.
pub fn record_pass(
    recording: &mut Recording,
    ids: &mut ResourceIds,
    setup: &FrameSetup,
    packed: Vec<u8>,
    layout: Layout,
    base_color: Color,
    background: Option<ImageData>,
) -> (image: ImageProxy)
    requires
        setup@.has_fine_shader(),
        config_fits(layout, setup.params.width, setup.params.height),
        old(ids).has_room(PASS_RESOURCES as int),
    ensures
        ({
            let first = old(ids).next_id() as int;
            let part = (layout, packed@);
            &&& final(recording)@ == old(recording)@ + setup@.pass_actions(
                first,
                part,
                base_color,
                pixels_of(background),
            )
            &&& image == setup@.pass_image(first, part, base_color)
            &&& final(ids).next_id() == first + setup@.pass_ids(part, base_color)
        }),
{
    let ghost first = ids.next_id() as int;
    let ghost part = (layout, packed@);
    let ghost pixels = pixels_of(background);
    reveal(Setup::pass_actions);
    reveal(Setup::pass_image);
    reveal(Setup::pass_ids);
    let mut pass = Render::new();
    let params = RenderParams {
        base_color,
        width: setup.params.width,
        height: setup.params.height,
        antialiasing_method: setup.params.antialiasing_method,
    };
    let mut pass_recording = pass.render_packed_coarse(
        ids,
        packed,
        layout,
        &setup.scene.ramps,
        setup.scene.atlas_width,
        setup.scene.atlas_height,
        setup.scene.images.as_slice(),
        setup.shaders,
        &params,
        false,
    );
    let image = pass.out_image();
    if let Some(background) = background {
        pass_recording.write_image(image, 0, 0, background);
    }
    let mut mask_lut: Vec<u8> = Vec::new();
    mask_lut.extend_from_slice(setup.mask_lut);
    assert(mask_lut@ =~= setup.mask_lut@);
    pass.record_masked_fine(ids, setup.shaders, &mut pass_recording, mask_lut);
    recording.append(&mut pass_recording);
    assert(recording@ =~= old(recording)@ + setup@.pass_actions(first, part, base_color, pixels));
    image
}

/// Records the rendering of a part of the scene over a base color, and says which
/// image holds it.
pub fn render_packed_segment(
    recording: &mut Recording,
    ids: &mut ResourceIds,
    setup: &FrameSetup,
    packed: Vec<u8>,
    layout: Layout,
    base_color: Color,
) -> (image: ImageProxy)
    requires
        setup@.has_fine_shader(),
        pixels_fit(setup.params.width, setup.params.height),
        setup@.part_fits((layout, packed@)),
        old(ids).has_room(PASS_RESOURCES as int),
    ensures
        ({
            let first = old(ids).next_id() as int;
            let part = (layout, packed@);
            &&& final(recording)@ == old(recording)@ + setup@.part_actions(
                first,
                part,
                base_color,
            )
            &&& image == setup@.part_image(first, part, base_color)
            &&& final(ids).next_id() == first + setup@.part_ids(part, base_color)
        }),
{
    let ghost first = ids.next_id() as int;
    reveal(Setup::part_actions);
    reveal(Setup::part_image);
    reveal(Setup::part_ids);
    let background = solid_image_data(setup.params.width, setup.params.height, base_color);
    if layout.n_draw_objects == 0 {
        let image = recording.upload_image(
            ids,
            setup.params.width,
            setup.params.height,
            ImageFormat::Rgba8,
            background.data,
        );
        assert(recording@ =~= old(recording)@ + setup@.part_actions(
            first,
            (layout, packed@),
            base_color,
        ));
        return image;
    }
    record_pass(recording, ids, setup, packed, layout, base_color, Some(background))
}

/// Records the rendering of a segment over a base color, where it can be
/// rendered, and says which image holds it.
fn record_segment(
    recording: &mut Recording,
    ids: &mut ResourceIds,
    setup: &FrameSetup,
    segment: &Segment,
    base_color: Color,
) -> (image: Option<ImageProxy>)
    requires
        setup@.has_fine_shader(),
        pixels_fit(setup.params.width, setup.params.height),
        old(ids).has_room(PASS_RESOURCES as int),
    ensures
        match image {
            Some(image) => {
                let first = old(ids).next_id() as int;
                let part = setup@.part(segment@);
                &&& setup@.renders(segment@)
                &&& final(recording)@ == old(recording)@ + setup@.part_actions(
                    first,
                    part,
                    base_color,
                )
                &&& image == setup@.part_image(first, part, base_color)
                &&& final(ids).next_id() == first + setup@.part_ids(part, base_color)
            },
            None => !setup@.renders(segment@) && final(ids).next_id() == old(ids).next_id(),
        },
{
    proof {
        reveal(Setup::part);
        reveal(Setup::renders);
    }
    if !segment_is_ready(
        setup.scene.packed.as_slice(),
        setup.scene.layout,
        segment.draw_start,
        segment.draw_end,
        segment.clip_seed_begin_draws.as_slice(),
    ) {
        return None;
    }
    let (layout, packed) = match try_build_packed_range(
        setup.scene.packed.as_slice(),
        setup.scene.layout,
        segment.draw_start,
        segment.draw_end,
        segment.clip_seed_begin_draws.as_slice(),
        segment.synthetic_end_clip_count,
    ) {
        Some(part) => part,
        None => {
            return None;
        },
    };
    if layout.n_draw_objects > 0 && !render_config_fits(
        layout,
        setup.params.width,
        setup.params.height,
    ) {
        return None;
    }
    Some(render_packed_segment(recording, ids, setup, packed, layout, base_color))
}

/// A frame in progress.
#[verifier::ext_equal]
pub struct Frame {
    pub actions: Seq<Action>,
    /// The image that holds the scene so far.
    pub scene_image: ImageProxy,
    /// The image that the next step writes to.
    pub scene_tmp: ImageProxy,
    /// The identity of the next resource.
    pub next: int,
}

/// The resources that all steps of a frame share.
#[derive(Clone, Copy, Debug, PartialEq, Eq)]
pub struct WorkImages {
    pub blur_tmp: ImageProxy,
    pub blur_image: ImageProxy,
    /// The uniform with the size of the frame.
    pub params_buf: BufferProxy,
}

impl Setup {
    /// The words of the uniform with the size of the frame.
    pub open spec fn frame_words(self) -> Seq<u32> {
        seq![self.params.width, self.params.height, 0u32, 0u32]
    }

    /// The frame behind a segment that is composed over it.
    pub open spec fn composed(self, frame: Frame, segment: SegmentRange, work: WorkImages) -> Frame {
        let part = self.part(segment);
        let image = self.part_image(frame.next, part, Color::clear());
        Frame {
            actions: frame.actions + self.part_actions(frame.next, part, Color::clear()) + seq![
                compose_action(
                    self.shaders,
                    work.params_buf,
                    self.params.width,
                    self.params.height,
                    frame.scene_image,
                    image,
                    frame.scene_tmp,
                ),
                Action::FreeImage(image),
            ],
            scene_image: frame.scene_tmp,
            scene_tmp: frame.scene_image,
            next: frame.next + self.part_ids(part, Color::clear()),
        }
    }

    /// The frame behind a backdrop that blurs `source`. One that does not touch the
    /// frame changes nothing.
    pub open spec fn backdropped(
        self,
        frame: Frame,
        source: ImageProxy,
        op: BackdropBlurOp,
        work: WorkImages,
    ) -> Frame {
        if op.is_visible(self.params) {
            Frame {
                actions: frame.actions + backdrop_actions(
                    frame.next,
                    self.shaders,
                    self.params,
                    work.params_buf,
                    op,
                    BackdropImages {
                        source,
                        scene_image: frame.scene_image,
                        blur_tmp: work.blur_tmp,
                        blur_image: work.blur_image,
                        scene_tmp: frame.scene_tmp,
                    },
                ),
                scene_image: frame.scene_tmp,
                scene_tmp: frame.scene_image,
                next: frame.next + 2,
            }
        } else {
            frame
        }
    }

    /// The image that the finished frame is in.
    pub open spec fn final_image(self, frame: Frame) -> ImageProxy {
        nth_image(frame.next, 0, self.params.width, self.params.height)
    }

    /// The actions of the finished frame: the scene is copied, and the images that
    /// the steps shared are freed.
    pub open spec fn finished(self, frame: Frame, work: WorkImages) -> Seq<Action> {
        let copied = frame.actions.push(
            copy_action(
                self.shaders,
                work.params_buf,
                self.params.width,
                self.params.height,
                frame.scene_image,
                self.final_image(frame),
            ),
        );
        let scene_freed = if frame.scene_image.id != frame.scene_tmp.id && frame.scene_image.id
            != work.blur_tmp.id && frame.scene_image.id != work.blur_image.id {
            copied.push(Action::FreeImage(frame.scene_image))
        } else {
            copied
        };
        scene_freed + seq![
            Action::FreeBuffer(work.params_buf),
            Action::FreeImage(work.blur_tmp),
            Action::FreeImage(work.blur_image),
            Action::FreeImage(frame.scene_tmp),
        ]
    }
}

/// A frame in progress.
struct Canvas {
    recording: Recording,
    scene_image: ImageProxy,
    scene_tmp: ImageProxy,
}

impl Canvas {
    /// The frame so far, with this identity for the next resource.
    spec fn frame(&self, next: int) -> Frame {
        Frame {
            actions: self.recording@,
            scene_image: self.scene_image,
            scene_tmp: self.scene_tmp,
            next,
        }
    }

    /// The scene goes to the other image.
    fn swap(&mut self)
        ensures
            final(self).recording == old(self).recording,
            final(self).scene_image == old(self).scene_tmp,
            final(self).scene_tmp == old(self).scene_image,
    {
        let scene_image = self.scene_image;
        self.scene_image = self.scene_tmp;
        self.scene_tmp = scene_image;
    }
}

/// Makes the uniform with the size of the frame.
fn upload_frame_params(recording: &mut Recording, ids: &mut ResourceIds, setup: &FrameSetup) -> (
buffer: BufferProxy)
    requires
        old(ids).has_room(1),
    ensures
        buffer == nth_buffer(old(ids).next_id() as int, 0, 16, "vello.backdrop_src_over_params"),
        final(recording)@ == old(recording)@.push(
            Action::UploadUniform(buffer, words_bytes(setup@.frame_words())),
        ),
        final(ids).next_id() == old(ids).next_id() + 1,
{
    let words = [setup.params.width, setup.params.height, 0, 0];
    assert(words@ =~= setup@.frame_words());
    let mut bytes: Vec<u8> = Vec::new();
    write_words(&mut bytes, words.as_slice());
    assert(bytes@ =~= words_bytes(words@));
    recording.upload_uniform(ids, "vello.backdrop_src_over_params", bytes)
}

/// Renders a segment and composes it over the frame, where it can be rendered.
fn compose_segment(
    canvas: &mut Canvas,
    ids: &mut ResourceIds,
    setup: &FrameSetup,
    segment: &Segment,
    work: WorkImages,
) -> (rendered: bool)
    requires
        setup@.has_fine_shader(),
        pixels_fit(setup.params.width, setup.params.height),
        old(ids).has_room(PASS_RESOURCES as int),
    ensures
        rendered == setup@.renders(segment@),
        rendered ==> final(canvas).frame(final(ids).next_id() as int) == setup@.composed(
            old(canvas).frame(old(ids).next_id() as int),
            segment@,
            work,
        ),
        rendered ==> final(ids).next_id() <= old(ids).next_id() + PASS_RESOURCES,
        old(ids).next_id() <= final(ids).next_id(),
{
    let ghost before = canvas.frame(ids.next_id() as int);
    proof {
        lemma_part_ids(setup@, setup@.part(segment@), Color::clear());
    }
    let image = match record_segment(
        &mut canvas.recording,
        ids,
        setup,
        segment,
        Color::transparent(),
    ) {
        Some(image) => image,
        None => {
            return false;
        },
    };
    compose_src_over(
        &mut canvas.recording,
        setup.shaders,
        work.params_buf,
        setup.params.width,
        setup.params.height,
        canvas.scene_image,
        image,
        canvas.scene_tmp,
    );
    canvas.recording.free_image(image);
    canvas.swap();
    assert(canvas.frame(ids.next_id() as int) =~= setup@.composed(before, segment@, work));
    true
}

/// Applies a backdrop that blurs `source` to the frame.
fn blur_backdrop(
    canvas: &mut Canvas,
    ids: &mut ResourceIds,
    setup: &FrameSetup,
    source: ImageProxy,
    op: &BackdropBlurOp,
    work: WorkImages,
)
    requires
        op.is_ordered(*setup.params),
        old(ids).has_room(2),
    ensures
        final(canvas).frame(final(ids).next_id() as int) == setup@.backdropped(
            old(canvas).frame(old(ids).next_id() as int),
            source,
            *op,
            work,
        ),
{
    let ghost before = canvas.frame(ids.next_id() as int);
    let images = BackdropImages {
        source,
        scene_image: canvas.scene_image,
        blur_tmp: work.blur_tmp,
        blur_image: work.blur_image,
        scene_tmp: canvas.scene_tmp,
    };
    if apply_backdrop_op(
        &mut canvas.recording,
        ids,
        setup.shaders,
        setup.params,
        work.params_buf,
        op,
        images,
    ) {
        canvas.swap();
    }
    assert(canvas.frame(ids.next_id() as int) =~= setup@.backdropped(before, source, *op, work));
}

/// Finishes a frame.
fn finish_frame(canvas: Canvas, ids: &mut ResourceIds, setup: &FrameSetup, work: WorkImages) -> (
result: (Recording, ImageProxy))
    requires
        old(ids).has_room(1),
    ensures
        result.0@ == setup@.finished(canvas.frame(old(ids).next_id() as int), work),
        result.1 == setup@.final_image(canvas.frame(old(ids).next_id() as int)),
        final(ids).next_id() == old(ids).next_id() + 1,
{
    let ghost frame = canvas.frame(ids.next_id() as int);
    let mut recording = canvas.recording;
    let final_image = ImageProxy::new(
        ids,
        setup.params.width,
        setup.params.height,
        ImageFormat::Rgba8,
    );
    copy_image(
        &mut recording,
        setup.shaders,
        work.params_buf,
        setup.params.width,
        setup.params.height,
        canvas.scene_image,
        final_image,
    );
    if canvas.scene_image.id != canvas.scene_tmp.id && canvas.scene_image.id != work.blur_tmp.id
        && canvas.scene_image.id != work.blur_image.id {
        recording.free_image(canvas.scene_image);
    }
    recording.free_buffer(work.params_buf);
    recording.free_image(work.blur_tmp);
    recording.free_image(work.blur_image);
    recording.free_image(canvas.scene_tmp);
    assert(recording@ =~= setup@.finished(frame, work));
    (recording, final_image)
}

/// The draw indices of backdrops.
pub open spec fn draw_indices(ops: Seq<BackdropBlurOp>) -> Seq<u32> {
    ops.map_values(|op: BackdropBlurOp| op.draw_index)
}

/// A frame that is rendered in segments.
pub struct ReplayPlan {
    pub setup: Setup,
    /// The backdrops, in the order of their draw objects.
    pub ops: Seq<BackdropBlurOp>,
    /// The identity of the first resource.
    pub first: int,
}

impl ReplayPlan {
    /// What the segments depend on.
    pub open spec fn input(self) -> ReplayInput {
        let scene = self.setup.scene;
        ReplayInput {
            draw_tags: scene.layout.streams(scene.packed).draw_tags,
            draw_data: scene.layout.streams(scene.packed).draw_data,
            n_draw_objects: scene.layout.n_draw_objects,
            ops: draw_indices(self.ops),
        }
    }

    /// The resources that all steps share.
    pub open spec fn work(self) -> WorkImages {
        let params = self.setup.params;
        WorkImages {
            blur_tmp: nth_image(self.first, 1, params.width, params.height),
            blur_image: nth_image(self.first, 2, params.width, params.height),
            params_buf: nth_buffer(self.first, 3, 16, "vello.backdrop_src_over_params"),
        }
    }

    /// The frame with the segment before the first backdrop.
    pub open spec fn start(self) -> Frame {
        let setup = self.setup;
        let part = setup.part(self.input().first_segment());
        let base_color = setup.params.base_color;
        Frame {
            actions: seq![
                Action::UploadUniform(self.work().params_buf, words_bytes(setup.frame_words())),
            ] + setup.part_actions(self.first + 4, part, base_color),
            scene_image: setup.part_image(self.first + 4, part, base_color),
            scene_tmp: nth_image(self.first, 0, setup.params.width, setup.params.height),
            next: self.first + 4 + setup.part_ids(part, base_color),
        }
    }

    /// The frame behind the first `k` backdrops.
    pub open spec fn frame(self, k: int) -> Frame
        decreases k,
    {
        if k <= 0 {
            self.start()
        } else {
            let before = self.frame(k - 1);
            let reached = if self.input().cursor(k - 1) < self.ops[k - 1].draw_index {
                self.setup.composed(before, self.input().segment_before(k - 1), self.work())
            } else {
                before
            };
            self.setup.backdropped(reached, reached.scene_image, self.ops[k - 1], self.work())
        }
    }

    /// The frame with all segments and backdrops.
    pub open spec fn last_frame(self) -> Frame {
        let frame = self.frame(self.ops.len() as int);
        if self.has_tail() {
            self.setup.composed(frame, self.input().tail_segment(), self.work())
        } else {
            frame
        }
    }

    /// Whether draw objects follow the last backdrop.
    pub open spec fn has_tail(self) -> bool {
        self.input().cursor(self.ops.len() as int) < self.input().n_draw_objects
    }

    /// Whether the segment before backdrop `k` can be rendered, where there is one.
    pub open spec fn reaches(self, k: int) -> bool {
        self.input().cursor(k) < self.ops[k].draw_index ==> self.setup.renders(
            self.input().segment_before(k),
        )
    }

    /// Whether all segments can be rendered.
    pub open spec fn renders(self) -> bool {
        &&& self.setup.renders(self.input().first_segment())
        &&& forall|k: int| 0 <= k < self.ops.len() ==> #[trigger] self.reaches(k)
        &&& self.has_tail() ==> self.setup.renders(self.input().tail_segment())
    }

    /// The actions of the finished frame.
    pub open spec fn actions(self) -> Seq<Action> {
        self.setup.finished(self.last_frame(), self.work())
    }

    /// The image of the finished frame.
    pub open spec fn image(self) -> ImageProxy {
        self.setup.final_image(self.last_frame())
    }
}

/// The most resources that a step of a frame makes.
pub const STEP_RESOURCES: u64 = PASS_RESOURCES + 2;

/// The most resources that a frame with this number of backdrops makes.
pub open spec fn frame_resources(op_count: nat) -> int {
    STEP_RESOURCES * (op_count + 3)
}

/// Whether all backdrops have bounds in order.
pub open spec fn all_ordered(ops: Seq<BackdropBlurOp>, params: RenderParams) -> bool {
    forall|k: int| 0 <= k < ops.len() ==> (#[trigger] ops[k]).is_ordered(params)
}

/// Renders a frame in segments, where they can be rendered.
pub fn render_segments(
    setup: &FrameSetup,
    ids: &mut ResourceIds,
    replay: &ReplayScene,
    ops: &[BackdropBlurOp],
) -> (result: Option<(Recording, ImageProxy)>)
    requires
        setup@.has_fine_shader(),
        pixels_fit(setup.params.width, setup.params.height),
        replay.wf(),
        ({
            let plan = ReplayPlan { setup: setup@, ops: ops@, first: old(ids).next_id() as int };
            replay@ == plan.input()
        }),
        all_ordered(ops@, *setup.params),
        old(ids).has_room(frame_resources(ops@.len())),
    ensures
        ({
            let plan = ReplayPlan { setup: setup@, ops: ops@, first: old(ids).next_id() as int };
            match result {
                Some((recording, image)) => {
                    &&& plan.renders()
                    &&& recording@ == plan.actions()
                    &&& image == plan.image()
                    &&& final(ids).next_id() == plan.last_frame().next + 1
                },
                None => !plan.renders(),
            }
        }),
        old(ids).next_id() <= final(ids).next_id(),
{
    let ghost plan = ReplayPlan { setup: setup@, ops: ops@, first: ids.next_id() as int };
    let width: u32 = setup.params.width;
    let height: u32 = setup.params.height;
    assert(frame_resources(ops@.len()) == 31 * (ops@.len() + 3));
    let mut recording = Recording::default();
    let scene_tmp = ImageProxy::new(ids, width, height, ImageFormat::Rgba8);
    let blur_tmp = ImageProxy::new(ids, width, height, ImageFormat::Rgba8);
    let blur_image = ImageProxy::new(ids, width, height, ImageFormat::Rgba8);
    let params_buf = upload_frame_params(&mut recording, ids, setup);
    let work = WorkImages { blur_tmp, blur_image, params_buf };
    assert(work == plan.work());
    let first_segment = replay.first_segment();
    proof {
        lemma_part_ids(
            setup@,
            setup@.part(first_segment@),
            setup.params.base_color,
        );
    }
    let scene_image = match record_segment(
        &mut recording,
        ids,
        setup,
        &first_segment,
        setup.params.base_color,
    ) {
        Some(image) => image,
        None => {
            return None;
        },
    };
    let mut canvas = Canvas { recording, scene_image, scene_tmp };
    assert(canvas.frame(ids.next_id() as int) =~= plan.frame(0));
    let mut k: usize = 0;
    while k < ops.len()
        invariant
            k <= ops@.len(),
            setup@.has_fine_shader(),
            pixels_fit(setup.params.width, setup.params.height),
                replay.wf(),
            plan.setup == setup@,
            plan.ops == ops@,
            plan.first == old(ids).next_id(),
            replay@ == plan.input(),
            work == plan.work(),
            all_ordered(ops@, *setup.params),
            plan.first + 31 * (ops@.len() + 3) <= u64::MAX,
            plan.first <= ids.next_id() <= plan.first + 31 * (k + 2),
            canvas.frame(ids.next_id() as int) == plan.frame(k as int),
            plan.setup.renders(plan.input().first_segment()),
            forall|j: int| 0 <= j < k ==> #[trigger] plan.reaches(j),
        decreases ops.len() - k,
    {
        let op = &ops[k];
        assert(plan.input().ops[k as int] == op.draw_index);
        if let Some(segment) = replay.segment_before(k) {
            if !compose_segment(&mut canvas, ids, setup, &segment, work) {
                assert(!plan.reaches(k as int));
                return None;
            }
        }
        let source = canvas.scene_image;
        blur_backdrop(&mut canvas, ids, setup, source, op, work);
        assert(plan.reaches(k as int));
        k += 1;
    }
    if let Some(segment) = replay.tail_segment() {
        if !compose_segment(&mut canvas, ids, setup, &segment, work) {
            return None;
        }
    }
    Some(finish_frame(canvas, ids, setup, work))
}

/// A frame that is rendered as a whole, with the backdrops put into it
/// afterwards. Each backdrop blurs what is drawn before it, which is rendered
/// again for it.
pub struct LegacyPlan {
    pub setup: Setup,
    /// The backdrops, in the order of their draw objects.
    pub ops: Seq<BackdropBlurOp>,
    /// The identity of the first resource.
    pub first: int,
}

/// Whether the draw objects before a draw index can be rendered: the scene holds all
/// that they refer to, and their sizes fit.
pub open spec fn prefix_renders(setup: Setup, draw_index: u32) -> bool {
    let scene = setup.scene;
    let full = scene.layout.streams(scene.packed);
    &&& scene.layout.readable(scene.packed.len())
    &&& available(full, clamped_draw(full, draw_index as int))
    &&& config_fits(
        packed_range(scene.layout, scene.packed, 0, draw_index as int).0,
        setup.params.width,
        setup.params.height,
    )
}

impl LegacyPlan {
    /// The whole scene.
    pub open spec fn whole(self) -> (Layout, Seq<u8>) {
        (self.setup.scene.layout, self.setup.scene.packed)
    }

    /// The draw objects before backdrop `k`.
    pub open spec fn prefix(self, k: int) -> (Layout, Seq<u8>) {
        packed_range(
            self.setup.scene.layout,
            self.setup.scene.packed,
            0,
            self.ops[k].draw_index as int,
        )
    }

    /// The identity behind those of the whole scene.
    pub open spec fn second(self) -> int {
        self.first + self.setup.pass_ids(self.whole(), self.setup.params.base_color)
    }

    /// The resources that all steps share.
    pub open spec fn work(self) -> WorkImages {
        let params = self.setup.params;
        WorkImages {
            blur_tmp: nth_image(self.second(), 0, params.width, params.height),
            blur_image: nth_image(self.second(), 1, params.width, params.height),
            params_buf: nth_buffer(self.second(), 3, 16, "vello.backdrop_src_over_params"),
        }
    }

    /// The frame with the whole scene.
    pub open spec fn start(self) -> Frame {
        let setup = self.setup;
        let base_color = setup.params.base_color;
        Frame {
            actions: setup.pass_actions(self.first, self.whole(), base_color, None).push(
                Action::UploadUniform(self.work().params_buf, words_bytes(setup.frame_words())),
            ),
            scene_image: setup.pass_image(self.first, self.whole(), base_color),
            scene_tmp: nth_image(self.second(), 2, setup.params.width, setup.params.height),
            next: self.second() + 4,
        }
    }

    /// The frame with backdrop `k`, which touches it: what is drawn before the
    /// backdrop is rendered, blurred and freed.
    pub open spec fn blurred(self, frame: Frame, k: int) -> Frame {
        let setup = self.setup;
        let base_color = setup.params.base_color;
        let source = setup.pass_image(frame.next, self.prefix(k), base_color);
        let rendered = Frame {
            actions: frame.actions + setup.pass_actions(
                frame.next,
                self.prefix(k),
                base_color,
                None,
            ),
            next: frame.next + setup.pass_ids(self.prefix(k), base_color),
            ..frame
        };
        let applied = setup.backdropped(rendered, source, self.ops[k], self.work());
        Frame { actions: applied.actions.push(Action::FreeImage(source)), ..applied }
    }

    /// The frame with the first `k` backdrops. Those that do not touch the frame
    /// change nothing.
    pub open spec fn frame(self, k: int) -> Frame
        decreases k,
    {
        if k <= 0 {
            self.start()
        } else if self.ops[k - 1].is_visible(self.setup.params) {
            self.blurred(self.frame(k - 1), k - 1)
        } else {
            self.frame(k - 1)
        }
    }

    /// The frame with all backdrops.
    pub open spec fn last_frame(self) -> Frame {
        self.frame(self.ops.len() as int)
    }

    /// Whether what is drawn before backdrop `k` can be rendered, where it is needed:
    /// the scene holds all that it refers to, and its sizes fit.
    pub open spec fn reaches(self, k: int) -> bool {
        self.ops[k].is_visible(self.setup.params) ==> prefix_renders(
            self.setup,
            self.ops[k].draw_index,
        )
    }

    /// Whether all that is needed can be rendered.
    pub open spec fn renders(self) -> bool {
        &&& config_fits(self.whole().0, self.setup.params.width, self.setup.params.height)
        &&& forall|k: int| 0 <= k < self.ops.len() ==> #[trigger] self.reaches(k)
    }

    /// The actions of the finished frame.
    pub open spec fn actions(self) -> Seq<Action> {
        self.setup.finished(self.last_frame(), self.work())
    }

    /// The image of the finished frame.
    pub open spec fn image(self) -> ImageProxy {
        self.setup.final_image(self.last_frame())
    }
}

/// The draw objects before a backdrop, where they can be rendered.
fn fitting_prefix(setup: &FrameSetup, draw_index: u32) -> (part: Option<(Layout, Vec<u8>)>)
    ensures
        ({
            let prefix = packed_range(
                setup.scene.layout,
                setup.scene.packed@,
                0,
                draw_index as int,
            );
            let fits = prefix_renders(setup@, draw_index);
            match part {
                Some((layout, packed)) => fits && (layout, packed@) == prefix,
                None => !fits,
            }
        }),
{
    if !scene_is_readable(setup.scene.packed.as_slice(), setup.scene.layout)
        || !draws_are_available(setup.scene.packed.as_slice(), setup.scene.layout, draw_index) {
        return None;
    }
    let (layout, packed) = build_packed_prefix(
        setup.scene.packed.as_slice(),
        setup.scene.layout,
        draw_index,
    );
    if render_config_fits(layout, setup.params.width, setup.params.height) {
        Some((layout, packed))
    } else {
        None
    }
}

/// Renders what is drawn before backdrop `k`, which touches the frame, and applies
/// the backdrop, where the sizes fit.
fn blur_prefix(
    canvas: &mut Canvas,
    ids: &mut ResourceIds,
    setup: &FrameSetup,
    ops: &[BackdropBlurOp],
    k: usize,
    work: WorkImages,
) -> (rendered: bool)
    requires
        setup@.has_fine_shader(),
        k < ops@.len(),
        ops@[k as int].is_ordered(*setup.params),
        ops@[k as int].is_visible(*setup.params),
        old(ids).has_room(STEP_RESOURCES as int),
    ensures
        forall|plan: LegacyPlan|
            plan.setup == setup@ && plan.ops == ops@ && plan.work() == work ==> {
                &&& rendered == #[trigger] plan.reaches(k as int)
                &&& rendered ==> final(canvas).frame(final(ids).next_id() as int) == plan.blurred(
                    old(canvas).frame(old(ids).next_id() as int),
                    k as int,
                )
            },
        rendered ==> final(ids).next_id() <= old(ids).next_id() + STEP_RESOURCES,
        old(ids).next_id() <= final(ids).next_id(),
{
    let ghost before = canvas.frame(ids.next_id() as int);
    let op = &ops[k];
    let (layout, packed) = match fitting_prefix(setup, op.draw_index) {
        Some(part) => part,
        None => {
            return false;
        },
    };
    let ghost part = (layout, packed@);
    proof {
        lemma_pass_ids(setup@, part, setup.params.base_color);
    }
    let source = record_pass(
        &mut canvas.recording,
        ids,
        setup,
        packed,
        layout,
        setup.params.base_color,
        None,
    );
    blur_backdrop(canvas, ids, setup, source, op, work);
    canvas.recording.free_image(source);
    proof {
        let after = canvas.frame(ids.next_id() as int);
        assert forall|plan: LegacyPlan|
            plan.setup == setup@ && plan.ops == ops@ && plan.work() == work implies #[trigger] plan.reaches(
        k as int) && after == plan.blurred(before, k as int) by {
            assert(plan.prefix(k as int) == part);
            assert(after =~= plan.blurred(before, k as int));
        }
    }
    true
}

/// Renders a frame as a whole and puts the backdrops into it, where the sizes fit.
pub fn render_scene_with_backdrop_legacy(
    setup: &FrameSetup,
    ids: &mut ResourceIds,
    ops: &[BackdropBlurOp],
) -> (result: Option<(Recording, ImageProxy)>)
    requires
        setup@.has_fine_shader(),
        all_ordered(ops@, *setup.params),
        old(ids).has_room(frame_resources(ops@.len())),
    ensures
        ({
            let plan = LegacyPlan { setup: setup@, ops: ops@, first: old(ids).next_id() as int };
            match result {
                Some((recording, image)) => {
                    &&& plan.renders()
                    &&& recording@ == plan.actions()
                    &&& image == plan.image()
                    &&& final(ids).next_id() == plan.last_frame().next + 1
                },
                None => !plan.renders(),
            }
        }),
        old(ids).next_id() <= final(ids).next_id(),
{
    let ghost plan = LegacyPlan { setup: setup@, ops: ops@, first: ids.next_id() as int };
    let width: u32 = setup.params.width;
    let height: u32 = setup.params.height;
    assert(frame_resources(ops@.len()) == 31 * (ops@.len() + 3));
    if !render_config_fits(setup.scene.layout, width, height) {
        return None;
    }
    proof {
        lemma_pass_ids(setup@, plan.whole(), setup.params.base_color);
    }
    let mut packed: Vec<u8> = Vec::new();
    packed.extend_from_slice(setup.scene.packed.as_slice());
    assert(packed@ =~= setup.scene.packed@);
    let mut recording = Recording::default();
    let scene_image = record_pass(
        &mut recording,
        ids,
        setup,
        packed,
        setup.scene.layout,
        setup.params.base_color,
        None,
    );
    let blur_tmp = ImageProxy::new(ids, width, height, ImageFormat::Rgba8);
    let blur_image = ImageProxy::new(ids, width, height, ImageFormat::Rgba8);
    let scene_tmp = ImageProxy::new(ids, width, height, ImageFormat::Rgba8);
    let params_buf = upload_frame_params(&mut recording, ids, setup);
    let work = WorkImages { blur_tmp, blur_image, params_buf };
    assert(work == plan.work());
    let mut canvas = Canvas { recording, scene_image, scene_tmp };
    assert(canvas.frame(ids.next_id() as int) =~= plan.frame(0));
    let mut k: usize = 0;
    while k < ops.len()
        invariant
            k <= ops@.len(),
            setup@.has_fine_shader(),
                plan.setup == setup@,
            plan.ops == ops@,
            plan.first == old(ids).next_id(),
            config_fits(plan.whole().0, setup.params.width, setup.params.height),
            work == plan.work(),
            all_ordered(ops@, *setup.params),
            plan.first + 31 * (ops@.len() + 3) <= u64::MAX,
            plan.first <= ids.next_id() <= plan.first + 31 * (k + 2),
            canvas.frame(ids.next_id() as int) == plan.frame(k as int),
            forall|j: int| 0 <= j < k ==> #[trigger] plan.reaches(j),
        decreases ops.len() - k,
    {
        if backdrop_is_visible(&ops[k], setup.params) {
            if !blur_prefix(&mut canvas, ids, setup, ops, k, work) {
                assert(!plan.reaches(k as int));
                return None;
            }
        }
        assert(plan.reaches(k as int));
        k += 1;
    }
    Some(finish_frame(canvas, ids, setup, work))
}

} // verus!
