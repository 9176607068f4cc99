//! What is to be seen in the image of every frame.

use vstd::prelude::*;

use crate::backdrop::{BackdropBlurOp, BackdropImages};
use crate::coarse::RenderParams;
use crate::color::Color;
use crate::frame::{WorkImages, PASS_RESOURCES};
use crate::layout::Layout;
use crate::recording::ImageProxy;

verus! {

use crate::backdrop::img;
use crate::coarse::{buf, nth_image};
use crate::color::{draw_color, solid_pixels};
use crate::flow_laws::{
    backdropped, contents, copied, eights, follows, found, lemma_backdrop_contents, lemma_dispatch,
    lemma_quiet, lemma_upload, lemma_upload_image, made, written_slot, Contents, Interface,
};
use crate::frame::{
    frame_resources, lemma_part_ids, lemma_pass_ids, Frame, LegacyPlan, ReplayPlan, Setup,
};
use crate::layout::words_bytes;
use crate::packing::{packed_range, packed_segment};
use crate::pass_laws::{background_actions, lemma_pass_contents, rendered, unused};
use crate::recording::{Action, Pixels};
use crate::render::{coarse_pass, idle, CoarsePass};
use crate::replay::SegmentRange;
use crate::resolve::SceneInput;
use crate::scene::{backdrop_frame, in_order, lemma_in_order_sorted, plain_frame};

/// The color with nothing in it.
pub open spec fn see_through() -> Color {
    Color { red: 0, green: 0, blue: 0, alpha: 0 }
}

/// The pass of a plain frame that shows a packed scene over a color.
pub open spec fn plain_pass(setup: Setup, part: (Layout, Seq<u8>), color: Color) -> CoarsePass {
    coarse_pass(
        SceneInput { layout: part.0, packed: part.1, images: setup.scene.images },
        setup.shaders,
        RenderParams {
            base_color: color,
            width: setup.params.width,
            height: setup.params.height,
            antialiasing_method: setup.params.antialiasing_method,
        },
        false,
    )
}

/// A packed scene over a color. What has no draw objects is that color.
pub open spec fn part_picture(setup: Setup, part: (Layout, Seq<u8>), color: Color) -> Contents {
    let pixels = solid_pixels(
        setup.params.width,
        setup.params.height,
        draw_color(color.components()),
    );
    if part.0.n_draw_objects == 0 {
        Contents::Bytes(pixels.data)
    } else {
        rendered(plain_pass(setup, part, color), Some(pixels), setup.mask_lut)
    }
}

/// The draw objects of a segment over a color.
pub open spec fn segment_picture(setup: Setup, segment: SegmentRange, color: Color) -> Contents {
    part_picture(
        setup,
        packed_segment(
            setup.scene.layout,
            setup.scene.packed,
            segment.draw_start as int,
            segment.draw_end as int,
            segment.seeds,
            segment.ends,
        ),
        color,
    )
}

/// The uniform with the size of the frame.
pub open spec fn size_of_frame(params: RenderParams) -> Contents {
    Contents::Bytes(words_bytes(seq![params.width, params.height, 0u32, 0u32]))
}

/// A picture composed over another one.
pub open spec fn over(setup: Setup, base: Contents, overlay: Contents) -> Contents {
    made(
        setup.shaders.backdrop_src_over,
        eights(setup.params.width, setup.params.height),
        3,
        seq![size_of_frame(setup.params), base, overlay, Contents::Nothing],
    )
}

/// A picture with a backdrop that blurs a source put into it, under its tint. A backdrop
/// that does not touch the frame changes nothing.
pub open spec fn behind(
    setup: Setup,
    op: BackdropBlurOp,
    source: Contents,
    scene: Contents,
) -> Contents {
    if op.is_visible(setup.params) {
        backdropped(
            setup.shaders,
            setup.params,
            size_of_frame(setup.params),
            op,
            draw_color(op.tint.components()),
            source,
            scene,
        )
    } else {
        scene
    }
}

/// What a pass of a frame leaves.
pub(crate) proof fn lemma_frame_pass(
    access: Interface,
    before: Seq<Action>,
    setup: Setup,
    first: int,
    part: (Layout, Seq<u8>),
    color: Color,
    background: Option<Pixels>,
)
    requires
        follows(access, setup.shaders),
        setup.has_fine_shader(),
        0 <= first,
        first + PASS_RESOURCES <= u64::MAX,
        unused(access, before, first),
    ensures
        ({
            let after = before + setup.pass_actions(first, part, color, background);
            let image = setup.pass_image(first, part, color);
            let last = first + setup.pass_ids(part, color);
            &&& contents(access, after, image.id) == rendered(
                plain_pass(setup, part, color),
                background,
                setup.mask_lut,
            )
            &&& first <= image.id < last
            &&& forall|id: u64|
                !(first <= id < last) ==> #[trigger] contents(access, after, id) == contents(
                    access,
                    before,
                    id,
                )
        }),
{
    reveal(Setup::pass_actions);
    reveal(Setup::pass_image);
    reveal(Setup::pass_ids);
    let pass = plain_pass(setup, part, color);
    assert(pass == setup.pass(part, color));
    lemma_pass_contents(access, before, pass, first, idle(false), background, setup.mask_lut);
    let prepared = pass.state_after(first, idle(false));
    let image = prepared.fine_resources->0.out_image;
    assert(image == setup.pass_image(first, part, color));
    assert(before + pass.actions(first, false) + background_actions(image, background)
        + prepared.fine_actions(first + pass.resource_count(), setup.shaders, setup.mask_lut)
        =~= before + setup.pass_actions(first, part, color, background));
}

/// What is left by the rendering of a part of the scene over a color.
pub(crate) proof fn lemma_frame_part(
    access: Interface,
    before: Seq<Action>,
    setup: Setup,
    first: int,
    part: (Layout, Seq<u8>),
    color: Color,
)
    requires
        follows(access, setup.shaders),
        setup.has_fine_shader(),
        0 <= first,
        first + PASS_RESOURCES <= u64::MAX,
        unused(access, before, first),
    ensures
        ({
            let after = before + setup.part_actions(first, part, color);
            let image = setup.part_image(first, part, color);
            let last = first + setup.part_ids(part, color);
            &&& contents(access, after, image.id) == part_picture(setup, part, color)
            &&& first <= image.id < last
            &&& forall|id: u64|
                !(first <= id < last) ==> #[trigger] contents(access, after, id) == contents(
                    access,
                    before,
                    id,
                )
        }),
{
    reveal(Setup::part_actions);
    reveal(Setup::part_image);
    reveal(Setup::part_ids);
    let pixels = solid_pixels(
        setup.params.width,
        setup.params.height,
        draw_color(color.components()),
    );
    assert(pixels == setup.background(color));
    if part.0.n_draw_objects == 0 {
        let image = nth_image(first, 0, setup.params.width, setup.params.height);
        lemma_upload_image(access, before, image, pixels.data);
        assert(before + setup.part_actions(first, part, color) =~= before.push(
            Action::UploadImage(image, pixels.data),
        ));
    } else {
        lemma_frame_pass(access, before, setup, first, part, color, Some(pixels));
    }
}

/// Whether the resources of a frame are made and differ from each other.
pub open spec fn frame_apart(frame: Frame, work: WorkImages) -> bool {
    let ids = seq![
        frame.scene_image.id,
        frame.scene_tmp.id,
        work.blur_tmp.id,
        work.blur_image.id,
        work.params_buf.id,
    ];
    &&& ids.no_duplicates()
    &&& forall|k: int| 0 <= k < ids.len() ==> #[trigger] ids[k] < frame.next
}

/// Whether a frame in progress shows a picture.
pub open spec fn shows(
    access: Interface,
    setup: Setup,
    frame: Frame,
    work: WorkImages,
    picture: Contents,
) -> bool {
    &&& frame_apart(frame, work)
    &&& 0 <= frame.next
    &&& contents(access, frame.actions, frame.scene_image.id) == picture
    &&& contents(access, frame.actions, work.params_buf.id) == size_of_frame(setup.params)
    &&& unused(access, frame.actions, frame.next)
}

/// The identities of the resources of a frame, one by one.
proof fn lemma_apart(frame: Frame, work: WorkImages)
    ensures
        frame_apart(frame, work) <==> {
            &&& frame.scene_image.id < frame.next
            &&& frame.scene_tmp.id < frame.next
            &&& work.blur_tmp.id < frame.next
            &&& work.blur_image.id < frame.next
            &&& work.params_buf.id < frame.next
            &&& frame.scene_image.id != frame.scene_tmp.id
            &&& frame.scene_image.id != work.blur_tmp.id
            &&& frame.scene_image.id != work.blur_image.id
            &&& frame.scene_image.id != work.params_buf.id
            &&& frame.scene_tmp.id != work.blur_tmp.id
            &&& frame.scene_tmp.id != work.blur_image.id
            &&& frame.scene_tmp.id != work.params_buf.id
            &&& work.blur_tmp.id != work.blur_image.id
            &&& work.blur_tmp.id != work.params_buf.id
            &&& work.blur_image.id != work.params_buf.id
        },
{
    let ids = seq![
        frame.scene_image.id,
        frame.scene_tmp.id,
        work.blur_tmp.id,
        work.blur_image.id,
        work.params_buf.id,
    ];
    assert(ids[0] == frame.scene_image.id);
    assert(ids[1] == frame.scene_tmp.id);
    assert(ids[2] == work.blur_tmp.id);
    assert(ids[3] == work.blur_image.id);
    assert(ids[4] == work.params_buf.id);
}

/// A segment that is composed over a frame is to be seen over what the frame showed, with
/// nothing behind its draw objects.
pub proof fn lemma_composed_picture(
    access: Interface,
    setup: Setup,
    frame: Frame,
    segment: SegmentRange,
    work: WorkImages,
    picture: Contents,
)
    requires
        follows(access, setup.shaders),
        setup.has_fine_shader(),
        frame.next + PASS_RESOURCES <= u64::MAX,
        shows(access, setup, frame, work, picture),
    ensures
        shows(
            access,
            setup,
            setup.composed(frame, segment, work),
            work,
            over(setup, picture, segment_picture(setup, segment, see_through())),
        ),
        frame.next <= setup.composed(frame, segment, work).next <= frame.next + PASS_RESOURCES,
{
    reveal(Setup::part);
    reveal_with_fuel(written_slot, 6);
    let clear = see_through();
    let after = setup.composed(frame, segment, work);
    let part = setup.part(segment);
    let image = setup.part_image(frame.next, part, clear);
    lemma_apart(frame, work);
    lemma_part_ids(setup, part, clear);
    lemma_frame_part(access, frame.actions, setup, frame.next, part, clear);
    let a1 = frame.actions + setup.part_actions(frame.next, part, clear);
    let bindings = seq![
        buf(work.params_buf),
        img(frame.scene_image),
        img(image),
        img(frame.scene_tmp),
    ];
    let shader = setup.shaders.backdrop_src_over;
    let groups = eights(setup.params.width, setup.params.height);
    lemma_dispatch(access, a1, shader, groups, bindings);
    let a2 = a1.push(Action::Dispatch(shader, groups, bindings));
    assert(found(access, a1, shader, bindings) =~= seq![
        size_of_frame(setup.params),
        picture,
        part_picture(setup, part, clear),
        Contents::Nothing,
    ]);
    let quiet = seq![Action::FreeImage(image)];
    assert(after.actions =~= a2 + quiet);
    assert forall|id: u64| #[trigger] contents(access, after.actions, id) == contents(
        access,
        a2,
        id,
    ) by {
        lemma_quiet(access, a2, quiet, id);
    }
    lemma_apart(after, work);
}

/// A backdrop puts its source, blurred in both directions, into what the frame showed.
pub proof fn lemma_backdrop_picture(
    access: Interface,
    setup: Setup,
    frame: Frame,
    source: ImageProxy,
    op: BackdropBlurOp,
    work: WorkImages,
    picture: Contents,
    behind_it: Contents,
)
    requires
        follows(access, setup.shaders),
        frame.next + 2 <= u64::MAX,
        shows(access, setup, frame, work, picture),
        source.id < frame.next,
        source.id != work.blur_tmp.id,
        source.id != work.blur_image.id,
        source.id != frame.scene_tmp.id,
        contents(access, frame.actions, source.id) == behind_it,
    ensures
        shows(
            access,
            setup,
            setup.backdropped(frame, source, op, work),
            work,
            behind(setup, op, behind_it, picture),
        ),
        frame.next <= setup.backdropped(frame, source, op, work).next <= frame.next + 2,
{
    lemma_apart(frame, work);
    let after = setup.backdropped(frame, source, op, work);
    if op.is_visible(setup.params) {
        let images = BackdropImages {
            source,
            scene_image: frame.scene_image,
            blur_tmp: work.blur_tmp,
            blur_image: work.blur_image,
            scene_tmp: frame.scene_tmp,
        };
        lemma_backdrop_contents(
            access,
            frame.actions,
            frame.next,
            setup.shaders,
            setup.params,
            work.params_buf,
            op,
            draw_color(op.tint.components()),
            images,
        );
        lemma_apart(after, work);
    }
}

/// The image of a finished frame is a copy of what the frame showed.
proof fn lemma_finished_picture(
    access: Interface,
    setup: Setup,
    frame: Frame,
    work: WorkImages,
    picture: Contents,
)
    requires
        follows(access, setup.shaders),
        frame.next <= u64::MAX,
        shows(access, setup, frame, work, picture),
    ensures
        contents(access, setup.finished(frame, work), setup.final_image(frame).id) == copied(
            setup.shaders,
            setup.params.width,
            setup.params.height,
            size_of_frame(setup.params),
            picture,
        ),
{
    reveal_with_fuel(written_slot, 5);
    lemma_apart(frame, work);
    let image = setup.final_image(frame);
    let bindings = seq![buf(work.params_buf), img(frame.scene_image), img(image)];
    let shader = setup.shaders.backdrop_copy;
    let groups = eights(setup.params.width, setup.params.height);
    lemma_dispatch(access, frame.actions, shader, groups, bindings);
    let a1 = frame.actions.push(Action::Dispatch(shader, groups, bindings));
    assert(found(access, frame.actions, shader, bindings) =~= seq![
        size_of_frame(setup.params),
        picture,
        Contents::Nothing,
    ]);
    let all = setup.finished(frame, work);
    let quiet = all.skip(a1.len() as int);
    assert(all =~= a1 + quiet);
    lemma_quiet(access, a1, quiet, image.id);
}

// ---------------------------------------------------------------------------
// Frames in segments
// ---------------------------------------------------------------------------

/// What is to be seen behind the first `k` backdrops of a frame in segments: the draw
/// objects before the first backdrop over the base color, and over it, for each backdrop
/// in turn, the draw objects before it with nothing behind them, and in all of that the
/// backdrop, which blurs it.
pub open spec fn painted(plan: ReplayPlan, k: int) -> Contents
    decreases k,
{
    let setup = plan.setup;
    if k <= 0 {
        segment_picture(setup, plan.input().first_segment(), setup.params.base_color)
    } else {
        let before = painted(plan, k - 1);
        let op = plan.ops[k - 1];
        let reached = if plan.input().cursor(k - 1) < op.draw_index {
            over(
                setup,
                before,
                segment_picture(setup, plan.input().segment_before(k - 1), see_through()),
            )
        } else {
            before
        };
        behind(setup, op, reached, reached)
    }
}

/// What is to be seen in a frame in segments: behind all backdrops, the draw objects that
/// follow the last one, with nothing behind them.
pub open spec fn painted_through(plan: ReplayPlan) -> Contents {
    let setup = plan.setup;
    let count = plan.ops.len() as int;
    let before = painted(plan, count);
    if plan.input().cursor(count) < plan.input().n_draw_objects {
        over(setup, before, segment_picture(setup, plan.input().tail_segment(), see_through()))
    } else {
        before
    }
}

/// Whether the identities of a frame in segments can be given out.
pub open spec fn replay_has_ids(plan: ReplayPlan) -> bool {
    0 <= plan.first && plan.first + frame_resources(plan.ops.len()) <= u64::MAX
}

/// What a frame in segments shows before its first backdrop.
proof fn lemma_replay_start(access: Interface, plan: ReplayPlan)
    requires
        follows(access, plan.setup.shaders),
        plan.setup.has_fine_shader(),
        replay_has_ids(plan),
    ensures
        shows(access, plan.setup, plan.start(), plan.work(), painted(plan, 0)),
        plan.start().next <= plan.first + 62,
{
    reveal(Setup::part);
    let setup = plan.setup;
    let work = plan.work();
    let frame = plan.start();
    let part = setup.part(plan.input().first_segment());
    let color = setup.params.base_color;
    assert(frame_resources(plan.ops.len()) == 31 * (plan.ops.len() + 3));
    let bytes = words_bytes(setup.frame_words());
    let a0 = Seq::<Action>::empty();
    lemma_upload(access, a0, work.params_buf, bytes);
    let a1 = a0.push(Action::UploadUniform(work.params_buf, bytes));
    lemma_frame_part(access, a1, setup, plan.first + 4, part, color);
    lemma_part_ids(setup, part, color);
    assert(frame.actions =~= a1 + setup.part_actions(plan.first + 4, part, color));
    assert(setup.frame_words() =~= seq![setup.params.width, setup.params.height, 0u32, 0u32]);
    lemma_apart(frame, work);
}

/// What a frame in segments shows behind its first `k` backdrops.
proof fn lemma_replay_painted(access: Interface, plan: ReplayPlan, k: int)
    requires
        follows(access, plan.setup.shaders),
        plan.setup.has_fine_shader(),
        replay_has_ids(plan),
        0 <= k <= plan.ops.len(),
    ensures
        shows(access, plan.setup, plan.frame(k), plan.work(), painted(plan, k)),
        plan.frame(k).next <= plan.first + 31 * (k + 2),
    decreases k,
{
    let setup = plan.setup;
    let work = plan.work();
    assert(frame_resources(plan.ops.len()) == 31 * (plan.ops.len() + 3));
    if k == 0 {
        lemma_replay_start(access, plan);
    } else {
        lemma_replay_painted(access, plan, k - 1);
        let before = plan.frame(k - 1);
        let picture = painted(plan, k - 1);
        let op = plan.ops[k - 1];
        let segment = plan.input().segment_before(k - 1);
        let composes = plan.input().cursor(k - 1) < op.draw_index;
        let reached = if composes {
            setup.composed(before, segment, work)
        } else {
            before
        };
        let seen = if composes {
            over(setup, picture, segment_picture(setup, segment, see_through()))
        } else {
            picture
        };
        if composes {
            lemma_composed_picture(access, setup, before, segment, work, picture);
        }
        lemma_apart(reached, work);
        lemma_backdrop_picture(
            access,
            setup,
            reached,
            reached.scene_image,
            op,
            work,
            seen,
            seen,
        );
    }
}

/// The image of a frame in segments shows the draw objects before the first backdrop over
/// the base color; over them, with nothing behind them, the draw objects of each segment
/// that follows; and each backdrop blurs all that was painted before it, and nothing else.
pub proof fn lemma_replay_picture(access: Interface, plan: ReplayPlan)
    requires
        follows(access, plan.setup.shaders),
        plan.setup.has_fine_shader(),
        replay_has_ids(plan),
    ensures
        contents(access, plan.actions(), plan.image().id) == copied(
            plan.setup.shaders,
            plan.setup.params.width,
            plan.setup.params.height,
            size_of_frame(plan.setup.params),
            painted_through(plan),
        ),
{
    let setup = plan.setup;
    let work = plan.work();
    let count = plan.ops.len() as int;
    assert(frame_resources(plan.ops.len()) == 31 * (plan.ops.len() + 3));
    lemma_replay_painted(access, plan, count);
    if plan.has_tail() {
        lemma_composed_picture(
            access,
            setup,
            plan.frame(count),
            plan.input().tail_segment(),
            work,
            painted(plan, count),
        );
    }
    lemma_finished_picture(access, setup, plan.last_frame(), work, painted_through(plan));
}

// ---------------------------------------------------------------------------
// Frames as a whole
// ---------------------------------------------------------------------------

/// A packed scene as a plain frame shows it, over the base color.
pub open spec fn plain_picture(setup: Setup, part: (Layout, Seq<u8>)) -> Contents {
    rendered(
        coarse_pass(
            SceneInput { layout: part.0, packed: part.1, images: setup.scene.images },
            setup.shaders,
            setup.params,
            false,
        ),
        None,
        setup.mask_lut,
    )
}

/// What is to be seen in a frame as a whole with its first `k` backdrops: the whole scene
/// as a plain frame shows it, and in it each backdrop that touches the frame, which blurs
/// the draw objects before it as a plain frame shows them.
pub open spec fn overlaid(plan: LegacyPlan, k: int) -> Contents
    decreases k,
{
    let setup = plan.setup;
    let scene = setup.scene;
    if k <= 0 {
        plain_picture(setup, (scene.layout, scene.packed))
    } else {
        let op = plan.ops[k - 1];
        let before = overlaid(plan, k - 1);
        let drawn = plain_picture(
            setup,
            packed_range(scene.layout, scene.packed, 0, op.draw_index as int),
        );
        behind(setup, op, drawn, before)
    }
}

/// Whether the identities of a frame as a whole can be given out.
pub open spec fn legacy_has_ids(plan: LegacyPlan) -> bool {
    0 <= plan.first && plan.first + frame_resources(plan.ops.len()) <= u64::MAX
}

/// What a frame as a whole shows before any backdrop.
proof fn lemma_legacy_start(access: Interface, plan: LegacyPlan)
    requires
        follows(access, plan.setup.shaders),
        plan.setup.has_fine_shader(),
        legacy_has_ids(plan),
    ensures
        shows(access, plan.setup, plan.start(), plan.work(), overlaid(plan, 0)),
        plan.start().next <= plan.first + 62,
{
    let setup = plan.setup;
    let work = plan.work();
    let frame = plan.start();
    let part = plan.whole();
    let color = setup.params.base_color;
    assert(frame_resources(plan.ops.len()) == 31 * (plan.ops.len() + 3));
    let a0 = Seq::<Action>::empty();
    lemma_frame_pass(access, a0, setup, plan.first, part, color, None);
    lemma_pass_ids(setup, part, color);
    let a1 = setup.pass_actions(plan.first, part, color, None);
    assert(a0 + a1 =~= a1);
    let bytes = words_bytes(setup.frame_words());
    lemma_upload(access, a1, work.params_buf, bytes);
    assert(setup.frame_words() =~= seq![setup.params.width, setup.params.height, 0u32, 0u32]);
    lemma_apart(frame, work);
}

/// What a frame as a whole shows with its first `k` backdrops.
proof fn lemma_legacy_overlaid(access: Interface, plan: LegacyPlan, k: int)
    requires
        follows(access, plan.setup.shaders),
        plan.setup.has_fine_shader(),
        legacy_has_ids(plan),
        0 <= k <= plan.ops.len(),
    ensures
        shows(access, plan.setup, plan.frame(k), plan.work(), overlaid(plan, k)),
        plan.frame(k).next <= plan.first + 31 * (k + 2),
    decreases k,
{
    let setup = plan.setup;
    let work = plan.work();
    assert(frame_resources(plan.ops.len()) == 31 * (plan.ops.len() + 3));
    if k == 0 {
        lemma_legacy_start(access, plan);
    } else {
        lemma_legacy_overlaid(access, plan, k - 1);
        let frame = plan.frame(k - 1);
        let op = plan.ops[k - 1];
        if op.is_visible(setup.params) {
            let part = packed_range(
                setup.scene.layout,
                setup.scene.packed,
                0,
                op.draw_index as int,
            );
            let color = setup.params.base_color;
            let source = setup.pass_image(frame.next, part, color);
            lemma_apart(frame, work);
            lemma_pass_ids(setup, part, color);
            lemma_frame_pass(access, frame.actions, setup, frame.next, part, color, None);
            let rendered_frame = Frame {
                actions: frame.actions + setup.pass_actions(frame.next, part, color, None),
                next: frame.next + setup.pass_ids(part, color),
                ..frame
            };
            lemma_apart(rendered_frame, work);
            lemma_backdrop_picture(
                access,
                setup,
                rendered_frame,
                source,
                op,
                work,
                overlaid(plan, k - 1),
                plain_picture(setup, part),
            );
            let applied = setup.backdropped(rendered_frame, source, op, work);
            let quiet = seq![Action::FreeImage(source)];
            let after = plan.frame(k);
            assert(after.actions =~= applied.actions + quiet);
            assert forall|id: u64| #[trigger] contents(access, after.actions, id) == contents(
                access,
                applied.actions,
                id,
            ) by {
                lemma_quiet(access, applied.actions, quiet, id);
            }
            lemma_apart(applied, work);
            lemma_apart(after, work);
        }
    }
}

/// The image of a frame as a whole shows the whole scene over the base color, as a plain
/// frame does, and in it each backdrop that touches the frame, which blurs what a plain
/// frame shows of the draw objects before it.
pub proof fn lemma_legacy_picture(access: Interface, plan: LegacyPlan)
    requires
        follows(access, plan.setup.shaders),
        plan.setup.has_fine_shader(),
        legacy_has_ids(plan),
    ensures
        contents(access, plan.actions(), plan.image().id) == copied(
            plan.setup.shaders,
            plan.setup.params.width,
            plan.setup.params.height,
            size_of_frame(plan.setup.params),
            overlaid(plan, plan.ops.len() as int),
        ),
{
    let count = plan.ops.len() as int;
    assert(frame_resources(plan.ops.len()) == 31 * (plan.ops.len() + 3));
    lemma_legacy_overlaid(access, plan, count);
    lemma_finished_picture(
        access,
        plan.setup,
        plan.last_frame(),
        plan.work(),
        overlaid(plan, count),
    );
}

// ---------------------------------------------------------------------------
// All frames
// ---------------------------------------------------------------------------

/// Whether an image has the size of the frame.
pub open spec fn fills_frame(image: ImageProxy, params: RenderParams) -> bool {
    image.width == params.width && image.height == params.height
}

/// The image of a frame without backdrops has the size of the frame and shows the whole
/// scene over the base color.
pub proof fn lemma_plain_frame_picture(access: Interface, setup: Setup, first: int)
    requires
        follows(access, setup.shaders),
        setup.has_fine_shader(),
        0 <= first,
        first + PASS_RESOURCES <= u64::MAX,
        plain_frame(setup, first) is Some,
    ensures
        ({
            let (actions, image) = plain_frame(setup, first)->0;
            &&& fills_frame(image, setup.params)
            &&& contents(access, actions, image.id) == plain_picture(
                setup,
                (setup.scene.layout, setup.scene.packed),
            )
        }),
{
    let part = (setup.scene.layout, setup.scene.packed);
    let none = Seq::<Action>::empty();
    let actions = setup.pass_actions(first, part, setup.params.base_color, None);
    lemma_frame_pass(access, none, setup, first, part, setup.params.base_color, None);
    assert(none + actions =~= actions);
    reveal(Setup::pass_image);
}

/// The image of a frame with backdrops has the size of the frame. Where the scene can be
/// cut at its backdrops, it shows the segments and, between them, the backdrops; elsewhere
/// it shows the whole scene, and the backdrops in it. The backdrops are taken in the order
/// of their draw objects.
pub proof fn lemma_backdrop_frame_picture(
    access: Interface,
    setup: Setup,
    all_ops: Seq<BackdropBlurOp>,
    first: int,
)
    requires
        follows(access, setup.shaders),
        setup.has_fine_shader(),
        0 <= first,
        first + frame_resources(all_ops.len()) <= u64::MAX,
        backdrop_frame(setup, all_ops, first) is Some,
    ensures
        ({
            let (actions, image) = backdrop_frame(setup, all_ops, first)->0;
            let ops = in_order(all_ops, setup.scene.layout.n_draw_objects);
            let replay = ReplayPlan { setup, ops, first };
            let legacy = LegacyPlan { setup, ops, first };
            &&& fills_frame(image, setup.params)
            &&& contents(access, actions, image.id) == copied(
                setup.shaders,
                setup.params.width,
                setup.params.height,
                size_of_frame(setup.params),
                if replay.input().replayable() {
                    painted_through(replay)
                } else {
                    overlaid(legacy, ops.len() as int)
                },
            )
        }),
{
    reveal(backdrop_frame);
    let ops = in_order(all_ops, setup.scene.layout.n_draw_objects);
    lemma_in_order_sorted(all_ops, setup.scene.layout.n_draw_objects);
    assert(31 * (ops.len() + 3) <= 31 * (all_ops.len() + 3));
    let replay = ReplayPlan { setup, ops, first };
    let legacy = LegacyPlan { setup, ops, first };
    if replay.input().replayable() {
        lemma_replay_picture(access, replay);
    } else {
        lemma_legacy_picture(access, legacy);
    }
}

} // verus!
