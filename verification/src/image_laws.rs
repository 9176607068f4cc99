//! Every image of a frame is freed once, and its own image is written last.

use vstd::prelude::*;

use crate::backdrop::{BackdropBlurOp, BackdropImages};
use crate::coarse::{CoarseResources, FullShaders};
use crate::color::Color;
use crate::config::WorkgroupCounts;
use crate::frame::{WorkImages, PASS_RESOURCES, STEP_RESOURCES};
use crate::layout::Layout;
use crate::recording::{ImageProxy, ResourceProxy};

verus! {

use crate::backdrop::{backdrop_actions, compose_action, copy_action};
use crate::coarse::{
    bin_actions, clip_actions, draw_actions, finish_actions, flatten_actions, input_actions,
    path_tag_actions, stage_actions, tile_actions,
};
use crate::frame::{frame_resources, lemma_pass_ids, Frame, LegacyPlan, ReplayPlan, Setup};
use crate::frame_laws::{
    among, distinct, freed_id, kept, lemma_backdrop_frees, lemma_composed_settled,
    lemma_finished, lemma_legacy_settled, lemma_nothing_freed, lemma_part_frees,
    lemma_pass_frees, lemma_replay_settled, lemma_times_concat, settled, times_freed,
};
use crate::layout::words_bytes;
use crate::recording::{Action, Pixels};
use crate::render::{idle, RenderState};
use crate::replay::SegmentRange;
use crate::use_laws::{
    lemma_backdrop_clean, lemma_freed_counts, lemma_kept_below, lemma_part_clean,
    lemma_pass_clean, lemma_used_concat, used, uses,
};

/// Whether a resource is among the images that a shader runs on.
pub open spec fn bound_image(bindings: Seq<ResourceProxy>, id: u64) -> bool {
    exists|k: int|
        0 <= k < bindings.len() && (#[trigger] bindings[k]) is Image && bindings[k].resource_id()
            == id
}

/// Whether an action takes a resource for an image.
pub open spec fn shows(action: Action, id: u64) -> bool {
    match action {
        Action::UploadImage(image, _) => image.id == id,
        Action::WriteImage(image, _, _, _) => image.id == id,
        Action::Dispatch(_, _, bindings) => bound_image(bindings, id),
        Action::DispatchIndirect(_, _, _, bindings) => bound_image(bindings, id),
        Action::FreeImage(image) => image.id == id,
        _ => false,
    }
}

/// Whether a resource is an image.
pub open spec fn shown(actions: Seq<Action>, id: u64) -> bool {
    exists|k: int| 0 <= k < actions.len() && shows(#[trigger] actions[k], id)
}

/// An image that two runs of actions take is one that either takes.
proof fn lemma_shown_concat(a: Seq<Action>, b: Seq<Action>, id: u64)
    ensures
        shown(a + b, id) <==> shown(a, id) || shown(b, id),
{
    let all = a + b;
    if shown(a, id) {
        let k = choose|k: int| 0 <= k < a.len() && shows(#[trigger] a[k], id);
        assert(all[k] == a[k]);
    }
    if shown(b, id) {
        let k = choose|k: int| 0 <= k < b.len() && shows(#[trigger] b[k], id);
        assert(all[a.len() + k] == b[k]);
    }
    if shown(all, id) {
        let k = choose|k: int| 0 <= k < all.len() && shows(#[trigger] all[k], id);
        if k < a.len() {
            assert(all[k] == a[k]);
        } else {
            assert(all[k] == b[k - a.len()]);
        }
    }
}

/// An image is used or freed.
proof fn lemma_shown_used(actions: Seq<Action>, id: u64)
    requires
        shown(actions, id),
    ensures
        used(actions, id) || times_freed(actions, id) > 0,
{
    let k = choose|k: int| 0 <= k < actions.len() && shows(#[trigger] actions[k], id);
    match actions[k] {
        Action::FreeImage(_) => {
            lemma_freed_counts(actions, k, id);
        },
        Action::Dispatch(_, _, bindings) => {
            let n = choose|n: int|
                0 <= n < bindings.len() && (#[trigger] bindings[n]) is Image
                    && bindings[n].resource_id() == id;
            assert(uses(actions[k], id));
        },
        Action::DispatchIndirect(_, _, _, bindings) => {
            let n = choose|n: int|
                0 <= n < bindings.len() && (#[trigger] bindings[n]) is Image
                    && bindings[n].resource_id() == id;
            assert(uses(actions[k], id));
        },
        _ => {
            assert(uses(actions[k], id));
        },
    }
}

proof fn lemma_path_tag_shows(
    r: CoarseResources,
    shaders: FullShaders,
    counts: WorkgroupCounts,
    id: u64,
)
    ensures
        !shown(path_tag_actions(r, shaders, counts), id),
{
}

proof fn lemma_flatten_shows(
    r: CoarseResources,
    shaders: FullShaders,
    counts: WorkgroupCounts,
    id: u64,
)
    ensures
        !shown(flatten_actions(r, shaders, counts), id),
        !shown(draw_actions(r, shaders, counts), id),
{
}

proof fn lemma_clip_shows(
    r: CoarseResources,
    shaders: FullShaders,
    counts: WorkgroupCounts,
    id: u64,
)
    ensures
        !shown(clip_actions(r, shaders, counts), id),
{
}

proof fn lemma_bin_shows(
    r: CoarseResources,
    shaders: FullShaders,
    counts: WorkgroupCounts,
    id: u64,
)
    ensures
        !shown(bin_actions(r, shaders, counts), id),
{
}

proof fn lemma_tile_shows(
    r: CoarseResources,
    shaders: FullShaders,
    counts: WorkgroupCounts,
    id: u64,
)
    ensures
        !shown(tile_actions(r, shaders, counts), id),
        !shown(finish_actions(r, false, false), id),
{
}

/// The stages of coarse rasterization have no images.
proof fn lemma_stages_show(
    r: CoarseResources,
    shaders: FullShaders,
    counts: WorkgroupCounts,
    id: u64,
)
    ensures
        !shown(stage_actions(r, shaders, counts, false, false), id),
{
    let a = path_tag_actions(r, shaders, counts);
    let b = flatten_actions(r, shaders, counts);
    let c = draw_actions(r, shaders, counts);
    let d = clip_actions(r, shaders, counts);
    let e = bin_actions(r, shaders, counts);
    let f = tile_actions(r, shaders, counts);
    let g = finish_actions(r, false, false);
    lemma_path_tag_shows(r, shaders, counts, id);
    lemma_flatten_shows(r, shaders, counts, id);
    lemma_clip_shows(r, shaders, counts, id);
    lemma_bin_shows(r, shaders, counts, id);
    lemma_tile_shows(r, shaders, counts, id);
    lemma_shown_concat(a, b, id);
    lemma_shown_concat(a + b, c, id);
    lemma_shown_concat(a + b + c, d, id);
    lemma_shown_concat(a + b + c + d, e, id);
    lemma_shown_concat(a + b + c + d + e, f, id);
    lemma_shown_concat(a + b + c + d + e + f, g, id);
}

proof fn lemma_input_shows(
    r: CoarseResources,
    packed: Seq<u8>,
    ramps: Seq<u32>,
    ramp_height: u32,
    images: Seq<(Pixels, u32, u32)>,
    uniform: Seq<u32>,
    id: u64,
)
    ensures
        shown(input_actions(r, packed, ramps, ramp_height, images, uniform), id) ==> {
            ||| id == r.gradient_image.id
            ||| id == r.image_atlas.id
        },
{
}

proof fn lemma_fine_shows(
    state: RenderState,
    first: int,
    shaders: FullShaders,
    mask_lut: Seq<u8>,
    id: u64,
)
    requires
        ({
            let f = state.fine_resources->0;
            &&& f.config_buf is Buffer
            &&& f.bump_buf is Buffer
            &&& f.tile_buf is Buffer
            &&& f.segments_buf is Buffer
            &&& f.ptcl_buf is Buffer
            &&& f.info_bin_data_buf is Buffer
            &&& f.blend_spill_buf is Buffer
        }),
        state.mask_buf is None,
    ensures
        ({
            let f = state.fine_resources->0;
            shown(state.fine_actions(first, shaders, mask_lut), id) ==> {
                ||| id == f.out_image.id
                ||| id == f.gradient_image.resource_id()
                ||| id == f.image_atlas.resource_id()
            }
        }),
{
}

/// A pass uses only its own resources, and frees none of its images more than once.
proof fn lemma_pass_images(
    setup: Setup,
    first: int,
    part: (Layout, Seq<u8>),
    base_color: Color,
    background: Option<Pixels>,
    id: u64,
)
    requires
        0 <= first,
        first + PASS_RESOURCES <= u64::MAX,
    ensures
        ({
            let actions = setup.pass_actions(first, part, base_color, background);
            &&& shown(actions, id) ==> times_freed(actions, id) <= 1
            &&& used(actions, id) ==> among(id, first, setup.pass_ids(part, base_color))
        }),
{
    let actions = setup.pass_actions(first, part, base_color, background);
    lemma_pass_frees(setup, first, part, base_color, background, id);
    if times_freed(actions, id) <= 1 {
        lemma_pass_clean(setup, first, part, base_color, background, id);
    } else {
        reveal(Setup::pass_actions);
        reveal(Setup::pass_image);
        reveal(Setup::pass_ids);
        let pass = setup.pass(part, base_color);
        let r = pass.resources(first);
        let state = pass.state_after(first, idle(false));
        let fine_first = first + pass.resource_count();
        let inputs = input_actions(
            r,
            pass.packed,
            pass.images.ramps,
            pass.images.ramp_height,
            pass.images.atlas_images,
            pass.config.uniform,
        );
        let stages = stage_actions(r, pass.shaders, pass.config.workgroup_counts, false, false);
        let between = match background {
            Some(pixels) => seq![
                Action::WriteImage(setup.pass_image(first, part, base_color), 0, 0, pixels),
            ],
            None => Seq::empty(),
        };
        let fine = state.fine_actions(fine_first, setup.shaders, setup.mask_lut);
        assert(actions == inputs + stages + between + fine);
        lemma_input_shows(
            r,
            pass.packed,
            pass.images.ramps,
            pass.images.ramp_height,
            pass.images.atlas_images,
            pass.config.uniform,
            id,
        );
        lemma_stages_show(r, pass.shaders, pass.config.workgroup_counts, id);
        lemma_fine_shows(state, fine_first, setup.shaders, setup.mask_lut, id);
        assert(shown(between, id) ==> id == r.out_image.id);
        lemma_shown_concat(inputs, stages, id);
        lemma_shown_concat(inputs + stages, between, id);
        lemma_shown_concat(inputs + stages + between, fine, id);
        assert(id == r.draw_monoid_buf.id);
    }
}

/// A part of the scene uses only its own resources, and frees none of its images more
/// than once.
proof fn lemma_part_images(
    setup: Setup,
    first: int,
    part: (Layout, Seq<u8>),
    base_color: Color,
    id: u64,
)
    requires
        0 <= first,
        first + PASS_RESOURCES <= u64::MAX,
    ensures
        ({
            let actions = setup.part_actions(first, part, base_color);
            &&& shown(actions, id) ==> times_freed(actions, id) <= 1
            &&& used(actions, id) ==> among(id, first, setup.part_ids(part, base_color))
        }),
{
    lemma_part_frees(setup, first, part, base_color, id);
    if times_freed(setup.part_actions(first, part, base_color), id) <= 1 {
        lemma_part_clean(setup, first, part, base_color, id);
    } else {
        reveal(Setup::part_actions);
        reveal(Setup::part_ids);
        if part.0.n_draw_objects == 0 {
            lemma_nothing_freed(setup.part_actions(first, part, base_color), id);
        } else {
            lemma_pass_images(
                setup,
                first,
                part,
                base_color,
                Some(setup.background(base_color)),
                id,
            );
        }
    }
}

/// Whether a resource is freed no more than once where it is an image, and used only
/// where its identity is in range.
spec fn orderly_in(actions: Seq<Action>, first: int, next: int, id: u64) -> bool {
    &&& used(actions, id) ==> first <= id < next
    &&& times_freed(actions, id) > 0 ==> first <= id < next
    &&& shown(actions, id) ==> times_freed(actions, id) <= 1
}

/// A run of actions goes on in order where it uses and frees new resources, and such
/// as were not freed yet.
proof fn lemma_orderly_step(
    a: Seq<Action>,
    b: Seq<Action>,
    first: int,
    next: int,
    after: int,
    id: u64,
)
    requires
        first <= next <= after,
        orderly_in(a, first, next, id),
        used(b, id) || times_freed(b, id) > 0 ==> {
            ||| next <= id < after
            ||| first <= id < next && times_freed(a, id) == 0
        },
        times_freed(b, id) > 1 ==> next <= id,
        shown(b, id) ==> times_freed(b, id) <= 1,
    ensures
        orderly_in(a + b, first, after, id),
{
    lemma_times_concat(a, b, id);
    lemma_used_concat(a, b, id);
    lemma_shown_concat(a, b, id);
    if shown(a, id) {
        lemma_shown_used(a, id);
    }
    if shown(b, id) {
        lemma_shown_used(b, id);
    }
}

/// Whether a frame in progress is in order.
spec fn frame_orderly(frame: Frame, first: int) -> bool {
    forall|id: u64| #[trigger] orderly_in(frame.actions, first, frame.next, id)
}

/// A segment that is composed over a frame leaves it in order.
proof fn lemma_composed_orderly(
    setup: Setup,
    frame: Frame,
    segment: SegmentRange,
    work: WorkImages,
    first: int,
)
    requires
        settled(frame, work, first),
        frame_orderly(frame, first),
        0 <= first <= frame.next,
        frame.next + PASS_RESOURCES <= u64::MAX,
    ensures
        frame_orderly(setup.composed(frame, segment, work), first),
{
    let part = setup.part(segment);
    let base_color = Color::clear();
    let image = setup.part_image(frame.next, part, base_color);
    let after = setup.composed(frame, segment, work);
    let part_actions = setup.part_actions(frame.next, part, base_color);
    let compose = compose_action(
        setup.shaders,
        work.params_buf,
        setup.params.width,
        setup.params.height,
        frame.scene_image,
        image,
        frame.scene_tmp,
    );
    let last = seq![compose, Action::FreeImage(image)];
    let made = part_actions + last;
    assert(after.actions =~= frame.actions + made);
    lemma_kept_below(frame, work, first);
    assert forall|id: u64| #[trigger] orderly_in(after.actions, first, after.next, id) by {
        lemma_times_concat(part_actions, last, id);
        lemma_used_concat(part_actions, last, id);
        lemma_shown_concat(part_actions, last, id);
        lemma_part_frees(setup, frame.next, part, base_color, id);
        lemma_part_images(setup, frame.next, part, base_color, id);
        lemma_compose_step(compose, image, id);
        assert(times_freed(frame.actions, id) > 0 <==> among(id, first, frame.next - first)
            && !kept(frame, work, id));
        assert(kept(frame, work, id) ==> among(id, first, frame.next - first));
        assert(used(last, id) ==> {
            ||| id == work.params_buf.id
            ||| id == frame.scene_image.id
            ||| id == image.id
            ||| id == frame.scene_tmp.id
        });
        assert(orderly_in(frame.actions, first, frame.next, id));
        if times_freed(made, id) > 1 {
            assert(times_freed(part_actions, id) > 0);
        }
        if shown(made, id) && times_freed(part_actions, id) > 1 {
            assert(!shown(part_actions, id));
            assert(shown(last, id));
            lemma_shown_used(last, id);
        }
        lemma_orderly_step(frame.actions, made, first, frame.next, after.next, id);
    }
}

/// An action that frees nothing, and one that frees an image.
proof fn lemma_compose_step(compose: Action, image: ImageProxy, id: u64)
    requires
        compose is Dispatch,
    ensures
        times_freed(seq![compose, Action::FreeImage(image)], id) == if id == image.id {
            1nat
        } else {
            0
        },
{
    let first = seq![compose];
    let second = seq![Action::FreeImage(image)];
    assert(seq![compose, Action::FreeImage(image)] =~= first + second);
    lemma_times_concat(first, second, id);
    lemma_nothing_freed(first, id);
    lemma_one_freed(Action::FreeImage(image), id);
}

/// One action frees what it frees once.
proof fn lemma_one_freed(action: Action, id: u64)
    ensures
        times_freed(seq![action], id) == if freed_id(action) == Some(id) {
            1nat
        } else {
            0
        },
{
    let actions = seq![action];
    assert(actions.drop_last() =~= Seq::empty());
    lemma_nothing_freed(actions.drop_last(), id);
}

/// A backdrop that blurs the scene leaves a frame in order.
proof fn lemma_backdropped_orderly(
    setup: Setup,
    frame: Frame,
    op: BackdropBlurOp,
    work: WorkImages,
    first: int,
)
    requires
        settled(frame, work, first),
        frame_orderly(frame, first),
        0 <= first <= frame.next,
        frame.next + 2 <= u64::MAX,
    ensures
        frame_orderly(setup.backdropped(frame, frame.scene_image, op, work), first),
{
    if op.is_visible(setup.params) {
        let after = setup.backdropped(frame, frame.scene_image, op, work);
        let images = BackdropImages {
            source: frame.scene_image,
            scene_image: frame.scene_image,
            blur_tmp: work.blur_tmp,
            blur_image: work.blur_image,
            scene_tmp: frame.scene_tmp,
        };
        let made = backdrop_actions(
            frame.next,
            setup.shaders,
            setup.params,
            work.params_buf,
            op,
            images,
        );
        lemma_kept_below(frame, work, first);
        assert forall|id: u64| #[trigger] orderly_in(after.actions, first, after.next, id) by {
            lemma_backdrop_clean(
                frame.next,
                setup.shaders,
                setup.params,
                work.params_buf,
                op,
                images,
                id,
            );
            lemma_backdrop_frees(
                frame.next,
                setup.shaders,
                setup.params,
                work.params_buf,
                op,
                images,
                id,
            );
            assert(times_freed(frame.actions, id) > 0 <==> among(id, first, frame.next - first)
                && !kept(frame, work, id));
            assert(kept(frame, work, id) ==> among(id, first, frame.next - first));
            assert(orderly_in(frame.actions, first, frame.next, id));
            lemma_orderly_step(frame.actions, made, first, frame.next, after.next, id);
        }
    }
}

/// Whether the actions of a frame free every image exactly once, but for the image of
/// the frame, which they do not free.
pub open spec fn frees_images_once(actions: Seq<Action>, image: ImageProxy) -> bool {
    forall|id: u64| #[trigger]
        shown(actions, id) ==> times_freed(actions, id) == if id == image.id {
            0nat
        } else {
            1
        }
}

/// Whether an action starts a shader.
pub open spec fn is_dispatch(action: Action) -> bool {
    action is Dispatch || action is DispatchIndirect
}

/// Whether an image is used by the last dispatch, and by nothing else.
pub open spec fn written_last(actions: Seq<Action>, image: ImageProxy) -> bool {
    exists|last: int|
        {
            &&& 0 <= last < actions.len()
            &&& is_dispatch(#[trigger] actions[last])
            &&& forall|i: int|
                0 <= i < actions.len() ==> (uses(#[trigger] actions[i], image.id) <==> i == last)
            &&& forall|i: int| last < i < actions.len() ==> !is_dispatch(#[trigger] actions[i])
        }
}

/// Whether the resources that all steps share are different ones.
spec fn work_distinct(work: WorkImages) -> bool {
    &&& work.blur_tmp.id != work.blur_image.id
    &&& work.blur_tmp.id != work.params_buf.id
    &&& work.blur_image.id != work.params_buf.id
}

/// A frame in order that is finished frees every image once, and writes its own last.
proof fn lemma_finished_orderly(setup: Setup, frame: Frame, work: WorkImages, first: int)
    requires
        settled(frame, work, first),
        frame_orderly(frame, first),
        distinct(work, frame.scene_tmp.id),
        work_distinct(work),
        0 <= first <= frame.next < u64::MAX,
    ensures
        frees_images_once(setup.finished(frame, work), setup.final_image(frame)),
        written_last(setup.finished(frame, work), setup.final_image(frame)),
{
    let image = setup.final_image(frame);
    let copy = copy_action(
        setup.shaders,
        work.params_buf,
        setup.params.width,
        setup.params.height,
        frame.scene_image,
        image,
    );
    let all = setup.finished(frame, work);
    let last = seq![
        copy,
        Action::FreeImage(frame.scene_image),
        Action::FreeBuffer(work.params_buf),
        Action::FreeImage(work.blur_tmp),
        Action::FreeImage(work.blur_image),
        Action::FreeImage(frame.scene_tmp),
    ];
    assert(all =~= frame.actions + last);
    lemma_kept_below(frame, work, first);
    lemma_finished(setup, frame, work, first);
    assert forall|id: u64| #[trigger] shown(all, id) implies times_freed(all, id) == if id
        == image.id {
        0nat
    } else {
        1
    } by {
        lemma_last_frees(copy, frame, work, id);
        assert(times_freed(frame.actions, id) > 0 <==> among(id, first, frame.next - first)
            && !kept(frame, work, id));
        assert(kept(frame, work, id) ==> among(id, first, frame.next - first));
        assert(used(last, id) ==> {
            ||| id == work.params_buf.id
            ||| id == frame.scene_image.id
            ||| id == image.id
        });
        assert(orderly_in(frame.actions, first, frame.next, id));
        lemma_orderly_step(frame.actions, last, first, frame.next, frame.next + 1, id);
        lemma_shown_used(all, id);
        assert(times_freed(all, id) > 0 <==> first <= id < image.id);
    }
    let n = frame.actions.len() as int;
    assert(all[n] == copy);
    assert forall|i: int| 0 <= i < all.len() implies (uses(#[trigger] all[i], image.id) <==> i
        == n) by {
        if i < n {
            assert(all[i] == frame.actions[i]);
            assert(orderly_in(frame.actions, first, frame.next, image.id));
            if uses(all[i], image.id) {
                assert(used(frame.actions, image.id));
            }
        } else {
            assert(all[i] == last[i - n]);
            let bindings = copy->Dispatch_2;
            assert(bindings[2].resource_id() == image.id);
        }
    }
    assert forall|i: int| n < i < all.len() implies !is_dispatch(#[trigger] all[i]) by {
        assert(all[i] == last[i - n]);
    }
    assert(is_dispatch(all[n]));
}

/// The last actions of a frame free what all steps shared, each once.
proof fn lemma_last_frees(copy: Action, frame: Frame, work: WorkImages, id: u64)
    requires
        copy is Dispatch,
        distinct(work, frame.scene_tmp.id),
        work_distinct(work),
        frame.scene_image.id != frame.scene_tmp.id,
        frame.scene_image.id != work.blur_tmp.id,
        frame.scene_image.id != work.blur_image.id,
        frame.scene_image.id != work.params_buf.id,
    ensures
        times_freed(
            seq![
                copy,
                Action::FreeImage(frame.scene_image),
                Action::FreeBuffer(work.params_buf),
                Action::FreeImage(work.blur_tmp),
                Action::FreeImage(work.blur_image),
                Action::FreeImage(frame.scene_tmp),
            ],
            id,
        ) == if kept(frame, work, id) {
            1nat
        } else {
            0
        },
{
    let a = seq![copy, Action::FreeImage(frame.scene_image)];
    let b = seq![Action::FreeBuffer(work.params_buf)];
    let c = seq![Action::FreeImage(work.blur_tmp)];
    let d = seq![Action::FreeImage(work.blur_image)];
    let e = seq![Action::FreeImage(frame.scene_tmp)];
    assert(seq![
        copy,
        Action::FreeImage(frame.scene_image),
        Action::FreeBuffer(work.params_buf),
        Action::FreeImage(work.blur_tmp),
        Action::FreeImage(work.blur_image),
        Action::FreeImage(frame.scene_tmp),
    ] =~= a + b + c + d + e);
    lemma_compose_step(copy, frame.scene_image, id);
    lemma_one_freed(b[0], id);
    lemma_one_freed(c[0], id);
    lemma_one_freed(d[0], id);
    lemma_one_freed(e[0], id);
    lemma_times_concat(a, b, id);
    lemma_times_concat(a + b, c, id);
    lemma_times_concat(a + b + c, d, id);
    lemma_times_concat(a + b + c + d, e, id);
}

/// A frame that is rendered in segments is in order behind each of its backdrops.
proof fn lemma_replay_orderly(plan: ReplayPlan, k: int)
    requires
        0 <= k <= plan.ops.len(),
        0 <= plan.first,
        plan.first + frame_resources(plan.ops.len()) <= u64::MAX,
    ensures
        frame_orderly(plan.frame(k), plan.first),
    decreases k,
{
    let setup = plan.setup;
    let work = plan.work();
    let first = plan.first;
    assert(frame_resources(plan.ops.len()) == 31 * (plan.ops.len() + 3));
    if k == 0 {
        let frame = plan.start();
        let part = setup.part(plan.input().first_segment());
        let base_color = setup.params.base_color;
        let upload = seq![
            Action::UploadUniform(work.params_buf, words_bytes(setup.frame_words())),
        ];
        let part_actions = setup.part_actions(first + 4, part, base_color);
        assert forall|id: u64| #[trigger] orderly_in(frame.actions, first, frame.next, id) by {
            lemma_nothing_freed(upload, id);
            lemma_part_frees(setup, first + 4, part, base_color, id);
            lemma_part_images(setup, first + 4, part, base_color, id);
            assert(used(upload, id) ==> id == work.params_buf.id);
            assert(!shown(upload, id));
            lemma_orderly_step(upload, part_actions, first, first + 4, frame.next, id);
        }
    } else {
        lemma_replay_settled(plan, k - 1);
        lemma_replay_orderly(plan, k - 1);
        let before = plan.frame(k - 1);
        let reached = if plan.input().cursor(k - 1) < plan.ops[k - 1].draw_index {
            let segment = plan.input().segment_before(k - 1);
            lemma_composed_settled(setup, before, segment, work, first);
            lemma_composed_orderly(setup, before, segment, work, first);
            setup.composed(before, segment, work)
        } else {
            before
        };
        lemma_backdropped_orderly(setup, reached, plan.ops[k - 1], work, first);
    }
}

/// A frame that is rendered in segments frees every image but its own exactly once, and
/// its own image is used by its last dispatch alone.
pub proof fn lemma_replay_images(plan: ReplayPlan)
    requires
        0 <= plan.first,
        plan.first + frame_resources(plan.ops.len()) <= u64::MAX,
    ensures
        frees_images_once(plan.actions(), plan.image()),
        written_last(plan.actions(), plan.image()),
{
    let k = plan.ops.len() as int;
    assert(frame_resources(plan.ops.len()) == 31 * (plan.ops.len() + 3));
    lemma_replay_settled(plan, k);
    lemma_replay_orderly(plan, k);
    if plan.has_tail() {
        let segment = plan.input().tail_segment();
        lemma_composed_settled(plan.setup, plan.frame(k), segment, plan.work(), plan.first);
        lemma_composed_orderly(plan.setup, plan.frame(k), segment, plan.work(), plan.first);
    }
    lemma_finished_orderly(plan.setup, plan.last_frame(), plan.work(), plan.first);
}

/// A backdrop that is put into the whole frame leaves it in order.
proof fn lemma_blurred_orderly(plan: LegacyPlan, frame: Frame, k: int)
    requires
        settled(frame, plan.work(), plan.first),
        frame_orderly(frame, plan.first),
        0 <= plan.first <= frame.next,
        frame.next + STEP_RESOURCES <= u64::MAX,
        0 <= k < plan.ops.len(),
        plan.ops[k].is_visible(plan.setup.params),
    ensures
        frame_orderly(plan.blurred(frame, k), plan.first),
{
    let setup = plan.setup;
    let work = plan.work();
    let first = plan.first;
    let base_color = setup.params.base_color;
    let part = plan.prefix(k);
    let source = setup.pass_image(frame.next, part, base_color);
    let pass = setup.pass_actions(frame.next, part, base_color, None);
    let ids = setup.pass_ids(part, base_color);
    let after = plan.blurred(frame, k);
    let images = BackdropImages {
        source,
        scene_image: frame.scene_image,
        blur_tmp: work.blur_tmp,
        blur_image: work.blur_image,
        scene_tmp: frame.scene_tmp,
    };
    let backdrop = backdrop_actions(
        frame.next + ids,
        setup.shaders,
        setup.params,
        work.params_buf,
        plan.ops[k],
        images,
    );
    let free_source = seq![Action::FreeImage(source)];
    lemma_pass_ids(setup, part, base_color);
    lemma_kept_below(frame, work, first);
    lemma_pass_frees(setup, frame.next, part, base_color, None, 0);
    let rendered = frame.actions + pass;
    let applied = rendered + backdrop;
    assert(after.actions =~= applied + free_source);
    assert forall|id: u64| #[trigger] orderly_in(after.actions, first, after.next, id) by {
        lemma_times_concat(frame.actions, pass, id);
        lemma_times_concat(rendered, backdrop, id);
        lemma_pass_frees(setup, frame.next, part, base_color, None, id);
        lemma_pass_images(setup, frame.next, part, base_color, None, id);
        lemma_backdrop_clean(
            frame.next + ids,
            setup.shaders,
            setup.params,
            work.params_buf,
            plan.ops[k],
            images,
            id,
        );
        lemma_backdrop_frees(
            frame.next + ids,
            setup.shaders,
            setup.params,
            work.params_buf,
            plan.ops[k],
            images,
            id,
        );
        lemma_one_freed(Action::FreeImage(source), id);
        assert(!used(free_source, id));
        assert(times_freed(frame.actions, id) > 0 <==> among(id, first, frame.next - first)
            && !kept(frame, work, id));
        assert(kept(frame, work, id) ==> among(id, first, frame.next - first));
        assert(orderly_in(frame.actions, first, frame.next, id));
        lemma_orderly_step(frame.actions, pass, first, frame.next, frame.next + ids, id);
        lemma_orderly_step(rendered, backdrop, first, frame.next + ids, after.next, id);
        lemma_orderly_step(applied, free_source, first, after.next, after.next, id);
    }
}

/// A frame that is rendered as a whole is in order behind each of its backdrops.
proof fn lemma_legacy_orderly(plan: LegacyPlan, k: int)
    requires
        0 <= k <= plan.ops.len(),
        0 <= plan.first,
        plan.first + frame_resources(plan.ops.len()) <= u64::MAX,
    ensures
        frame_orderly(plan.frame(k), plan.first),
    decreases k,
{
    assert(frame_resources(plan.ops.len()) == 31 * (plan.ops.len() + 3));
    if k == 0 {
        let setup = plan.setup;
        let frame = plan.start();
        let base_color = setup.params.base_color;
        let pass = setup.pass_actions(plan.first, plan.whole(), base_color, None);
        let upload = seq![
            Action::UploadUniform(plan.work().params_buf, words_bytes(setup.frame_words())),
        ];
        assert(frame.actions =~= pass + upload);
        lemma_pass_ids(setup, plan.whole(), base_color);
        assert forall|id: u64| #[trigger] orderly_in(
            frame.actions,
            plan.first,
            frame.next,
            id,
        ) by {
            lemma_pass_frees(setup, plan.first, plan.whole(), base_color, None, id);
            lemma_pass_images(setup, plan.first, plan.whole(), base_color, None, id);
            lemma_nothing_freed(upload, id);
            assert(used(upload, id) ==> id == plan.work().params_buf.id);
            assert(!shown(upload, id));
            lemma_orderly_step(pass, upload, plan.first, plan.second(), frame.next, id);
        }
    } else {
        lemma_legacy_settled(plan, k - 1);
        lemma_legacy_orderly(plan, k - 1);
        if plan.ops[k - 1].is_visible(plan.setup.params) {
            lemma_blurred_orderly(plan, plan.frame(k - 1), k - 1);
        }
    }
}

/// A frame that is rendered as a whole frees every image but its own exactly once, and
/// its own image is used by its last dispatch alone.
pub proof fn lemma_legacy_images(plan: LegacyPlan)
    requires
        0 <= plan.first,
        plan.first + frame_resources(plan.ops.len()) <= u64::MAX,
    ensures
        frees_images_once(plan.actions(), plan.image()),
        written_last(plan.actions(), plan.image()),
{
    assert(frame_resources(plan.ops.len()) == 31 * (plan.ops.len() + 3));
    lemma_pass_ids(plan.setup, plan.whole(), plan.setup.params.base_color);
    lemma_legacy_settled(plan, plan.ops.len() as int);
    lemma_legacy_orderly(plan, plan.ops.len() as int);
    lemma_finished_orderly(plan.setup, plan.last_frame(), plan.work(), plan.first);
}

} // verus!
