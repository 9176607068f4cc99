//! What becomes of the resources of every pass and of every frame.

use vstd::prelude::*;

use crate::backdrop::{BackdropBlurOp, BackdropImages};
use crate::coarse::{CoarseResources, FullShaders, RenderParams};
use crate::color::Color;
use crate::config::WorkgroupCounts;
use crate::frame::{WorkImages, PASS_RESOURCES, STEP_RESOURCES};
use crate::layout::Layout;
use crate::recording::{BufferProxy, ImageProxy, ResourceProxy};
use crate::render::FineResources;

verus! {

use crate::backdrop::{
    backdrop_actions, compose_action, copy_action, img, tinted_backdrop_actions,
};
use crate::coarse::{
    bin_actions, buf, clip_actions, draw_actions, finish_actions, flatten_actions, input_actions,
    nth_buffer, path_tag_actions, stage_actions, tile_actions,
};
use crate::encoding::{lemma_total_concat, total};
use crate::frame::{
    frame_resources, lemma_part_ids, lemma_pass_ids, Frame, LegacyPlan, ReplayPlan, Setup,
};
use crate::layout::words_bytes;
use crate::recording::{free, Action, Pixels};
use crate::render::{idle, CoarsePass, RenderState};
use crate::replay::SegmentRange;

/// The resource whose use an action ends, where it ends one.
pub open spec fn freed_id(action: Action) -> Option<u64> {
    match action {
        Action::FreeBuffer(buffer) => Some(buffer.id),
        Action::FreeImage(image) => Some(image.id),
        _ => None,
    }
}

/// One for an action that frees the resource.
pub open spec fn frees(id: u64) -> spec_fn(Action) -> nat {
    |action: Action|
        if freed_id(action) == Some(id) {
            1nat
        } else {
            0nat
        }
}

/// How many times the resource is freed.
pub open spec fn times_freed(actions: Seq<Action>, id: u64) -> nat {
    total(actions, frees(id))
}

/// One where two identities are the same.
pub open spec fn same(a: u64, b: u64) -> nat {
    if a == b {
        1
    } else {
        0
    }
}

/// How often a resource is freed in two runs of actions.
pub(crate) proof fn lemma_times_concat(a: Seq<Action>, b: Seq<Action>, id: u64)
    ensures
        times_freed(a + b, id) == times_freed(a, id) + times_freed(b, id),
{
    lemma_total_concat(a, b, frees(id));
}

/// Actions that free nothing.
pub(crate) proof fn lemma_nothing_freed(actions: Seq<Action>, id: u64)
    requires
        forall|k: int| 0 <= k < actions.len() ==> freed_id(#[trigger] actions[k]) is None,
    ensures
        times_freed(actions, id) == 0,
    decreases actions.len(),
{
    if actions.len() > 0 {
        assert forall|k: int| 0 <= k < actions.drop_last().len() implies freed_id(
            #[trigger] actions.drop_last()[k],
        ) is None by {
            assert(actions[k] == actions.drop_last()[k]);
        }
        lemma_nothing_freed(actions.drop_last(), id);
        assert(freed_id(actions[actions.len() - 1]) is None);
    }
}

/// What the path tag stages free.
pub(crate) proof fn lemma_path_tag_frees(
    r: CoarseResources,
    shaders: FullShaders,
    counts: WorkgroupCounts,
    id: u64,
)
    ensures
        times_freed(path_tag_actions(r, shaders, counts), id) == same(id, r.reduced_buf.id)
            + match r.large_pathtag_bufs {
            Some((reduced2, reduced_scan)) => same(id, reduced2.id) + same(id, reduced_scan.id),
            None => 0,
        },
{
    reveal_with_fuel(total, 9);
}

/// What the stages of lines and draw objects free.
pub(crate) proof fn lemma_flatten_frees(
    r: CoarseResources,
    shaders: FullShaders,
    counts: WorkgroupCounts,
    id: u64,
)
    ensures
        times_freed(flatten_actions(r, shaders, counts), id) == 0,
        times_freed(draw_actions(r, shaders, counts), id) == same(id, r.draw_reduced_buf.id),
{
    reveal_with_fuel(total, 5);
}

/// What the clip stages free.
pub(crate) proof fn lemma_clip_frees(
    r: CoarseResources,
    shaders: FullShaders,
    counts: WorkgroupCounts,
    id: u64,
)
    ensures
        times_freed(clip_actions(r, shaders, counts), id) == same(id, r.clip_inp_buf.id) + same(
            id,
            r.clip_bic_buf.id,
        ) + same(id, r.clip_el_buf.id),
{
    let last = seq![
        Action::FreeBuffer(r.clip_inp_buf),
        Action::FreeBuffer(r.clip_bic_buf),
        Action::FreeBuffer(r.clip_el_buf),
    ];
    let all = clip_actions(r, shaders, counts);
    let first = all.take(all.len() - 3);
    assert(all =~= first + last);
    lemma_times_concat(first, last, id);
    lemma_nothing_freed(first, id);
    assert(times_freed(last, id) == same(id, r.clip_inp_buf.id) + same(id, r.clip_bic_buf.id)
        + same(id, r.clip_el_buf.id)) by {
        reveal_with_fuel(total, 4);
    }
}

/// What the stages of bins free.
pub(crate) proof fn lemma_bin_frees(
    r: CoarseResources,
    shaders: FullShaders,
    counts: WorkgroupCounts,
    id: u64,
)
    ensures
        times_freed(bin_actions(r, shaders, counts), id) == same(id, r.draw_monoid_buf.id) + same(
            id,
            r.clip_bbox_buf.id,
        ) + same(id, r.draw_bbox_buf.id) + same(id, r.tagmonoid_buf.id),
{
    reveal_with_fuel(total, 7);
}

/// What the stages of tiles free.
pub(crate) proof fn lemma_tile_frees(
    r: CoarseResources,
    shaders: FullShaders,
    counts: WorkgroupCounts,
    id: u64,
)
    ensures
        times_freed(tile_actions(r, shaders, counts), id) == same(id, r.indirect_count_buf.id)
            + same(id, r.seg_counts_buf.id) + same(id, r.scene_buf.id) + same(
            id,
            r.draw_monoid_buf.id,
        ) + same(id, r.bin_header_buf.id) + same(id, r.path_buf.id),
{
    let all = tile_actions(r, shaders, counts);
    let first = all.take(6);
    let last = seq![
        Action::FreeBuffer(r.indirect_count_buf),
        Action::FreeBuffer(r.seg_counts_buf),
        Action::FreeBuffer(r.scene_buf),
        Action::FreeBuffer(r.draw_monoid_buf),
        Action::FreeBuffer(r.bin_header_buf),
        Action::FreeBuffer(r.path_buf),
    ];
    assert(all =~= first + last);
    lemma_times_concat(first, last, id);
    lemma_nothing_freed(first, id);
    assert(times_freed(last, id) == same(id, r.indirect_count_buf.id) + same(
        id,
        r.seg_counts_buf.id,
    ) + same(id, r.scene_buf.id) + same(id, r.draw_monoid_buf.id) + same(id, r.bin_header_buf.id)
        + same(id, r.path_buf.id)) by {
        reveal_with_fuel(total, 7);
    }
}

/// What the end of coarse rasterization frees.
pub(crate) proof fn lemma_finish_frees(r: CoarseResources, robust: bool, id: u64)
    ensures
        times_freed(finish_actions(r, robust, false), id) == same(id, r.bump_buf.id) + same(
            id,
            r.path_bbox_buf.id,
        ) + same(id, r.lines_buf.id),
{
    let all = finish_actions(r, robust, false);
    let last = seq![
        Action::FreeBuffer(r.bump_buf),
        Action::FreeBuffer(r.path_bbox_buf),
        Action::FreeBuffer(r.lines_buf),
    ];
    let first = all.take(all.len() - 3);
    assert(all =~= first + last);
    lemma_times_concat(first, last, id);
    lemma_nothing_freed(first, id);
    assert(times_freed(last, id) == same(id, r.bump_buf.id) + same(id, r.path_bbox_buf.id) + same(
        id,
        r.lines_buf.id,
    )) by {
        reveal_with_fuel(total, 4);
    }
}

/// How often coarse rasterization frees a resource, where nothing is captured.
pub open spec fn coarse_frees(r: CoarseResources, id: u64) -> nat {
    same(id, r.reduced_buf.id) + (match r.large_pathtag_bufs {
        Some((reduced2, reduced_scan)) => same(id, reduced2.id) + same(id, reduced_scan.id),
        None => 0,
    }) + same(id, r.draw_reduced_buf.id) + same(id, r.clip_inp_buf.id) + same(
        id,
        r.clip_bic_buf.id,
    ) + same(id, r.clip_el_buf.id) + same(id, r.draw_monoid_buf.id) + same(id, r.clip_bbox_buf.id)
        + same(id, r.draw_bbox_buf.id) + same(id, r.tagmonoid_buf.id) + same(
        id,
        r.indirect_count_buf.id,
    ) + same(id, r.seg_counts_buf.id) + same(id, r.scene_buf.id) + same(id, r.draw_monoid_buf.id)
        + same(id, r.bin_header_buf.id) + same(id, r.path_buf.id) + same(id, r.bump_buf.id) + same(
        id,
        r.path_bbox_buf.id,
    ) + same(id, r.lines_buf.id)
}

/// What the stages of coarse rasterization free.
pub(crate) proof fn lemma_stage_frees(
    r: CoarseResources,
    shaders: FullShaders,
    counts: WorkgroupCounts,
    robust: bool,
    id: u64,
)
    ensures
        times_freed(stage_actions(r, shaders, counts, robust, false), id) == coarse_frees(r, id),
{
    let a = path_tag_actions(r, shaders, counts);
    let b = flatten_actions(r, shaders, counts);
    let c = draw_actions(r, shaders, counts);
    let d = clip_actions(r, shaders, counts);
    let e = bin_actions(r, shaders, counts);
    let f = tile_actions(r, shaders, counts);
    let g = finish_actions(r, robust, false);
    lemma_path_tag_frees(r, shaders, counts, id);
    lemma_flatten_frees(r, shaders, counts, id);
    lemma_clip_frees(r, shaders, counts, id);
    lemma_bin_frees(r, shaders, counts, id);
    lemma_tile_frees(r, shaders, counts, id);
    lemma_finish_frees(r, robust, id);
    lemma_times_concat(a, b, id);
    lemma_times_concat(a + b, c, id);
    lemma_times_concat(a + b + c, d, id);
    lemma_times_concat(a + b + c + d, e, id);
    lemma_times_concat(a + b + c + d + e, f, id);
    lemma_times_concat(a + b + c + d + e + f, g, id);
}

/// The upload of a scene frees nothing.
pub(crate) proof fn lemma_input_frees(
    r: CoarseResources,
    packed: Seq<u8>,
    ramps: Seq<u32>,
    ramp_height: u32,
    images: Seq<(Pixels, u32, u32)>,
    uniform: Seq<u32>,
    id: u64,
)
    ensures
        times_freed(input_actions(r, packed, ramps, ramp_height, images, uniform), id) == 0,
{
    lemma_nothing_freed(input_actions(r, packed, ramps, ramp_height, images, uniform), id);
}

/// How often fine rasterization frees a resource.
pub open spec fn fine_frees(f: FineResources, mask: Option<ResourceProxy>, id: u64) -> nat {
    same(id, f.config_buf.resource_id()) + same(id, f.tile_buf.resource_id()) + same(
        id,
        f.segments_buf.resource_id(),
    ) + same(id, f.ptcl_buf.resource_id()) + same(id, f.gradient_image.resource_id()) + same(
        id,
        f.image_atlas.resource_id(),
    ) + same(id, f.info_bin_data_buf.resource_id()) + same(id, f.blend_spill_buf.resource_id())
        + match mask {
        Some(mask) => same(id, mask.resource_id()),
        None => 0,
    }
}

/// The resources that fine rasterization frees in any case.
pub open spec fn fine_free_actions(f: FineResources) -> Seq<Action> {
    seq![
        free(f.config_buf),
        free(f.tile_buf),
        free(f.segments_buf),
        free(f.ptcl_buf),
        free(f.gradient_image),
        free(f.image_atlas),
        free(f.info_bin_data_buf),
        free(f.blend_spill_buf),
    ]
}

/// How often a resource is freed with one more freed behind other actions.
pub(crate) proof fn lemma_one_more(actions: Seq<Action>, a: ResourceProxy, id: u64)
    ensures
        times_freed(actions.push(free(a)), id) == times_freed(actions, id) + same(
            id,
            a.resource_id(),
        ),
{
    assert(actions.push(free(a)).drop_last() =~= actions);
    assert(actions.push(free(a)).last() == free(a));
    assert(freed_id(free(a)) == Some(a.resource_id()));
}

/// How often two resources are freed in a row behind other actions.
proof fn lemma_two_more(actions: Seq<Action>, a: ResourceProxy, b: ResourceProxy, id: u64)
    ensures
        times_freed(actions.push(free(a)).push(free(b)), id) == times_freed(actions, id) + same(
            id,
            a.resource_id(),
        ) + same(id, b.resource_id()),
{
    lemma_one_more(actions, a, id);
    lemma_one_more(actions.push(free(a)), b, id);
}

/// How often the resources that fine rasterization frees in any case are freed.
proof fn lemma_fine_free_actions(f: FineResources, id: u64)
    ensures
        times_freed(fine_free_actions(f), id) == fine_frees(f, None, id),
{
    let none = Seq::<Action>::empty();
    let two = none.push(free(f.config_buf)).push(free(f.tile_buf));
    let four = two.push(free(f.segments_buf)).push(free(f.ptcl_buf));
    let six = four.push(free(f.gradient_image)).push(free(f.image_atlas));
    let eight = six.push(free(f.info_bin_data_buf)).push(free(f.blend_spill_buf));
    lemma_two_more(none, f.config_buf, f.tile_buf, id);
    lemma_two_more(two, f.segments_buf, f.ptcl_buf, id);
    lemma_two_more(four, f.gradient_image, f.image_atlas, id);
    lemma_two_more(six, f.info_bin_data_buf, f.blend_spill_buf, id);
    assert(eight =~= fine_free_actions(f));
}

/// What fine rasterization frees.
pub(crate) proof fn lemma_fine_frees(
    state: RenderState,
    first: int,
    shaders: FullShaders,
    mask_lut: Seq<u8>,
    id: u64,
)
    ensures
        times_freed(state.fine_actions(first, shaders, mask_lut), id) == fine_frees(
            state.fine_resources->0,
            state.mask(first, mask_lut),
            id,
        ),
{
    let f = state.fine_resources->0;
    let mask = state.mask(first, mask_lut);
    let all = state.fine_actions(first, shaders, mask_lut);
    let frees = fine_free_actions(f);
    let mask_free = match mask {
        Some(mask) => seq![free(mask)],
        None => Seq::empty(),
    };
    let start = all.take(all.len() - 8 - mask_free.len());
    assert(all =~= start + frees + mask_free);
    lemma_times_concat(start, frees, id);
    lemma_times_concat(start + frees, mask_free, id);
    lemma_nothing_freed(start, id);
    lemma_fine_free_actions(f, id);
    if let Some(mask) = mask {
        lemma_one_more(Seq::empty(), mask, id);
        assert(mask_free =~= Seq::empty().push(free(mask)));
    }
}

/// Whether an identity is one of `count` from `first` on.
pub open spec fn among(id: u64, first: int, count: int) -> bool {
    first <= id < first + count
}

/// How often a pass frees a resource: its image not at all, its draw monoid buffer
/// twice, and its other resources once.
pub open spec fn pass_frees(
    setup: Setup,
    first: int,
    part: (Layout, Seq<u8>),
    base_color: Color,
    id: u64,
) -> nat {
    if !among(id, first, setup.pass_ids(part, base_color)) {
        0
    } else if id == setup.pass_image(first, part, base_color).id {
        0
    } else if id == setup.pass(part, base_color).resources(first).draw_monoid_buf.id {
        2
    } else {
        1
    }
}

/// The resources of a pass are those with the identities that it takes, and it
/// frees all of them but its image: its draw monoid buffer twice, the others once.
pub proof fn lemma_pass_frees(
    setup: Setup,
    first: int,
    part: (Layout, Seq<u8>),
    base_color: Color,
    background: Option<Pixels>,
    id: u64,
)
    requires
        0 <= first,
        first + PASS_RESOURCES <= u64::MAX,
    ensures
        times_freed(setup.pass_actions(first, part, base_color, background), id) == pass_frees(
            setup,
            first,
            part,
            base_color,
            id,
        ),
        among(
            setup.pass_image(first, part, base_color).id,
            first,
            setup.pass_ids(part, base_color),
        ),
{
    reveal(Setup::pass_actions);
    reveal(Setup::pass_image);
    reveal(Setup::pass_ids);
    let pass = setup.pass(part, base_color);
    let r = pass.resources(first);
    let state = pass.state_after(first, idle(false));
    let fine_first = first + pass.resource_count();
    let inputs = input_actions(
        r,
        pass.packed,
        pass.images.ramps,
        pass.images.ramp_height,
        pass.images.atlas_images,
        pass.config.uniform,
    );
    let stages = stage_actions(
        r,
        pass.shaders,
        pass.config.workgroup_counts,
        false,
        false,
    );
    let between = match background {
        Some(pixels) => seq![
            Action::WriteImage(setup.pass_image(first, part, base_color), 0, 0, pixels),
        ],
        None => Seq::empty(),
    };
    let fine = state.fine_actions(fine_first, setup.shaders, setup.mask_lut);
    lemma_input_frees(
        r,
        pass.packed,
        pass.images.ramps,
        pass.images.ramp_height,
        pass.images.atlas_images,
        pass.config.uniform,
        id,
    );
    lemma_stage_frees(r, pass.shaders, pass.config.workgroup_counts, false, id);
    lemma_fine_frees(state, fine_first, setup.shaders, setup.mask_lut, id);
    lemma_nothing_freed(between, id);
    lemma_times_concat(inputs, stages, id);
    lemma_times_concat(inputs + stages, between, id);
    lemma_times_concat(inputs + stages + between, fine, id);
    assert(setup.pass_actions(first, part, base_color, background) == inputs + stages + between
        + fine);
    lemma_pass_identities(pass, first, setup.mask_lut, id);
}

/// The identities of the resources of a pass.
pub(crate) proof fn lemma_pass_identities(pass: CoarsePass, first: int, mask_lut: Seq<u8>, id: u64)
    requires
        0 <= first,
        first + PASS_RESOURCES <= u64::MAX,
    ensures
        ({
            let r = pass.resources(first);
            let state = pass.state_after(first, idle(false));
            let count = pass.resource_count() + state.fine_resource_count();
            let freed = coarse_frees(r, id) + fine_frees(
                state.fine_resources->0,
                state.mask(first + pass.resource_count(), mask_lut),
                id,
            );
            &&& freed == if !among(id, first, count) || id == r.out_image.id {
                0nat
            } else if id == r.draw_monoid_buf.id {
                2nat
            } else {
                1nat
            }
            &&& among(r.out_image.id, first, count)
        }),
{
}

/// A part of the scene makes the resources with the identities that it takes, and
/// frees all of them but its image.
pub(crate) proof fn lemma_part_frees(
    setup: Setup,
    first: int,
    part: (Layout, Seq<u8>),
    base_color: Color,
    id: u64,
)
    requires
        0 <= first,
        first + PASS_RESOURCES <= u64::MAX,
    ensures
        times_freed(setup.part_actions(first, part, base_color), id) > 0 <==> among(
            id,
            first,
            setup.part_ids(part, base_color),
        ) && id != setup.part_image(first, part, base_color).id,
        among(
            setup.part_image(first, part, base_color).id,
            first,
            setup.part_ids(part, base_color),
        ),
        1 <= setup.part_ids(part, base_color) <= PASS_RESOURCES,
{
    lemma_part_ids(setup, part, base_color);
    reveal(Setup::part_actions);
    reveal(Setup::part_image);
    reveal(Setup::part_ids);
    if part.0.n_draw_objects == 0 {
        lemma_nothing_freed(setup.part_actions(first, part, base_color), id);
    } else {
        lemma_pass_frees(
            setup,
            first,
            part,
            base_color,
            Some(setup.background(base_color)),
            id,
        );
    }
}

/// A visible backdrop frees the two buffers that it makes.
pub(crate) proof fn lemma_backdrop_frees(
    first: int,
    shaders: FullShaders,
    params: RenderParams,
    copy_params_buf: BufferProxy,
    op: BackdropBlurOp,
    images: BackdropImages,
    id: u64,
)
    requires
        0 <= first,
        first + 2 <= u64::MAX,
    ensures
        times_freed(
            backdrop_actions(first, shaders, params, copy_params_buf, op, images),
            id,
        ) == if among(id, first, 2) {
            1nat
        } else {
            0
        },
{
    reveal(tinted_backdrop_actions);
    let all = backdrop_actions(first, shaders, params, copy_params_buf, op, images);
    let a = all.take(3);
    let b = all.subrange(4, 7);
    let blur_buf = buf(nth_buffer(first, 0, 48, "vello.backdrop_blur_params"));
    let apply_buf = buf(nth_buffer(first, 1, 96, "vello.backdrop_apply_params"));
    assert(all =~= (a.push(free(blur_buf)) + b).push(free(apply_buf)));
    lemma_one_more(a, blur_buf, id);
    lemma_times_concat(a.push(free(blur_buf)), b, id);
    lemma_one_more(a.push(free(blur_buf)) + b, apply_buf, id);
    lemma_nothing_freed(a, id);
    lemma_nothing_freed(b, id);
}

/// Whether a resource is one that a frame in progress still needs.
pub open spec fn kept(frame: Frame, work: WorkImages, id: u64) -> bool {
    ||| id == frame.scene_image.id
    ||| id == frame.scene_tmp.id
    ||| id == work.blur_tmp.id
    ||| id == work.blur_image.id
    ||| id == work.params_buf.id
}

/// Whether a frame in progress, with identities from `first` on, has freed what it
/// does not need any more: each resource that it made but those it still needs,
/// which are different ones.
pub open spec fn settled(frame: Frame, work: WorkImages, first: int) -> bool {
    &&& forall|id: u64| #[trigger]
        times_freed(frame.actions, id) > 0 <==> among(id, first, frame.next - first) && !kept(
            frame,
            work,
            id,
        )
    &&& forall|id: u64| #[trigger]
        kept(frame, work, id) ==> among(id, first, frame.next - first)
    &&& frame.scene_image.id != frame.scene_tmp.id
    &&& frame.scene_image.id != work.blur_tmp.id
    &&& frame.scene_image.id != work.blur_image.id
    &&& frame.scene_image.id != work.params_buf.id
}

/// A segment that is composed over a frame leaves it settled.
pub(crate) proof fn lemma_composed_settled(
    setup: Setup,
    frame: Frame,
    segment: SegmentRange,
    work: WorkImages,
    first: int,
)
    requires
        settled(frame, work, first),
        0 <= first <= frame.next,
        frame.next + PASS_RESOURCES <= u64::MAX,
        distinct(work, frame.scene_tmp.id),
    ensures
        settled(setup.composed(frame, segment, work), work, first),
        frame.next <= setup.composed(frame, segment, work).next <= frame.next + PASS_RESOURCES,
{
    let part = setup.part(segment);
    let base_color = Color::clear();
    let image = setup.part_image(frame.next, part, base_color);
    let after = setup.composed(frame, segment, work);
    let part_actions = setup.part_actions(frame.next, part, base_color);
    let compose = compose_action(
        setup.shaders,
        work.params_buf,
        setup.params.width,
        setup.params.height,
        frame.scene_image,
        image,
        frame.scene_tmp,
    );
    let made = frame.actions + part_actions;
    let middle = made + seq![compose];
    assert(after.actions =~= middle.push(free(ResourceProxy::Image(image))));
    assert forall|id: u64| #[trigger]
        times_freed(after.actions, id) > 0 <==> among(id, first, after.next - first) && !kept(
            after,
            work,
            id,
        ) by {
        lemma_part_frees(setup, frame.next, part, base_color, id);
        lemma_times_concat(frame.actions, part_actions, id);
        lemma_times_concat(made, seq![compose], id);
        lemma_nothing_freed(seq![compose], id);
        lemma_one_more(middle, ResourceProxy::Image(image), id);
        assert(times_freed(frame.actions, id) > 0 <==> among(id, first, frame.next - first)
            && !kept(frame, work, id));
        assert(kept(after, work, id) == kept(frame, work, id));
        assert(kept(frame, work, id) ==> among(id, first, frame.next - first));
    }
    lemma_part_frees(setup, frame.next, part, base_color, 0);
    assert forall|id: u64| #[trigger] kept(after, work, id) implies among(
        id,
        first,
        after.next - first,
    ) by {
        assert(kept(frame, work, id));
    }
}

/// Whether the resources that all steps share are others than a resource.
pub open spec fn distinct(work: WorkImages, id: u64) -> bool {
    &&& id != work.blur_tmp.id
    &&& id != work.blur_image.id
    &&& id != work.params_buf.id
}

/// A backdrop leaves a frame settled.
pub(crate) proof fn lemma_backdropped_settled(
    setup: Setup,
    frame: Frame,
    source: ImageProxy,
    op: BackdropBlurOp,
    work: WorkImages,
    first: int,
)
    requires
        settled(frame, work, first),
        0 <= first <= frame.next,
        frame.next + 2 <= u64::MAX,
        distinct(work, frame.scene_tmp.id),
    ensures
        settled(setup.backdropped(frame, source, op, work), work, first),
        frame.next <= setup.backdropped(frame, source, op, work).next <= frame.next + 2,
{
    if op.is_visible(setup.params) {
        let after = setup.backdropped(frame, source, op, work);
        let images = BackdropImages {
            source,
            scene_image: frame.scene_image,
            blur_tmp: work.blur_tmp,
            blur_image: work.blur_image,
            scene_tmp: frame.scene_tmp,
        };
        let actions = backdrop_actions(
            frame.next,
            setup.shaders,
            setup.params,
            work.params_buf,
            op,
            images,
        );
        assert forall|id: u64| #[trigger]
            times_freed(after.actions, id) > 0 <==> among(id, first, after.next - first) && !kept(
                after,
                work,
                id,
            ) by {
            lemma_backdrop_frees(
                frame.next,
                setup.shaders,
                setup.params,
                work.params_buf,
                op,
                images,
                id,
            );
            lemma_times_concat(frame.actions, actions, id);
            assert(times_freed(frame.actions, id) > 0 <==> among(id, first, frame.next - first)
                && !kept(frame, work, id));
            assert(kept(after, work, id) == kept(frame, work, id));
            assert(kept(frame, work, id) ==> among(id, first, frame.next - first));
        }
        assert forall|id: u64| #[trigger] kept(after, work, id) implies among(
            id,
            first,
            after.next - first,
        ) by {
            assert(kept(frame, work, id));
        }
    }
}

/// Whether the actions of a frame free the resources with the identities from
/// `first` to that of its image, and no others; its image is not freed.
pub open spec fn leaves_only(actions: Seq<Action>, image: ImageProxy, first: int) -> bool {
    forall|id: u64| #[trigger] times_freed(actions, id) > 0 <==> first <= id < image.id
}

/// A settled frame that is finished leaves only its image.
pub(crate) proof fn lemma_finished(setup: Setup, frame: Frame, work: WorkImages, first: int)
    requires
        settled(frame, work, first),
        0 <= first <= frame.next <= u64::MAX,
    ensures
        leaves_only(setup.finished(frame, work), setup.final_image(frame), first),
{
    let copy = copy_action(
        setup.shaders,
        work.params_buf,
        setup.params.width,
        setup.params.height,
        frame.scene_image,
        setup.final_image(frame),
    );
    let all = setup.finished(frame, work);
    let a = frame.actions + seq![copy];
    let b = a.push(free(img(frame.scene_image)));
    let c = b.push(free(buf(work.params_buf))).push(free(img(work.blur_tmp)));
    assert(all =~= c.push(free(img(work.blur_image))).push(free(img(frame.scene_tmp))));
    assert forall|id: u64| #[trigger] times_freed(all, id) > 0 <==> first <= id
        < setup.final_image(frame).id by {
        lemma_times_concat(frame.actions, seq![copy], id);
        lemma_nothing_freed(seq![copy], id);
        lemma_one_more(a, img(frame.scene_image), id);
        lemma_two_more(b, buf(work.params_buf), img(work.blur_tmp), id);
        lemma_two_more(c, img(work.blur_image), img(frame.scene_tmp), id);
        assert(times_freed(frame.actions, id) > 0 <==> among(id, first, frame.next - first)
            && !kept(frame, work, id));
        assert(kept(frame, work, id) ==> among(id, first, frame.next - first));
    }
}

/// A frame that is rendered in segments is settled behind each of its backdrops.
pub(crate) proof fn lemma_replay_settled(plan: ReplayPlan, k: int)
    requires
        0 <= k <= plan.ops.len(),
        0 <= plan.first,
        plan.first + frame_resources(plan.ops.len()) <= u64::MAX,
    ensures
        settled(plan.frame(k), plan.work(), plan.first),
        distinct(plan.work(), plan.frame(k).scene_tmp.id),
        plan.first <= plan.frame(k).next <= plan.first + 31 * (k + 2),
    decreases k,
{
    let setup = plan.setup;
    let work = plan.work();
    let first = plan.first;
    assert(frame_resources(plan.ops.len()) == 31 * (plan.ops.len() + 3));
    if k == 0 {
        let frame = plan.start();
        let part = setup.part(plan.input().first_segment());
        let base_color = setup.params.base_color;
        let upload = seq![
            Action::UploadUniform(work.params_buf, words_bytes(setup.frame_words())),
        ];
        let part_actions = setup.part_actions(first + 4, part, base_color);
        lemma_part_frees(setup, first + 4, part, base_color, 0);
        assert forall|id: u64| #[trigger]
            times_freed(frame.actions, id) > 0 <==> among(id, first, frame.next - first) && !kept(
                frame,
                work,
                id,
            ) by {
            lemma_part_frees(setup, first + 4, part, base_color, id);
            lemma_times_concat(upload, part_actions, id);
            lemma_nothing_freed(upload, id);
        }
    } else {
        lemma_replay_settled(plan, k - 1);
        let before = plan.frame(k - 1);
        let reached = if plan.input().cursor(k - 1) < plan.ops[k - 1].draw_index {
            lemma_composed_settled(
                setup,
                before,
                plan.input().segment_before(k - 1),
                work,
                first,
            );
            setup.composed(before, plan.input().segment_before(k - 1), work)
        } else {
            before
        };
        assert(distinct(work, reached.scene_tmp.id));
        lemma_backdropped_settled(
            setup,
            reached,
            reached.scene_image,
            plan.ops[k - 1],
            work,
            first,
        );
    }
}

/// A frame that is rendered in segments leaves only its image: every other
/// resource that it makes is freed, and nothing else is.
pub proof fn lemma_replay_leaves_only_image(plan: ReplayPlan)
    requires
        0 <= plan.first,
        plan.first + frame_resources(plan.ops.len()) <= u64::MAX,
    ensures
        leaves_only(plan.actions(), plan.image(), plan.first),
{
    let k = plan.ops.len() as int;
    assert(frame_resources(plan.ops.len()) == 31 * (plan.ops.len() + 3));
    lemma_replay_settled(plan, k);
    if plan.has_tail() {
        lemma_composed_settled(
            plan.setup,
            plan.frame(k),
            plan.input().tail_segment(),
            plan.work(),
            plan.first,
        );
    }
    lemma_finished(plan.setup, plan.last_frame(), plan.work(), plan.first);
}

/// The frame with the whole scene is settled.
pub(crate) proof fn lemma_legacy_start(plan: LegacyPlan)
    requires
        0 <= plan.first,
        plan.first + frame_resources(plan.ops.len()) <= u64::MAX,
    ensures
        settled(plan.start(), plan.work(), plan.first),
        distinct(plan.work(), plan.start().scene_tmp.id),
        plan.first <= plan.start().next <= plan.first + 31 * 2,
{
    let setup = plan.setup;
    let work = plan.work();
    let first = plan.first;
    let frame = plan.start();
    let base_color = setup.params.base_color;
    assert(frame_resources(plan.ops.len()) == 31 * (plan.ops.len() + 3));
    lemma_pass_ids(setup, plan.whole(), base_color);
    let pass = setup.pass_actions(first, plan.whole(), base_color, None);
    let upload = Action::UploadUniform(work.params_buf, words_bytes(setup.frame_words()));
    assert(frame.actions =~= pass + seq![upload]);
    lemma_pass_frees(setup, first, plan.whole(), base_color, None, 0);
    assert forall|id: u64| #[trigger]
        times_freed(frame.actions, id) > 0 <==> among(id, first, frame.next - first) && !kept(
            frame,
            work,
            id,
        ) by {
        lemma_pass_frees(setup, first, plan.whole(), base_color, None, id);
        lemma_times_concat(pass, seq![upload], id);
        lemma_nothing_freed(seq![upload], id);
    }
}

/// A backdrop that is put into the whole frame leaves it settled.
pub(crate) proof fn lemma_blurred_settled(plan: LegacyPlan, frame: Frame, k: int)
    requires
        settled(frame, plan.work(), plan.first),
        distinct(plan.work(), frame.scene_tmp.id),
        0 <= plan.first <= frame.next,
        frame.next + STEP_RESOURCES <= u64::MAX,
        0 <= k < plan.ops.len(),
        plan.ops[k].is_visible(plan.setup.params),
    ensures
        settled(plan.blurred(frame, k), plan.work(), plan.first),
        frame.next <= plan.blurred(frame, k).next <= frame.next + STEP_RESOURCES,
{
    let setup = plan.setup;
    let work = plan.work();
    let first = plan.first;
    let base_color = setup.params.base_color;
    let part = plan.prefix(k);
    let source = setup.pass_image(frame.next, part, base_color);
    let pass = setup.pass_actions(frame.next, part, base_color, None);
    let ids = setup.pass_ids(part, base_color);
    let after = plan.blurred(frame, k);
    let images = BackdropImages {
        source,
        scene_image: frame.scene_image,
        blur_tmp: work.blur_tmp,
        blur_image: work.blur_image,
        scene_tmp: frame.scene_tmp,
    };
    let backdrop = backdrop_actions(
        frame.next + ids,
        setup.shaders,
        setup.params,
        work.params_buf,
        plan.ops[k],
        images,
    );
    lemma_pass_ids(setup, part, base_color);
    let made = frame.actions + pass + backdrop;
    assert(after.actions =~= made.push(free(img(source))));
    assert forall|id: u64| #[trigger]
        times_freed(after.actions, id) > 0 <==> among(id, first, after.next - first) && !kept(
            after,
            work,
            id,
        ) by {
        lemma_pass_frees(setup, frame.next, part, base_color, None, id);
        lemma_backdrop_frees(
            frame.next + ids,
            setup.shaders,
            setup.params,
            work.params_buf,
            plan.ops[k],
            images,
            id,
        );
        lemma_times_concat(frame.actions, pass, id);
        lemma_times_concat(frame.actions + pass, backdrop, id);
        lemma_one_more(made, img(source), id);
        assert(times_freed(frame.actions, id) > 0 <==> among(id, first, frame.next - first)
            && !kept(frame, work, id));
        assert(kept(after, work, id) == kept(frame, work, id));
        assert(kept(frame, work, id) ==> among(id, first, frame.next - first));
    }
    assert forall|id: u64| #[trigger] kept(after, work, id) implies among(
        id,
        first,
        after.next - first,
    ) by {
        assert(kept(frame, work, id));
    }
}

/// A frame that is rendered as a whole is settled behind each of its backdrops.
pub(crate) proof fn lemma_legacy_settled(plan: LegacyPlan, k: int)
    requires
        0 <= k <= plan.ops.len(),
        0 <= plan.first,
        plan.first + frame_resources(plan.ops.len()) <= u64::MAX,
    ensures
        settled(plan.frame(k), plan.work(), plan.first),
        distinct(plan.work(), plan.frame(k).scene_tmp.id),
        plan.first <= plan.frame(k).next <= plan.first + 31 * (k + 2),
    decreases k,
{
    assert(frame_resources(plan.ops.len()) == 31 * (plan.ops.len() + 3));
    if k == 0 {
        lemma_legacy_start(plan);
    } else {
        lemma_legacy_settled(plan, k - 1);
        if plan.ops[k - 1].is_visible(plan.setup.params) {
            lemma_blurred_settled(plan, plan.frame(k - 1), k - 1);
        }
    }
}

/// A frame that is rendered as a whole leaves only its image: every other resource
/// that it makes is freed, and nothing else is.
pub proof fn lemma_legacy_leaves_only_image(plan: LegacyPlan)
    requires
        0 <= plan.first,
        plan.first + frame_resources(plan.ops.len()) <= u64::MAX,
    ensures
        leaves_only(plan.actions(), plan.image(), plan.first),
{
    assert(frame_resources(plan.ops.len()) == 31 * (plan.ops.len() + 3));
    lemma_legacy_settled(plan, plan.ops.len() as int);
    lemma_finished(plan.setup, plan.last_frame(), plan.work(), plan.first);
}

} // verus!
