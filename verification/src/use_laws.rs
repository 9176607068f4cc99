//! No resource is used after it was freed.

use vstd::prelude::*;

use crate::backdrop::{BackdropBlurOp, BackdropImages};
use crate::coarse::{AaConfig, CoarseResources, FullShaders, RenderParams};
use crate::color::Color;
use crate::config::WorkgroupCounts;
use crate::frame::{WorkImages, PASS_RESOURCES, STEP_RESOURCES};
use crate::layout::Layout;
use crate::recording::{BufferProxy, ResourceProxy};

verus! {

use crate::backdrop::{
    backdrop_actions, compose_action, copy_action, tinted_backdrop_actions,
};
use crate::coarse::{
    bin_actions, clip_actions, draw_actions, finish_actions, flatten_actions, input_actions,
    path_tag_actions, stage_actions, tile_actions,
};
use crate::frame::{frame_resources, lemma_pass_ids, Frame, LegacyPlan, ReplayPlan, Setup};
use crate::frame_laws::{
    among, freed_id, kept, lemma_bin_frees, lemma_clip_frees, lemma_composed_settled,
    lemma_flatten_frees, lemma_input_frees, lemma_legacy_settled, lemma_nothing_freed,
    lemma_part_frees, lemma_pass_frees, lemma_path_tag_frees, lemma_replay_settled,
    lemma_stage_frees, lemma_tile_frees, lemma_times_concat, settled, times_freed,
};
use crate::layout::words_bytes;
use crate::recording::{Action, Pixels};
use crate::render::{idle, CoarsePass, RenderState};
use crate::replay::SegmentRange;

/// Whether a resource is among those that a shader runs on.
pub open spec fn bound(bindings: Seq<ResourceProxy>, id: u64) -> bool {
    exists|k: int| 0 <= k < bindings.len() && (#[trigger] bindings[k]).resource_id() == id
}

/// Whether an action uses a resource.
pub open spec fn uses(action: Action, id: u64) -> bool {
    match action {
        Action::Upload(buffer, _) => buffer.id == id,
        Action::UploadUniform(buffer, _) => buffer.id == id,
        Action::UploadImage(image, _) => image.id == id,
        Action::WriteImage(image, _, _, _) => image.id == id,
        Action::Download(buffer) => buffer.id == id,
        Action::Dispatch(_, _, bindings) => bound(bindings, id),
        Action::DispatchIndirect(_, buffer, _, bindings) => buffer.id == id || bound(bindings, id),
        Action::Clear(buffer, _, _) => buffer.id == id,
        Action::FreeBuffer(_) => false,
        Action::FreeImage(_) => false,
    }
}

/// Whether a resource is used.
pub open spec fn used(actions: Seq<Action>, id: u64) -> bool {
    exists|k: int| 0 <= k < actions.len() && uses(#[trigger] actions[k], id)
}

/// Whether a resource is not used after it was freed.
pub open spec fn clean(actions: Seq<Action>, id: u64) -> bool {
    forall|i: int, j: int|
        0 <= i < j < actions.len() && freed_id(#[trigger] actions[i]) == Some(id) ==> !uses(
            #[trigger] actions[j],
            id,
        )
}

/// An action that frees a resource counts.
pub(crate) proof fn lemma_freed_counts(actions: Seq<Action>, i: int, id: u64)
    requires
        0 <= i < actions.len(),
        freed_id(actions[i]) == Some(id),
    ensures
        times_freed(actions, id) > 0,
    decreases actions.len(),
{
    if i < actions.len() - 1 {
        assert(actions.drop_last()[i] == actions[i]);
        lemma_freed_counts(actions.drop_last(), i, id);
    }
}

/// Two runs of actions are clean where each is, and the second does not use what the
/// first frees.
pub proof fn lemma_clean_concat(a: Seq<Action>, b: Seq<Action>, id: u64)
    requires
        clean(a, id),
        clean(b, id),
        times_freed(a, id) > 0 ==> !used(b, id),
    ensures
        clean(a + b, id),
{
    let all = a + b;
    assert forall|i: int, j: int|
        0 <= i < j < all.len() && freed_id(#[trigger] all[i]) == Some(id) implies !uses(
        #[trigger] all[j],
        id,
    ) by {
        if i < a.len() {
            assert(all[i] == a[i]);
            lemma_freed_counts(a, i, id);
            if j < a.len() {
                assert(all[j] == a[j]);
            } else {
                assert(all[j] == b[j - a.len()]);
            }
        } else {
            assert(all[i] == b[i - a.len()]);
            assert(all[j] == b[j - a.len()]);
        }
    }
}

/// What two runs of actions use is what either uses.
pub proof fn lemma_used_concat(a: Seq<Action>, b: Seq<Action>, id: u64)
    ensures
        used(a + b, id) <==> used(a, id) || used(b, id),
{
    let all = a + b;
    if used(a, id) {
        let k = choose|k: int| 0 <= k < a.len() && uses(#[trigger] a[k], id);
        assert(all[k] == a[k]);
    }
    if used(b, id) {
        let k = choose|k: int| 0 <= k < b.len() && uses(#[trigger] b[k], id);
        assert(all[a.len() + k] == b[k]);
    }
    if used(all, id) {
        let k = choose|k: int| 0 <= k < all.len() && uses(#[trigger] all[k], id);
        if k < a.len() {
            assert(a[k] == all[k]);
        } else {
            assert(b[k - a.len()] == all[k]);
        }
    }
}

proof fn lemma_path_tag_uses(
    r: CoarseResources,
    shaders: FullShaders,
    counts: WorkgroupCounts,
    id: u64,
)
    ensures
        used(path_tag_actions(r, shaders, counts), id) ==> {
            ||| id == r.config_buf.id
            ||| id == r.scene_buf.id
            ||| id == r.reduced_buf.id
            ||| id == r.tagmonoid_buf.id
            ||| match r.large_pathtag_bufs {
                Some((reduced2, reduced_scan)) => id == reduced2.id || id == reduced_scan.id,
                None => false,
            }
        },
        clean(path_tag_actions(r, shaders, counts), id),
{
}

proof fn lemma_flatten_uses(
    r: CoarseResources,
    shaders: FullShaders,
    counts: WorkgroupCounts,
    id: u64,
)
    ensures
        used(flatten_actions(r, shaders, counts), id) ==> {
            ||| id == r.config_buf.id
            ||| id == r.scene_buf.id
            ||| id == r.tagmonoid_buf.id
            ||| id == r.path_bbox_buf.id
            ||| id == r.bump_buf.id
            ||| id == r.lines_buf.id
        },
        clean(flatten_actions(r, shaders, counts), id),
{
}

proof fn lemma_draw_uses(
    r: CoarseResources,
    shaders: FullShaders,
    counts: WorkgroupCounts,
    id: u64,
)
    ensures
        used(draw_actions(r, shaders, counts), id) ==> {
            ||| id == r.config_buf.id
            ||| id == r.scene_buf.id
            ||| id == r.draw_reduced_buf.id
            ||| id == r.path_bbox_buf.id
            ||| id == r.draw_monoid_buf.id
            ||| id == r.info_bin_data_buf.id
            ||| id == r.clip_inp_buf.id
        },
        clean(draw_actions(r, shaders, counts), id),
{
}

proof fn lemma_clip_uses(
    r: CoarseResources,
    shaders: FullShaders,
    counts: WorkgroupCounts,
    id: u64,
)
    ensures
        used(clip_actions(r, shaders, counts), id) ==> {
            ||| id == r.config_buf.id
            ||| id == r.clip_inp_buf.id
            ||| id == r.path_bbox_buf.id
            ||| id == r.clip_bic_buf.id
            ||| id == r.clip_el_buf.id
            ||| id == r.draw_monoid_buf.id
            ||| id == r.clip_bbox_buf.id
        },
        clean(clip_actions(r, shaders, counts), id),
{
}

proof fn lemma_bin_uses(
    r: CoarseResources,
    shaders: FullShaders,
    counts: WorkgroupCounts,
    id: u64,
)
    requires
        id != r.draw_monoid_buf.id,
        r.clip_bbox_buf.id != r.config_buf.id,
        r.clip_bbox_buf.id != r.scene_buf.id,
        r.clip_bbox_buf.id != r.draw_bbox_buf.id,
        r.clip_bbox_buf.id != r.bump_buf.id,
        r.clip_bbox_buf.id != r.path_buf.id,
        r.clip_bbox_buf.id != r.tile_buf.id,
    ensures
        used(bin_actions(r, shaders, counts), id) ==> {
            ||| id == r.config_buf.id
            ||| id == r.path_bbox_buf.id
            ||| id == r.clip_bbox_buf.id
            ||| id == r.draw_bbox_buf.id
            ||| id == r.bump_buf.id
            ||| id == r.info_bin_data_buf.id
            ||| id == r.bin_header_buf.id
            ||| id == r.scene_buf.id
            ||| id == r.path_buf.id
            ||| id == r.tile_buf.id
        },
        clean(bin_actions(r, shaders, counts), id),
{
}

proof fn lemma_tile_uses(
    r: CoarseResources,
    shaders: FullShaders,
    counts: WorkgroupCounts,
    id: u64,
)
    ensures
        used(tile_actions(r, shaders, counts), id) ==> {
            ||| id == r.bump_buf.id
            ||| id == r.indirect_count_buf.id
            ||| id == r.config_buf.id
            ||| id == r.lines_buf.id
            ||| id == r.path_buf.id
            ||| id == r.tile_buf.id
            ||| id == r.seg_counts_buf.id
            ||| id == r.scene_buf.id
            ||| id == r.draw_monoid_buf.id
            ||| id == r.bin_header_buf.id
            ||| id == r.info_bin_data_buf.id
            ||| id == r.ptcl_buf.id
            ||| id == r.segments_buf.id
        },
        clean(tile_actions(r, shaders, counts), id),
{
    let all = tile_actions(r, shaders, counts);
    assert forall|i: int, j: int|
        0 <= i < j < all.len() && freed_id(#[trigger] all[i]) == Some(id) implies !uses(
        #[trigger] all[j],
        id,
    ) by {
        assert(i >= 6);
    }
}

proof fn lemma_finish_uses(r: CoarseResources, robust: bool, id: u64)
    ensures
        used(finish_actions(r, robust, false), id) ==> id == r.bump_buf.id,
        clean(finish_actions(r, robust, false), id),
{
}

proof fn lemma_input_uses(
    r: CoarseResources,
    packed: Seq<u8>,
    ramps: Seq<u32>,
    ramp_height: u32,
    images: Seq<(Pixels, u32, u32)>,
    uniform: Seq<u32>,
    id: u64,
)
    ensures
        used(input_actions(r, packed, ramps, ramp_height, images, uniform), id) ==> {
            ||| id == r.gradient_image.id
            ||| id == r.image_atlas.id
            ||| id == r.scene_buf.id
            ||| id == r.config_buf.id
        },
        clean(input_actions(r, packed, ramps, ramp_height, images, uniform), id),
{
}

proof fn lemma_fine_uses(
    state: RenderState,
    first: int,
    shaders: FullShaders,
    mask_lut: Seq<u8>,
    id: u64,
)
    requires
        state.fine_resources->0.aa_config != AaConfig::Area ==> state.mask(first, mask_lut) is Some,
    ensures
        ({
            let f = state.fine_resources->0;
            used(state.fine_actions(first, shaders, mask_lut), id) ==> {
                ||| id == f.config_buf.resource_id()
                ||| id == f.segments_buf.resource_id()
                ||| id == f.ptcl_buf.resource_id()
                ||| id == f.info_bin_data_buf.resource_id()
                ||| id == f.blend_spill_buf.resource_id()
                ||| id == f.out_image.id
                ||| id == f.gradient_image.resource_id()
                ||| id == f.image_atlas.resource_id()
                ||| f.aa_config != AaConfig::Area && id == state.mask(
                    first,
                    mask_lut,
                )->0.resource_id()
            }
        }),
        clean(state.fine_actions(first, shaders, mask_lut), id),
{
}

/// The stages of coarse rasterization are clean but for the draw monoid buffer, and
/// use only the resources of the pass.
proof fn lemma_stages_clean(
    pass: CoarsePass,
    first: int,
    id: u64,
)
    requires
        0 <= first,
        first + PASS_RESOURCES <= u64::MAX,
        id != pass.resources(first).draw_monoid_buf.id,
    ensures
        ({
            let r = pass.resources(first);
            let actions = stage_actions(
                r,
                pass.shaders,
                pass.config.workgroup_counts,
                false,
                false,
            );
            &&& clean(actions, id)
            &&& used(actions, id) ==> among(id, first, pass.resource_count())
        }),
{
    let r = pass.resources(first);
    let shaders = pass.shaders;
    let counts = pass.config.workgroup_counts;
    let a = path_tag_actions(r, shaders, counts);
    let b = flatten_actions(r, shaders, counts);
    let c = draw_actions(r, shaders, counts);
    let d = clip_actions(r, shaders, counts);
    let e = bin_actions(r, shaders, counts);
    let f = tile_actions(r, shaders, counts);
    let g = finish_actions(r, false, false);
    lemma_path_tag_uses(r, shaders, counts, id);
    lemma_flatten_uses(r, shaders, counts, id);
    lemma_draw_uses(r, shaders, counts, id);
    lemma_clip_uses(r, shaders, counts, id);
    lemma_bin_uses(r, shaders, counts, id);
    lemma_tile_uses(r, shaders, counts, id);
    lemma_finish_uses(r, false, id);
    lemma_path_tag_frees(r, shaders, counts, id);
    lemma_flatten_frees(r, shaders, counts, id);
    lemma_clip_frees(r, shaders, counts, id);
    lemma_bin_frees(r, shaders, counts, id);
    lemma_tile_frees(r, shaders, counts, id);
    let ab = a + b;
    let abc = ab + c;
    let abcd = abc + d;
    let abcde = abcd + e;
    let abcdef = abcde + f;
    lemma_times_concat(a, b, id);
    lemma_times_concat(ab, c, id);
    lemma_times_concat(abc, d, id);
    lemma_times_concat(abcd, e, id);
    lemma_times_concat(abcde, f, id);
    lemma_used_concat(a, b, id);
    lemma_used_concat(ab, c, id);
    lemma_used_concat(abc, d, id);
    lemma_used_concat(abcd, e, id);
    lemma_used_concat(abcde, f, id);
    lemma_used_concat(abcdef, g, id);
    lemma_clean_concat(a, b, id);
    lemma_clean_concat(ab, c, id);
    lemma_clean_concat(abc, d, id);
    lemma_clean_concat(abcd, e, id);
    lemma_clean_concat(abcde, f, id);
    lemma_clean_concat(abcdef, g, id);
}

/// A pass uses only its own resources, and uses none of them after it was freed; but
/// for the draw monoid buffer, which is freed twice.
pub proof fn lemma_pass_clean(
    setup: Setup,
    first: int,
    part: (Layout, Seq<u8>),
    base_color: Color,
    background: Option<Pixels>,
    id: u64,
)
    requires
        0 <= first,
        first + PASS_RESOURCES <= u64::MAX,
        times_freed(setup.pass_actions(first, part, base_color, background), id) <= 1,
    ensures
        clean(setup.pass_actions(first, part, base_color, background), id),
        used(setup.pass_actions(first, part, base_color, background), id) ==> among(
            id,
            first,
            setup.pass_ids(part, base_color),
        ),
{
    lemma_pass_frees(setup, first, part, base_color, background, id);
    reveal(Setup::pass_actions);
    reveal(Setup::pass_image);
    reveal(Setup::pass_ids);
    let pass = setup.pass(part, base_color);
    let r = pass.resources(first);
    let state = pass.state_after(first, idle(false));
    let fine_first = first + pass.resource_count();
    let inputs = input_actions(
        r,
        pass.packed,
        pass.images.ramps,
        pass.images.ramp_height,
        pass.images.atlas_images,
        pass.config.uniform,
    );
    let stages = stage_actions(r, pass.shaders, pass.config.workgroup_counts, false, false);
    let between = match background {
        Some(pixels) => seq![
            Action::WriteImage(setup.pass_image(first, part, base_color), 0, 0, pixels),
        ],
        None => Seq::empty(),
    };
    let fine = state.fine_actions(fine_first, setup.shaders, setup.mask_lut);
    assert(id != r.draw_monoid_buf.id);
    lemma_input_uses(
        r,
        pass.packed,
        pass.images.ramps,
        pass.images.ramp_height,
        pass.images.atlas_images,
        pass.config.uniform,
        id,
    );
    lemma_input_frees(
        r,
        pass.packed,
        pass.images.ramps,
        pass.images.ramp_height,
        pass.images.atlas_images,
        pass.config.uniform,
        id,
    );
    lemma_stages_clean(pass, first, id);
    lemma_stage_frees(r, pass.shaders, pass.config.workgroup_counts, false, id);
    lemma_fine_uses(state, fine_first, setup.shaders, setup.mask_lut, id);
    lemma_nothing_freed(between, id);
    lemma_times_concat(inputs, stages, id);
    lemma_times_concat(inputs + stages, between, id);
    lemma_used_concat(inputs, stages, id);
    lemma_used_concat(inputs + stages, between, id);
    lemma_used_concat(inputs + stages + between, fine, id);
    assert(used(between, id) ==> id == r.out_image.id);
    lemma_clean_concat(inputs, stages, id);
    lemma_clean_concat(inputs + stages, between, id);
    lemma_clean_concat(inputs + stages + between, fine, id);
}

/// A part of the scene uses only its own resources, and uses none of them after it
/// was freed, where it is freed once.
pub(crate) proof fn lemma_part_clean(
    setup: Setup,
    first: int,
    part: (Layout, Seq<u8>),
    base_color: Color,
    id: u64,
)
    requires
        0 <= first,
        first + PASS_RESOURCES <= u64::MAX,
        times_freed(setup.part_actions(first, part, base_color), id) <= 1,
    ensures
        clean(setup.part_actions(first, part, base_color), id),
        used(setup.part_actions(first, part, base_color), id) ==> among(
            id,
            first,
            setup.part_ids(part, base_color),
        ),
{
    reveal(Setup::part_actions);
    reveal(Setup::part_image);
    reveal(Setup::part_ids);
    if part.0.n_draw_objects != 0 {
        lemma_pass_clean(
            setup,
            first,
            part,
            base_color,
            Some(setup.background(base_color)),
            id,
        );
    }
}

/// A backdrop uses its own buffers and what it is given, and uses nothing after it
/// was freed.
pub(crate) proof fn lemma_backdrop_clean(
    first: int,
    shaders: FullShaders,
    params: RenderParams,
    copy_params_buf: BufferProxy,
    op: BackdropBlurOp,
    images: BackdropImages,
    id: u64,
)
    requires
        0 <= first,
        first + 2 <= u64::MAX,
        copy_params_buf.id < first,
        images.source.id < first,
        images.scene_image.id < first,
        images.blur_tmp.id < first,
        images.blur_image.id < first,
        images.scene_tmp.id < first,
    ensures
        clean(backdrop_actions(first, shaders, params, copy_params_buf, op, images), id),
        used(backdrop_actions(first, shaders, params, copy_params_buf, op, images), id) ==> {
            ||| among(id, first, 2)
            ||| id == copy_params_buf.id
            ||| id == images.source.id
            ||| id == images.scene_image.id
            ||| id == images.blur_tmp.id
            ||| id == images.blur_image.id
            ||| id == images.scene_tmp.id
        },
{
    reveal(tinted_backdrop_actions);
}

/// Whether a resource that is freed once is not used afterwards.
pub open spec fn tidy(actions: Seq<Action>) -> bool {
    forall|id: u64| #[trigger] times_freed(actions, id) <= 1 ==> clean(actions, id)
}

/// A segment that is composed over a frame leaves it tidy.
proof fn lemma_composed_tidy(
    setup: Setup,
    frame: Frame,
    segment: SegmentRange,
    work: WorkImages,
    first: int,
)
    requires
        settled(frame, work, first),
        tidy(frame.actions),
        0 <= first <= frame.next,
        frame.next + PASS_RESOURCES <= u64::MAX,
    ensures
        tidy(setup.composed(frame, segment, work).actions),
{
    let part = setup.part(segment);
    let base_color = Color::clear();
    let image = setup.part_image(frame.next, part, base_color);
    let after = setup.composed(frame, segment, work);
    let part_actions = setup.part_actions(frame.next, part, base_color);
    let compose = compose_action(
        setup.shaders,
        work.params_buf,
        setup.params.width,
        setup.params.height,
        frame.scene_image,
        image,
        frame.scene_tmp,
    );
    let last = seq![compose, Action::FreeImage(image)];
    let made = part_actions + last;
    assert(after.actions =~= frame.actions + made);
    assert forall|id: u64| #[trigger] times_freed(after.actions, id) <= 1 implies clean(
        after.actions,
        id,
    ) by {
        lemma_times_concat(frame.actions, made, id);
        lemma_times_concat(part_actions, last, id);
        lemma_part_frees(setup, frame.next, part, base_color, id);
        lemma_part_clean(setup, frame.next, part, base_color, id);
        lemma_used_concat(part_actions, last, id);
        assert(times_freed(frame.actions, id) > 0 <==> among(id, first, frame.next - first)
            && !kept(frame, work, id));
        assert(kept(frame, work, id) ==> among(id, first, frame.next - first));
        lemma_kept_below(frame, work, first);
        assert(used(last, id) ==> {
            ||| id == work.params_buf.id
            ||| id == frame.scene_image.id
            ||| id == image.id
            ||| id == frame.scene_tmp.id
        });
        assert(clean(last, id));
        lemma_clean_concat(part_actions, last, id);
        lemma_clean_concat(frame.actions, made, id);
    }
}

/// What a frame in progress still needs was made before.
pub(crate) proof fn lemma_kept_below(frame: Frame, work: WorkImages, first: int)
    requires
        settled(frame, work, first),
    ensures
        frame.scene_image.id < frame.next,
        frame.scene_tmp.id < frame.next,
        work.blur_tmp.id < frame.next,
        work.blur_image.id < frame.next,
        work.params_buf.id < frame.next,
{
    assert(kept(frame, work, frame.scene_image.id));
    assert(kept(frame, work, frame.scene_tmp.id));
    assert(kept(frame, work, work.blur_tmp.id));
    assert(kept(frame, work, work.blur_image.id));
    assert(kept(frame, work, work.params_buf.id));
}

/// A backdrop that blurs the scene leaves a frame tidy.
proof fn lemma_backdropped_tidy(
    setup: Setup,
    frame: Frame,
    op: BackdropBlurOp,
    work: WorkImages,
    first: int,
)
    requires
        settled(frame, work, first),
        tidy(frame.actions),
        0 <= first <= frame.next,
        frame.next + 2 <= u64::MAX,
    ensures
        tidy(setup.backdropped(frame, frame.scene_image, op, work).actions),
{
    if op.is_visible(setup.params) {
        let after = setup.backdropped(frame, frame.scene_image, op, work);
        let images = BackdropImages {
            source: frame.scene_image,
            scene_image: frame.scene_image,
            blur_tmp: work.blur_tmp,
            blur_image: work.blur_image,
            scene_tmp: frame.scene_tmp,
        };
        let made = backdrop_actions(
            frame.next,
            setup.shaders,
            setup.params,
            work.params_buf,
            op,
            images,
        );
        lemma_kept_below(frame, work, first);
        assert forall|id: u64| #[trigger] times_freed(after.actions, id) <= 1 implies clean(
            after.actions,
            id,
        ) by {
            lemma_times_concat(frame.actions, made, id);
            lemma_backdrop_clean(
                frame.next,
                setup.shaders,
                setup.params,
                work.params_buf,
                op,
                images,
                id,
            );
            assert(times_freed(frame.actions, id) > 0 <==> among(id, first, frame.next - first)
                && !kept(frame, work, id));
            lemma_clean_concat(frame.actions, made, id);
        }
    }
}

/// A tidy frame that is finished is tidy.
proof fn lemma_finished_tidy(setup: Setup, frame: Frame, work: WorkImages, first: int)
    requires
        settled(frame, work, first),
        tidy(frame.actions),
        0 <= first <= frame.next <= u64::MAX,
    ensures
        tidy(setup.finished(frame, work)),
{
    let copy = copy_action(
        setup.shaders,
        work.params_buf,
        setup.params.width,
        setup.params.height,
        frame.scene_image,
        setup.final_image(frame),
    );
    let all = setup.finished(frame, work);
    let last = seq![
        copy,
        Action::FreeImage(frame.scene_image),
        Action::FreeBuffer(work.params_buf),
        Action::FreeImage(work.blur_tmp),
        Action::FreeImage(work.blur_image),
        Action::FreeImage(frame.scene_tmp),
    ];
    assert(all =~= frame.actions + last);
    lemma_kept_below(frame, work, first);
    assert forall|id: u64| #[trigger] times_freed(all, id) <= 1 implies clean(all, id) by {
        lemma_times_concat(frame.actions, last, id);
        assert(times_freed(frame.actions, id) > 0 <==> among(id, first, frame.next - first)
            && !kept(frame, work, id));
        assert(used(last, id) ==> {
            ||| id == work.params_buf.id
            ||| id == frame.scene_image.id
            ||| id == setup.final_image(frame).id
        });
        assert(clean(last, id));
        lemma_clean_concat(frame.actions, last, id);
    }
}

/// A frame that is rendered in segments is tidy behind each of its backdrops.
proof fn lemma_replay_frame_tidy(plan: ReplayPlan, k: int)
    requires
        0 <= k <= plan.ops.len(),
        0 <= plan.first,
        plan.first + frame_resources(plan.ops.len()) <= u64::MAX,
    ensures
        tidy(plan.frame(k).actions),
    decreases k,
{
    let setup = plan.setup;
    let work = plan.work();
    let first = plan.first;
    assert(frame_resources(plan.ops.len()) == 31 * (plan.ops.len() + 3));
    if k == 0 {
        let frame = plan.start();
        let part = setup.part(plan.input().first_segment());
        let base_color = setup.params.base_color;
        let upload = seq![
            Action::UploadUniform(work.params_buf, words_bytes(setup.frame_words())),
        ];
        let part_actions = setup.part_actions(first + 4, part, base_color);
        assert forall|id: u64| #[trigger] times_freed(frame.actions, id) <= 1 implies clean(
            frame.actions,
            id,
        ) by {
            lemma_times_concat(upload, part_actions, id);
            lemma_nothing_freed(upload, id);
            lemma_part_clean(setup, first + 4, part, base_color, id);
            assert(clean(upload, id));
            lemma_clean_concat(upload, part_actions, id);
        }
    } else {
        lemma_replay_settled(plan, k - 1);
        lemma_replay_frame_tidy(plan, k - 1);
        let before = plan.frame(k - 1);
        let reached = if plan.input().cursor(k - 1) < plan.ops[k - 1].draw_index {
            let segment = plan.input().segment_before(k - 1);
            lemma_composed_settled(setup, before, segment, work, first);
            lemma_composed_tidy(setup, before, segment, work, first);
            setup.composed(before, segment, work)
        } else {
            before
        };
        lemma_backdropped_tidy(setup, reached, plan.ops[k - 1], work, first);
    }
}

/// In a frame that is rendered in segments nothing is used after it was freed; but for
/// the draw monoid buffer of each pass, which is freed twice.
pub proof fn lemma_replay_tidy(plan: ReplayPlan)
    requires
        0 <= plan.first,
        plan.first + frame_resources(plan.ops.len()) <= u64::MAX,
    ensures
        tidy(plan.actions()),
{
    let k = plan.ops.len() as int;
    assert(frame_resources(plan.ops.len()) == 31 * (plan.ops.len() + 3));
    lemma_replay_settled(plan, k);
    lemma_replay_frame_tidy(plan, k);
    if plan.has_tail() {
        let segment = plan.input().tail_segment();
        lemma_composed_settled(plan.setup, plan.frame(k), segment, plan.work(), plan.first);
        lemma_composed_tidy(plan.setup, plan.frame(k), segment, plan.work(), plan.first);
    }
    lemma_finished_tidy(plan.setup, plan.last_frame(), plan.work(), plan.first);
}

/// A backdrop that is put into the whole frame leaves it tidy.
proof fn lemma_blurred_tidy(plan: LegacyPlan, frame: Frame, k: int)
    requires
        settled(frame, plan.work(), plan.first),
        tidy(frame.actions),
        0 <= plan.first <= frame.next,
        frame.next + STEP_RESOURCES <= u64::MAX,
        0 <= k < plan.ops.len(),
        plan.ops[k].is_visible(plan.setup.params),
    ensures
        tidy(plan.blurred(frame, k).actions),
{
    let setup = plan.setup;
    let work = plan.work();
    let first = plan.first;
    let base_color = setup.params.base_color;
    let part = plan.prefix(k);
    let source = setup.pass_image(frame.next, part, base_color);
    let pass = setup.pass_actions(frame.next, part, base_color, None);
    let ids = setup.pass_ids(part, base_color);
    let after = plan.blurred(frame, k);
    let images = BackdropImages {
        source,
        scene_image: frame.scene_image,
        blur_tmp: work.blur_tmp,
        blur_image: work.blur_image,
        scene_tmp: frame.scene_tmp,
    };
    let backdrop = backdrop_actions(
        frame.next + ids,
        setup.shaders,
        setup.params,
        work.params_buf,
        plan.ops[k],
        images,
    );
    let free_source = seq![Action::FreeImage(source)];
    lemma_pass_ids(setup, part, base_color);
    lemma_kept_below(frame, work, first);
    lemma_pass_frees(setup, frame.next, part, base_color, None, 0);
    let made = pass + backdrop;
    assert(after.actions =~= frame.actions + made + free_source);
    assert forall|id: u64| #[trigger] times_freed(after.actions, id) <= 1 implies clean(
        after.actions,
        id,
    ) by {
        lemma_times_concat(pass, backdrop, id);
        lemma_times_concat(frame.actions, made, id);
        lemma_times_concat(frame.actions + made, free_source, id);
        lemma_pass_frees(setup, frame.next, part, base_color, None, id);
        lemma_pass_clean(setup, frame.next, part, base_color, None, id);
        lemma_backdrop_clean(
            frame.next + ids,
            setup.shaders,
            setup.params,
            work.params_buf,
            plan.ops[k],
            images,
            id,
        );
        lemma_used_concat(pass, backdrop, id);
        assert(times_freed(frame.actions, id) > 0 <==> among(id, first, frame.next - first)
            && !kept(frame, work, id));
        lemma_clean_concat(pass, backdrop, id);
        lemma_clean_concat(frame.actions, made, id);
        assert(!used(free_source, id));
        assert(clean(free_source, id));
        lemma_clean_concat(frame.actions + made, free_source, id);
    }
}

/// A frame that is rendered as a whole is tidy behind each of its backdrops.
proof fn lemma_legacy_frame_tidy(plan: LegacyPlan, k: int)
    requires
        0 <= k <= plan.ops.len(),
        0 <= plan.first,
        plan.first + frame_resources(plan.ops.len()) <= u64::MAX,
    ensures
        tidy(plan.frame(k).actions),
    decreases k,
{
    assert(frame_resources(plan.ops.len()) == 31 * (plan.ops.len() + 3));
    if k == 0 {
        let setup = plan.setup;
        let frame = plan.start();
        let base_color = setup.params.base_color;
        let pass = setup.pass_actions(plan.first, plan.whole(), base_color, None);
        let upload = seq![
            Action::UploadUniform(plan.work().params_buf, words_bytes(setup.frame_words())),
        ];
        assert(frame.actions =~= pass + upload);
        lemma_pass_ids(setup, plan.whole(), base_color);
        assert forall|id: u64| #[trigger] times_freed(frame.actions, id) <= 1 implies clean(
            frame.actions,
            id,
        ) by {
            lemma_times_concat(pass, upload, id);
            lemma_pass_frees(setup, plan.first, plan.whole(), base_color, None, id);
            lemma_pass_clean(setup, plan.first, plan.whole(), base_color, None, id);
            assert(used(upload, id) ==> id == plan.work().params_buf.id);
            assert(clean(upload, id));
            lemma_clean_concat(pass, upload, id);
        }
    } else {
        lemma_legacy_settled(plan, k - 1);
        lemma_legacy_frame_tidy(plan, k - 1);
        if plan.ops[k - 1].is_visible(plan.setup.params) {
            lemma_blurred_tidy(plan, plan.frame(k - 1), k - 1);
        }
    }
}

/// In a frame that is rendered as a whole nothing is used after it was freed; but for
/// the draw monoid buffer of each pass, which is freed twice.
pub proof fn lemma_legacy_tidy(plan: LegacyPlan)
    requires
        0 <= plan.first,
        plan.first + frame_resources(plan.ops.len()) <= u64::MAX,
    ensures
        tidy(plan.actions()),
{
    assert(frame_resources(plan.ops.len()) == 31 * (plan.ops.len() + 3));
    lemma_legacy_settled(plan, plan.ops.len() as int);
    lemma_legacy_frame_tidy(plan, plan.ops.len() as int);
    lemma_finished_tidy(plan.setup, plan.last_frame(), plan.work(), plan.first);
}

} // verus!
