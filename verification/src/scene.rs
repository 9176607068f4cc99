//! Scenes: encodings together with the backdrops that blur what lies behind
//! them.

use vstd::prelude::*;

use crate::backdrop::{rect_is_ordered, BackdropBlurOp};
use crate::coarse::{FullShaders, RenderParams};
use crate::color::image_fits;
use crate::config::render_config_fits;
use crate::frame::{
    record_pass, render_scene_with_backdrop_legacy, render_segments, FrameSetup, PASS_RESOURCES,
};
use crate::masks::sample_masks;
use crate::recording::{ImageProxy, Recording, ResourceIds, ResourceProxy};
use crate::replay::ReplayScene;
use crate::resolve::resolve;

verus! {

use crate::color::pixels_fit;
use crate::config::config_fits;
use crate::encoded::encoded;
use crate::frame::{
    all_ordered, draw_indices, frame_resources, lemma_pass_ids, LegacyPlan, ReplayPlan, Setup,
};
use crate::masks::holds_masks;
use crate::recording::Action;
use crate::render::fine_shader;
use crate::resolve::{held_images, SceneImages};

/// A scene: its encoding and its backdrops.
pub struct Scene {
    pub encoding: vello_encoding::Encoding,
    pub backdrop_blur_ops: Vec<BackdropBlurOp>,
}

/// Where a backdrop goes among backdrops in order: behind all that do not stand
/// at later draw objects.
pub open spec fn place(ops: Seq<BackdropBlurOp>, draw_index: u32) -> int
    decreases ops.len(),
{
    if ops.len() == 0 || ops.last().draw_index <= draw_index {
        ops.len() as int
    } else {
        place(ops.drop_last(), draw_index)
    }
}

/// The backdrops at the first `n_draw_objects` draw objects, in the order of their
/// draw objects. Those at the same draw object stay in their order.
pub open spec fn in_order(ops: Seq<BackdropBlurOp>, n_draw_objects: u32) -> Seq<BackdropBlurOp>
    decreases ops.len(),
{
    if ops.len() == 0 {
        Seq::empty()
    } else {
        let before = in_order(ops.drop_last(), n_draw_objects);
        let op = ops.last();
        if op.draw_index < n_draw_objects {
            before.insert(place(before, op.draw_index), op)
        } else {
            before
        }
    }
}

/// A place lies within the backdrops, behind those that do not stand later and
/// before those that do.
pub proof fn lemma_place(ops: Seq<BackdropBlurOp>, draw_index: u32)
    requires
        sorted(ops),
    ensures
        0 <= place(ops, draw_index) <= ops.len(),
        forall|k: int|
            0 <= k < place(ops, draw_index) ==> (#[trigger] ops[k]).draw_index <= draw_index,
        forall|k: int|
            place(ops, draw_index) <= k < ops.len() ==> (#[trigger] ops[k]).draw_index > draw_index,
    decreases ops.len(),
{
    if ops.len() > 0 && ops.last().draw_index > draw_index {
        assert(sorted(ops.drop_last()));
        lemma_place(ops.drop_last(), draw_index);
        assert forall|k: int| 0 <= k < place(ops, draw_index) implies (#[trigger] ops[k]).draw_index
            <= draw_index by {
            assert(ops.drop_last()[k] == ops[k]);
        }
        assert forall|k: int| place(ops, draw_index) <= k < ops.len() implies (
        #[trigger] ops[k]).draw_index > draw_index by {
            if k < ops.len() - 1 {
                assert(ops.drop_last()[k] == ops[k]);
            }
        }
    }
}

/// Whether backdrops are in the order of their draw objects.
pub open spec fn sorted(ops: Seq<BackdropBlurOp>) -> bool {
    forall|i: int, j: int|
        0 <= i < j < ops.len() ==> (#[trigger] ops[i]).draw_index <= (
        #[trigger] ops[j]).draw_index
}

/// Backdrops in order are sorted, and all stand at the first draw objects.
pub proof fn lemma_in_order_sorted(ops: Seq<BackdropBlurOp>, n_draw_objects: u32)
    ensures
        sorted(in_order(ops, n_draw_objects)),
        in_order(ops, n_draw_objects).len() <= ops.len(),
        forall|k: int|
            0 <= k < in_order(ops, n_draw_objects).len() ==> (#[trigger] in_order(
                ops,
                n_draw_objects,
            )[k]).draw_index < n_draw_objects,
    decreases ops.len(),
{
    if ops.len() > 0 {
        lemma_in_order_sorted(ops.drop_last(), n_draw_objects);
        let before = in_order(ops.drop_last(), n_draw_objects);
        lemma_place(before, ops.last().draw_index);
    }
}

/// Sorting the backdrops keeps those at each draw object, and their order.
pub proof fn lemma_in_order_stable(
    ops: Seq<BackdropBlurOp>,
    n_draw_objects: u32,
    draw_index: u32,
)
    requires
        draw_index < n_draw_objects,
    ensures
        in_order(ops, n_draw_objects).filter(|op: BackdropBlurOp| op.draw_index == draw_index)
            == ops.filter(|op: BackdropBlurOp| op.draw_index == draw_index),
    decreases ops.len(),
{
    let at = |op: BackdropBlurOp| op.draw_index == draw_index;
    reveal(Seq::filter);
    if ops.len() > 0 {
        lemma_in_order_stable(ops.drop_last(), n_draw_objects, draw_index);
        let before = in_order(ops.drop_last(), n_draw_objects);
        let op = ops.last();
        if op.draw_index < n_draw_objects {
            lemma_in_order_sorted(ops.drop_last(), n_draw_objects);
            lemma_place(before, op.draw_index);
            let k = place(before, op.draw_index);
            let head = before.take(k);
            let tail = before.skip(k);
            assert(before =~= head + tail);
            assert(before.insert(k, op) =~= head.push(op) + tail);
            Seq::filter_distributes_over_add(head, tail, at);
            Seq::filter_distributes_over_add(head.push(op), tail, at);
            assert(head.push(op).drop_last() =~= head);
            assert(head.push(op).filter(at) == if at(op) {
                head.filter(at).push(op)
            } else {
                head.filter(at)
            });
            if at(op) {
                lemma_filter_none(tail, draw_index);
                assert(head.filter(at) + tail.filter(at) =~= head.filter(at));
                assert(head.filter(at).push(op) + tail.filter(at) =~= head.filter(at).push(op));
            }
        }
    } else {
        assert(in_order(ops, n_draw_objects) =~= ops);
    }
}

/// Backdrops that all stand later have none at a draw object.
proof fn lemma_filter_none(ops: Seq<BackdropBlurOp>, draw_index: u32)
    requires
        forall|k: int| 0 <= k < ops.len() ==> (#[trigger] ops[k]).draw_index > draw_index,
    ensures
        ops.filter(|op: BackdropBlurOp| op.draw_index == draw_index) == Seq::<
            BackdropBlurOp,
        >::empty(),
    decreases ops.len(),
{
    reveal(Seq::filter);
    if ops.len() > 0 {
        assert forall|k: int| 0 <= k < ops.drop_last().len() implies (
        #[trigger] ops.drop_last()[k]).draw_index > draw_index by {
            assert(ops[k] == ops.drop_last()[k]);
        }
        lemma_filter_none(ops.drop_last(), draw_index);
        assert(ops[ops.len() - 1].draw_index > draw_index);
    }
}

/// The backdrops at the first `n_draw_objects` draw objects, in the order of their
/// draw objects.
pub fn backdrops_in_order(ops: &[BackdropBlurOp], n_draw_objects: u32) -> (ordered: Vec<
    BackdropBlurOp,
>)
    ensures
        ordered@ == in_order(ops@, n_draw_objects),
{
    let mut ordered: Vec<BackdropBlurOp> = Vec::new();
    let mut i: usize = 0;
    while i < ops.len()
        invariant
            i <= ops@.len(),
            ordered@ == in_order(ops@.take(i as int), n_draw_objects),
            ordered@.len() <= i,
        decreases ops.len() - i,
    {
        let op: BackdropBlurOp = ops[i];
        proof {
            assert(ops@.take(i + 1).drop_last() =~= ops@.take(i as int));
            lemma_in_order_sorted(ops@.take(i as int), n_draw_objects);
        }
        if op.draw_index < n_draw_objects {
            let mut at: usize = ordered.len();
            assert(ordered@.take(at as int) =~= ordered@);
            while at > 0 && ordered[at - 1].draw_index > op.draw_index
                invariant
                    at <= ordered@.len(),
                    place(ordered@.take(at as int), op.draw_index) == place(
                        ordered@,
                        op.draw_index,
                    ),
                decreases at,
            {
                assert(ordered@.take(at as int).drop_last() =~= ordered@.take(at - 1));
                at -= 1;
            }
            ordered.insert(at, op);
        }
        i += 1;
    }
    assert(ops@.take(ops@.len() as int) =~= ops@);
    ordered
}

/// The actions and the image of a frame, where it can be rendered, for a scene
/// without backdrops.
pub open spec fn plain_frame(setup: Setup, first: int) -> Option<(Seq<Action>, ImageProxy)> {
    let whole = (setup.scene.layout, setup.scene.packed);
    let base_color = setup.params.base_color;
    if config_fits(setup.scene.layout, setup.params.width, setup.params.height) {
        Some(
            (
                setup.pass_actions(first, whole, base_color, None),
                setup.pass_image(first, whole, base_color),
            ),
        )
    } else {
        None
    }
}

/// The actions and the image of a frame, where it can be rendered, for a scene
/// with backdrops. The frame is rendered in segments where the scene allows it,
/// and as a whole otherwise.
#[verifier::opaque]
pub open spec fn backdrop_frame(setup: Setup, all_ops: Seq<BackdropBlurOp>, first: int) -> Option<
    (Seq<Action>, ImageProxy),
> {
    let ops = in_order(all_ops, setup.scene.layout.n_draw_objects);
    let replay = ReplayPlan { setup, ops, first };
    let legacy = LegacyPlan { setup, ops, first };
    let len = setup.scene.packed.len();
    if !setup.scene.layout.has_draw_tags(len) || !setup.scene.layout.has_draw_data(len)
        || !all_ordered(ops, setup.params) {
        None
    } else if replay.input().replayable() {
        if pixels_fit(setup.params.width, setup.params.height) && replay.renders() {
            Some((replay.actions(), replay.image()))
        } else {
            None
        }
    } else if legacy.renders() {
        Some((legacy.actions(), legacy.image()))
    } else {
        None
    }
}

/// The identity of the next resource, behind a frame of a scene without backdrops.
pub open spec fn plain_next(setup: Setup, first: int) -> int {
    first + setup.pass_ids((setup.scene.layout, setup.scene.packed), setup.params.base_color)
}

/// The identity of the next resource, behind a frame of a scene with backdrops.
#[verifier::opaque]
pub open spec fn backdrop_next(setup: Setup, all_ops: Seq<BackdropBlurOp>, first: int) -> int {
    let ops = in_order(all_ops, setup.scene.layout.n_draw_objects);
    let replay = ReplayPlan { setup, ops, first };
    let legacy = LegacyPlan { setup, ops, first };
    if replay.input().replayable() {
        replay.last_frame().next + 1
    } else {
        legacy.last_frame().next + 1
    }
}

/// A recording with its image, as actions.
pub open spec fn frame_of(result: Option<(Recording, ResourceProxy)>) -> Option<
    (Seq<Action>, ResourceProxy),
> {
    match result {
        Some((recording, image)) => Some((recording@, image)),
        None => None,
    }
}

/// A frame whose image is a resource.
pub open spec fn with_resource(frame: Option<(Seq<Action>, ImageProxy)>) -> Option<
    (Seq<Action>, ResourceProxy),
> {
    match frame {
        Some((actions, image)) => Some((actions, ResourceProxy::Image(image))),
        None => None,
    }
}

/// Records a frame of a resolved scene without backdrops, where it can be
/// rendered.
pub fn render_resolved_full(setup: &FrameSetup, ids: &mut ResourceIds) -> (result: Option<
    (Recording, ResourceProxy),
>)
    requires
        setup@.has_fine_shader(),
        old(ids).has_room(PASS_RESOURCES as int),
    ensures
        plain_outcome(
            setup@,
            old(ids).next_id() as int,
            frame_of(result),
            final(ids).next_id() as int,
        ),
        result is None ==> final(ids).next_id() == old(ids).next_id(),
{
    if !render_config_fits(setup.scene.layout, setup.params.width, setup.params.height) {
        return None;
    }
    let mut packed: Vec<u8> = Vec::new();
    packed.extend_from_slice(setup.scene.packed.as_slice());
    assert(packed@ =~= setup.scene.packed@);
    let ghost first = ids.next_id() as int;
    let mut recording = Recording::default();
    let image = record_pass(
        &mut recording,
        ids,
        setup,
        packed,
        setup.scene.layout,
        setup.params.base_color,
        None,
    );
    assert(recording@ =~= setup@.pass_actions(
        first,
        (setup.scene.layout, setup.scene.packed@),
        setup.params.base_color,
        None,
    ));
    Some((recording, ResourceProxy::Image(image)))
}

/// Whether all backdrops have bounds in order.
fn backdrops_are_ordered(ops: &[BackdropBlurOp], params: &RenderParams) -> (ordered: bool)
    ensures
        ordered == all_ordered(ops@, *params),
{
    let mut k: usize = 0;
    while k < ops.len()
        invariant
            k <= ops@.len(),
            forall|j: int| 0 <= j < k ==> (#[trigger] ops@[j]).is_ordered(*params),
        decreases ops.len() - k,
    {
        let op = &ops[k];
        if !rect_is_ordered(op.blur_bounds, params.width, params.height) || !rect_is_ordered(
            op.apply_bounds,
            params.width,
            params.height,
        ) {
            assert(!ops@[k as int].is_ordered(*params));
            return false;
        }
        k += 1;
    }
    true
}

/// The draw indices of backdrops.
fn backdrop_draws(ops: &[BackdropBlurOp]) -> (draws: Vec<u32>)
    ensures
        draws@ == draw_indices(ops@),
{
    let mut draws: Vec<u32> = Vec::new();
    let mut k: usize = 0;
    while k < ops.len()
        invariant
            k <= ops@.len(),
            draws@ == draw_indices(ops@.take(k as int)),
        decreases ops.len() - k,
    {
        draws.push(ops[k].draw_index);
        k += 1;
        assert(draws@ =~= draw_indices(ops@.take(k as int)));
    }
    assert(ops@.take(ops@.len() as int) =~= ops@);
    draws
}

/// Records a frame of a resolved scene with backdrops, where it can be rendered.
pub fn render_resolved_with_backdrop(
    setup: &FrameSetup,
    ids: &mut ResourceIds,
    backdrop_blur_ops: &[BackdropBlurOp],
) -> (result: Option<(Recording, ResourceProxy)>)
    requires
        setup@.has_fine_shader(),
        old(ids).has_room(frame_resources(backdrop_blur_ops@.len())),
    ensures
        backdrop_outcome(
            setup@,
            backdrop_blur_ops@,
            old(ids).next_id() as int,
            frame_of(result),
            final(ids).next_id() as int,
        ),
        old(ids).next_id() <= final(ids).next_id(),
{
    reveal(backdrop_frame);
    reveal(backdrop_next);
    let scene = setup.scene;
    let ops = backdrops_in_order(backdrop_blur_ops, scene.layout.n_draw_objects);
    proof {
        lemma_in_order_sorted(backdrop_blur_ops@, scene.layout.n_draw_objects);
        assert(31 * (ops@.len() + 3) <= 31 * (backdrop_blur_ops@.len() + 3));
    }
    let words: usize = scene.packed.len() / 4;
    let layout = scene.layout;
    if layout.draw_tag_base > layout.draw_data_base || layout.draw_data_base as usize > words
        || layout.draw_data_base > layout.transform_base || layout.transform_base as usize > words
        || !backdrops_are_ordered(ops.as_slice(), setup.params) {
        return None;
    }
    let ghost first = ids.next_id() as int;
    let ghost plan = ReplayPlan { setup: setup@, ops: ops@, first };
    let draw_tags = scene.layout.draw_tags(scene.packed.as_slice());
    let draw_data = scene.layout.draw_data(scene.packed.as_slice());
    let draws = backdrop_draws(ops.as_slice());
    let frame = match ReplayScene::new(
        draw_tags,
        draw_data,
        scene.layout.n_draw_objects,
        draws,
    ) {
        Some(replay) => {
            assert(replay@ == plan.input());
            if replay.replayable() {
                if !image_fits(setup.params.width, setup.params.height) {
                    return None;
                }
                render_segments(setup, ids, &replay, ops.as_slice())
            } else {
                render_scene_with_backdrop_legacy(setup, ids, ops.as_slice())
            }
        },
        None => render_scene_with_backdrop_legacy(setup, ids, ops.as_slice()),
    };
    match frame {
        Some((recording, image)) => Some((recording, ResourceProxy::Image(image))),
        None => None,
    }
}

/// Whether a frame is rendered from what an encoding resolves to, where the caches of
/// the resolver then hold `held`, with these shaders and parameters, and with the
/// table of sample masks.
pub open spec fn set_up(
    setup: Setup,
    encoding: vello_encoding::Encoding,
    held: SceneImages,
    shaders: FullShaders,
    params: RenderParams,
) -> bool {
    &&& setup.shaders == shaders
    &&& setup.params == params
    &&& holds_masks(setup.mask_lut, params.antialiasing_method)
    &&& encoded(encoding).resolves_to(setup.scene, held)
}

/// What rendering a scene without backdrops leads to: a frame and the identity of the
/// next resource.
pub open spec fn plain_outcome(
    setup: Setup,
    first: int,
    frame: Option<(Seq<Action>, ResourceProxy)>,
    next: int,
) -> bool {
    &&& frame == with_resource(plain_frame(setup, first))
    &&& frame is Some ==> next == plain_next(setup, first)
}

/// What rendering a scene with backdrops leads to.
pub open spec fn backdrop_outcome(
    setup: Setup,
    all_ops: Seq<BackdropBlurOp>,
    first: int,
    frame: Option<(Seq<Action>, ResourceProxy)>,
    next: int,
) -> bool {
    &&& frame == with_resource(backdrop_frame(setup, all_ops, first))
    &&& frame is Some ==> next == backdrop_next(setup, all_ops, first)
}

/// What rendering a scene leads to.
pub open spec fn full_outcome(
    setup: Setup,
    all_ops: Seq<BackdropBlurOp>,
    first: int,
    frame: Option<(Seq<Action>, ResourceProxy)>,
    next: int,
) -> bool {
    if all_ops.len() == 0 {
        plain_outcome(setup, first, frame, next)
    } else {
        backdrop_outcome(setup, all_ops, first, frame, next)
    }
}

/// Resolves a scene with backdrops and records a frame of it, where it is well built
/// and can be rendered.
pub fn render_scene_with_backdrop(
    scene: &Scene,
    resolver: &mut vello_encoding::Resolver,
    ids: &mut ResourceIds,
    shaders: &FullShaders,
    params: &RenderParams,
) -> (result: Option<(Recording, ResourceProxy)>)
    requires
        fine_shader(*shaders, params.antialiasing_method) is Some,
        old(ids).has_room(frame_resources(scene.backdrop_blur_ops@.len())),
    ensures
        if encoded(scene.encoding).well_built() {
            exists|setup: Setup|
                set_up(
                    setup,
                    scene.encoding,
                    held_images(*final(resolver)),
                    *shaders,
                    *params,
                ) && #[trigger] backdrop_outcome(
                    setup,
                    scene.backdrop_blur_ops@,
                    old(ids).next_id() as int,
                    frame_of(result),
                    final(ids).next_id() as int,
                )
        } else {
            result is None && final(ids).next_id() == old(ids).next_id()
        },
        !encoded(scene.encoding).well_built() || encoded(scene.encoding).patches.len() == 0
            ==> *final(resolver) == *old(resolver),
        old(ids).next_id() <= final(ids).next_id(),
{
    let resolved = match resolve(&scene.encoding, resolver) {
        Some(resolved) => resolved,
        None => {
            return None;
        },
    };
    let mask_lut = sample_masks(params.antialiasing_method);
    let setup = FrameSetup { scene: &resolved, shaders, params, mask_lut: mask_lut.as_slice() };
    let ghost first = ids.next_id() as int;
    let ghost held = held_images(*resolver);
    let result = render_resolved_with_backdrop(
        &setup,
        ids,
        scene.backdrop_blur_ops.as_slice(),
    );
    proof {
        assert(set_up(setup@, scene.encoding, held, *shaders, *params));
        assert(backdrop_outcome(
            setup@,
            scene.backdrop_blur_ops@,
            first,
            frame_of(result),
            ids.next_id() as int,
        ));
    }
    result
}

/// Resolves an encoding and records a frame of it, with both coarse and fine
/// rasterization, where it is well built and can be rendered.
///
/// This is not recommended where the scene can be complex: nobody looks whether
/// the memory of the GPU sufficed.
pub fn render_encoding_full(
    encoding: &vello_encoding::Encoding,
    resolver: &mut vello_encoding::Resolver,
    ids: &mut ResourceIds,
    shaders: &FullShaders,
    params: &RenderParams,
) -> (result: Option<(Recording, ResourceProxy)>)
    requires
        fine_shader(*shaders, params.antialiasing_method) is Some,
        old(ids).has_room(PASS_RESOURCES as int),
    ensures
        if encoded(*encoding).well_built() {
            exists|setup: Setup|
                set_up(
                    setup,
                    *encoding,
                    held_images(*final(resolver)),
                    *shaders,
                    *params,
                ) && #[trigger] plain_outcome(
                    setup,
                    old(ids).next_id() as int,
                    frame_of(result),
                    final(ids).next_id() as int,
                )
        } else {
            result is None && final(ids).next_id() == old(ids).next_id()
        },
        !encoded(*encoding).well_built() || encoded(*encoding).patches.len() == 0
            ==> *final(resolver) == *old(resolver),
        old(ids).next_id() <= final(ids).next_id(),
{
    let resolved = match resolve(encoding, resolver) {
        Some(resolved) => resolved,
        None => {
            return None;
        },
    };
    let mask_lut = sample_masks(params.antialiasing_method);
    let setup = FrameSetup { scene: &resolved, shaders, params, mask_lut: mask_lut.as_slice() };
    let ghost first = ids.next_id() as int;
    let ghost held = held_images(*resolver);
    let result = render_resolved_full(&setup, ids);
    proof {
        lemma_pass_ids(setup@, (resolved.layout, resolved.packed@), params.base_color);
        assert(set_up(setup@, *encoding, held, *shaders, *params));
        assert(plain_outcome(setup@, first, frame_of(result), ids.next_id() as int));
    }
    result
}

/// Resolves a scene and records a frame of it, where it is well built and can be
/// rendered.
pub fn render_full(
    scene: &Scene,
    resolver: &mut vello_encoding::Resolver,
    ids: &mut ResourceIds,
    shaders: &FullShaders,
    params: &RenderParams,
) -> (result: Option<(Recording, ResourceProxy)>)
    requires
        fine_shader(*shaders, params.antialiasing_method) is Some,
        old(ids).has_room(frame_resources(scene.backdrop_blur_ops@.len())),
    ensures
        if encoded(scene.encoding).well_built() {
            exists|setup: Setup|
                set_up(
                    setup,
                    scene.encoding,
                    held_images(*final(resolver)),
                    *shaders,
                    *params,
                ) && #[trigger] full_outcome(
                    setup,
                    scene.backdrop_blur_ops@,
                    old(ids).next_id() as int,
                    frame_of(result),
                    final(ids).next_id() as int,
                )
        } else {
            result is None && final(ids).next_id() == old(ids).next_id()
        },
        !encoded(scene.encoding).well_built() || encoded(scene.encoding).patches.len() == 0
            ==> *final(resolver) == *old(resolver),
        old(ids).next_id() <= final(ids).next_id(),
{
    let ghost first = ids.next_id() as int;
    let ghost ops = scene.backdrop_blur_ops@;
    assert(frame_resources(ops.len()) == 31 * (ops.len() + 3));
    let result = if scene.backdrop_blur_ops.len() > 0 {
        render_scene_with_backdrop(scene, resolver, ids, shaders, params)
    } else {
        render_encoding_full(&scene.encoding, resolver, ids, shaders, params)
    };
    proof {
        let next = ids.next_id() as int;
        if encoded(scene.encoding).well_built() {
            let held = held_images(*resolver);
            let setup = if ops.len() > 0 {
                choose|setup: Setup|
                    set_up(setup, scene.encoding, held, *shaders, *params)
                        && #[trigger] backdrop_outcome(setup, ops, first, frame_of(result), next)
            } else {
                choose|setup: Setup|
                    set_up(setup, scene.encoding, held, *shaders, *params)
                        && #[trigger] plain_outcome(setup, first, frame_of(result), next)
            };
            assert(set_up(setup, scene.encoding, held, *shaders, *params));
            assert(full_outcome(setup, ops, first, frame_of(result), next));
        }
    }
    result
}

} // verus!
