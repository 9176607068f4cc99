//! What the resources of a recording hold: how each of them came about from what was
//! uploaded, and by which shaders.

use vstd::prelude::*;

use crate::backdrop::{BackdropBlurOp, BackdropImages};
use crate::coarse::{FullShaders, RenderParams};
use crate::recording::{BufferProxy, ImageProxy, ResourceProxy, ShaderId, WorkgroupSize};

verus! {

use crate::backdrop::{img, tinted_backdrop_actions};
use crate::coarse::{buf, nth_buffer};
use crate::layout::{lemma_words_round_trip, word_at, words_bytes};
use crate::recording::{Action, Pixels};

/// How a shader uses a resource that it is bound to.
pub enum Access {
    /// It reads the resource.
    Reads,
    /// It writes the resource, whatever was in it.
    Writes,
    /// It changes the resource.
    Updates,
}

/// How many workgroups a shader runs in.
pub enum Launch {
    Groups(WorkgroupSize),
    /// As many as stand in a buffer with these contents, from a place in it.
    Indirect(Box<Contents>, u64),
}

/// What a resource holds.
#[verifier::ext_equal]
pub enum Contents {
    /// Nothing was put into it.
    Nothing,
    /// What was uploaded.
    Bytes(Seq<u8>),
    /// What it held before, with zeros from a place on.
    Cleared(Box<Contents>, u64, Option<u64>),
    /// What it held before, with pixels at a place in it.
    Drawn(Box<Contents>, u32, u32, Pixels),
    /// What a shader left at one of its bindings, given what it found at all of them.
    Made(ShaderId, Launch, int, Seq<Contents>),
}

/// How shaders use their bindings.
pub type Interface = spec_fn(ShaderId, int) -> Access;

/// The binding, from `slot` on, at which a shader writes a resource.
pub open spec fn written_slot(
    access: Interface,
    shader: ShaderId,
    bindings: Seq<ResourceProxy>,
    id: u64,
    slot: int,
) -> Option<int>
    decreases bindings.len() - slot,
{
    if slot >= bindings.len() {
        None
    } else if bindings[slot].resource_id() == id && !(access(shader, slot) is Reads) {
        Some(slot)
    } else {
        written_slot(access, shader, bindings, id, slot + 1)
    }
}

/// What a resource holds behind a run of actions.
pub open spec fn contents(access: Interface, actions: Seq<Action>, id: u64) -> Contents
    decreases actions.len(),
{
    if actions.len() == 0 {
        Contents::Nothing
    } else {
        let before = contents(access, actions.drop_last(), id);
        match actions.last() {
            Action::Upload(buffer, bytes) => if buffer.id == id {
                Contents::Bytes(bytes)
            } else {
                before
            },
            Action::UploadUniform(buffer, bytes) => if buffer.id == id {
                Contents::Bytes(bytes)
            } else {
                before
            },
            Action::UploadImage(image, bytes) => if image.id == id {
                Contents::Bytes(bytes)
            } else {
                before
            },
            Action::WriteImage(image, x, y, pixels) => if image.id == id {
                Contents::Drawn(Box::new(before), x, y, pixels)
            } else {
                before
            },
            Action::Clear(buffer, offset, size) => if buffer.id == id {
                Contents::Cleared(Box::new(before), offset, size)
            } else {
                before
            },
            Action::Dispatch(shader, groups, bindings) => match written_slot(
                access,
                shader,
                bindings,
                id,
                0,
            ) {
                Some(slot) => Contents::Made(
                    shader,
                    Launch::Groups(groups),
                    slot,
                    Seq::new(
                        bindings.len(),
                        |k: int|
                            if access(shader, k) is Writes {
                                Contents::Nothing
                            } else {
                                contents(access, actions.drop_last(), bindings[k].resource_id())
                            },
                    ),
                ),
                None => before,
            },
            Action::DispatchIndirect(shader, buffer, offset, bindings) => match written_slot(
                access,
                shader,
                bindings,
                id,
                0,
            ) {
                Some(slot) => Contents::Made(
                    shader,
                    Launch::Indirect(
                        Box::new(contents(access, actions.drop_last(), buffer.id)),
                        offset,
                    ),
                    slot,
                    Seq::new(
                        bindings.len(),
                        |k: int|
                            if access(shader, k) is Writes {
                                Contents::Nothing
                            } else {
                                contents(access, actions.drop_last(), bindings[k].resource_id())
                            },
                    ),
                ),
                None => before,
            },
            _ => before,
        }
    }
}

/// What a shader finds at its bindings behind a run of actions.
pub open spec fn found(
    access: Interface,
    actions: Seq<Action>,
    shader: ShaderId,
    bindings: Seq<ResourceProxy>,
) -> Seq<Contents> {
    Seq::new(
        bindings.len(),
        |k: int|
            if access(shader, k) is Writes {
                Contents::Nothing
            } else {
                contents(access, actions, bindings[k].resource_id())
            },
    )
}

/// What a shader leaves at one of its bindings.
pub open spec fn made(
    shader: ShaderId,
    groups: WorkgroupSize,
    slot: int,
    inputs: Seq<Contents>,
) -> Contents {
    Contents::Made(shader, Launch::Groups(groups), slot, inputs)
}

/// Whether a shader uses its first bindings in these ways.
pub open spec fn uses_as(access: Interface, shader: ShaderId, ways: Seq<Access>) -> bool {
    forall|slot: int| 0 <= slot < ways.len() ==> #[trigger] access(shader, slot) == ways[slot]
}

/// Whether the shader for fine rasterization uses its bindings as one does: it changes
/// the blend spill and the image, and reads the rest.
pub open spec fn uses_as_fine(access: Interface, shader: Option<ShaderId>) -> bool {
    shader is Some ==> uses_as(
        access,
        shader->0,
        seq![
            Access::Reads,
            Access::Reads,
            Access::Reads,
            Access::Reads,
            Access::Updates,
            Access::Updates,
            Access::Reads,
            Access::Reads,
            Access::Reads,
        ],
    )
}

/// Whether the shaders use their bindings as their stages do.
pub open spec fn follows(access: Interface, shaders: FullShaders) -> bool {
    let r = Access::Reads;
    let w = Access::Writes;
    let u = Access::Updates;
    &&& uses_as(access, shaders.pathtag_reduce, seq![r, r, u])
    &&& uses_as(access, shaders.pathtag_reduce2, seq![r, u])
    &&& uses_as(access, shaders.pathtag_scan1, seq![r, r, u])
    &&& uses_as(access, shaders.pathtag_scan, seq![r, r, r, u])
    &&& uses_as(access, shaders.pathtag_scan_large, seq![r, r, r, u])
    &&& uses_as(access, shaders.bbox_clear, seq![r, u])
    &&& uses_as(access, shaders.flatten, seq![r, r, r, u, u, u])
    &&& uses_as(access, shaders.draw_reduce, seq![r, r, u])
    &&& uses_as(access, shaders.draw_leaf, seq![r, r, r, r, u, u, u])
    &&& uses_as(access, shaders.clip_reduce, seq![r, r, u, u])
    &&& uses_as(access, shaders.clip_leaf, seq![r, r, r, r, r, u, u])
    &&& uses_as(access, shaders.binning, seq![r, r, r, r, u, u, u, u])
    &&& uses_as(access, shaders.tile_alloc, seq![r, r, r, u, u, u])
    &&& uses_as(access, shaders.path_count_setup, seq![r, u])
    &&& uses_as(access, shaders.path_count, seq![r, u, r, r, u, u])
    &&& uses_as(access, shaders.backdrop, seq![r, r, r, u])
    &&& uses_as(access, shaders.coarse, seq![r, r, r, r, r, r, u, u, u])
    &&& uses_as(access, shaders.path_tiling_setup, seq![r, u, u])
    &&& uses_as(access, shaders.path_tiling, seq![r, r, r, r, r, u])
    &&& uses_as_fine(access, shaders.fine_area)
    &&& uses_as_fine(access, shaders.fine_msaa8)
    &&& uses_as_fine(access, shaders.fine_msaa16)
    &&& uses_as(access, shaders.backdrop_src_over, seq![r, r, r, w])
    &&& uses_as(access, shaders.backdrop_copy, seq![r, r, w])
    &&& uses_as(access, shaders.backdrop_blur_h, seq![r, r, w])
    &&& uses_as(access, shaders.backdrop_blur_v, seq![r, r, w])
    &&& uses_as(access, shaders.backdrop_apply, seq![r, r, r, u])
}

/// A shader changes what it writes, and nothing else.
pub(crate) proof fn lemma_dispatch(
    access: Interface,
    before: Seq<Action>,
    shader: ShaderId,
    groups: WorkgroupSize,
    bindings: Seq<ResourceProxy>,
)
    ensures
        ({
            let after = before.push(Action::Dispatch(shader, groups, bindings));
            forall|id: u64| #[trigger]
                contents(access, after, id) == match written_slot(access, shader, bindings, id, 0) {
                    Some(slot) => made(
                        shader,
                        groups,
                        slot,
                        found(access, before, shader, bindings),
                    ),
                    None => contents(access, before, id),
                }
        }),
{
    let after = before.push(Action::Dispatch(shader, groups, bindings));
    assert(after.drop_last() =~= before);
    assert forall|id: u64| #[trigger]
        contents(access, after, id) == match written_slot(access, shader, bindings, id, 0) {
            Some(slot) => made(shader, groups, slot, found(access, before, shader, bindings)),
            None => contents(access, before, id),
        } by {
        if let Contents::Made(_, _, _, inputs) = contents(access, after, id) {
            if written_slot(access, shader, bindings, id, 0) is Some {
                assert(inputs =~= found(access, before, shader, bindings));
            }
        }
    }
}

/// A shader changes what it writes, and nothing else.
pub(crate) proof fn lemma_dispatch_indirect(
    access: Interface,
    before: Seq<Action>,
    shader: ShaderId,
    buffer: BufferProxy,
    offset: u64,
    bindings: Seq<ResourceProxy>,
)
    ensures
        ({
            let after = before.push(Action::DispatchIndirect(shader, buffer, offset, bindings));
            forall|id: u64| #[trigger]
                contents(access, after, id) == match written_slot(access, shader, bindings, id, 0) {
                    Some(slot) => Contents::Made(
                        shader,
                        Launch::Indirect(Box::new(contents(access, before, buffer.id)), offset),
                        slot,
                        found(access, before, shader, bindings),
                    ),
                    None => contents(access, before, id),
                }
        }),
{
    let after = before.push(Action::DispatchIndirect(shader, buffer, offset, bindings));
    assert(after.drop_last() =~= before);
    assert forall|id: u64| #[trigger]
        contents(access, after, id) == match written_slot(access, shader, bindings, id, 0) {
            Some(slot) => Contents::Made(
                shader,
                Launch::Indirect(Box::new(contents(access, before, buffer.id)), offset),
                slot,
                found(access, before, shader, bindings),
            ),
            None => contents(access, before, id),
        } by {
        if let Contents::Made(_, _, _, inputs) = contents(access, after, id) {
            if written_slot(access, shader, bindings, id, 0) is Some {
                assert(inputs =~= found(access, before, shader, bindings));
            }
        }
    }
}

/// An upload changes the resource that is uploaded to.
pub(crate) proof fn lemma_upload(
    access: Interface,
    before: Seq<Action>,
    buffer: BufferProxy,
    bytes: Seq<u8>,
)
    ensures
        forall|id: u64| #[trigger]
            contents(access, before.push(Action::UploadUniform(buffer, bytes)), id) == if id
                == buffer.id {
                Contents::Bytes(bytes)
            } else {
                contents(access, before, id)
            },
        forall|id: u64| #[trigger]
            contents(access, before.push(Action::Upload(buffer, bytes)), id) == if id
                == buffer.id {
                Contents::Bytes(bytes)
            } else {
                contents(access, before, id)
            },
{
    assert(before.push(Action::UploadUniform(buffer, bytes)).drop_last() =~= before);
    assert(before.push(Action::Upload(buffer, bytes)).drop_last() =~= before);
}

/// Setting a buffer to zero changes that buffer.
pub(crate) proof fn lemma_clear(
    access: Interface,
    before: Seq<Action>,
    buffer: BufferProxy,
    offset: u64,
    size: Option<u64>,
)
    ensures
        forall|id: u64| #[trigger]
            contents(access, before.push(Action::Clear(buffer, offset, size)), id) == if id
                == buffer.id {
                Contents::Cleared(Box::new(contents(access, before, id)), offset, size)
            } else {
                contents(access, before, id)
            },
{
    assert(before.push(Action::Clear(buffer, offset, size)).drop_last() =~= before);
}

/// Writing pixels changes the image that they are written into.
pub(crate) proof fn lemma_draw(
    access: Interface,
    before: Seq<Action>,
    image: ImageProxy,
    x: u32,
    y: u32,
    pixels: Pixels,
)
    ensures
        forall|id: u64| #[trigger]
            contents(access, before.push(Action::WriteImage(image, x, y, pixels)), id) == if id
                == image.id {
                Contents::Drawn(Box::new(contents(access, before, id)), x, y, pixels)
            } else {
                contents(access, before, id)
            },
{
    assert(before.push(Action::WriteImage(image, x, y, pixels)).drop_last() =~= before);
}

/// An upload changes the image that is uploaded to.
pub(crate) proof fn lemma_upload_image(
    access: Interface,
    before: Seq<Action>,
    image: ImageProxy,
    bytes: Seq<u8>,
)
    ensures
        forall|id: u64| #[trigger]
            contents(access, before.push(Action::UploadImage(image, bytes)), id) == if id
                == image.id {
                Contents::Bytes(bytes)
            } else {
                contents(access, before, id)
            },
{
    assert(before.push(Action::UploadImage(image, bytes)).drop_last() =~= before);
}

/// Actions that free and download resources change nothing in them.
pub(crate) proof fn lemma_quiet(access: Interface, before: Seq<Action>, quiet: Seq<Action>, id: u64)
    requires
        forall|k: int|
            0 <= k < quiet.len() ==> (#[trigger] quiet[k] is FreeBuffer || quiet[k] is FreeImage
                || quiet[k] is Download),
    ensures
        contents(access, before + quiet, id) == contents(access, before, id),
    decreases quiet.len(),
{
    if quiet.len() == 0 {
        assert(before + quiet =~= before);
    } else {
        assert((before + quiet).drop_last() =~= before + quiet.drop_last());
        assert(quiet[quiet.len() - 1] == (before + quiet).last());
        assert forall|k: int| 0 <= k < quiet.drop_last().len() implies (
        #[trigger] quiet.drop_last()[k] is FreeBuffer || quiet.drop_last()[k] is FreeImage
            || quiet.drop_last()[k] is Download) by {
            assert(quiet[k] == quiet.drop_last()[k]);
        }
        lemma_quiet(access, before, quiet.drop_last(), id);
    }
}

// ---------------------------------------------------------------------------
// Backdrops
// ---------------------------------------------------------------------------

/// Workgroups of eight by eight for an area.
pub open spec fn eights(width: u32, height: u32) -> WorkgroupSize {
    (((width + 7) / 8) as u32, ((height + 7) / 8) as u32, 1u32)
}

/// A scene that was copied.
pub open spec fn copied(
    shaders: FullShaders,
    width: u32,
    height: u32,
    size: Contents,
    scene: Contents,
) -> Contents {
    made(
        shaders.backdrop_copy,
        eights(width, height),
        2,
        seq![size, scene, Contents::Nothing],
    )
}

/// A source that was blurred along its rows, and what came out of it along its columns,
/// by what a uniform says.
pub open spec fn blurred_twice(
    shaders: FullShaders,
    groups: WorkgroupSize,
    uniform: Contents,
    source: Contents,
) -> Contents {
    let rows = made(
        shaders.backdrop_blur_h,
        groups,
        2,
        seq![uniform, source, Contents::Nothing],
    );
    made(shaders.backdrop_blur_v, groups, 2, seq![uniform, rows, Contents::Nothing])
}

/// The scene with a backdrop in it: the scene was copied, and into the copy, in the
/// place of the scene, was put the source, blurred along both directions.
pub open spec fn backdropped(
    shaders: FullShaders,
    params: RenderParams,
    size: Contents,
    op: BackdropBlurOp,
    tint_rgba: u32,
    source: Contents,
    scene: Contents,
) -> Contents {
    let blur_roi = op.blur_bounds.roi(params.width, params.height)->0;
    let apply_roi = op.apply_bounds.roi(params.width, params.height)->0;
    made(
        shaders.backdrop_apply,
        eights(apply_roi[2], apply_roi[3]),
        3,
        seq![
            Contents::Bytes(words_bytes(op.apply_words(params, tint_rgba))),
            scene,
            blurred_twice(
                shaders,
                eights(blur_roi[2], blur_roi[3]),
                Contents::Bytes(words_bytes(op.blur_words(params))),
                source,
            ),
            copied(shaders, params.width, params.height, size, scene),
        ],
    )
}

/// Whether the images that a backdrop writes differ from each other and from what it
/// reads.
pub open spec fn steps_apart(copy_params_buf: BufferProxy, images: BackdropImages) -> bool {
    let reads = seq![copy_params_buf.id, images.source.id, images.scene_image.id];
    &&& images.blur_tmp.id != images.blur_image.id
    &&& images.blur_tmp.id != images.scene_tmp.id
    &&& images.blur_image.id != images.scene_tmp.id
    &&& !reads.contains(images.blur_tmp.id)
    &&& !reads.contains(images.blur_image.id)
    &&& !reads.contains(images.scene_tmp.id)
}

/// Behind the actions of a backdrop, the image for the next step holds the scene with
/// the source in it, blurred in both directions: the shader that puts it there finds what
/// the blur along columns wrote last, that one what the blur along rows wrote last, and
/// that one the source. Other resources than those of the backdrop hold what they held.
pub proof fn lemma_backdrop_contents(
    access: Interface,
    before: Seq<Action>,
    first: int,
    shaders: FullShaders,
    params: RenderParams,
    copy_params_buf: BufferProxy,
    op: BackdropBlurOp,
    tint_rgba: u32,
    images: BackdropImages,
)
    requires
        follows(access, shaders),
        0 <= first,
        first + 1 <= u64::MAX,
        steps_apart(copy_params_buf, images),
        images.source.id < first,
        images.scene_image.id < first,
        copy_params_buf.id < first,
        images.blur_tmp.id < first,
        images.blur_image.id < first,
        images.scene_tmp.id < first,
    ensures
        ({
            let after = before + tinted_backdrop_actions(
                first,
                shaders,
                params,
                copy_params_buf,
                op,
                tint_rgba,
                images,
            );
            &&& contents(access, after, images.scene_tmp.id) == backdropped(
                shaders,
                params,
                contents(access, before, copy_params_buf.id),
                op,
                tint_rgba,
                contents(access, before, images.source.id),
                contents(access, before, images.scene_image.id),
            )
            &&& forall|id: u64|
                id != images.scene_tmp.id && id != images.blur_tmp.id && id
                    != images.blur_image.id && id != first && id != first + 1 ==> #[trigger] contents(
                    access,
                    after,
                    id,
                ) == contents(access, before, id)
        }),
{
    reveal(tinted_backdrop_actions);
    reveal_with_fuel(written_slot, 6);
    let reads = seq![copy_params_buf.id, images.source.id, images.scene_image.id];
    assert(reads[0] == copy_params_buf.id && reads[1] == images.source.id && reads[2]
        == images.scene_image.id);
    let blur_roi = op.blur_bounds.roi(params.width, params.height)->0;
    let apply_roi = op.apply_bounds.roi(params.width, params.height)->0;
    let blur_buf = nth_buffer(first, 0, 48, "vello.backdrop_blur_params");
    let apply_buf = nth_buffer(first, 1, 96, "vello.backdrop_apply_params");
    let blur_bytes = words_bytes(op.blur_words(params));
    let apply_bytes = words_bytes(op.apply_words(params, tint_rgba));
    let all = tinted_backdrop_actions(
        first,
        shaders,
        params,
        copy_params_buf,
        op,
        tint_rgba,
        images,
    );
    let size = contents(access, before, copy_params_buf.id);
    let source = contents(access, before, images.source.id);
    let scene = contents(access, before, images.scene_image.id);
    let nothing = Contents::Nothing;

    let a0 = before.push(all[0]);
    lemma_upload(access, before, blur_buf, blur_bytes);

    let rows = seq![buf(blur_buf), img(images.source), img(images.blur_tmp)];
    let a1 = a0.push(all[1]);
    lemma_dispatch(access, a0, shaders.backdrop_blur_h, eights(blur_roi[2], blur_roi[3]), rows);
    assert(found(access, a0, shaders.backdrop_blur_h, rows) =~= seq![
        Contents::Bytes(blur_bytes),
        source,
        nothing,
    ]);

    let columns = seq![buf(blur_buf), img(images.blur_tmp), img(images.blur_image)];
    let a2 = a1.push(all[2]);
    lemma_dispatch(access, a1, shaders.backdrop_blur_v, eights(blur_roi[2], blur_roi[3]), columns);
    assert(found(access, a1, shaders.backdrop_blur_v, columns) =~= seq![
        Contents::Bytes(blur_bytes),
        contents(access, a1, images.blur_tmp.id),
        nothing,
    ]);

    let a3 = a2.push(all[3]);
    assert(a3 =~= a2 + seq![all[3]]);
    assert forall|id: u64| #[trigger] contents(access, a3, id) == contents(access, a2, id) by {
        lemma_quiet(access, a2, seq![all[3]], id);
    }

    let a4 = a3.push(all[4]);
    lemma_upload(access, a3, apply_buf, apply_bytes);

    let copy = seq![buf(copy_params_buf), img(images.scene_image), img(images.scene_tmp)];
    let a5 = a4.push(all[5]);
    lemma_dispatch(
        access,
        a4,
        shaders.backdrop_copy,
        eights(params.width, params.height),
        copy,
    );
    assert(found(access, a4, shaders.backdrop_copy, copy) =~= seq![size, scene, nothing]);

    let apply = seq![
        buf(apply_buf),
        img(images.scene_image),
        img(images.blur_image),
        img(images.scene_tmp),
    ];
    let a6 = a5.push(all[6]);
    lemma_dispatch(
        access,
        a5,
        shaders.backdrop_apply,
        eights(apply_roi[2], apply_roi[3]),
        apply,
    );
    assert(found(access, a5, shaders.backdrop_apply, apply) =~= seq![
        Contents::Bytes(apply_bytes),
        scene,
        contents(access, a2, images.blur_image.id),
        contents(access, a5, images.scene_tmp.id),
    ]);

    let a7 = a6.push(all[7]);
    assert(a7 =~= a6 + seq![all[7]]);
    assert forall|id: u64| #[trigger] contents(access, a7, id) == contents(access, a6, id) by {
        lemma_quiet(access, a6, seq![all[7]], id);
    }
    assert(before + all =~= a7);
}

/// What the blur shaders find in their uniform: the size of the frame, the radius and the
/// spread of the blur, and the pixels that are blurred.
pub proof fn lemma_blur_uniform(op: BackdropBlurOp, params: RenderParams)
    requires
        op.blur_bounds.roi(params.width, params.height) is Some,
    ensures
        ({
            let bytes = words_bytes(op.blur_words(params));
            let roi = op.blur_bounds.roi(params.width, params.height)->0;
            &&& bytes.len() == 48
            &&& word_at(bytes, 0) == params.width
            &&& word_at(bytes, 1) == params.height
            &&& word_at(bytes, 2) == op.blur_radius
            &&& forall|i: int| 0 <= i < 4 ==> #[trigger] word_at(bytes, 4 + i) == roi[i]
            &&& word_at(bytes, 8) == op.sigma
        }),
{
    let words = op.blur_words(params);
    let bytes = words_bytes(words);
    let roi = op.blur_bounds.roi(params.width, params.height)->0;
    let zero = 0int;
    assert(bytes.subrange(4 * zero, 4 * zero + 4 * words.len()) =~= bytes);
    lemma_words_round_trip(bytes, 0, words);
    assert(word_at(bytes, zero + 0) == words[0]);
    assert(word_at(bytes, zero + 1) == words[1]);
    assert(word_at(bytes, zero + 2) == words[2]);
    assert(word_at(bytes, zero + 8) == words[8]);
    assert forall|i: int| 0 <= i < 4 implies #[trigger] word_at(bytes, 4 + i) == roi[i] by {
        assert(word_at(bytes, zero + (4 + i)) == words[4 + i]);
    }
}

/// What the shader that puts a blur into the scene finds in its uniform: the size of the
/// frame, the tint, the pixels that are replaced, the transform from the frame to the
/// backdrop, and the rectangle with its corners and its edge.
pub proof fn lemma_apply_uniform(op: BackdropBlurOp, params: RenderParams, tint_rgba: u32)
    requires
        op.apply_bounds.roi(params.width, params.height) is Some,
    ensures
        ({
            let bytes = words_bytes(op.apply_words(params, tint_rgba));
            let roi = op.apply_bounds.roi(params.width, params.height)->0;
            &&& bytes.len() == 96
            &&& word_at(bytes, 0) == params.width
            &&& word_at(bytes, 1) == params.height
            &&& word_at(bytes, 2) == tint_rgba
            &&& forall|i: int| 0 <= i < 4 ==> #[trigger] word_at(bytes, 4 + i) == roi[i]
            &&& forall|i: int| 0 <= i < 4 ==> #[trigger] word_at(bytes, 8 + i) == op.inv_row0@[i]
            &&& forall|i: int| 0 <= i < 4 ==> #[trigger] word_at(bytes, 12 + i) == op.inv_row1@[i]
            &&& forall|i: int| 0 <= i < 4 ==> #[trigger] word_at(bytes, 16 + i) == op.rect@[i]
            &&& forall|i: int|
                0 <= i < 4 ==> #[trigger] word_at(bytes, 20 + i) == op.radius_soft@[i]
        }),
{
    let words = op.apply_words(params, tint_rgba);
    let bytes = words_bytes(words);
    let roi = op.apply_bounds.roi(params.width, params.height)->0;
    let zero = 0int;
    assert(bytes.subrange(4 * zero, 4 * zero + 4 * words.len()) =~= bytes);
    lemma_words_round_trip(bytes, 0, words);
    assert(word_at(bytes, zero + 0) == words[0]);
    assert(word_at(bytes, zero + 1) == words[1]);
    assert(word_at(bytes, zero + 2) == words[2]);
    assert forall|i: int| 0 <= i < 4 implies #[trigger] word_at(bytes, 4 + i) == roi[i] by {
        assert(word_at(bytes, zero + (4 + i)) == words[4 + i]);
    }
    assert forall|i: int| 0 <= i < 4 implies #[trigger] word_at(bytes, 8 + i) == op.inv_row0@[i] by {
        assert(word_at(bytes, zero + (8 + i)) == words[8 + i]);
    }
    assert forall|i: int| 0 <= i < 4 implies #[trigger] word_at(bytes, 12 + i)
        == op.inv_row1@[i] by {
        assert(word_at(bytes, zero + (12 + i)) == words[12 + i]);
    }
    assert forall|i: int| 0 <= i < 4 implies #[trigger] word_at(bytes, 16 + i) == op.rect@[i] by {
        assert(word_at(bytes, zero + (16 + i)) == words[16 + i]);
    }
    assert forall|i: int| 0 <= i < 4 implies #[trigger] word_at(bytes, 20 + i)
        == op.radius_soft@[i] by {
        assert(word_at(bytes, zero + (20 + i)) == words[20 + i]);
    }
}

} // verus!
