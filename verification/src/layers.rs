//! Which layers are open at each draw object, and what they demand of a scene
//! that is replayed in segments.

use vstd::prelude::*;

use crate::encoding::{
    draw_data_size, src_over_begin_clip_blend_mode, DrawBeginClip, DrawTag,
};
use crate::float_bits::{f32_is_near_one, f32_is_near_zero};

verus! {

use crate::encoding::{draw_words, lemma_draw_step};
use crate::float_bits::{f32_one, f32_within_epsilon};

/// An open layer: the draw index that began it, whether it only clips, whether
/// it composes source-over, whether it can be replayed in pieces, and whether
/// a replayed range may paint nothing while it is open.
pub type OpenLayer = (u32, bool, bool, bool, bool);

/// The layers that are open between two draw objects, outermost first.
#[derive(Clone, Debug, Default, PartialEq, Eq)]
pub struct LayerSeedState {
    /// The draw indices that began the open layers.
    pub begin_draws: Vec<u32>,
    /// Whether some open layer does more than clip.
    pub has_active_non_clip: bool,
    /// Whether all open layers that do more than clip compose source-over.
    pub active_non_clip_src_over: bool,
    /// Whether all open layers that do more than clip can be replayed in pieces.
    pub active_non_clip_replay_safe: bool,
    /// The draw indices that began the open layers under which a replayed range
    /// may paint nothing.
    pub non_replay_safe_non_clip_begin_draws: Vec<u32>,
}

/// The contents of a `LayerSeedState`.
#[verifier::ext_equal]
pub struct LayerSeed {
    pub begin_draws: Seq<u32>,
    pub has_active_non_clip: bool,
    pub active_non_clip_src_over: bool,
    pub active_non_clip_replay_safe: bool,
    pub non_replay_safe_non_clip_begin_draws: Seq<u32>,
}

impl View for LayerSeedState {
    type V = LayerSeed;

    open spec fn view(&self) -> LayerSeed {
        LayerSeed {
            begin_draws: self.begin_draws@,
            has_active_non_clip: self.has_active_non_clip,
            active_non_clip_src_over: self.active_non_clip_src_over,
            active_non_clip_replay_safe: self.active_non_clip_replay_safe,
            non_replay_safe_non_clip_begin_draws: self.non_replay_safe_non_clip_begin_draws@,
        }
    }
}

// ---------------------------------------------------------------------------
// Layer parameters
// ---------------------------------------------------------------------------

/// Whether the layer parameters at `offset` are complete.
pub open spec fn parameters_present(draw_data: Seq<u32>, offset: int) -> bool {
    offset + 1 < draw_data.len()
}

/// Whether the layer parameters at `offset` are those of normal mixing with
/// source-over composition.
pub open spec fn is_src_over(draw_data: Seq<u32>, offset: int) -> bool {
    &&& parameters_present(draw_data, offset)
    &&& draw_data[offset] == DrawBeginClip::SRC_OVER_BLEND_MODE
}

/// Whether a layer with the parameters at `offset` contributes nothing: its
/// group alpha is zero, and it is no luminance mask.
pub open spec fn is_noop(draw_data: Seq<u32>, offset: int) -> bool {
    &&& parameters_present(draw_data, offset)
    &&& draw_data[offset] != DrawBeginClip::LUMINANCE_MASK_BLEND_MODE
    &&& f32_within_epsilon(draw_data[offset + 1], 0)
}

/// Whether a layer with the parameters at `offset` can be replayed in pieces:
/// it composes source-over, and its group alpha is one.
pub open spec fn is_replay_safe(draw_data: Seq<u32>, offset: int) -> bool {
    &&& is_src_over(draw_data, offset)
    &&& f32_within_epsilon(draw_data[offset + 1], f32_one())
}

/// Whether a replayed range may paint nothing while a layer with the parameters
/// at `offset` is open.
pub open spec fn requires_paint_free(draw_data: Seq<u32>, offset: int) -> bool {
    ||| !parameters_present(draw_data, offset)
    ||| {
        &&& draw_data[offset] != DrawBeginClip::CLIP_BLEND_MODE
        &&& !is_replay_safe(draw_data, offset)
        &&& !is_noop(draw_data, offset)
    }
}

/// Whether the layer parameters at `offset` are those of normal mixing with
/// source-over composition.
pub fn begin_clip_src_over(draw_data: &[u32], draw_data_offset: usize) -> (src_over: bool)
    ensures
        src_over == is_src_over(draw_data@, draw_data_offset as int),
{
    if draw_data_offset.saturating_add(1) >= draw_data.len() {
        return false;
    }
    let blend_mode: u32 = draw_data[draw_data_offset];
    blend_mode == src_over_begin_clip_blend_mode()
}

/// Whether a layer with the parameters at `offset` contributes nothing.
pub fn begin_clip_noop_zero_alpha_non_luminance(
    draw_data: &[u32],
    draw_data_offset: usize,
) -> (noop: bool)
    ensures
        noop == is_noop(draw_data@, draw_data_offset as int),
{
    if draw_data_offset.saturating_add(1) >= draw_data.len() {
        return false;
    }
    let blend_mode: u32 = draw_data[draw_data_offset];
    if blend_mode == DrawBeginClip::LUMINANCE_MASK_BLEND_MODE {
        return false;
    }
    f32_is_near_zero(draw_data[draw_data_offset + 1])
}

/// Whether a layer with the parameters at `offset` can be replayed in pieces.
pub fn begin_clip_replay_safe(draw_data: &[u32], draw_data_offset: usize) -> (safe: bool)
    ensures
        safe == is_replay_safe(draw_data@, draw_data_offset as int),
{
    if !begin_clip_src_over(draw_data, draw_data_offset) {
        return false;
    }
    assert(draw_data.len() <= usize::MAX);
    f32_is_near_one(draw_data[draw_data_offset + 1])
}

/// Whether a replayed range may paint nothing while a layer with the parameters
/// at `offset` is open.
pub fn begin_clip_requires_active_span_paint_free(
    draw_data: &[u32],
    draw_data_offset: usize,
) -> (paint_free: bool)
    ensures
        paint_free == requires_paint_free(draw_data@, draw_data_offset as int),
{
    if draw_data_offset.saturating_add(1) >= draw_data.len() {
        return true;
    }
    if draw_data[draw_data_offset] == DrawBeginClip::CLIP_BLEND_MODE {
        return false;
    }
    !begin_clip_replay_safe(draw_data, draw_data_offset)
        && !begin_clip_noop_zero_alpha_non_luminance(draw_data, draw_data_offset)
}

// ---------------------------------------------------------------------------
// Draw data offsets
// ---------------------------------------------------------------------------

/// Where the draw data of draw object `ix` begins: after that of the objects
/// before it, at most `usize::MAX`.
pub open spec fn draw_data_offset(draw_tags: Seq<u32>, ix: int) -> usize {
    let words = draw_words(draw_tags.take(ix));
    if words <= usize::MAX {
        words as usize
    } else {
        usize::MAX
    }
}

/// Where the draw data of each draw object begins, and where that of all of
/// them ends.
pub open spec fn data_offsets(draw_tags: Seq<u32>) -> Seq<usize> {
    Seq::new(draw_tags.len() + 1, |ix: int| draw_data_offset(draw_tags, ix))
}

/// Where the draw data of each draw object begins, and where that of all of
/// them ends.
pub fn draw_data_offsets(draw_tags: &[u32]) -> (offsets: Vec<usize>)
    ensures
        offsets@ == data_offsets(draw_tags@),
{
    let mut offsets: Vec<usize> = Vec::new();
    offsets.push(0);
    let mut scene_offset: usize = 0;
    let mut ix: usize = 0;
    assert(draw_tags@.take(0) =~= Seq::<u32>::empty());
    while ix < draw_tags.len()
        invariant
            ix <= draw_tags.len(),
            scene_offset == draw_data_offset(draw_tags@, ix as int),
            offsets.len() == ix + 1,
            forall|k: int|
                0 <= k <= ix ==> #[trigger] offsets[k] == draw_data_offset(draw_tags@, k),
        decreases draw_tags.len() - ix,
    {
        proof {
            lemma_draw_step(draw_tags@, ix as int);
        }
        scene_offset = scene_offset.saturating_add(draw_data_size(draw_tags[ix]) as usize);
        offsets.push(scene_offset);
        ix += 1;
    }
    assert(offsets@ =~= data_offsets(draw_tags@));
    offsets
}

// ---------------------------------------------------------------------------
// Open layers
// ---------------------------------------------------------------------------

/// The layer that the draw object `ix`, with its parameters at `offset`, begins.
pub open spec fn opened_layer(draw_data: Seq<u32>, offset: int, ix: int) -> OpenLayer {
    let is_clip = draw_data[offset] == DrawBeginClip::CLIP_BLEND_MODE;
    (
        ix as u32,
        is_clip,
        is_clip || is_src_over(draw_data, offset),
        is_clip || is_replay_safe(draw_data, offset),
        !is_clip && requires_paint_free(draw_data, offset),
    )
}

/// The layers that are open before draw object `ix`, outermost first; nothing
/// where a layer lacks its parameters, or where a layer ends that never began.
pub open spec fn open_layers(
    draw_tags: Seq<u32>,
    draw_data: Seq<u32>,
    offsets: Seq<usize>,
    ix: int,
) -> Option<Seq<OpenLayer>>
    decreases ix,
{
    if ix <= 0 {
        Some(Seq::empty())
    } else {
        match open_layers(draw_tags, draw_data, offsets, ix - 1) {
            None => None,
            Some(open) => if draw_tags[ix - 1] == DrawTag::BEGIN_CLIP {
                let offset = offsets[ix - 1] as int;
                if offset >= draw_data.len() {
                    None
                } else {
                    Some(open.push(opened_layer(draw_data, offset, ix - 1)))
                }
            } else if draw_tags[ix - 1] == DrawTag::END_CLIP {
                if open.len() == 0 {
                    None
                } else {
                    Some(open.drop_last())
                }
            } else {
                Some(open)
            },
        }
    }
}

/// What a seed state says of the open layers.
pub open spec fn seed_of(open: Seq<OpenLayer>) -> LayerSeed {
    LayerSeed {
        begin_draws: open.map_values(|layer: OpenLayer| layer.0),
        has_active_non_clip: exists|k: int| 0 <= k < open.len() && !(#[trigger] open[k]).1,
        active_non_clip_src_over: forall|k: int|
            0 <= k < open.len() && !(#[trigger] open[k]).1 ==> open[k].2,
        active_non_clip_replay_safe: forall|k: int|
            0 <= k < open.len() && !(#[trigger] open[k]).1 ==> open[k].3,
        non_replay_safe_non_clip_begin_draws: open.filter(
            |layer: OpenLayer| !layer.1 && layer.4,
        ).map_values(|layer: OpenLayer| layer.0),
    }
}

/// The seed before draw object `ix` of a scene.
pub open spec fn seed_at(draw_tags: Seq<u32>, draw_data: Seq<u32>, ix: int) -> Option<LayerSeed> {
    match open_layers(draw_tags, draw_data, data_offsets(draw_tags), ix) {
        Some(open) => Some(seed_of(open)),
        None => None,
    }
}

/// What a seed state says of a stack of open layers.
pub fn layer_seed_state_from_stack(stack: &[(u32, bool, bool, bool, bool)]) -> (state:
    LayerSeedState)
    ensures
        state@ == seed_of(stack@),
{
    let mut begin_draws: Vec<u32> = Vec::new();
    let mut has_active_non_clip = false;
    let mut active_non_clip_src_over = true;
    let mut active_non_clip_replay_safe = true;
    let mut paint_free: Vec<u32> = Vec::new();
    let ghost keep = |layer: OpenLayer| !layer.1 && layer.4;
    let ghost first = |layer: OpenLayer| layer.0;
    let mut k: usize = 0;
    proof {
        reveal(Seq::filter);
        assert(stack@.take(0) =~= Seq::empty());
    }
    while k < stack.len()
        invariant
            k <= stack.len(),
            keep == (|layer: OpenLayer| !layer.1 && layer.4),
            first == (|layer: OpenLayer| layer.0),
            begin_draws@ == stack@.take(k as int).map_values(first),
            has_active_non_clip == exists|j: int| 0 <= j < k && !(#[trigger] stack@[j]).1,
            active_non_clip_src_over == forall|j: int|
                0 <= j < k && !(#[trigger] stack@[j]).1 ==> stack@[j].2,
            active_non_clip_replay_safe == forall|j: int|
                0 <= j < k && !(#[trigger] stack@[j]).1 ==> stack@[j].3,
            paint_free@ == stack@.take(k as int).filter(keep).map_values(first),
        decreases stack.len() - k,
    {
        let layer = stack[k];
        let ghost before = stack@.take(k as int);
        proof {
            assert(stack@.take(k + 1) =~= before.push(stack@[k as int]));
            assert(before.push(stack@[k as int]).drop_last() =~= before);
            reveal(Seq::filter);
            assert(before.push(stack@[k as int]).filter(keep) =~= if keep(stack@[k as int]) {
                before.filter(keep).push(stack@[k as int])
            } else {
                before.filter(keep)
            });
        }
        begin_draws.push(layer.0);
        if !layer.1 {
            has_active_non_clip = true;
            active_non_clip_src_over = active_non_clip_src_over && layer.2;
            active_non_clip_replay_safe = active_non_clip_replay_safe && layer.3;
            if layer.4 {
                paint_free.push(layer.0);
            }
        }
        k += 1;
        assert(begin_draws@ =~= stack@.take(k as int).map_values(first));
        assert(paint_free@ =~= stack@.take(k as int).filter(keep).map_values(first));
    }
    assert(stack@.take(stack.len() as int) =~= stack@);
    let state = LayerSeedState {
        begin_draws,
        has_active_non_clip,
        active_non_clip_src_over,
        active_non_clip_replay_safe,
        non_replay_safe_non_clip_begin_draws: paint_free,
    };
    state
}

/// The open layers between any two draw objects of a scene, from before the
/// first to after the last; nothing where a layer lacks its parameters, or
/// where a layer ends that never began.
pub fn layer_seed_states(draw_tags: &[u32], draw_data: &[u32]) -> (states: Option<
    Vec<LayerSeedState>,
>)
    ensures
        match states {
            Some(states) => {
                &&& states.len() == draw_tags.len() + 1
                &&& forall|ix: int|
                    0 <= ix <= draw_tags.len() ==> seed_at(draw_tags@, draw_data@, ix) == Some(
                        (#[trigger] states[ix])@,
                    )
            },
            None => seed_at(draw_tags@, draw_data@, draw_tags.len() as int) is None,
        },
{
    let ghost offsets = data_offsets(draw_tags@);
    let mut scene_offset: usize = 0;
    let mut stack: Vec<(u32, bool, bool, bool, bool)> = Vec::new();
    let mut states: Vec<LayerSeedState> = Vec::new();
    states.push(layer_seed_state_from_stack(stack.as_slice()));
    let mut ix: usize = 0;
    assert(draw_tags@.take(0) =~= Seq::<u32>::empty());
    while ix < draw_tags.len()
        invariant
            ix <= draw_tags.len(),
            offsets == data_offsets(draw_tags@),
            scene_offset == draw_data_offset(draw_tags@, ix as int),
            open_layers(draw_tags@, draw_data@, offsets, ix as int) == Some(stack@),
            states.len() == ix + 1,
            forall|k: int|
                0 <= k <= ix ==> seed_at(draw_tags@, draw_data@, k) == Some(
                    (#[trigger] states[k])@,
                ),
        decreases draw_tags.len() - ix,
    {
        let tag: u32 = draw_tags[ix];
        assert(offsets[ix as int] == scene_offset);
        if tag == DrawTag::BEGIN_CLIP {
            if scene_offset >= draw_data.len() {
                proof {
                    lemma_open_layers_stay_none(
                        draw_tags@,
                        draw_data@,
                        offsets,
                        ix + 1,
                        draw_tags.len() as int,
                    );
                }
                return None;
            }
            let is_clip = draw_data[scene_offset] == DrawBeginClip::CLIP_BLEND_MODE;
            let is_src_over = is_clip || begin_clip_src_over(draw_data, scene_offset);
            let is_replay_safe = is_clip || begin_clip_replay_safe(draw_data, scene_offset);
            let requires_paint_free = !is_clip && begin_clip_requires_active_span_paint_free(
                draw_data,
                scene_offset,
            );
            stack.push((ix as u32, is_clip, is_src_over, is_replay_safe, requires_paint_free));
        } else if tag == DrawTag::END_CLIP {
            if stack.pop().is_none() {
                proof {
                    lemma_open_layers_stay_none(
                        draw_tags@,
                        draw_data@,
                        offsets,
                        ix + 1,
                        draw_tags.len() as int,
                    );
                }
                return None;
            }
        }
        proof {
            lemma_draw_step(draw_tags@, ix as int);
        }
        scene_offset = scene_offset.saturating_add(draw_data_size(tag) as usize);
        states.push(layer_seed_state_from_stack(stack.as_slice()));
        ix += 1;
    }
    Some(states)
}

/// Once the layers do not nest, they never do again.
pub proof fn lemma_open_layers_stay_none(
    draw_tags: Seq<u32>,
    draw_data: Seq<u32>,
    offsets: Seq<usize>,
    from: int,
    to: int,
)
    requires
        from <= to,
        open_layers(draw_tags, draw_data, offsets, from) is None,
    ensures
        open_layers(draw_tags, draw_data, offsets, to) is None,
    decreases to - from,
{
    if from < to {
        lemma_open_layers_stay_none(draw_tags, draw_data, offsets, from, to - 1);
    }
}

/// The seed state before draw object `draw_ix`, where there is one.
pub fn layer_seed_state_at(states: &[LayerSeedState], draw_ix: u32) -> (state: Option<
    &LayerSeedState,
>)
    ensures
        match state {
            Some(state) => draw_ix < states@.len() && *state == states@[draw_ix as int],
            None => draw_ix >= states@.len(),
        },
{
    if (draw_ix as usize) < states.len() {
        Some(&states[draw_ix as usize])
    } else {
        None
    }
}

/// Whether a boundary after the first backdrop may fall inside layers under
/// which the range has painted: there is more than one backdrop, the layers do
/// not all compose source-over, and those that forbid paint all began after
/// the first backdrop, or the range before it paints nothing under such layers.
pub open spec fn boundary_allows_painted(
    seed: LayerSeed,
    first_backdrop_draw_ix: u32,
    multiple_backdrops: bool,
    first_range_paint_free: bool,
) -> bool {
    let begins = seed.non_replay_safe_non_clip_begin_draws;
    &&& multiple_backdrops
    &&& !seed.active_non_clip_src_over
    &&& begins.len() > 0
    &&& (forall|k: int|
        0 <= k < begins.len() ==> #[trigger] begins[k] > first_backdrop_draw_ix)
        || first_range_paint_free
}

/// Whether a boundary after the first backdrop may fall inside layers under
/// which the range has painted.
pub fn post_first_backdrop_boundary_allows_non_replay_safe_painted(
    seed_state: &LayerSeedState,
    first_backdrop_draw_ix: u32,
    allow_multi_backdrop_non_clip_boundary_replay: bool,
    first_range_non_replay_safe_paint_free: bool,
) -> (allowed: bool)
    ensures
        allowed == boundary_allows_painted(
            seed_state@,
            first_backdrop_draw_ix,
            allow_multi_backdrop_non_clip_boundary_replay,
            first_range_non_replay_safe_paint_free,
        ),
{
    let begins = &seed_state.non_replay_safe_non_clip_begin_draws;
    let mut all_after = true;
    let mut k: usize = 0;
    while k < begins.len()
        invariant
            k <= begins.len(),
            all_after == forall|j: int| 0 <= j < k ==> #[trigger] begins[j] > first_backdrop_draw_ix,
        decreases begins.len() - k,
    {
        all_after = all_after && begins[k] > first_backdrop_draw_ix;
        k += 1;
    }
    allow_multi_backdrop_non_clip_boundary_replay && !seed_state.active_non_clip_src_over
        && !begins.is_empty() && (all_after || first_range_non_replay_safe_paint_free)
}

/// Whether the paint-free range before the first backdrop counts at later
/// boundaries: it does for three backdrops and more.
pub fn allow_prefirst_paint_free_non_replay_safe_boundary(ops_len: usize) -> (allowed: bool)
    ensures
        allowed == (ops_len > 2),
{
    ops_len > 2
}

} // verus!
