//! What holds of the layers of every scene.

use vstd::prelude::*;

use crate::encoding::{DrawBeginClip, DrawTag};

verus! {

use crate::float_bits::f32_within_epsilon;
use crate::layers::{
    data_offsets, is_noop, is_replay_safe, is_src_over, open_layers, opened_layer,
    parameters_present, requires_paint_free, seed_at, seed_of, OpenLayer,
};

/// The number of layers that are open before draw object `ix` of a scene whose
/// layers nest so far.
pub open spec fn depth(
    draw_tags: Seq<u32>,
    draw_data: Seq<u32>,
    offsets: Seq<usize>,
    ix: int,
) -> nat {
    open_layers(draw_tags, draw_data, offsets, ix)->0.len()
}

/// While no fewer layers are open than before draw object `i`, those that were open
/// there stay open.
proof fn lemma_outer_layers_stay(
    draw_tags: Seq<u32>,
    draw_data: Seq<u32>,
    offsets: Seq<usize>,
    i: int,
    j: int,
)
    requires
        0 <= i <= j,
        open_layers(draw_tags, draw_data, offsets, j) is Some,
        forall|m: int|
            i <= m <= j ==> #[trigger] depth(draw_tags, draw_data, offsets, m) >= depth(
                draw_tags,
                draw_data,
                offsets,
                i,
            ),
    ensures
        open_layers(draw_tags, draw_data, offsets, i) is Some,
        open_layers(draw_tags, draw_data, offsets, j)->0.take(
            depth(draw_tags, draw_data, offsets, i) as int,
        ) == open_layers(draw_tags, draw_data, offsets, i)->0,
    decreases j - i,
{
    let outer = open_layers(draw_tags, draw_data, offsets, i)->0;
    if i < j {
        assert(open_layers(draw_tags, draw_data, offsets, j - 1) is Some);
        lemma_outer_layers_stay(draw_tags, draw_data, offsets, i, j - 1);
        let before = open_layers(draw_tags, draw_data, offsets, j - 1)->0;
        let after = open_layers(draw_tags, draw_data, offsets, j)->0;
        assert(depth(draw_tags, draw_data, offsets, j) == after.len());
        assert(depth(draw_tags, draw_data, offsets, j - 1) == before.len());
        assert(after.take(outer.len() as int) =~= before.take(outer.len() as int));
    } else {
        assert(outer.take(outer.len() as int) =~= outer);
    }
}

/// Layers that are opened and closed again leave no trace: where as many layers
/// are open as before draw object `i`, and never fewer were in between, the same
/// layers are open, and the seed is the same.
pub proof fn lemma_closed_layers_leave_no_trace(
    draw_tags: Seq<u32>,
    draw_data: Seq<u32>,
    i: int,
    j: int,
)
    requires
        0 <= i <= j,
        seed_at(draw_tags, draw_data, j) is Some,
        forall|m: int|
            i <= m <= j ==> #[trigger] depth(draw_tags, draw_data, data_offsets(draw_tags), m)
                >= depth(draw_tags, draw_data, data_offsets(draw_tags), i),
        depth(draw_tags, draw_data, data_offsets(draw_tags), j) == depth(
            draw_tags,
            draw_data,
            data_offsets(draw_tags),
            i,
        ),
    ensures
        seed_at(draw_tags, draw_data, j) == seed_at(draw_tags, draw_data, i),
{
    let offsets = data_offsets(draw_tags);
    lemma_outer_layers_stay(draw_tags, draw_data, offsets, i, j);
    let after = open_layers(draw_tags, draw_data, offsets, j)->0;
    assert(after.take(after.len() as int) =~= after);
}

/// Where the layers of a scene nest up to a draw object, they nest before it.
pub proof fn lemma_layers_nest_before(draw_tags: Seq<u32>, draw_data: Seq<u32>, i: int, j: int)
    requires
        0 <= i <= j,
        seed_at(draw_tags, draw_data, j) is Some,
    ensures
        seed_at(draw_tags, draw_data, i) is Some,
    decreases j - i,
{
    if i < j {
        assert(open_layers(draw_tags, draw_data, data_offsets(draw_tags), j - 1) is Some);
        lemma_layers_nest_before(draw_tags, draw_data, i, j - 1);
    }
}

/// Whether open layers are as some draw objects before `ix` opened them: outermost
/// first, each by the draw object that it names.
pub open spec fn opened_in_order(
    draw_tags: Seq<u32>,
    draw_data: Seq<u32>,
    offsets: Seq<usize>,
    ix: int,
    open: Seq<OpenLayer>,
) -> bool {
    &&& forall|k: int|
        0 <= k < open.len() ==> {
            let layer = #[trigger] open[k];
            &&& layer.0 < ix
            &&& draw_tags[layer.0 as int] == DrawTag::BEGIN_CLIP
            &&& offsets[layer.0 as int] < draw_data.len()
            &&& layer == opened_layer(draw_data, offsets[layer.0 as int] as int, layer.0 as int)
        }
    &&& forall|k: int, l: int|
        0 <= k < l < open.len() ==> (#[trigger] open[k]).0 < (#[trigger] open[l]).0
}

/// Open layers are as the draw objects before opened them.
pub proof fn lemma_opened_in_order(
    draw_tags: Seq<u32>,
    draw_data: Seq<u32>,
    offsets: Seq<usize>,
    ix: int,
)
    requires
        0 <= ix <= draw_tags.len(),
        draw_tags.len() <= u32::MAX,
        open_layers(draw_tags, draw_data, offsets, ix) is Some,
    ensures
        opened_in_order(
            draw_tags,
            draw_data,
            offsets,
            ix,
            open_layers(draw_tags, draw_data, offsets, ix)->0,
        ),
    decreases ix,
{
    if ix > 0 {
        assert(open_layers(draw_tags, draw_data, offsets, ix - 1) is Some);
        lemma_opened_in_order(draw_tags, draw_data, offsets, ix - 1);
    }
}

/// The draw objects that opened the open layers are named in order, once each,
/// and each of them begins a layer.
pub proof fn lemma_seed_draws(draw_tags: Seq<u32>, draw_data: Seq<u32>, ix: int)
    requires
        0 <= ix <= draw_tags.len(),
        draw_tags.len() <= u32::MAX,
        seed_at(draw_tags, draw_data, ix) is Some,
    ensures
        ({
            let draws = seed_at(draw_tags, draw_data, ix)->0.begin_draws;
            &&& forall|k: int|
                0 <= k < draws.len() ==> (#[trigger] draws[k]) < ix && draw_tags[draws[k] as int]
                    == DrawTag::BEGIN_CLIP
            &&& forall|k: int, l: int|
                0 <= k < l < draws.len() ==> (#[trigger] draws[k]) < (#[trigger] draws[l])
        }),
{
    let offsets = data_offsets(draw_tags);
    lemma_opened_in_order(draw_tags, draw_data, offsets, ix);
    let open = open_layers(draw_tags, draw_data, offsets, ix)->0;
    let draws = seed_at(draw_tags, draw_data, ix)->0.begin_draws;
    assert forall|k: int| 0 <= k < draws.len() implies #[trigger] draws[k] == open[k].0 by {}
}

/// Where no open layer does more than clip, nothing is demanded of paint.
pub proof fn lemma_clip_only_seed(open: Seq<OpenLayer>)
    requires
        !seed_of(open).has_active_non_clip,
    ensures
        seed_of(open).active_non_clip_src_over,
        seed_of(open).active_non_clip_replay_safe,
        seed_of(open).non_replay_safe_non_clip_begin_draws == Seq::<u32>::empty(),
{
    let keep = |layer: OpenLayer| !layer.1 && layer.4;
    lemma_filter_nothing(open, keep);
}

/// A filter that no element passes leaves nothing.
proof fn lemma_filter_nothing(open: Seq<OpenLayer>, keep: spec_fn(OpenLayer) -> bool)
    requires
        forall|k: int| 0 <= k < open.len() ==> !keep(#[trigger] open[k]),
    ensures
        open.filter(keep) == Seq::<OpenLayer>::empty(),
    decreases open.len(),
{
    reveal(Seq::filter);
    if open.len() > 0 {
        assert forall|k: int| 0 <= k < open.drop_last().len() implies !keep(
            #[trigger] open.drop_last()[k],
        ) by {
            assert(open[k] == open.drop_last()[k]);
        }
        lemma_filter_nothing(open.drop_last(), keep);
        assert(!keep(open[open.len() - 1]));
    }
}

/// Where all open layers that do more than clip can be replayed in pieces, they
/// compose source-over, and none of them forbids paint.
pub proof fn lemma_replay_safe_seed(draw_tags: Seq<u32>, draw_data: Seq<u32>, ix: int)
    requires
        0 <= ix <= draw_tags.len(),
        draw_tags.len() <= u32::MAX,
        seed_at(draw_tags, draw_data, ix) is Some,
        seed_at(draw_tags, draw_data, ix)->0.active_non_clip_replay_safe,
    ensures
        seed_at(draw_tags, draw_data, ix)->0.active_non_clip_src_over,
        seed_at(draw_tags, draw_data, ix)->0.non_replay_safe_non_clip_begin_draws == Seq::<
            u32,
        >::empty(),
{
    let offsets = data_offsets(draw_tags);
    lemma_opened_in_order(draw_tags, draw_data, offsets, ix);
    let open = open_layers(draw_tags, draw_data, offsets, ix)->0;
    let keep = |layer: OpenLayer| !layer.1 && layer.4;
    assert forall|k: int| 0 <= k < open.len() implies !keep(#[trigger] open[k]) by {
        if !open[k].1 {
            assert(open[k].3);
        }
    }
    lemma_filter_nothing(open, keep);
}

/// The layers that forbid paint are among the open ones, and do more than clip.
pub proof fn lemma_forbidding_layers_are_open(open: Seq<OpenLayer>, draw: u32)
    requires
        seed_of(open).non_replay_safe_non_clip_begin_draws.contains(draw),
    ensures
        seed_of(open).begin_draws.contains(draw),
        seed_of(open).has_active_non_clip,
{
    let keep = |layer: OpenLayer| !layer.1 && layer.4;
    let forbidding = open.filter(keep);
    let named = seed_of(open).non_replay_safe_non_clip_begin_draws;
    let k = choose|k: int| 0 <= k < named.len() && named[k] == draw;
    assert(named[k] == forbidding[k].0);
    open.lemma_filter_pred(keep, k);
    assert(forbidding.contains(forbidding[k]));
    open.lemma_filter_contains_rev(keep, forbidding[k]);
    let l = choose|l: int| 0 <= l < open.len() && open[l] == forbidding[k];
    assert(seed_of(open).begin_draws[l] == draw);
}

/// A layer that can be replayed in pieces composes source-over and allows paint.
pub proof fn lemma_replay_safe_layer(draw_data: Seq<u32>, offset: int)
    requires
        is_replay_safe(draw_data, offset),
    ensures
        is_src_over(draw_data, offset),
        !requires_paint_free(draw_data, offset),
{
}

/// A layer whose group alpha is zero allows paint, unless it is a luminance mask.
pub proof fn lemma_zero_alpha_layer(draw_data: Seq<u32>, offset: int)
    requires
        parameters_present(draw_data, offset),
        draw_data[offset] != DrawBeginClip::LUMINANCE_MASK_BLEND_MODE,
        f32_within_epsilon(draw_data[offset + 1], 0),
    ensures
        is_noop(draw_data, offset),
        !requires_paint_free(draw_data, offset),
{
}

/// A luminance mask forbids paint, whatever its group alpha is.
pub proof fn lemma_luminance_mask_layer(draw_data: Seq<u32>, offset: int)
    requires
        parameters_present(draw_data, offset),
        draw_data[offset] == DrawBeginClip::LUMINANCE_MASK_BLEND_MODE,
    ensures
        requires_paint_free(draw_data, offset),
{
}

} // verus!
