//! What holds of the replay of every scene.

use vstd::prelude::*;

verus! {

use crate::layer_laws::{lemma_layers_nest_before, lemma_opened_in_order};
use crate::layers::{data_offsets, open_layers, seed_at};
use crate::ranges::{
    at_most, begins_non_clip, first_range_supported, is_effective_paint, range_layers,
    respects_layers, seeded_layers, span_layers,
};
use crate::replay::{ReplayInput, SegmentRange};

/// Whether the backdrops stand at draw objects of the scene, in their order.
pub open spec fn ops_in_order(input: ReplayInput) -> bool {
    &&& forall|k: int, l: int|
        0 <= k < l < input.ops.len() ==> (#[trigger] input.ops[k]) <= (#[trigger] input.ops[l])
    &&& forall|k: int|
        0 <= k < input.ops.len() ==> (#[trigger] input.ops[k]) < input.n_draw_objects
}

/// Whether a segment holds a draw object.
pub open spec fn holds(segment: SegmentRange, draw: int) -> bool {
    segment.draw_start <= draw < segment.draw_end
}

/// Every draw object that is no backdrop lies in exactly one segment: the one
/// before the first backdrop, the one before some other backdrop, or the one
/// behind the last backdrop. What lies in the segments up to a backdrop is what
/// is drawn before it.
pub proof fn lemma_segments_cover(input: ReplayInput, draw: u32)
    requires
        ops_in_order(input),
        draw < input.n_draw_objects,
        !input.ops.contains(draw),
    ensures
        holds(input.first_segment(), draw as int) <==> (forall|k: int|
            0 <= k < input.ops.len() ==> draw < #[trigger] input.ops[k]),
        forall|k: int|
            0 < k < input.ops.len() ==> (holds(#[trigger] input.segment_before(k), draw as int)
                <==> input.ops[k - 1] < draw < input.ops[k]),
        input.ops.len() > 0 ==> (holds(input.tail_segment(), draw as int) <==> (forall|k: int|
            0 <= k < input.ops.len() ==> #[trigger] input.ops[k] < draw)),
        holds(input.first_segment(), draw as int) || holds(input.tail_segment(), draw as int)
            || exists|k: int|
            0 < k < input.ops.len() && holds(#[trigger] input.segment_before(k), draw as int),
{
    reveal(ReplayInput::first_segment);
    reveal(ReplayInput::segment_before);
    reveal(ReplayInput::tail_segment);
    let ops = input.ops;
    let n = ops.len() as int;
    if n > 0 {
        assert forall|k: int| 0 <= k < n implies draw != #[trigger] ops[k] by {
            assert(ops.contains(ops[k]));
        }
        if draw < ops[0] {
            assert forall|k: int| 0 <= k < n implies draw < #[trigger] ops[k] by {
                if k > 0 {
                    assert(ops[0] <= ops[k]);
                }
            }
        }
        if ops[n - 1] < draw {
            assert forall|k: int| 0 <= k < n implies #[trigger] ops[k] < draw by {
                if k < n - 1 {
                    assert(ops[k] <= ops[n - 1]);
                }
            }
        }
        if ops[0] < draw && draw < ops[n - 1] {
            let k = lemma_between(ops, draw, 0, n - 1);
            assert(holds(input.segment_before(k), draw as int));
        }
    }
}

/// A backdrop is drawn over exactly what is drawn before it: a draw object that is no
/// backdrop lies in one of the segments up to a backdrop exactly where it comes
/// before the backdrop.
pub proof fn lemma_painted_before(input: ReplayInput, k: int, draw: u32)
    requires
        ops_in_order(input),
        0 <= k < input.ops.len(),
        draw < input.n_draw_objects,
        !input.ops.contains(draw),
    ensures
        (holds(input.first_segment(), draw as int) || exists|j: int|
            0 < j <= k && holds(#[trigger] input.segment_before(j), draw as int)) <==> draw
            < input.ops[k],
{
    let ops = input.ops;
    lemma_segments_cover(input, draw);
    assert forall|j: int| 0 <= j < ops.len() implies draw != #[trigger] ops[j] by {
        assert(ops.contains(ops[j]));
    }
    assert forall|j: int| 0 < j <= k && holds(
        #[trigger] input.segment_before(j),
        draw as int,
    ) implies draw < ops[k] by {
        if j < k {
            assert(ops[j] <= ops[k]);
        }
    }
    if draw < ops[k] && !holds(input.first_segment(), draw as int) {
        let early = choose|j: int| 0 <= j < ops.len() && !(draw < #[trigger] ops[j]);
        if k <= early {
            if k < early {
                assert(ops[k] <= ops[early]);
            }
            if ops[0] < draw {
                let j = lemma_between(ops, draw, 0, k);
                assert(holds(input.segment_before(j), draw as int));
            } else {
                assert(forall|j: int| 0 <= j < ops.len() ==> draw < #[trigger] ops[j]) by {
                    assert forall|j: int| 0 <= j < ops.len() implies draw < #[trigger] ops[j] by {
                        if j > 0 {
                            assert(ops[0] <= ops[j]);
                        }
                    }
                }
            }
        } else {
            let j = lemma_between(ops, draw, early, k);
            assert(holds(input.segment_before(j), draw as int));
        }
    }
}

/// Among backdrops in order there are two in a row around a draw object between
/// the outer two.
proof fn lemma_between(ops: Seq<u32>, draw: u32, low: int, high: int) -> (k: int)
    requires
        0 <= low < high < ops.len(),
        ops[low] < draw,
        draw < ops[high],
        forall|k: int| 0 <= k < ops.len() ==> draw != #[trigger] ops[k],
    ensures
        low < k <= high,
        ops[k - 1] < draw < ops[k],
    decreases high - low,
{
    if high == low + 1 {
        high
    } else if ops[low + 1] < draw {
        lemma_between(ops, draw, low + 1, high)
    } else {
        low + 1
    }
}

/// No segment holds a backdrop.
pub proof fn lemma_segments_leave_out_backdrops(input: ReplayInput, l: int)
    requires
        ops_in_order(input),
        0 <= l < input.ops.len(),
    ensures
        !holds(input.first_segment(), input.ops[l] as int),
        forall|k: int|
            0 < k < input.ops.len() ==> !holds(
                #[trigger] input.segment_before(k),
                input.ops[l] as int,
            ),
        !holds(input.tail_segment(), input.ops[l] as int),
{
    reveal(ReplayInput::first_segment);
    reveal(ReplayInput::segment_before);
    reveal(ReplayInput::tail_segment);
    let ops = input.ops;
    if l > 0 {
        assert(ops[0] <= ops[l]);
    }
    if l < ops.len() - 1 {
        assert(ops[l] <= ops[ops.len() - 1]);
    }
    assert forall|k: int| 0 < k < ops.len() implies !holds(
        #[trigger] input.segment_before(k),
        ops[l] as int,
    ) by {
        if l < k - 1 {
            assert(ops[l] <= ops[k - 1]);
        }
        if k < l {
            assert(ops[k] <= ops[l]);
        }
    }
}

/// Where the layers of a scene nest, a scene with one backdrop can be cut before
/// any draw object.
pub proof fn lemma_single_backdrop_boundaries(input: ReplayInput, draw: u32, paint_free: bool)
    requires
        input.nests(),
        input.single(),
        draw <= input.draw_tags.len(),
    ensures
        input.boundary_allowed(draw, paint_free),
{
    lemma_layers_nest_before(
        input.draw_tags,
        input.draw_data,
        draw as int,
        input.draw_tags.len() as int,
    );
}

/// Where the open layers only clip, a scene can be cut.
pub proof fn lemma_clip_only_boundary(input: ReplayInput, draw: u32, paint_free: bool)
    requires
        input.seed(draw) is Some,
        !input.seed(draw)->0.has_active_non_clip,
    ensures
        input.boundary_allowed(draw, paint_free),
{
}

/// With more than one backdrop, a scene can be cut inside layers that can all be
/// replayed in pieces.
pub proof fn lemma_replay_safe_boundary(input: ReplayInput, draw: u32, paint_free: bool)
    requires
        input.multiple(),
        input.seed(draw) is Some,
        input.seed(draw)->0.active_non_clip_replay_safe,
    ensures
        input.boundary_allowed(draw, paint_free),
{
}

/// With more than one backdrop, a scene can be cut inside any layers behind a range
/// that paints nothing under layers that forbid it.
pub proof fn lemma_paint_free_boundary(input: ReplayInput, draw: u32)
    requires
        input.multiple(),
        input.seed(draw) is Some,
    ensures
        input.boundary_allowed(draw, true),
{
}

/// With more than one backdrop, a scene can be cut behind paint where the layers
/// that forbid it all began after the first backdrop, and not all layers compose
/// source-over.
pub proof fn lemma_late_layers_boundary(input: ReplayInput, draw: u32, paint_free: bool)
    requires
        input.multiple(),
        input.seed(draw) is Some,
        !input.seed(draw)->0.active_non_clip_src_over,
        input.seed(draw)->0.non_replay_safe_non_clip_begin_draws.len() > 0,
        forall|k: int|
            0 <= k < input.seed(draw)->0.non_replay_safe_non_clip_begin_draws.len()
                ==> #[trigger] input.seed(draw)->0.non_replay_safe_non_clip_begin_draws[k]
                > input.first_end(),
    ensures
        input.boundary_allowed(draw, paint_free),
{
}

/// With two backdrops, a scene cannot be cut behind paint inside layers that forbid
/// it, where one of them began before the first backdrop and not all can be
/// replayed in pieces.
pub proof fn lemma_early_layers_boundary(input: ReplayInput, draw: u32, k: int)
    requires
        input.ops.len() == 2,
        input.seed(draw) is Some,
        input.seed(draw)->0.has_active_non_clip,
        !input.seed(draw)->0.active_non_clip_replay_safe,
        0 <= k < input.seed(draw)->0.non_replay_safe_non_clip_begin_draws.len(),
        input.seed(draw)->0.non_replay_safe_non_clip_begin_draws[k] <= input.first_end(),
    ensures
        !input.boundary_allowed(draw, false),
{
}

/// A range all of whose layers close in it can be replayed, unless it starts the
/// scene.
pub proof fn lemma_closed_range_supported(input: ReplayInput, start: u32, end: u32)
    requires
        start > 0,
        input.draw_tags.len() > 0,
        range_layers(
            input.draw_tags,
            input.draw_data,
            data_offsets(input.draw_tags),
            input.multiple(),
            input.multiple(),
            at_most(start as int, input.draw_tags.len() as int),
            at_most(end as int, input.draw_tags.len() as int),
        ) == Some(Seq::<(bool, bool)>::empty()),
    ensures
        input.supported(start, end),
{
}

/// A range that paints nothing is paint-free under any layers, where its layers
/// nest.
pub proof fn lemma_paintless_range(input: ReplayInput, start: u32, end: u32)
    requires
        start <= end <= input.draw_tags.len(),
        span_layers(
            input.draw_tags,
            input.draw_data,
            data_offsets(input.draw_tags),
            seeded_layers(input.seed(start)),
            start as int,
            end as int,
        ) is Some,
        forall|ix: int|
            start <= ix < end ==> !#[trigger] is_effective_paint(
                input.draw_tags,
                input.draw_data,
                data_offsets(input.draw_tags),
                ix,
            ),
    ensures
        input.paint_free(start, end),
{
    let offsets = data_offsets(input.draw_tags);
    let seeded = seeded_layers(input.seed(start));
    assert forall|ix: int| start <= ix < end implies #[trigger] respects_layers(
        input.draw_tags,
        input.draw_data,
        offsets,
        seeded,
        start as int,
        ix,
    ) by {
        lemma_span_nests_before(input, seeded, start as int, ix, end as int);
        lemma_span_nests_before(input, seeded, start as int, ix + 1, end as int);
        assert(!is_effective_paint(input.draw_tags, input.draw_data, offsets, ix));
    }
}

/// Where the layers of a range nest up to a draw object, they nest before it.
proof fn lemma_span_nests_before(
    input: ReplayInput,
    seeded: Seq<bool>,
    start: int,
    ix: int,
    end: int,
)
    requires
        ix <= end,
        span_layers(
            input.draw_tags,
            input.draw_data,
            data_offsets(input.draw_tags),
            seeded,
            start,
            end,
        ) is Some,
    ensures
        span_layers(
            input.draw_tags,
            input.draw_data,
            data_offsets(input.draw_tags),
            seeded,
            start,
            ix,
        ) is Some,
    decreases end - ix,
{
    if ix < end && start < end {
        assert(span_layers(
            input.draw_tags,
            input.draw_data,
            data_offsets(input.draw_tags),
            seeded,
            start,
            end - 1,
        ) is Some);
        lemma_span_nests_before(input, seeded, start, ix, end - 1);
    }
}

/// Whether no layer of a scene does more than clip.
pub open spec fn clips_only(input: ReplayInput) -> bool {
    forall|ix: int|
        0 <= ix < input.draw_tags.len() ==> !#[trigger] begins_non_clip(
            input.draw_tags,
            input.draw_data,
            data_offsets(input.draw_tags),
            ix,
        )
}

/// In a scene whose layers only clip, so do the open ones.
proof fn lemma_clips_only_seed(input: ReplayInput, draw: u32)
    requires
        clips_only(input),
        input.nests(),
        input.draw_tags.len() <= u32::MAX,
        draw <= input.draw_tags.len(),
    ensures
        input.seed(draw) is Some,
        !input.seed(draw)->0.has_active_non_clip,
{
    let offsets = data_offsets(input.draw_tags);
    lemma_layers_nest_before(
        input.draw_tags,
        input.draw_data,
        draw as int,
        input.draw_tags.len() as int,
    );
    lemma_opened_in_order(input.draw_tags, input.draw_data, offsets, draw as int);
    let open = open_layers(input.draw_tags, input.draw_data, offsets, draw as int)->0;
    assert forall|k: int| 0 <= k < open.len() implies (#[trigger] open[k]).1 by {
        let begin = open[k].0 as int;
        assert(!begins_non_clip(input.draw_tags, input.draw_data, offsets, begin));
    }
}

/// In a scene whose layers nest and only clip, the layers of a range do so.
proof fn lemma_clips_only_layers(
    input: ReplayInput,
    allow_src_over: bool,
    require_safe: bool,
    start: int,
    ix: int,
)
    requires
        clips_only(input),
        input.nests(),
        0 <= start,
        ix <= input.draw_tags.len(),
    ensures
        ({
            let layers = range_layers(
                input.draw_tags,
                input.draw_data,
                data_offsets(input.draw_tags),
                allow_src_over,
                require_safe,
                start,
                ix,
            );
            &&& layers is Some
            &&& forall|k: int| 0 <= k < layers->0.len() ==> (#[trigger] layers->0[k]).0
        }),
    decreases ix - start,
{
    if start < ix {
        lemma_clips_only_layers(input, allow_src_over, require_safe, start, ix - 1);
        lemma_layers_nest_before(
            input.draw_tags,
            input.draw_data,
            ix,
            input.draw_tags.len() as int,
        );
        assert(open_layers(
            input.draw_tags,
            input.draw_data,
            data_offsets(input.draw_tags),
            ix,
        ) is Some);
        assert(!begins_non_clip(
            input.draw_tags,
            input.draw_data,
            data_offsets(input.draw_tags),
            ix - 1,
        ));
    }
}

/// In a scene whose layers nest and only clip, any range can be replayed.
pub proof fn lemma_clips_only_range(input: ReplayInput, start: u32, end: u32)
    requires
        clips_only(input),
        input.nests(),
    ensures
        input.supported(start, end),
{
    let len = input.draw_tags.len() as int;
    lemma_clips_only_layers(
        input,
        input.multiple(),
        input.multiple(),
        at_most(start as int, len),
        at_most(end as int, len),
    );
}

/// A scene whose layers nest and only clip can be replayed in segments, whatever
/// its backdrops are.
pub proof fn lemma_clips_only_replayable(input: ReplayInput)
    requires
        clips_only(input),
        input.nests(),
        input.draw_tags.len() <= u32::MAX,
        input.n_draw_objects <= input.draw_tags.len(),
        ops_in_order(input),
    ensures
        input.replayable(),
{
    lemma_clips_only_range(input, 0, input.first_end());
    assert forall|k: int| 0 <= k < input.ops.len() implies #[trigger] input.op_allowed(k) by {
        lemma_clips_only_seed(input, input.ops[k]);
        if input.cursor(k) < input.ops[k] {
            lemma_clips_only_seed(input, input.cursor(k));
            lemma_clips_only_range(input, input.cursor(k), input.ops[k]);
        }
    }
    let cursor = input.cursor(input.ops.len() as int);
    if cursor < input.n_draw_objects {
        lemma_clips_only_seed(input, cursor);
        lemma_clips_only_range(input, cursor, input.n_draw_objects);
    }
}

/// The layers that began in a range are no more than the open ones.
proof fn lemma_range_layers_len(input: ReplayInput, start: int, ix: int)
    requires
        input.nests(),
        0 <= start,
        ix <= input.draw_tags.len(),
    ensures
        ({
            let offsets = data_offsets(input.draw_tags);
            let layers = range_layers(
                input.draw_tags,
                input.draw_data,
                offsets,
                input.multiple(),
                input.multiple(),
                start,
                ix,
            );
            &&& layers is Some
            &&& start <= ix ==> layers->0.len() <= open_layers(
                input.draw_tags,
                input.draw_data,
                offsets,
                ix,
            )->0.len()
        }),
    decreases ix - start,
{
    if start < ix {
        lemma_range_layers_len(input, start, ix - 1);
        lemma_layers_nest_before(
            input.draw_tags,
            input.draw_data,
            ix,
            input.draw_tags.len() as int,
        );
        assert(open_layers(
            input.draw_tags,
            input.draw_data,
            data_offsets(input.draw_tags),
            ix,
        ) is Some);
        assert(open_layers(
            input.draw_tags,
            input.draw_data,
            data_offsets(input.draw_tags),
            ix - 1,
        ) is Some);
    }
}

/// A scene with one backdrop, whose layers nest and are closed at its end, can be
/// replayed in segments where every layer that does more than clip and begins
/// before the backdrop is still open at it.
pub proof fn lemma_single_backdrop_replayable(input: ReplayInput)
    requires
        input.single(),
        ops_in_order(input),
        input.n_draw_objects == input.draw_tags.len(),
        seed_at(input.draw_tags, input.draw_data, input.draw_tags.len() as int) is Some,
        seed_at(
            input.draw_tags,
            input.draw_data,
            input.draw_tags.len() as int,
        )->0.begin_draws.len() == 0,
        first_range_supported(
            input.draw_tags,
            input.draw_data,
            data_offsets(input.draw_tags),
            input.ops[0] as int,
            false,
            false,
        ),
    ensures
        input.replayable(),
{
    let n = input.n_draw_objects;
    let cursor = input.cursor(1);
    assert(input.op_allowed(0)) by {
        lemma_single_backdrop_boundaries(
            input,
            input.ops[0],
            input.paint_free(input.boundary_range_start(0), input.ops[0]),
        );
    }
    if cursor < n {
        lemma_single_backdrop_boundaries(input, cursor, input.paint_free(cursor, n));
        lemma_range_layers_len(input, cursor as int, n as int);
    }
}

} // verus!
