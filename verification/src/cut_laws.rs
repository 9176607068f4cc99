//! Where a scene is cut at its backdrops: what every cut keeps to.

use vstd::prelude::*;

use crate::encoding::{DrawBeginClip, DrawTag};

verus! {

use crate::layer_laws::{lemma_layers_nest_before, lemma_opened_in_order};
use crate::layers::{
    data_offsets, is_replay_safe, is_src_over, open_layers, requires_paint_free, seed_at,
    seed_of, OpenLayer,
};
use crate::ranges::{
    at_most, begins_non_clip, first_range_supported, is_effective_paint, range_layers,
    respects_layers, seeded_layers, span_layers, still_open,
};
use crate::replay::ReplayInput;
use crate::segment_laws::{lemma_seeds_are_open_layers, more_than_clips, opens_until};

/// Whether a replayed range may paint nothing inside the layer that a draw object begins.
pub open spec fn forbids_paint(input: ReplayInput, draw: int) -> bool {
    &&& more_than_clips(input.draw_tags, input.draw_data, draw)
    &&& requires_paint_free(input.draw_data, data_offsets(input.draw_tags)[draw] as int)
}

/// Whether a draw object paints inside a layer that forbids it.
pub open spec fn paints_against(input: ReplayInput, ix: int) -> bool {
    &&& is_effective_paint(input.draw_tags, input.draw_data, data_offsets(input.draw_tags), ix)
    &&& exists|draw: u32| #[trigger]
        opens_until(input.draw_tags, draw as int, ix) && forbids_paint(input, draw as int)
}

/// Whether an open layer forbids paint.
spec fn forbidding(layer: OpenLayer) -> bool {
    !layer.1 && layer.4
}

/// For each open layer, whether it forbids paint.
spec fn flags_of(open: Seq<OpenLayer>) -> Seq<bool> {
    Seq::new(open.len(), |k: int| forbidding(open[k]))
}

/// The open layers of a scene whose layers nest.
spec fn open_at(input: ReplayInput, at: int) -> Seq<OpenLayer> {
    open_layers(input.draw_tags, input.draw_data, data_offsets(input.draw_tags), at)->0
}

/// An open layer is one that a draw object begins and that is still open.
proof fn lemma_open_layer(input: ReplayInput, at: int, draw: u32)
    requires
        0 <= at <= input.draw_tags.len(),
        input.draw_tags.len() <= u32::MAX,
        input.nests(),
    ensures
        opens_until(input.draw_tags, draw as int, at) <==> exists|k: int|
            0 <= k < open_at(input, at).len() && (#[trigger] open_at(input, at)[k]).0 == draw,
        forall|k: int|
            0 <= k < open_at(input, at).len() && (#[trigger] open_at(input, at)[k]).0 == draw ==> {
                let layer = open_at(input, at)[k];
                let offset = data_offsets(input.draw_tags)[draw as int] as int;
                &&& layer.1 == !more_than_clips(input.draw_tags, input.draw_data, draw as int)
                &&& layer.2 == (layer.1 || is_src_over(input.draw_data, offset))
                &&& layer.3 == (layer.1 || is_replay_safe(input.draw_data, offset))
                &&& forbidding(layer) == forbids_paint(input, draw as int)
            },
{
    let tags = input.draw_tags;
    let data = input.draw_data;
    let open = open_at(input, at);
    lemma_layers_nest_before(tags, data, at, tags.len() as int);
    lemma_opened_in_order(tags, data, data_offsets(tags), at);
    lemma_seeds_are_open_layers(tags, data, draw, at);
    let draws = seed_at(tags, data, at)->0.begin_draws;
    assert forall|k: int| 0 <= k < draws.len() implies #[trigger] draws[k] == open[k].0 by {}
    if draws.contains(draw) {
        let k = choose|k: int| 0 <= k < draws.len() && draws[k] == draw;
        assert(open[k].0 == draw);
    }
    if exists|k: int| 0 <= k < open.len() && (#[trigger] open[k]).0 == draw {
        let k = choose|k: int| 0 <= k < open.len() && (#[trigger] open[k]).0 == draw;
        assert(draws[k] == draw);
    }
}

/// What a seed says of paint is what the open layers say.
proof fn lemma_seeded_flags(input: ReplayInput, at: int)
    requires
        0 <= at <= input.draw_tags.len(),
        input.draw_tags.len() <= u32::MAX,
        input.nests(),
    ensures
        seeded_layers(seed_at(input.draw_tags, input.draw_data, at)) == flags_of(
            open_at(input, at),
        ),
{
    let tags = input.draw_tags;
    let data = input.draw_data;
    let open = open_at(input, at);
    lemma_layers_nest_before(tags, data, at, tags.len() as int);
    lemma_opened_in_order(tags, data, data_offsets(tags), at);
    let seed = seed_of(open);
    let keep = |layer: OpenLayer| !layer.1 && layer.4;
    let kept = open.filter(keep);
    let named = seed.non_replay_safe_non_clip_begin_draws;
    let flags = seeded_layers(Some(seed));
    assert forall|k: int| 0 <= k < open.len() implies #[trigger] flags[k] == forbidding(open[k]) by {
        assert(seed.begin_draws[k] == open[k].0);
        if named.contains(open[k].0) {
            let j = choose|j: int| 0 <= j < named.len() && named[j] == open[k].0;
            assert(named[j] == kept[j].0);
            open.lemma_filter_pred(keep, j);
            assert(kept.contains(kept[j]));
            open.lemma_filter_contains_rev(keep, kept[j]);
            let l = choose|l: int| 0 <= l < open.len() && open[l] == kept[j];
            assert(open[l].0 == open[k].0);
            assert(l == k) by {
                if l < k {
                    assert(open[l].0 < open[k].0);
                }
                if k < l {
                    assert(open[k].0 < open[l].0);
                }
            }
        }
        if keep(open[k]) {
            open.lemma_filter_contains(keep, k);
            let j = choose|j: int| 0 <= j < kept.len() && kept[j] == open[k];
            assert(named[j] == open[k].0);
        }
    }
    assert(flags =~= flags_of(open));
}

/// The layers of a range, with those that were open before it, are the open ones.
proof fn lemma_span_flags(input: ReplayInput, start: int, ix: int)
    requires
        0 <= start <= ix <= input.draw_tags.len(),
        input.draw_tags.len() <= u32::MAX,
        input.nests(),
    ensures
        span_layers(
            input.draw_tags,
            input.draw_data,
            data_offsets(input.draw_tags),
            seeded_layers(seed_at(input.draw_tags, input.draw_data, start)),
            start,
            ix,
        ) == Some(flags_of(open_at(input, ix))),
    decreases ix - start,
{
    let tags = input.draw_tags;
    let data = input.draw_data;
    if ix == start {
        lemma_seeded_flags(input, start);
    } else {
        lemma_span_flags(input, start, ix - 1);
        lemma_layers_nest_before(tags, data, ix, tags.len() as int);
        lemma_layers_nest_before(tags, data, ix - 1, tags.len() as int);
        let before = flags_of(open_at(input, ix - 1));
        let after = flags_of(open_at(input, ix));
        if tags[ix - 1] == DrawTag::BEGIN_CLIP {
            let offset = data_offsets(tags)[ix - 1] as int;
            assert(after =~= before.push(
                data[offset] != DrawBeginClip::CLIP_BLEND_MODE && requires_paint_free(data, offset),
            ));
        } else if tags[ix - 1] == DrawTag::END_CLIP {
            assert(after =~= before.drop_last());
        }
    }
}

/// A range of a scene whose layers nest is paint-free exactly where none of its draw
/// objects paints inside a layer that forbids it, wherever that layer began.
pub proof fn lemma_paint_free_range(input: ReplayInput, start: u32, end: u32)
    requires
        input.nests(),
        input.draw_tags.len() <= u32::MAX,
        start <= end <= input.draw_tags.len(),
    ensures
        input.paint_free(start, end) <==> forall|ix: int|
            start <= ix < end ==> !#[trigger] paints_against(input, ix),
{
    let tags = input.draw_tags;
    let data = input.draw_data;
    let offsets = data_offsets(tags);
    let seeded = seeded_layers(input.seed(start));
    assert forall|ix: int| start <= ix < end implies #[trigger] respects_layers(
        tags,
        data,
        offsets,
        seeded,
        start as int,
        ix,
    ) == !paints_against(input, ix) by {
        lemma_span_flags(input, start as int, ix);
        lemma_span_flags(input, start as int, ix + 1);
        let open = open_at(input, ix);
        let flags = flags_of(open);
        if flags.contains(true) {
            let k = choose|k: int| 0 <= k < flags.len() && flags[k];
            let draw = open[k].0;
            lemma_open_layer(input, ix, draw);
            assert(open_at(input, ix)[k].0 == draw);
            assert(opens_until(tags, draw as int, ix) && forbids_paint(input, draw as int));
        }
        if exists|draw: u32| #[trigger]
            opens_until(tags, draw as int, ix) && forbids_paint(input, draw as int) {
            let draw = choose|draw: u32| #[trigger]
                opens_until(tags, draw as int, ix) && forbids_paint(input, draw as int);
            lemma_open_layer(input, ix, draw);
            let k = choose|k: int|
                0 <= k < open_at(input, ix).len() && (#[trigger] open_at(input, ix)[k]).0 == draw;
            assert(flags[k]);
        }
    }
    let from = at_most(start as int, tags.len() as int);
    let to = at_most(end as int, tags.len() as int);
    assert(from == start && to == end);
    assert(input.paint_free(start, end) == forall|ix: int|
        from <= ix < to ==> #[trigger] respects_layers(tags, data, offsets, seeded, from, ix));
    if input.paint_free(start, end) {
        assert forall|ix: int| start <= ix < end implies !#[trigger] paints_against(input, ix) by {
            assert(respects_layers(tags, data, offsets, seeded, start as int, ix));
        }
    }
}

/// Whether the draw objects from `start` to `end` paint inside a layer that forbids it.
pub open spec fn painted_against(input: ReplayInput, start: int, end: int) -> bool {
    exists|ix: int| start <= ix < end && #[trigger] paints_against(input, ix)
}

/// Whether the layers that are open before a draw object only clip.
pub open spec fn only_clips(input: ReplayInput, at: int) -> bool {
    forall|draw: u32| #[trigger]
        opens_until(input.draw_tags, draw as int, at) ==> !more_than_clips(
            input.draw_tags,
            input.draw_data,
            draw as int,
        )
}

/// Whether the layers that are open before a draw object only clip, or can be replayed in
/// pieces.
pub open spec fn only_pieces(input: ReplayInput, at: int) -> bool {
    forall|draw: u32| #[trigger]
        opens_until(input.draw_tags, draw as int, at) && more_than_clips(
            input.draw_tags,
            input.draw_data,
            draw as int,
        ) ==> is_replay_safe(input.draw_data, data_offsets(input.draw_tags)[draw as int] as int)
}

/// Whether the layers that are open before a draw object and forbid paint all began behind
/// the first backdrop.
pub open spec fn only_late(input: ReplayInput, at: int) -> bool {
    forall|draw: u32| #[trigger]
        opens_until(input.draw_tags, draw as int, at) && forbids_paint(input, draw as int) ==> draw
            > input.ops[0]
}

/// Whether a cut before a draw object, behind a range from `start` to `end`, keeps what is
/// to be seen: there is but one backdrop, or no open layer is cut that does more than clip
/// and cannot be replayed in pieces; or nothing was painted in the range inside a layer that
/// forbids it; or such layers all began behind the first backdrop; or, with more than two
/// backdrops, nothing was painted inside of such layers before the first one.
pub open spec fn sound_cut(input: ReplayInput, at: int, start: int, end: int) -> bool {
    ||| input.ops.len() <= 1
    ||| only_clips(input, at)
    ||| only_pieces(input, at)
    ||| !painted_against(input, start, end)
    ||| only_late(input, at)
    ||| input.ops.len() > 2 && !painted_against(input, 0, input.ops[0] as int)
}

/// A boundary that is allowed is a sound cut.
proof fn lemma_boundary_sound(input: ReplayInput, at: u32, start: u32, end: u32)
    requires
        input.replayable(),
        input.draw_tags.len() <= u32::MAX,
        input.ops.len() > 0,
        at <= input.draw_tags.len(),
        start <= end <= input.draw_tags.len(),
        input.boundary_allowed(at, input.paint_free(start, end)),
    ensures
        sound_cut(input, at as int, start as int, end as int),
{
    let tags = input.draw_tags;
    let data = input.draw_data;
    let open = open_at(input, at as int);
    lemma_layers_nest_before(tags, data, at as int, tags.len() as int);
    let seed = seed_of(open);
    assert(input.seed(at) == Some(seed));
    lemma_paint_free_range(input, start, end);
    assert(input.ops[0] < tags.len());
    lemma_paint_free_range(input, 0, input.ops[0]);
    if !seed.has_active_non_clip {
        assert forall|draw: u32| #[trigger]
            opens_until(tags, draw as int, at as int) implies !more_than_clips(
            tags,
            data,
            draw as int,
        ) by {
            lemma_open_layer(input, at as int, draw);
            let k = choose|k: int|
                0 <= k < open_at(input, at as int).len() && (#[trigger] open_at(
                    input,
                    at as int,
                )[k]).0 == draw;
            assert(open[k].1);
        }
    } else if input.ops.len() > 1 && seed.active_non_clip_replay_safe {
        assert forall|draw: u32| #[trigger]
            opens_until(tags, draw as int, at as int) && more_than_clips(
                tags,
                data,
                draw as int,
            ) implies is_replay_safe(data, data_offsets(tags)[draw as int] as int) by {
            lemma_open_layer(input, at as int, draw);
            let k = choose|k: int|
                0 <= k < open_at(input, at as int).len() && (#[trigger] open_at(
                    input,
                    at as int,
                )[k]).0 == draw;
            assert(!open[k].1 && open[k].3);
        }
    } else if input.ops.len() > 1 && !input.paint_free(start, end)
        && !input.first_range_counts() {
        let begins = seed.non_replay_safe_non_clip_begin_draws;
        let keep = |layer: OpenLayer| !layer.1 && layer.4;
        let kept = open.filter(keep);
        assert forall|draw: u32| #[trigger]
            opens_until(tags, draw as int, at as int) && forbids_paint(
                input,
                draw as int,
            ) implies draw > input.ops[0] by {
            lemma_open_layer(input, at as int, draw);
            let k = choose|k: int|
                0 <= k < open_at(input, at as int).len() && (#[trigger] open_at(
                    input,
                    at as int,
                )[k]).0 == draw;
            assert(keep(open[k]));
            open.lemma_filter_contains(keep, k);
            let j = choose|j: int| 0 <= j < kept.len() && kept[j] == open[k];
            assert(begins[j] == draw);
        }
    }
}

/// A scene that is replayed in segments is cut soundly at each of its backdrops, before it
/// and behind the one before it, and behind the last one.
pub proof fn lemma_cuts_are_sound(input: ReplayInput, k: int)
    requires
        input.replayable(),
        input.draw_tags.len() <= u32::MAX,
        input.n_draw_objects <= input.draw_tags.len(),
        0 <= k < input.ops.len(),
    ensures
        ({
            let op = input.ops[k];
            let from = if op == input.ops[0] {
                0
            } else {
                input.cursor(k)
            };
            &&& 0 < op && from <= op ==> sound_cut(input, op as int, from as int, op as int)
            &&& input.cursor(k) < op ==> sound_cut(
                input,
                input.cursor(k) as int,
                from as int,
                op as int,
            )
        }),
        ({
            let last = input.cursor(input.ops.len() as int);
            let end = input.n_draw_objects;
            last < end ==> sound_cut(input, last as int, last as int, end as int)
        }),
{
    let op = input.ops[k];
    let from = input.boundary_range_start(k);
    assert(input.op_allowed(k));
    assert(op < input.draw_tags.len());
    if 0 < op && from <= op {
        lemma_boundary_sound(input, op, from, op);
    }
    if input.cursor(k) < op {
        if input.cursor(k) > 0 {
            lemma_boundary_sound(input, input.cursor(k), from, op);
        } else {
            assert(only_clips(input, 0));
        }
    }
    let last = input.cursor(input.ops.len() as int);
    if last < input.n_draw_objects {
        if last > 0 {
            lemma_boundary_sound(input, last, last, input.n_draw_objects);
        } else {
            assert(only_clips(input, 0));
        }
    }
}

/// Whether the layer that a draw object begins may be cut with more than one backdrop: it
/// can be replayed in pieces.
pub open spec fn may_be_cut(input: ReplayInput, draw: int) -> bool {
    &&& input.ops.len() > 1
    &&& is_replay_safe(input.draw_data, data_offsets(input.draw_tags)[draw] as int)
}

/// The layers of a range that are open are the inner ones of all that are open: `outer` of
/// them began before the range.
proof fn lemma_range_open(input: ReplayInput, start: int, ix: int) -> (outer: int)
    requires
        0 <= start <= ix <= input.draw_tags.len(),
        input.draw_tags.len() <= u32::MAX,
        input.nests(),
    ensures
        ({
            let open = open_at(input, ix);
            let layers = range_layers(
                input.draw_tags,
                input.draw_data,
                data_offsets(input.draw_tags),
                input.multiple(),
                input.multiple(),
                start,
                ix,
            );
            &&& 0 <= outer <= open.len()
            &&& forall|k: int| 0 <= k < outer ==> (#[trigger] open[k]).0 < start
            &&& forall|k: int| outer <= k < open.len() ==> (#[trigger] open[k]).0 >= start
            &&& layers is Some
            &&& layers->0.len() == open.len() - outer
            &&& forall|j: int|
                #![trigger layers->0[j]]
                0 <= j < layers->0.len() ==> {
                    let layer = open[outer + j];
                    layers->0[j] == (layer.1, layer.1 || may_be_cut(input, layer.0 as int))
                }
        }),
    decreases ix - start,
{
    let tags = input.draw_tags;
    let data = input.draw_data;
    let offsets = data_offsets(tags);
    let open = open_at(input, ix);
    lemma_layers_nest_before(tags, data, ix, tags.len() as int);
    lemma_opened_in_order(tags, data, offsets, ix);
    if ix == start {
        open.len() as int
    } else {
        let before = open_at(input, ix - 1);
        lemma_layers_nest_before(tags, data, ix - 1, tags.len() as int);
        let outer = lemma_range_open(input, start, ix - 1);
        if tags[ix - 1] == DrawTag::END_CLIP {
            assert(open == before.drop_last());
            if outer == before.len() {
                outer - 1
            } else {
                outer
            }
        } else {
            if tags[ix - 1] == DrawTag::BEGIN_CLIP {
                assert(open.drop_last() =~= before);
            }
            outer
        }
    }
}

/// A range of a scene whose layers nest can be replayed exactly where each layer that
/// begins in it, does more than clip and is still open at its end may be cut; and where,
/// if the range starts the scene, each layer in it that does more than clip may be cut.
pub proof fn lemma_supported_range(input: ReplayInput, start: u32, end: u32)
    requires
        input.nests(),
        input.draw_tags.len() <= u32::MAX,
        start <= end <= input.draw_tags.len(),
    ensures
        input.supported(start, end) <==> {
            &&& forall|draw: u32|
                start <= draw && #[trigger] opens_until(input.draw_tags, draw as int, end as int)
                    && more_than_clips(input.draw_tags, input.draw_data, draw as int)
                    ==> may_be_cut(input, draw as int)
            &&& start == 0 ==> forall|draw: int|
                0 <= draw < end && #[trigger] input.draw_tags[draw] == DrawTag::BEGIN_CLIP
                    && more_than_clips(input.draw_tags, input.draw_data, draw) ==> may_be_cut(
                    input,
                    draw,
                )
        },
{
    let tags = input.draw_tags;
    let data = input.draw_data;
    let offsets = data_offsets(tags);
    let open = open_at(input, end as int);
    let from = at_most(start as int, tags.len() as int);
    let to = at_most(end as int, tags.len() as int);
    assert(from == start && to == end);
    let outer = lemma_range_open(input, start as int, end as int);
    let layers = range_layers(
        tags,
        data,
        offsets,
        input.multiple(),
        input.multiple(),
        start as int,
        end as int,
    )->0;
    let inner_fine = forall|k: int| 0 <= k < layers.len() ==> (#[trigger] layers[k]).0 || layers[k].1;
    let open_fine = forall|draw: u32|
        start <= draw && #[trigger] opens_until(tags, draw as int, end as int) && more_than_clips(
            tags,
            data,
            draw as int,
        ) ==> may_be_cut(input, draw as int);
    if inner_fine {
        assert forall|draw: u32|
            start <= draw && #[trigger] opens_until(tags, draw as int, end as int)
                && more_than_clips(tags, data, draw as int) implies may_be_cut(
            input,
            draw as int,
        ) by {
            lemma_open_layer(input, end as int, draw);
            let k = choose|k: int|
                0 <= k < open_at(input, end as int).len() && (#[trigger] open_at(
                    input,
                    end as int,
                )[k]).0 == draw;
            assert(open[k].0 >= start);
            assert(layers[k - outer].0 || layers[k - outer].1);
        }
    }
    if open_fine {
        assert forall|k: int| 0 <= k < layers.len() implies (#[trigger] layers[k]).0 || layers[k].1 by {
            let draw = open[outer + k].0;
            lemma_open_layer(input, end as int, draw);
            assert(open_at(input, end as int)[outer + k].0 == draw);
            assert(opens_until(tags, draw as int, end as int));
        }
    }
    assert forall|draw: int| 0 <= draw < end implies (#[trigger] begins_non_clip(
        tags,
        data,
        offsets,
        draw,
    ) <==> tags[draw] == DrawTag::BEGIN_CLIP && more_than_clips(tags, data, draw)) by {
    }
    if start == 0 && input.supported(start, end) {
        assert forall|draw: int|
            0 <= draw < end && #[trigger] tags[draw] == DrawTag::BEGIN_CLIP && more_than_clips(
                tags,
                data,
                draw,
            ) implies may_be_cut(input, draw) by {
            assert(begins_non_clip(tags, data, offsets, draw));
        }
    }
}

/// The range before the first backdrop can be replayed with its layers closed behind it
/// exactly where each of its layers that does more than clip is still open at its end.
pub proof fn lemma_closable_first_range(input: ReplayInput, end: u32)
    requires
        input.nests(),
        input.draw_tags.len() <= u32::MAX,
        end <= input.draw_tags.len(),
    ensures
        first_range_supported(
            input.draw_tags,
            input.draw_data,
            data_offsets(input.draw_tags),
            end as int,
            false,
            false,
        ) <==> forall|draw: u32|
            draw < end && #[trigger] input.draw_tags[draw as int] == DrawTag::BEGIN_CLIP
                && more_than_clips(input.draw_tags, input.draw_data, draw as int) ==> opens_until(
                input.draw_tags,
                draw as int,
                end as int,
            ),
{
    let tags = input.draw_tags;
    let data = input.draw_data;
    let offsets = data_offsets(tags);
    let open = open_at(input, end as int);
    lemma_layers_nest_before(tags, data, end as int, tags.len() as int);
    assert(at_most(end as int, tags.len() as int) == end);
    assert forall|draw: u32| draw < end implies (#[trigger] still_open(open, draw as int)
        <==> opens_until(tags, draw as int, end as int)) by {
        lemma_open_layer(input, end as int, draw);
        if still_open(open, draw as int) {
            let k = choose|k: int| 0 <= k < open.len() && (#[trigger] open[k]).0 == draw as int;
            assert(open_at(input, end as int)[k].0 == draw);
        }
    }
    if first_range_supported(tags, data, offsets, end as int, false, false) {
        assert forall|draw: u32|
            draw < end && #[trigger] tags[draw as int] == DrawTag::BEGIN_CLIP && more_than_clips(
                tags,
                data,
                draw as int,
            ) implies opens_until(tags, draw as int, end as int) by {
            assert(begins_non_clip(tags, data, offsets, draw as int));
            assert(still_open(open, draw as int));
        }
    } else {
        let ix = choose|ix: int|
            0 <= ix < end && #[trigger] begins_non_clip(tags, data, offsets, ix) && !still_open(
                open,
                ix,
            );
        let draw = ix as u32;
        assert(draw as int == ix);
        assert(tags[draw as int] == DrawTag::BEGIN_CLIP);
        assert(still_open(open, draw as int) <==> opens_until(tags, draw as int, end as int));
    }
}

/// Whether no layer that begins in a range and does more than clip is cut at its end unless
/// it may be.
pub open spec fn leaves_only_cuttable(input: ReplayInput, start: int, end: int) -> bool {
    forall|draw: u32|
        start <= draw && #[trigger] opens_until(input.draw_tags, draw as int, end)
            && more_than_clips(input.draw_tags, input.draw_data, draw as int) ==> may_be_cut(
            input,
            draw as int,
        )
}

/// In a scene that is replayed in segments, no segment behind a backdrop leaves a layer
/// open that it began, that does more than clip and may not be cut; unless there is more
/// than one backdrop, and the segment paints nothing inside a layer that forbids it. The
/// segment before the first backdrop either has no layer that does more than clip and may
/// not be cut; or all its layers that do more than clip are still open at its end, and
/// there is but one backdrop, or it paints nothing inside a layer that forbids it.
pub proof fn lemma_segments_are_sound(input: ReplayInput, k: int)
    requires
        input.replayable(),
        input.draw_tags.len() <= u32::MAX,
        input.n_draw_objects <= input.draw_tags.len(),
        0 <= k < input.ops.len(),
        input.ops[0] <= input.ops[k],
    ensures
        ({
            let op = input.ops[k];
            let from = input.cursor(k);
            from < op ==> leaves_only_cuttable(input, from as int, op as int) || (input.ops.len()
                > 1 && !painted_against(input, from as int, op as int))
        }),
        ({
            let last = input.cursor(input.ops.len() as int);
            let end = input.n_draw_objects;
            last < end ==> leaves_only_cuttable(input, last as int, end as int) || (input.ops.len()
                > 1 && !painted_against(input, last as int, end as int))
        }),
        ({
            let first = input.ops[0];
            ||| forall|draw: int|
                0 <= draw < first && #[trigger] input.draw_tags[draw] == DrawTag::BEGIN_CLIP
                    && more_than_clips(input.draw_tags, input.draw_data, draw) ==> may_be_cut(
                    input,
                    draw,
                )
            ||| {
                &&& input.ops.len() == 1 || !painted_against(input, 0, first as int)
                &&& forall|draw: u32|
                    draw < first && #[trigger] input.draw_tags[draw as int] == DrawTag::BEGIN_CLIP
                        && more_than_clips(input.draw_tags, input.draw_data, draw as int)
                        ==> opens_until(input.draw_tags, draw as int, first as int)
            }
        }),
{
    let op = input.ops[k];
    let from = input.cursor(k);
    let first = input.ops[0];
    let last = input.cursor(input.ops.len() as int);
    assert(input.op_allowed(k));
    assert(op < input.draw_tags.len());
    assert(first < input.draw_tags.len());
    if from < op {
        lemma_supported_range(input, from, op);
        if k == 0 {
            assert(from == op);
        } else if op == first {
            lemma_paint_free_range(input, 0, op);
        } else {
            lemma_paint_free_range(input, from, op);
        }
    }
    if last < input.n_draw_objects {
        lemma_supported_range(input, last, input.n_draw_objects);
        lemma_paint_free_range(input, last, input.n_draw_objects);
    }
    lemma_supported_range(input, 0, first);
    lemma_paint_free_range(input, 0, first);
    lemma_closable_first_range(input, first);
    assert(input.first_range_allowed());
}

} // verus!
