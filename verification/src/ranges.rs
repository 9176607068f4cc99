//! Which ranges of draw objects can be replayed on their own.

use std::collections::BTreeSet;
use vstd::prelude::*;

use crate::encoding::{DrawBeginClip, DrawTag};
use crate::index_set::{index_set, index_set_contains};
use crate::layers::{
    begin_clip_replay_safe, begin_clip_requires_active_span_paint_free, begin_clip_src_over,
    LayerSeedState,
};

verus! {

use crate::layers::{
    is_replay_safe, is_src_over, lemma_open_layers_stay_none, open_layers, requires_paint_free,
    LayerSeed, OpenLayer,
};

/// The smaller of two numbers.
pub open spec fn at_most(value: int, limit: int) -> int {
    if value <= limit {
        value
    } else {
        limit
    }
}

/// Whether the draw object `ix` begins a layer that does more than clip.
pub open spec fn begins_non_clip(
    draw_tags: Seq<u32>,
    draw_data: Seq<u32>,
    offsets: Seq<usize>,
    ix: int,
) -> bool {
    &&& draw_tags[ix] == DrawTag::BEGIN_CLIP
    &&& draw_data[offsets[ix] as int] != DrawBeginClip::CLIP_BLEND_MODE
}

// ---------------------------------------------------------------------------
// The range before the first backdrop
// ---------------------------------------------------------------------------

/// Whether one of the open layers was begun by draw object `ix`.
pub open spec fn still_open(open: Seq<OpenLayer>, ix: int) -> bool {
    exists|k: int| 0 <= k < open.len() && (#[trigger] open[k]).0 == ix
}

/// Whether the range up to `draw_end` can be replayed when its open layers are
/// closed behind it: its layers nest, and every layer that does more than clip
/// is still open at its end and has the demanded parameters.
pub open spec fn first_range_supported(
    draw_tags: Seq<u32>,
    draw_data: Seq<u32>,
    offsets: Seq<usize>,
    draw_end: int,
    require_src_over: bool,
    require_safe: bool,
) -> bool {
    let end = at_most(draw_end, draw_tags.len() as int);
    match open_layers(draw_tags, draw_data, offsets, end) {
        None => false,
        Some(open) => forall|ix: int|
            0 <= ix < end && #[trigger] begins_non_clip(draw_tags, draw_data, offsets, ix) ==> {
                &&& require_src_over ==> is_src_over(draw_data, offsets[ix] as int)
                &&& require_safe ==> is_replay_safe(draw_data, offsets[ix] as int)
                &&& still_open(open, ix)
            },
    }
}

/// Whether the draw objects before `ix` leave it open whether the range can be
/// replayed: their layers nest and have the demanded parameters.
pub open spec fn first_range_reaches(
    draw_tags: Seq<u32>,
    draw_data: Seq<u32>,
    offsets: Seq<usize>,
    require_src_over: bool,
    require_safe: bool,
    ix: int,
) -> bool {
    &&& open_layers(draw_tags, draw_data, offsets, ix) is Some
    &&& forall|begin: int|
        0 <= begin < ix && #[trigger] begins_non_clip(draw_tags, draw_data, offsets, begin) ==> {
            &&& require_src_over ==> is_src_over(draw_data, offsets[begin] as int)
            &&& require_safe ==> is_replay_safe(draw_data, offsets[begin] as int)
        }
}

/// Whether the range up to `draw_end` can be replayed when its open layers are
/// closed behind it. Each layer that is looked at has an offset.
pub fn first_range_supports_seeded_non_clip_layers(
    draw_tags: &[u32],
    draw_data: &[u32],
    draw_offsets: &[usize],
    draw_end: u32,
    require_src_over_non_clip: bool,
    require_safe_non_clip: bool,
) -> (supported: bool)
    requires
        forall|ix: int|
            0 <= ix < draw_end && ix < draw_tags@.len() && #[trigger] draw_tags@[ix]
                == DrawTag::BEGIN_CLIP && first_range_reaches(
                draw_tags@,
                draw_data@,
                draw_offsets@,
                require_src_over_non_clip,
                require_safe_non_clip,
                ix,
            ) ==> ix < draw_offsets@.len(),
    ensures
        supported == first_range_supported(
            draw_tags@,
            draw_data@,
            draw_offsets@,
            draw_end as int,
            require_src_over_non_clip,
            require_safe_non_clip,
        ),
{
    let end: usize = if (draw_end as usize) < draw_tags.len() {
        draw_end as usize
    } else {
        draw_tags.len()
    };
    if end == 0 {
        return true;
    }
    let ghost tags = draw_tags@;
    let ghost data = draw_data@;
    let ghost offsets = draw_offsets@;
    let mut stack: Vec<(u32, bool, bool, bool)> = Vec::new();
    let mut non_clip_begins: Vec<(u32, bool, bool)> = Vec::new();
    let mut ix: usize = 0;
    while ix < end
        invariant
            ix <= end <= draw_tags.len(),
            end == at_most(draw_end as int, tags.len() as int),
            end <= u32::MAX,
            forall|ix: int|
                0 <= ix < draw_end && ix < draw_tags@.len() && #[trigger] draw_tags@[ix]
                    == DrawTag::BEGIN_CLIP && first_range_reaches(
                    draw_tags@,
                    draw_data@,
                    draw_offsets@,
                    require_src_over_non_clip,
                    require_safe_non_clip,
                    ix,
                ) ==> ix < draw_offsets@.len(),
            tags == draw_tags@,
            data == draw_data@,
            offsets == draw_offsets@,
            open_layers(tags, data, offsets, ix as int) is Some,
            stack.len() == open_layers(tags, data, offsets, ix as int)->0.len(),
            forall|k: int|
                #![trigger stack[k]]
                #![trigger open_layers(tags, data, offsets, ix as int)->0[k]]
                0 <= k < stack.len() ==> {
                    let layer = open_layers(tags, data, offsets, ix as int)->0[k];
                    stack[k].0 == layer.0 && stack[k].1 == layer.1
                },
            forall|k: int|
                0 <= k < non_clip_begins.len() ==> {
                    let begin = (#[trigger] non_clip_begins[k]).0 as int;
                    &&& 0 <= begin < ix
                    &&& begins_non_clip(tags, data, offsets, begin)
                    &&& non_clip_begins[k].1 == is_src_over(data, offsets[begin] as int)
                    &&& non_clip_begins[k].2 == is_replay_safe(data, offsets[begin] as int)
                },
            forall|begin: int|
                0 <= begin < ix && #[trigger] begins_non_clip(tags, data, offsets, begin) ==> {
                    &&& exists|k: int|
                        0 <= k < non_clip_begins.len() && (#[trigger] non_clip_begins[k]).0 == begin
                    &&& require_src_over_non_clip ==> is_src_over(data, offsets[begin] as int)
                    &&& require_safe_non_clip ==> is_replay_safe(data, offsets[begin] as int)
                },
        decreases end - ix,
    {
        let ghost begins_before = non_clip_begins@;
        if draw_tags[ix] == DrawTag::BEGIN_CLIP {
            let dd: usize = draw_offsets[ix];
            if dd >= draw_data.len() {
                proof {
                    lemma_open_layers_stay_none(tags, data, offsets, ix + 1, end as int);
                }
                return false;
            }
            let is_clip = draw_data[dd] == DrawBeginClip::CLIP_BLEND_MODE;
            let src_over = is_clip || begin_clip_src_over(draw_data, dd);
            let replay_safe = is_clip || begin_clip_replay_safe(draw_data, dd);
            stack.push((ix as u32, is_clip, src_over, replay_safe));
            if !is_clip {
                assert(begins_non_clip(tags, data, offsets, ix as int));
                if require_src_over_non_clip && !src_over {
                    return false;
                }
                if require_safe_non_clip && !replay_safe {
                    return false;
                }
                non_clip_begins.push((ix as u32, src_over, replay_safe));
                assert(non_clip_begins[non_clip_begins.len() - 1].0 == ix);
            }
        } else if draw_tags[ix] == DrawTag::END_CLIP {
            if stack.pop().is_none() {
                proof {
                    lemma_open_layers_stay_none(tags, data, offsets, ix + 1, end as int);
                }
                return false;
            }
        }
        proof {
            assert forall|begin: int|
                0 <= begin < ix + 1 && #[trigger] begins_non_clip(tags, data, offsets, begin) implies {
                &&& exists|k: int|
                    0 <= k < non_clip_begins.len() && (#[trigger] non_clip_begins[k]).0 == begin
                &&& require_src_over_non_clip ==> is_src_over(data, offsets[begin] as int)
                &&& require_safe_non_clip ==> is_replay_safe(data, offsets[begin] as int)
            } by {
                if begin < ix {
                    let k = choose|k: int|
                        0 <= k < begins_before.len() && (#[trigger] begins_before[k]).0 == begin;
                    assert(non_clip_begins[k] == begins_before[k]);
                }
            }
        }
        ix += 1;
    }
    let ghost open = open_layers(tags, data, offsets, end as int)->0;
    let mut active: Vec<u32> = Vec::new();
    let mut k: usize = 0;
    while k < stack.len()
        invariant
            k <= stack.len(),
            stack.len() == open.len(),
            forall|j: int|
                #![trigger stack[j]]
                #![trigger open[j]]
                0 <= j < stack.len() ==> stack[j].0 == open[j].0 && stack[j].1 == open[j].1,
            forall|draw: u32| #[trigger]
                active@.contains(draw) <==> exists|j: int|
                    0 <= j < k && (#[trigger] open[j]).0 == draw && !open[j].1,
        decreases stack.len() - k,
    {
        let ghost before = active@;
        if !stack[k].1 {
            active.push(stack[k].0);
        }
        proof {
            assert forall|draw: u32| #[trigger]
                active@.contains(draw) <==> exists|j: int|
                    0 <= j < k + 1 && (#[trigger] open[j]).0 == draw && !open[j].1 by {
                assert(open[k as int].0 == stack[k as int].0);
                if before.contains(draw) {
                    let j = choose|j: int| 0 <= j < before.len() && before[j] == draw;
                    assert(active@[j] == draw);
                }
                if !stack[k as int].1 {
                    assert(active@[before.len() as int] == stack[k as int].0);
                }
            }
        }
        k += 1;
    }
    let active_non_clip: BTreeSet<u32> = index_set(active.as_slice());
    let mut supported = true;
    let mut k: usize = 0;
    while k < non_clip_begins.len()
        invariant
            k <= non_clip_begins.len(),
            active_non_clip@ == active@.to_set(),
            supported == forall|j: int|
                0 <= j < k ==> {
                    let begin = #[trigger] non_clip_begins[j];
                    &&& active@.contains(begin.0)
                    &&& require_safe_non_clip ==> begin.2
                    &&& require_src_over_non_clip ==> begin.1
                },
        decreases non_clip_begins.len() - k,
    {
        let begin = non_clip_begins[k];
        supported = supported && index_set_contains(&active_non_clip, begin.0) && (
        !require_safe_non_clip || begin.2) && (!require_src_over_non_clip || begin.1);
        k += 1;
    }
    proof {
        lemma_open_layers_from_tags(tags, data, offsets, end as int);
        assert forall|begin: int|
            0 <= begin < end && begins_non_clip(tags, data, offsets, begin) implies still_open(
            open,
            begin,
        ) == active@.contains(begin as u32) by {
            if still_open(open, begin) {
                let j = choose|j: int| 0 <= j < open.len() && (#[trigger] open[j]).0 == begin;
                assert(!open[j].1);
            }
        }
        if supported {
            assert forall|begin: int|
                0 <= begin < end && #[trigger] begins_non_clip(tags, data, offsets, begin) implies still_open(
                open,
                begin,
            ) by {
                let j = choose|j: int|
                    0 <= j < non_clip_begins.len() && (#[trigger] non_clip_begins[j]).0 == begin;
            }
        } else {
            let j = choose|j: int|
                0 <= j < non_clip_begins.len() && !{
                    let begin = #[trigger] non_clip_begins[j];
                    &&& active@.contains(begin.0)
                    &&& require_safe_non_clip ==> begin.2
                    &&& require_src_over_non_clip ==> begin.1
                };
            assert(begins_non_clip(tags, data, offsets, non_clip_begins[j].0 as int));
        }
    }
    supported
}

/// An open layer was begun by an earlier draw object, and is a clip where the
/// parameters of that object say so.
pub proof fn lemma_open_layers_from_tags(
    draw_tags: Seq<u32>,
    draw_data: Seq<u32>,
    offsets: Seq<usize>,
    ix: int,
)
    requires
        open_layers(draw_tags, draw_data, offsets, ix) is Some,
        ix <= u32::MAX + 1,
    ensures
        forall|k: int|
            0 <= k < open_layers(draw_tags, draw_data, offsets, ix)->0.len() ==> {
                let layer = #[trigger] open_layers(draw_tags, draw_data, offsets, ix)->0[k];
                let begin = layer.0 as int;
                &&& begin < ix
                &&& draw_tags[begin] == DrawTag::BEGIN_CLIP
                &&& layer.1 == (draw_data[offsets[begin] as int] == DrawBeginClip::CLIP_BLEND_MODE)
                &&& layer.4 ==> !layer.1
            },
    decreases ix,
{
    if ix > 0 {
        lemma_open_layers_from_tags(draw_tags, draw_data, offsets, ix - 1);
    }
}

// ---------------------------------------------------------------------------
// Ranges between backdrops
// ---------------------------------------------------------------------------

/// The layers that began in the range from `start` and are open before draw
/// object `ix`: whether each only clips, and whether it may stay open at the
/// end. Nothing where a layer lacks its parameters. A layer that ends without
/// having begun in the range was open before it.
pub open spec fn range_layers(
    draw_tags: Seq<u32>,
    draw_data: Seq<u32>,
    offsets: Seq<usize>,
    allow_src_over: bool,
    require_safe: bool,
    start: int,
    ix: int,
) -> Option<Seq<(bool, bool)>>
    decreases ix - start,
{
    if ix <= start {
        Some(Seq::empty())
    } else {
        match range_layers(
            draw_tags,
            draw_data,
            offsets,
            allow_src_over,
            require_safe,
            start,
            ix - 1,
        ) {
            None => None,
            Some(open) => if draw_tags[ix - 1] == DrawTag::BEGIN_CLIP {
                let offset = offsets[ix - 1] as int;
                if offset >= draw_data.len() {
                    None
                } else if draw_data[offset] == DrawBeginClip::CLIP_BLEND_MODE {
                    Some(open.push((true, true)))
                } else {
                    Some(
                        open.push(
                            (false, may_stay_open(draw_data, offset, allow_src_over, require_safe)),
                        ),
                    )
                }
            } else if draw_tags[ix - 1] == DrawTag::END_CLIP && open.len() > 0 {
                Some(open.drop_last())
            } else {
                Some(open)
            },
        }
    }
}

/// Whether a layer that does more than clip may stay open at the end of a range.
pub open spec fn may_stay_open(
    draw_data: Seq<u32>,
    offset: int,
    allow_src_over: bool,
    require_safe: bool,
) -> bool {
    &&& allow_src_over
    &&& is_src_over(draw_data, offset)
    &&& require_safe ==> is_replay_safe(draw_data, offset)
}

/// Whether the range from `draw_start` to `draw_end` can be replayed: the
/// layers that began in it and are open at its end only clip or may stay open.
/// A range that starts the scene has no other layers that do more than clip.
pub open spec fn range_supported(
    draw_tags: Seq<u32>,
    draw_data: Seq<u32>,
    offsets: Seq<usize>,
    draw_start: int,
    draw_end: int,
    allow_src_over: bool,
    require_safe: bool,
) -> bool {
    let start = at_most(draw_start, draw_tags.len() as int);
    let end = at_most(draw_end, draw_tags.len() as int);
    match range_layers(draw_tags, draw_data, offsets, allow_src_over, require_safe, start, end) {
        None => false,
        Some(open) => {
            &&& forall|k: int| 0 <= k < open.len() ==> (#[trigger] open[k]).0 || open[k].1
            &&& start == 0 ==> forall|ix: int|
                0 <= ix < end && #[trigger] begins_non_clip(draw_tags, draw_data, offsets, ix)
                    ==> may_stay_open(draw_data, offsets[ix] as int, allow_src_over, require_safe)
        },
    }
}

/// Once a layer lacks its parameters, the range is lost.
proof fn lemma_range_layers_none(
    draw_tags: Seq<u32>,
    draw_data: Seq<u32>,
    offsets: Seq<usize>,
    allow_src_over: bool,
    require_safe: bool,
    start: int,
    from: int,
    to: int,
)
    requires
        start <= from <= to,
        range_layers(draw_tags, draw_data, offsets, allow_src_over, require_safe, start, from) is None,
    ensures
        range_layers(draw_tags, draw_data, offsets, allow_src_over, require_safe, start, to) is None,
    decreases to - from,
{
    if from < to {
        lemma_range_layers_none(
            draw_tags,
            draw_data,
            offsets,
            allow_src_over,
            require_safe,
            start,
            from,
            to - 1,
        );
    }
}

/// Whether the draw objects before `ix` leave it open whether the range can be
/// replayed.
pub open spec fn range_reaches(
    draw_tags: Seq<u32>,
    draw_data: Seq<u32>,
    offsets: Seq<usize>,
    allow_src_over: bool,
    require_safe: bool,
    start: int,
    ix: int,
) -> bool {
    &&& range_layers(draw_tags, draw_data, offsets, allow_src_over, require_safe, start, ix) is Some
    &&& start == 0 ==> forall|begin: int|
        0 <= begin < ix && #[trigger] begins_non_clip(draw_tags, draw_data, offsets, begin)
            ==> may_stay_open(draw_data, offsets[begin] as int, allow_src_over, require_safe)
}

/// Whether the range from `draw_start` to `draw_end` can be replayed. Each layer that
/// is looked at has an offset.
pub fn replay_range_supports_layers(
    draw_tags: &[u32],
    draw_data: &[u32],
    draw_offsets: &[usize],
    draw_start: u32,
    draw_end: u32,
    allow_non_clip_src_over: bool,
    require_non_clip_replay_safe: bool,
) -> (supported: bool)
    requires
        forall|ix: int|
            draw_start <= ix < draw_end && ix < draw_tags@.len() && #[trigger] draw_tags@[ix]
                == DrawTag::BEGIN_CLIP && range_reaches(
                draw_tags@,
                draw_data@,
                draw_offsets@,
                allow_non_clip_src_over,
                require_non_clip_replay_safe,
                draw_start as int,
                ix,
            ) ==> ix < draw_offsets@.len(),
    ensures
        supported == range_supported(
            draw_tags@,
            draw_data@,
            draw_offsets@,
            draw_start as int,
            draw_end as int,
            allow_non_clip_src_over,
            require_non_clip_replay_safe,
        ),
{
    let start: usize = if (draw_start as usize) < draw_tags.len() {
        draw_start as usize
    } else {
        draw_tags.len()
    };
    let end: usize = if (draw_end as usize) < draw_tags.len() {
        draw_end as usize
    } else {
        draw_tags.len()
    };
    if end <= start {
        return true;
    }
    let ghost tags = draw_tags@;
    let ghost data = draw_data@;
    let ghost offsets = draw_offsets@;
    let ghost allow = allow_non_clip_src_over;
    let ghost safe = require_non_clip_replay_safe;
    let strict_non_clip = start == 0;
    let mut stack: Vec<(bool, bool)> = Vec::new();
    let mut ix: usize = start;
    while ix < end
        invariant
            start <= ix <= end <= draw_tags.len(),
            start == at_most(draw_start as int, tags.len() as int),
            end == at_most(draw_end as int, tags.len() as int),
            forall|ix: int|
                draw_start <= ix < draw_end && ix < draw_tags@.len() && #[trigger] draw_tags@[ix]
                    == DrawTag::BEGIN_CLIP && range_reaches(
                    draw_tags@,
                    draw_data@,
                    draw_offsets@,
                    allow_non_clip_src_over,
                    require_non_clip_replay_safe,
                    draw_start as int,
                    ix,
                ) ==> ix < draw_offsets@.len(),
            tags == draw_tags@,
            data == draw_data@,
            offsets == draw_offsets@,
            allow == allow_non_clip_src_over,
            safe == require_non_clip_replay_safe,
            strict_non_clip == (start == 0),
            range_layers(tags, data, offsets, allow, safe, start as int, ix as int) == Some(stack@),
            strict_non_clip ==> forall|begin: int|
                0 <= begin < ix && #[trigger] begins_non_clip(tags, data, offsets, begin)
                    ==> may_stay_open(data, offsets[begin] as int, allow, safe),
        decreases end - ix,
    {
        if draw_tags[ix] == DrawTag::BEGIN_CLIP {
            let dd: usize = draw_offsets[ix];
            if dd >= draw_data.len() {
                proof {
                    lemma_range_layers_none(
                        tags,
                        data,
                        offsets,
                        allow,
                        safe,
                        start as int,
                        ix + 1,
                        end as int,
                    );
                }
                return false;
            }
            let is_clip = draw_data[dd] == DrawBeginClip::CLIP_BLEND_MODE;
            if is_clip {
                stack.push((true, true));
            } else {
                let is_supported = allow_non_clip_src_over && begin_clip_src_over(draw_data, dd) && (
                !require_non_clip_replay_safe || begin_clip_replay_safe(draw_data, dd));
                assert(begins_non_clip(tags, data, offsets, ix as int));
                if strict_non_clip && !is_supported {
                    return false;
                }
                stack.push((false, is_supported));
            }
        } else if draw_tags[ix] == DrawTag::END_CLIP {
            // A layer that was open before this range can end in it.
            let _ = stack.pop();
        }
        ix += 1;
    }
    let mut supported = true;
    let mut k: usize = 0;
    while k < stack.len()
        invariant
            k <= stack.len(),
            supported == forall|j: int| 0 <= j < k ==> (#[trigger] stack[j]).0 || stack[j].1,
        decreases stack.len() - k,
    {
        supported = supported && (stack[k].0 || stack[k].1);
        k += 1;
    }
    supported
}

// ---------------------------------------------------------------------------
// Paint under layers that forbid it
// ---------------------------------------------------------------------------

/// Whether the draw object `ix` can change what is on the target: it paints,
/// and its color or sample alpha is not known to be zero.
pub open spec fn is_effective_paint(
    draw_tags: Seq<u32>,
    draw_data: Seq<u32>,
    offsets: Seq<usize>,
    ix: int,
) -> bool {
    &&& ix < draw_tags.len()
    &&& ix < offsets.len()
    &&& {
        let tag = draw_tags[ix];
        let offset = offsets[ix] as int;
        if tag == DrawTag::BEGIN_CLIP || tag == DrawTag::END_CLIP || tag == DrawTag::NOP {
            false
        } else if tag == DrawTag::COLOR || tag == DrawTag::BLUR_RECT || tag
            == DrawTag::BACKDROP_BLUR_RECT {
            offset >= draw_data.len() || draw_data[offset] >> 24 != 0
        } else if tag == DrawTag::IMAGE {
            offset + 2 >= draw_data.len() || draw_data[offset + 2] & 0xff != 0
        } else {
            true
        }
    }
}

/// Whether the draw object `draw_ix` can change what is on the target.
pub fn draw_tag_is_effective_paint(
    draw_tags: &[u32],
    draw_data: &[u32],
    draw_offsets: &[usize],
    draw_ix: usize,
) -> (paints: bool)
    ensures
        paints == is_effective_paint(draw_tags@, draw_data@, draw_offsets@, draw_ix as int),
{
    if draw_ix >= draw_tags.len() || draw_ix >= draw_offsets.len() {
        return false;
    }
    let tag: u32 = draw_tags[draw_ix];
    let dd: usize = draw_offsets[draw_ix];
    if tag == DrawTag::BEGIN_CLIP || tag == DrawTag::END_CLIP || tag == DrawTag::NOP {
        false
    } else if tag == DrawTag::COLOR || tag == DrawTag::BLUR_RECT || tag
        == DrawTag::BACKDROP_BLUR_RECT {
        if dd >= draw_data.len() {
            return true;
        }
        let alpha: u32 = draw_data[dd] >> 24;
        alpha != 0
    } else if tag == DrawTag::IMAGE {
        if dd.saturating_add(2) >= draw_data.len() {
            return true;
        }
        let alpha: u32 = draw_data[dd + 2] & 0xff;
        alpha != 0
    } else {
        true
    }
}

/// For each layer that is open at the start of a range: whether it forbids paint.
pub open spec fn seeded_layers(seed: Option<LayerSeed>) -> Seq<bool> {
    match seed {
        None => Seq::empty(),
        Some(seed) => seed.begin_draws.map_values(
            |ix: u32| seed.non_replay_safe_non_clip_begin_draws.contains(ix),
        ),
    }
}

/// For each layer that is open before draw object `ix`: whether it forbids
/// paint. Nothing where a layer lacks its parameters, or ends without having
/// begun.
pub open spec fn span_layers(
    draw_tags: Seq<u32>,
    draw_data: Seq<u32>,
    offsets: Seq<usize>,
    seeded: Seq<bool>,
    start: int,
    ix: int,
) -> Option<Seq<bool>>
    decreases ix - start,
{
    if ix <= start {
        Some(seeded)
    } else {
        match span_layers(draw_tags, draw_data, offsets, seeded, start, ix - 1) {
            None => None,
            Some(open) => if draw_tags[ix - 1] == DrawTag::BEGIN_CLIP {
                let offset = offsets[ix - 1] as int;
                if offset >= draw_data.len() {
                    None
                } else {
                    Some(
                        open.push(
                            draw_data[offset] != DrawBeginClip::CLIP_BLEND_MODE
                                && requires_paint_free(draw_data, offset),
                        ),
                    )
                }
            } else if draw_tags[ix - 1] == DrawTag::END_CLIP {
                if open.len() == 0 {
                    None
                } else {
                    Some(open.drop_last())
                }
            } else {
                Some(open)
            },
        }
    }
}

/// Whether the draw object `ix` of a range keeps to its open layers: it nests,
/// and it paints nothing under a layer that forbids paint.
pub open spec fn respects_layers(
    draw_tags: Seq<u32>,
    draw_data: Seq<u32>,
    offsets: Seq<usize>,
    seeded: Seq<bool>,
    start: int,
    ix: int,
) -> bool {
    match span_layers(draw_tags, draw_data, offsets, seeded, start, ix) {
        None => false,
        Some(open) => {
            &&& open.contains(true) ==> !is_effective_paint(draw_tags, draw_data, offsets, ix)
            &&& span_layers(draw_tags, draw_data, offsets, seeded, start, ix + 1) is Some
        },
    }
}

/// Whether no draw object from `draw_start` to `draw_end` paints under a layer
/// that forbids it, given the layers that are open at the start.
pub open spec fn range_paint_free(
    draw_tags: Seq<u32>,
    draw_data: Seq<u32>,
    offsets: Seq<usize>,
    draw_start: int,
    draw_end: int,
    seed: Option<LayerSeed>,
) -> bool {
    let start = at_most(draw_start, draw_tags.len() as int);
    let end = at_most(draw_end, draw_tags.len() as int);
    forall|ix: int|
        start <= ix < end ==> #[trigger] respects_layers(
            draw_tags,
            draw_data,
            offsets,
            seeded_layers(seed),
            start,
            ix,
        )
}

/// Whether some flag of a stack is set.
fn any_set(flags: &Vec<bool>) -> (any: bool)
    ensures
        any == flags@.contains(true),
{
    let mut any = false;
    let mut k: usize = 0;
    while k < flags.len()
        invariant
            k <= flags.len(),
            any == exists|j: int| 0 <= j < k && #[trigger] flags@[j],
        decreases flags.len() - k,
    {
        any = any || flags[k];
        k += 1;
    }
    any
}

/// For each layer that is open at the start of a range: whether it forbids paint.
fn seed_flags(seed_state: Option<&LayerSeedState>) -> (flags: Vec<bool>)
    ensures
        flags@ == seeded_layers(
            match seed_state {
                Some(state) => Some(state@),
                None => None,
            },
        ),
{
    let mut flags: Vec<bool> = Vec::new();
    if let Some(state) = seed_state {
        let forbidding: BTreeSet<u32> = index_set(
            state.non_replay_safe_non_clip_begin_draws.as_slice(),
        );
        let mut k: usize = 0;
        while k < state.begin_draws.len()
            invariant
                k <= state.begin_draws.len(),
                forbidding@ == state.non_replay_safe_non_clip_begin_draws@.to_set(),
                flags.len() == k,
                forall|j: int|
                    0 <= j < k ==> #[trigger] flags[j]
                        == state.non_replay_safe_non_clip_begin_draws@.contains(
                        state.begin_draws[j],
                    ),
            decreases state.begin_draws.len() - k,
        {
            flags.push(index_set_contains(&forbidding, state.begin_draws[k]));
            k += 1;
        }
        assert(flags@ =~= seeded_layers(Some(state@)));
    } else {
        assert(flags@ =~= seeded_layers(None));
    }
    flags
}

/// Whether no draw object from `draw_start` to `draw_end` paints under a layer
/// that forbids it, given the layers that are open at the start. Each layer that is
/// looked at has an offset.
pub fn replay_range_non_replay_safe_layers_paint_free(
    draw_tags: &[u32],
    draw_data: &[u32],
    draw_offsets: &[usize],
    draw_start: u32,
    draw_end: u32,
    seed_state: Option<&LayerSeedState>,
) -> (paint_free: bool)
    requires
        forall|ix: int|
            draw_start <= ix < draw_end && ix < draw_tags@.len() && #[trigger] draw_tags@[ix]
                == DrawTag::BEGIN_CLIP && range_paint_free(
                draw_tags@,
                draw_data@,
                draw_offsets@,
                draw_start as int,
                ix,
                match seed_state {
                    Some(state) => Some(state@),
                    None => None,
                },
            ) ==> ix < draw_offsets@.len(),
    ensures
        paint_free == range_paint_free(
            draw_tags@,
            draw_data@,
            draw_offsets@,
            draw_start as int,
            draw_end as int,
            match seed_state {
                Some(state) => Some(state@),
                None => None,
            },
        ),
{
    let start: usize = if (draw_start as usize) < draw_tags.len() {
        draw_start as usize
    } else {
        draw_tags.len()
    };
    let end: usize = if (draw_end as usize) < draw_tags.len() {
        draw_end as usize
    } else {
        draw_tags.len()
    };
    if end <= start {
        return true;
    }
    let ghost tags = draw_tags@;
    let ghost data = draw_data@;
    let ghost offsets = draw_offsets@;
    let mut stack: Vec<bool> = seed_flags(seed_state);
    let ghost seeded = stack@;
    let mut has_active = any_set(&stack);
    let mut ix: usize = start;
    while ix < end
        invariant
            start <= ix <= end <= draw_tags.len(),
            start == at_most(draw_start as int, tags.len() as int),
            end == at_most(draw_end as int, tags.len() as int),
            forall|ix: int|
                draw_start <= ix < draw_end && ix < draw_tags@.len() && #[trigger] draw_tags@[ix]
                    == DrawTag::BEGIN_CLIP && range_paint_free(
                    draw_tags@,
                    draw_data@,
                    draw_offsets@,
                    draw_start as int,
                    ix,
                    match seed_state {
                        Some(state) => Some(state@),
                        None => None,
                    },
                ) ==> ix < draw_offsets@.len(),
            tags == draw_tags@,
            data == draw_data@,
            offsets == draw_offsets@,
            seeded == seeded_layers(
                match seed_state {
                    Some(state) => Some(state@),
                    None => None,
                },
            ),
            span_layers(tags, data, offsets, seeded, start as int, ix as int) == Some(stack@),
            has_active == stack@.contains(true),
            forall|k: int|
                start <= k < ix ==> #[trigger] respects_layers(
                    tags,
                    data,
                    offsets,
                    seeded,
                    start as int,
                    k,
                ),
        decreases end - ix,
    {
        let ghost before = stack@;
        let ghost here = respects_layers(tags, data, offsets, seeded, start as int, ix as int);
        let tag: u32 = draw_tags[ix];
        if has_active && draw_tag_is_effective_paint(draw_tags, draw_data, draw_offsets, ix) {
            assert(!here);
            return false;
        }
        if tag == DrawTag::BEGIN_CLIP {
            let dd: usize = draw_offsets[ix];
            if dd >= draw_data.len() {
                assert(!here);
                return false;
            }
            let is_clip = draw_data[dd] == DrawBeginClip::CLIP_BLEND_MODE;
            let forbids = !is_clip && begin_clip_requires_active_span_paint_free(draw_data, dd);
            stack.push(forbids);
            proof {
                if before.contains(true) {
                    let j = choose|j: int| 0 <= j < before.len() && before[j] == true;
                    assert(stack@[j] == true);
                }
                assert(stack@[before.len() as int] == forbids);
            }
            has_active = has_active || forbids;
        } else if tag == DrawTag::END_CLIP {
            match stack.pop() {
                None => {
                    assert(!here);
                    return false;
                },
                Some(popped) => {
                    proof {
                        if before.contains(true) && !popped {
                            let j = choose|j: int| 0 <= j < before.len() && before[j] == true;
                            assert(stack@[j] == true);
                        }
                        if stack@.contains(true) {
                            let j = choose|j: int| 0 <= j < stack@.len() && stack@[j] == true;
                            assert(before[j] == true);
                        }
                    }
                    if popped {
                        has_active = any_set(&stack);
                    }
                },
            }
        }
        assert(here);
        ix += 1;
    }
    true
}

} // verus!
