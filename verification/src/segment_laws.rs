//! What holds of the packed scene of every segment.

use vstd::prelude::*;

use crate::encoding::{DrawBeginClip, DrawTag};
use crate::layout::Layout;

verus! {

use crate::encoding::{
    draw_clips, draw_info, draw_paths, draw_words, lemma_draw_concat, lemma_draw_monotone,
    path_words,
};
use crate::layer_laws::{
    depth, lemma_forbidding_layers_are_open, lemma_layers_nest_before, lemma_opened_in_order,
    lemma_seed_draws,
};
use crate::layers::{data_offsets, open_layers, seed_at};
use crate::layout::{empty_layout, lemma_pack_round_trip, Streams};
use crate::packing::{
    available, clamped_draw, joined_parts, lemma_available_before, lemma_empty_scene,
    lemma_merged_readable, lemma_range_readable, open_segment, packed_range, packed_scene,
    packed_segment, parts_readable, path_tags_before, range_ready, range_streams, repeated,
    seed_parts, segment_fits, segment_parts, segment_ready,
};
use crate::replay::{ReplayInput, SegmentRange};

/// The draw tags of the draw objects that open the layers of a segment.
pub open spec fn seed_tags(full: Streams, seeds: Seq<u32>) -> Seq<u32> {
    seeds.map_values(|draw: u32| full.draw_tags[draw as int])
}

/// The draw data of the draw objects from `start` to `end`.
pub open spec fn range_data(full: Streams, start: int, end: int) -> Seq<u32> {
    if end <= start {
        Seq::empty()
    } else {
        full.draw_data.subrange(
            draw_words(full.draw_tags.take(start)) as int,
            draw_words(full.draw_tags.take(end)) as int,
        )
    }
}

/// The draw data of the draw objects that open the layers of a segment.
pub open spec fn seed_data(full: Streams, seeds: Seq<u32>) -> Seq<u32>
    decreases seeds.len(),
{
    if seeds.len() == 0 {
        Seq::empty()
    } else {
        let draw = seeds.last() as int;
        seed_data(full, seeds.drop_last()) + range_data(full, draw, draw + 1)
    }
}

/// The draw tags of the draw objects from `start` to `end`.
pub open spec fn range_tags(full: Streams, start: int, end: int) -> Seq<u32> {
    if end <= start {
        Seq::empty()
    } else {
        full.draw_tags.subrange(start, end)
    }
}

/// The path data of the draw objects from `start` to `end`.
pub open spec fn range_path_data(full: Streams, start: int, end: int) -> Seq<u8> {
    if end <= start {
        Seq::empty()
    } else {
        full.path_data.subrange(
            4 * path_words(path_tags_before(full, start)) as int,
            4 * path_words(path_tags_before(full, end)) as int,
        )
    }
}

/// Two ranges in a row have the draw tags, the draw data and the path data of the
/// range that they make up.
pub proof fn lemma_ranges_join(full: Streams, a: int, b: int, c: int)
    requires
        0 <= a <= b <= c <= full.draw_tags.len(),
        available(full, c),
    ensures
        range_tags(full, a, b) + range_tags(full, b, c) == range_tags(full, a, c),
        range_data(full, a, b) + range_data(full, b, c) == range_data(full, a, c),
        range_path_data(full, a, b) + range_path_data(full, b, c) == range_path_data(full, a, c),
{
    lemma_draw_monotone(full.draw_tags, a, b);
    lemma_draw_monotone(full.draw_tags, b, c);
    lemma_available_before(full, b, c);
    lemma_available_before(full, a, b);
    assert(range_tags(full, a, b) + range_tags(full, b, c) =~= range_tags(full, a, c));
    assert(range_data(full, a, b) + range_data(full, b, c) =~= range_data(full, a, c));
    assert(range_path_data(full, a, b) + range_path_data(full, b, c) =~= range_path_data(
        full,
        a,
        c,
    ));
}

/// Whether the draw objects that open the layers of a segment are in the scene.
pub open spec fn seeds_in_scene(layout: Layout, packed: Seq<u8>, seeds: Seq<u32>) -> bool {
    forall|k: int|
        0 <= k < seeds.len() ==> (#[trigger] seeds[k]) < layout.n_draw_objects && seeds[k]
            < layout.streams(packed).draw_tags.len()
}

/// The streams of a range.
proof fn lemma_range_streams(full: Streams, s: int, e: int)
    requires
        0 <= s <= full.draw_tags.len(),
        0 <= e <= full.draw_tags.len(),
        s < e ==> available(full, e),
    ensures
        ({
            let streams = range_streams(full, s, e);
            &&& streams.draw_tags == range_tags(full, s, e)
            &&& streams.draw_data == range_data(full, s, e)
            &&& streams.path_data == range_path_data(full, s, e)
            &&& streams.path_data.len() % 4 == 0
        }),
{
    if s < e {
        lemma_available_before(full, s, e);
    }
}

/// The number of draw objects of a packed range.
pub(crate) proof fn lemma_range_count(layout: Layout, packed: Seq<u8>, start: int, end: int)
    ensures
        packed_range(layout, packed, start, end).0.n_draw_objects == range_streams(
            layout.streams(packed),
            clamped_draw(layout.streams(packed), start),
            clamped_draw(layout.streams(packed), end),
        ).draw_tags.len() as u32,
{
    reveal(packed_scene);
}

/// What is read back of a range of the scene.
pub(crate) proof fn lemma_range_read(layout: Layout, packed: Seq<u8>, start: int, end: int)
    requires
        0 <= start,
        0 <= end,
        range_ready(layout, packed, start, end),
        packed_range(layout, packed, start, end).1.len() / 4 <= u32::MAX,
    ensures
        ({
            let full = layout.streams(packed);
            let (part, bytes) = packed_range(layout, packed, start, end);
            let s = clamped_draw(full, start);
            let e = clamped_draw(full, end);
            &&& part.readable(bytes.len())
            &&& part.streams(bytes).draw_tags == range_tags(full, s, e)
            &&& part.streams(bytes).draw_data == range_data(full, s, e)
            &&& part.streams(bytes).path_data == range_path_data(full, s, e)
            &&& part.streams(bytes).path_data.len() % 4 == 0
            &&& part.n_draw_objects == range_tags(full, s, e).len()
        }),
{
    let full = layout.streams(packed);
    let s = clamped_draw(full, start);
    let e = clamped_draw(full, end);
    assert(full.draw_tags.len() <= u32::MAX);
    lemma_range_streams(full, s, e);
    lemma_range_count(layout, packed, start, end);
    lemma_range_readable(layout, packed, start, end);
}

/// A range without draw objects packs to nothing.
pub proof fn lemma_empty_range(layout: Layout, packed: Seq<u8>, start: int, end: int)
    requires
        0 <= end <= start,
    ensures
        packed_range(layout, packed, start, end) == (empty_layout(), Seq::<u8>::empty()),
{
    lemma_empty_scene();
}

/// Two packed ranges in a row hold the draw tags, the draw data and the path data of
/// the packed range that they make up, and their counts and their draw info add up to
/// those of that range.
pub proof fn lemma_packed_ranges_join(layout: Layout, packed: Seq<u8>, a: int, b: int, c: int)
    requires
        layout.readable(packed.len()),
        0 <= a <= b <= c <= layout.streams(packed).draw_tags.len(),
        available(layout.streams(packed), c),
        packed_range(layout, packed, a, b).1.len() / 4 <= u32::MAX,
        packed_range(layout, packed, b, c).1.len() / 4 <= u32::MAX,
        packed_range(layout, packed, a, c).1.len() / 4 <= u32::MAX,
    ensures
        ({
            let (first, first_bytes) = packed_range(layout, packed, a, b);
            let (second, second_bytes) = packed_range(layout, packed, b, c);
            let (both, both_bytes) = packed_range(layout, packed, a, c);
            let streams = both.streams(both_bytes);
            &&& streams.draw_tags == first.streams(first_bytes).draw_tags + second.streams(
                second_bytes,
            ).draw_tags
            &&& streams.draw_data == first.streams(first_bytes).draw_data + second.streams(
                second_bytes,
            ).draw_data
            &&& streams.path_data == first.streams(first_bytes).path_data + second.streams(
                second_bytes,
            ).path_data
            &&& both.n_draw_objects == first.n_draw_objects + second.n_draw_objects
            &&& both.n_paths == first.n_paths + second.n_paths
            &&& both.n_clips == first.n_clips + second.n_clips
            &&& both.bin_data_start == first.bin_data_start + second.bin_data_start
        }),
{
    let full = layout.streams(packed);
    lemma_available_before(full, b, c);
    lemma_available_before(full, a, b);
    lemma_range_read(layout, packed, a, b);
    lemma_range_read(layout, packed, b, c);
    lemma_range_read(layout, packed, a, c);
    lemma_ranges_join(full, a, b, c);
    lemma_range_counts(layout, packed, a, b, c);
    lemma_range_counts(layout, packed, b, c, c);
    lemma_range_counts(layout, packed, a, c, c);
    lemma_draw_concat(range_tags(full, a, b), range_tags(full, b, c));
}

/// The counts of a packed range are those of its draw tags.
pub proof fn lemma_range_counts(layout: Layout, packed: Seq<u8>, start: int, end: int, last: int)
    requires
        0 <= start <= end <= last <= layout.streams(packed).draw_tags.len(),
        available(layout.streams(packed), last),
    ensures
        ({
            let tags = range_tags(layout.streams(packed), start, end);
            let part = packed_range(layout, packed, start, end).0;
            &&& part.n_paths == draw_paths(tags)
            &&& part.n_clips == draw_clips(tags)
            &&& part.bin_data_start == draw_info(tags)
        }),
{
    reveal(packed_scene);
    let full = layout.streams(packed);
    lemma_available_before(full, end, last);
    lemma_range_streams(full, start, end);
    lemma_draw_concat(full.draw_tags.take(start), range_tags(full, start, end));
    assert(full.draw_tags.take(start) + range_tags(full, start, end) =~= full.draw_tags.take(end));
}

/// The packed scene of the draw objects before `end` holds them and their draw data,
/// and nothing else.
pub proof fn lemma_prefix_contents(layout: Layout, packed: Seq<u8>, end: int)
    requires
        layout.readable(packed.len()),
        0 <= end <= layout.streams(packed).draw_tags.len(),
        available(layout.streams(packed), end),
        packed_range(layout, packed, 0, end).1.len() / 4 <= u32::MAX,
    ensures
        ({
            let full = layout.streams(packed);
            let (part, bytes) = packed_range(layout, packed, 0, end);
            &&& part.readable(bytes.len())
            &&& part.n_draw_objects == end
            &&& part.streams(bytes).draw_tags == full.draw_tags.take(end)
            &&& part.streams(bytes).draw_data == full.draw_data.take(
                draw_words(full.draw_tags.take(end)) as int,
            )
        }),
{
    let full = layout.streams(packed);
    lemma_range_read(layout, packed, 0, end);
    assert(full.draw_tags.take(0) =~= Seq::empty());
    assert(range_tags(full, 0, end) =~= full.draw_tags.take(end));
    assert(range_data(full, 0, end) =~= full.draw_data.take(
        draw_words(full.draw_tags.take(end)) as int,
    ));
}

/// What is read back of the draw objects that open the layers of a segment.
proof fn lemma_seeds_read(layout: Layout, packed: Seq<u8>, seeds: Seq<u32>)
    requires
        seeds_in_scene(layout, packed, seeds),
        segment_ready(layout, packed, 0, 0, seeds),
        forall|k: int|
            0 <= k < seed_parts(layout, packed, seeds).len() ==> (#[trigger] seed_parts(
                layout,
                packed,
                seeds,
            )[k]).1.len() / 4 <= u32::MAX,
    ensures
        ({
            let full = layout.streams(packed);
            let parts = seed_parts(layout, packed, seeds);
            let streams = joined_parts(parts).1;
            &&& parts_readable(parts)
            &&& streams.draw_tags == seed_tags(full, seeds)
            &&& streams.draw_data == seed_data(full, seeds)
            &&& streams.path_data.len() % 4 == 0
        }),
    decreases seeds.len(),
{
    let full = layout.streams(packed);
    let parts = seed_parts(layout, packed, seeds);
    if seeds.len() == 0 {
        assert(joined_parts(parts).1.draw_tags =~= seed_tags(full, seeds));
    } else {
        let fewer = seeds.drop_last();
        let before = seed_parts(layout, packed, fewer);
        let draw = seeds.last() as int;
        assert(seeds[seeds.len() - 1] == seeds.last());
        let part = packed_range(layout, packed, draw, draw + 1);
        assert(parts == before.push(part));
        assert(parts.drop_last() =~= before);
        assert(parts[before.len() as int] == part);
        assert forall|k: int| 0 <= k < fewer.len() implies (#[trigger] fewer[k])
            < layout.n_draw_objects && fewer[k] < full.draw_tags.len() by {
            assert(seeds[k] == fewer[k]);
        }
        assert(segment_ready(layout, packed, 0, 0, fewer)) by {
            assert forall|k: int|
                0 <= k < fewer.len() && (#[trigger] fewer[k])
                    < layout.n_draw_objects implies range_ready(
                layout,
                packed,
                fewer[k] as int,
                fewer[k] + 1,
            ) by {
                assert(seeds[k] == fewer[k]);
            }
        }
        assert forall|k: int| 0 <= k < before.len() implies (#[trigger] before[k]).1.len() / 4
            <= u32::MAX by {
            assert(parts[k] == before[k]);
        }
        lemma_seeds_read(layout, packed, fewer);
        lemma_range_read(layout, packed, draw, draw + 1);
        assert(parts_readable(parts)) by {
            assert forall|k: int|
                0 <= k < parts.len() && (#[trigger] parts[k]).0.n_draw_objects
                    != 0 implies parts[k].0.readable(parts[k].1.len()) by {
                if k < before.len() {
                    assert(parts[k] == before[k]);
                }
            }
        }
        assert(range_tags(full, draw, draw + 1).len() == 1);
        assert(joined_parts(parts).1.draw_tags =~= seed_tags(full, seeds));
    }
}

/// What is read back of a segment whose layers are not closed yet.
pub(crate) proof fn lemma_open_segment_read(
    layout: Layout,
    packed: Seq<u8>,
    start: int,
    end: int,
    seeds: Seq<u32>,
)
    requires
        0 <= start,
        0 <= end,
        seeds_in_scene(layout, packed, seeds),
        segment_ready(layout, packed, start, end, seeds),
        segment_fits(layout, packed, start, end, seeds, 0),
        open_segment(layout, packed, start, end, seeds).1.len() / 4 <= u32::MAX,
    ensures
        ({
            let full = layout.streams(packed);
            let (part, bytes) = open_segment(layout, packed, start, end, seeds);
            let s = clamped_draw(full, start);
            let e = clamped_draw(full, end);
            &&& part.readable(bytes.len())
            &&& part.streams(bytes).draw_tags == seed_tags(full, seeds) + range_tags(full, s, e)
            &&& part.streams(bytes).draw_data == seed_data(full, seeds) + range_data(full, s, e)
            &&& part.streams(bytes).path_data.len() % 4 == 0
        }),
{
    let full = layout.streams(packed);
    let s = clamped_draw(full, start);
    let e = clamped_draw(full, end);
    if seeds.len() == 0 {
        lemma_range_read(layout, packed, start, end);
        assert(seed_tags(full, seeds) + range_tags(full, s, e) =~= range_tags(full, s, e));
        assert(seed_data(full, seeds) + range_data(full, s, e) =~= range_data(full, s, e));
    } else {
        let parts = segment_parts(layout, packed, start, end, seeds);
        let before = seed_parts(layout, packed, seeds);
        let last = packed_range(layout, packed, start, end);
        assert(parts.drop_last() =~= before);
        assert(parts[before.len() as int] == last);
        assert forall|k: int| 0 <= k < before.len() implies (#[trigger] before[k]).1.len() / 4
            <= u32::MAX by {
            assert(parts[k] == before[k]);
        }
        lemma_seeds_read(layout, packed, seeds);
        lemma_range_read(layout, packed, start, end);
        assert(parts_readable(parts)) by {
            assert forall|k: int|
                0 <= k < parts.len() && (#[trigger] parts[k]).0.n_draw_objects
                    != 0 implies parts[k].0.readable(parts[k].1.len()) by {
                if k < before.len() {
                    assert(parts[k] == before[k]);
                }
            }
        }
        lemma_merged_readable(parts);
        let streams = joined_parts(parts).1;
        if last.0.n_draw_objects == 0 {
            assert(range_tags(full, s, e) =~= Seq::empty());
            assert(e <= s);
        }
        assert(streams.draw_tags =~= seed_tags(full, seeds) + range_tags(full, s, e));
        assert(streams.draw_data =~= seed_data(full, seeds) + range_data(full, s, e));
    }
}

/// A segment holds the draw objects that open its layers, then those of its range,
/// then one end for each layer that is closed behind it; and it holds the draw
/// data of all of these.
pub proof fn lemma_segment_contents(
    layout: Layout,
    packed: Seq<u8>,
    start: int,
    end: int,
    seeds: Seq<u32>,
    ends: u32,
)
    requires
        0 <= start,
        0 <= end,
        seeds_in_scene(layout, packed, seeds),
        segment_ready(layout, packed, start, end, seeds),
        segment_fits(layout, packed, start, end, seeds, ends),
        packed_segment(layout, packed, start, end, seeds, ends).1.len() / 4 <= u32::MAX,
    ensures
        ({
            let full = layout.streams(packed);
            let (part, bytes) = packed_segment(layout, packed, start, end, seeds, ends);
            let s = clamped_draw(full, start);
            let e = clamped_draw(full, end);
            &&& part.readable(bytes.len())
            &&& part.streams(bytes).draw_tags == seed_tags(full, seeds) + range_tags(full, s, e)
                + repeated(DrawTag::END_CLIP, ends as nat)
            &&& part.streams(bytes).draw_data == seed_data(full, seeds) + range_data(full, s, e)
        }),
{
    let full = layout.streams(packed);
    let s = clamped_draw(full, start);
    let e = clamped_draw(full, end);
    let (open, open_bytes) = open_segment(layout, packed, start, end, seeds);
    lemma_open_segment_read(layout, packed, start, end, seeds);
    let tags = seed_tags(full, seeds) + range_tags(full, s, e);
    if ends == 0 {
        assert(tags + repeated(DrawTag::END_CLIP, 0) =~= tags);
    } else {
        let streams = open.streams(open_bytes);
        let closed = Streams {
            path_tags: streams.path_tags + repeated(
                crate::encoding::PathTag::PATH,
                ends as nat,
            ),
            draw_tags: streams.draw_tags + repeated(DrawTag::END_CLIP, ends as nat),
            ..streams
        };
        let draws = closed.draw_tags.len();
        let missing = if closed.path_tags.len() < draws {
            (draws - closed.path_tags.len()) as nat
        } else {
            0
        };
        let whole = Streams {
            path_tags: closed.path_tags + repeated(crate::encoding::PathTag::PATH, missing),
            ..closed
        };
        lemma_pack_round_trip(
            whole,
            draws as u32,
            draws as u32,
            crate::packing::saturated_sum(open.n_clips, ends),
            draw_info(closed.draw_tags) as u32,
        );
    }
}

/// The number of layers that are open behind a run of draw tags, with `outer` ones
/// open before it. Nothing where a layer ends that never began.
pub open spec fn nesting(outer: nat, draw_tags: Seq<u32>) -> Option<nat>
    decreases draw_tags.len(),
{
    if draw_tags.len() == 0 {
        Some(outer)
    } else {
        match nesting(outer, draw_tags.drop_last()) {
            None => None,
            Some(open) => if draw_tags.last() == DrawTag::BEGIN_CLIP {
                Some(open + 1)
            } else if draw_tags.last() == DrawTag::END_CLIP {
                if open == 0 {
                    None
                } else {
                    Some((open - 1) as nat)
                }
            } else {
                Some(open)
            },
        }
    }
}

/// Runs of draw tags nest one after the other.
proof fn lemma_nesting_concat(outer: nat, a: Seq<u32>, b: Seq<u32>)
    requires
        nesting(outer, a) is Some,
    ensures
        nesting(outer, a + b) == nesting(nesting(outer, a)->0, b),
    decreases b.len(),
{
    if b.len() == 0 {
        assert(a + b =~= a);
    } else {
        assert((a + b).drop_last() =~= a + b.drop_last());
        lemma_nesting_concat(outer, a, b.drop_last());
    }
}

/// A run that begins layers opens as many.
proof fn lemma_nesting_begins(outer: nat, tags: Seq<u32>)
    requires
        forall|k: int| 0 <= k < tags.len() ==> #[trigger] tags[k] == DrawTag::BEGIN_CLIP,
    ensures
        nesting(outer, tags) == Some(outer + tags.len()),
    decreases tags.len(),
{
    if tags.len() > 0 {
        assert forall|k: int| 0 <= k < tags.drop_last().len() implies #[trigger] tags.drop_last()[k]
            == DrawTag::BEGIN_CLIP by {
            assert(tags[k] == tags.drop_last()[k]);
        }
        lemma_nesting_begins(outer, tags.drop_last());
        assert(tags[tags.len() - 1] == DrawTag::BEGIN_CLIP);
    }
}

/// A run that ends layers closes as many.
proof fn lemma_nesting_ends(outer: nat, count: nat)
    requires
        count <= outer,
    ensures
        nesting(outer, repeated(DrawTag::END_CLIP, count)) == Some((outer - count) as nat),
    decreases count,
{
    let tags = repeated(DrawTag::END_CLIP, count);
    if count > 0 {
        assert(tags.drop_last() =~= repeated(DrawTag::END_CLIP, (count - 1) as nat));
        lemma_nesting_ends(outer, (count - 1) as nat);
    }
}

/// A range of a scene whose layers nest takes the open layers before it to those
/// behind it.
proof fn lemma_nesting_range(draw_tags: Seq<u32>, draw_data: Seq<u32>, start: int, end: int)
    requires
        0 <= start <= end <= draw_tags.len(),
        seed_at(draw_tags, draw_data, end) is Some,
    ensures
        nesting(
            depth(draw_tags, draw_data, data_offsets(draw_tags), start),
            draw_tags.subrange(start, end),
        ) == Some(depth(draw_tags, draw_data, data_offsets(draw_tags), end)),
    decreases end - start,
{
    let range = draw_tags.subrange(start, end);
    if start < end {
        assert(open_layers(draw_tags, draw_data, data_offsets(draw_tags), end - 1) is Some);
        lemma_nesting_range(draw_tags, draw_data, start, end - 1);
        assert(range.drop_last() =~= draw_tags.subrange(start, end - 1));
    }
}

/// The draw tags of a segment.
pub open spec fn segment_tags(draw_tags: Seq<u32>, segment: SegmentRange) -> Seq<u32> {
    segment.seeds.map_values(|draw: u32| draw_tags[draw as int]) + draw_tags.subrange(
        segment.draw_start as int,
        segment.draw_end as int,
    ) + repeated(DrawTag::END_CLIP, segment.ends as nat)
}

/// The layers of a segment nest. Behind it are open those layers that are open there
/// in the scene, less those that are closed behind it; and where some are closed
/// behind it, none is left open.
proof fn lemma_segment_nests(input: ReplayInput, segment: SegmentRange)
    requires
        input.nests(),
        input.draw_tags.len() <= u32::MAX,
        segment.draw_start <= segment.draw_end <= input.draw_tags.len(),
        segment.seeds == input.opening_draws(segment.draw_start),
        segment.ends == 0 || segment.ends == depth(
            input.draw_tags,
            input.draw_data,
            data_offsets(input.draw_tags),
            segment.draw_end as int,
        ),
    ensures
        nesting(0, segment_tags(input.draw_tags, segment)) == Some(
            (depth(
                input.draw_tags,
                input.draw_data,
                data_offsets(input.draw_tags),
                segment.draw_end as int,
            ) - segment.ends) as nat,
        ),
{
    let tags = input.draw_tags;
    let data = input.draw_data;
    let start = segment.draw_start as int;
    let end = segment.draw_end as int;
    let begins = segment.seeds.map_values(|draw: u32| tags[draw as int]);
    let range = tags.subrange(start, end);
    lemma_layers_nest_before(tags, data, end, tags.len() as int);
    lemma_layers_nest_before(tags, data, start, end);
    lemma_seed_draws(tags, data, start);
    assert(begins.len() == depth(tags, data, data_offsets(tags), start));
    lemma_nesting_begins(0, begins);
    lemma_nesting_range(tags, data, start, end);
    lemma_nesting_concat(0, begins, range);
    lemma_nesting_concat(0, begins + range, repeated(DrawTag::END_CLIP, segment.ends as nat));
    lemma_nesting_ends(depth(tags, data, data_offsets(tags), end), segment.ends as nat);
}

/// The number of times that a draw tag occurs.
pub open spec fn occurrences(draw_tags: Seq<u32>, tag: u32) -> nat
    decreases draw_tags.len(),
{
    if draw_tags.len() == 0 {
        0
    } else {
        occurrences(draw_tags.drop_last(), tag) + if draw_tags.last() == tag {
            1nat
        } else {
            0
        }
    }
}

/// Whether as many layers begin as end, and none ends before it began.
pub open spec fn balanced(draw_tags: Seq<u32>) -> bool {
    &&& occurrences(draw_tags, DrawTag::BEGIN_CLIP) == occurrences(draw_tags, DrawTag::END_CLIP)
    &&& forall|i: int|
        0 <= i <= draw_tags.len() ==> occurrences(
            #[trigger] draw_tags.take(i),
            DrawTag::END_CLIP,
        ) <= occurrences(draw_tags.take(i), DrawTag::BEGIN_CLIP)
}

/// Where layers nest, those that are open are those that began less those that ended.
proof fn lemma_nesting_counts(draw_tags: Seq<u32>)
    requires
        nesting(0, draw_tags) is Some,
    ensures
        occurrences(draw_tags, DrawTag::BEGIN_CLIP) == occurrences(draw_tags, DrawTag::END_CLIP)
            + nesting(0, draw_tags)->0,
        forall|i: int|
            0 <= i <= draw_tags.len() ==> occurrences(
                #[trigger] draw_tags.take(i),
                DrawTag::END_CLIP,
            ) <= occurrences(draw_tags.take(i), DrawTag::BEGIN_CLIP),
    decreases draw_tags.len(),
{
    assert(draw_tags.take(draw_tags.len() as int) =~= draw_tags);
    if draw_tags.len() > 0 {
        let fewer = draw_tags.drop_last();
        lemma_nesting_counts(fewer);
        assert forall|i: int| 0 <= i <= draw_tags.len() implies occurrences(
            #[trigger] draw_tags.take(i),
            DrawTag::END_CLIP,
        ) <= occurrences(draw_tags.take(i), DrawTag::BEGIN_CLIP) by {
            if i < draw_tags.len() {
                assert(draw_tags.take(i) =~= fewer.take(i));
            }
        }
    }
}

/// Any range of a scene whose layers nest, with the layers that are open before it
/// opened again and those that are open behind it closed, is balanced.
pub proof fn lemma_closed_segment_balanced(layout: Layout, packed: Seq<u8>, start: u32, end: u32)
    requires
        layout.n_draw_objects == layout.streams(packed).draw_tags.len(),
        start <= end <= layout.n_draw_objects,
        ({
            let full = layout.streams(packed);
            let seeds = seed_at(full.draw_tags, full.draw_data, start as int)->0.begin_draws;
            let ends = seed_at(full.draw_tags, full.draw_data, end as int)->0.begin_draws.len();
            &&& seed_at(full.draw_tags, full.draw_data, full.draw_tags.len() as int) is Some
            &&& segment_ready(layout, packed, start as int, end as int, seeds)
            &&& segment_fits(layout, packed, start as int, end as int, seeds, ends as u32)
            &&& packed_segment(layout, packed, start as int, end as int, seeds, ends as u32).1.len()
                / 4 <= u32::MAX
        }),
    ensures
        ({
            let full = layout.streams(packed);
            let seeds = seed_at(full.draw_tags, full.draw_data, start as int)->0.begin_draws;
            let ends = seed_at(full.draw_tags, full.draw_data, end as int)->0.begin_draws.len();
            let (part, bytes) = packed_segment(
                layout,
                packed,
                start as int,
                end as int,
                seeds,
                ends as u32,
            );
            &&& part.readable(bytes.len())
            &&& balanced(part.streams(bytes).draw_tags)
        }),
{
    let full = layout.streams(packed);
    let tags = full.draw_tags;
    let data = full.draw_data;
    let seeds = seed_at(tags, data, start as int)->0.begin_draws;
    let ends = seed_at(tags, data, end as int)->0.begin_draws.len();
    lemma_layers_nest_before(tags, data, end as int, tags.len() as int);
    lemma_layers_nest_before(tags, data, start as int, end as int);
    lemma_seed_draws(tags, data, start as int);
    lemma_seed_draws(tags, data, end as int);
    lemma_increasing_len(seed_at(tags, data, end as int)->0.begin_draws, end as int);
    let input = ReplayInput {
        draw_tags: tags,
        draw_data: data,
        n_draw_objects: layout.n_draw_objects,
        ops: Seq::empty(),
    };
    let segment = SegmentRange { draw_start: start, draw_end: end, seeds, ends: ends as u32 };
    if start == 0 {
        lemma_increasing_len(seeds, 0);
        assert(seeds =~= Seq::empty());
    }
    lemma_segment_nests(input, segment);
    lemma_segment_contents(layout, packed, start as int, end as int, seeds, ends as u32);
    assert(range_tags(full, start as int, end as int) =~= tags.subrange(start as int, end as int));
    lemma_nesting_counts(segment_tags(tags, segment));
}

/// The number of layers that are closed behind a range is that of the open ones, or
/// none.
proof fn lemma_closed_layers(input: ReplayInput, draw: u32, paint_free: bool, painted: bool)
    requires
        input.nests(),
        input.draw_tags.len() <= u32::MAX,
        draw <= input.draw_tags.len(),
    ensures
        input.closed_layers(draw, paint_free, painted) == 0 || input.closed_layers(
            draw,
            paint_free,
            painted,
        ) == depth(
            input.draw_tags,
            input.draw_data,
            data_offsets(input.draw_tags),
            draw as int,
        ),
{
    let tags = input.draw_tags;
    let data = input.draw_data;
    lemma_layers_nest_before(tags, data, draw as int, tags.len() as int);
    lemma_seed_draws(tags, data, draw as int);
    let draws = seed_at(tags, data, draw as int)->0.begin_draws;
    lemma_increasing_len(draws, draw as int);
}

/// Numbers that increase and stay below a bound are no more than the bound.
proof fn lemma_increasing_len(draws: Seq<u32>, bound: int)
    requires
        0 <= bound,
        forall|k: int| 0 <= k < draws.len() ==> (#[trigger] draws[k]) < bound,
        forall|k: int, l: int|
            0 <= k < l < draws.len() ==> (#[trigger] draws[k]) < (#[trigger] draws[l]),
    ensures
        draws.len() <= bound,
    decreases draws.len(),
{
    if draws.len() > 0 {
        let last = draws[draws.len() - 1];
        let fewer = draws.drop_last();
        assert forall|k: int| 0 <= k < fewer.len() implies (#[trigger] fewer[k]) < last by {
            assert(draws[k] < draws[draws.len() - 1]);
        }
        assert forall|k: int, l: int| 0 <= k < l < fewer.len() implies (#[trigger] fewer[k])
            < (#[trigger] fewer[l]) by {
            assert(draws[k] < draws[l]);
        }
        lemma_increasing_len(fewer, last as int);
    }
}

/// The layers of the segment before the first backdrop nest, and where some are
/// closed behind it, none is left open.
pub proof fn lemma_first_segment_nests(input: ReplayInput)
    requires
        input.nests(),
        input.draw_tags.len() <= u32::MAX,
        input.first_end() <= input.draw_tags.len(),
    ensures
        ({
            let segment = input.first_segment();
            let open = nesting(0, segment_tags(input.draw_tags, segment));
            open is Some && (segment.ends > 0 ==> open == Some(0nat))
        }),
{
    reveal(ReplayInput::first_segment);
    lemma_closed_layers(
        input,
        input.first_end(),
        input.paint_free(0, input.first_end()),
        false,
    );
    assert(input.first_segment().seeds =~= input.opening_draws(0));
    lemma_segment_nests(input, input.first_segment());
}

/// The layers of the segment before backdrop `k` nest, with those that were open
/// before it; and where some are closed behind it, none is left open.
pub proof fn lemma_segment_before_nests(input: ReplayInput, k: int)
    requires
        input.nests(),
        input.draw_tags.len() <= u32::MAX,
        0 <= k < input.ops.len(),
        input.cursor(k) <= input.ops[k] <= input.draw_tags.len(),
    ensures
        ({
            let segment = input.segment_before(k);
            let open = nesting(0, segment_tags(input.draw_tags, segment));
            open is Some && (segment.ends > 0 ==> open == Some(0nat))
        }),
{
    reveal(ReplayInput::segment_before);
    lemma_closed_layers(
        input,
        input.ops[k],
        input.paint_free(input.cursor(k), input.ops[k]),
        input.painted_allowed(input.ops[k]),
    );
    lemma_segment_nests(input, input.segment_before(k));
}

/// The layers of the segment behind the last backdrop nest, with those that were
/// open before it.
pub proof fn lemma_tail_segment_nests(input: ReplayInput)
    requires
        input.nests(),
        input.draw_tags.len() <= u32::MAX,
        input.cursor(input.ops.len() as int) <= input.n_draw_objects <= input.draw_tags.len(),
    ensures
        nesting(0, segment_tags(input.draw_tags, input.tail_segment())) == Some(
            depth(
                input.draw_tags,
                input.draw_data,
                data_offsets(input.draw_tags),
                input.n_draw_objects as int,
            ),
        ),
{
    reveal(ReplayInput::tail_segment);
    lemma_segment_nests(input, input.tail_segment());
}

/// Whether a draw object begins a layer that is still open before draw object `at`: no
/// more layers end in between than begin.
pub open spec fn opens_until(draw_tags: Seq<u32>, draw: int, at: int) -> bool {
    &&& 0 <= draw < at
    &&& draw_tags[draw] == DrawTag::BEGIN_CLIP
    &&& nesting(0, draw_tags.subrange(draw + 1, at)) is Some
}

/// Whether a layer that a draw object begins does more than clip.
pub open spec fn more_than_clips(draw_tags: Seq<u32>, draw_data: Seq<u32>, draw: int) -> bool {
    draw_data[data_offsets(draw_tags)[draw] as int] != DrawBeginClip::CLIP_BLEND_MODE
}

/// A layer stays among the open ones until it ends.
proof fn lemma_layer_stays(draw_tags: Seq<u32>, draw_data: Seq<u32>, draw: int, at: int)
    requires
        0 <= draw < at <= draw_tags.len(),
        draw_tags.len() <= u32::MAX,
        draw_tags[draw] == DrawTag::BEGIN_CLIP,
        seed_at(draw_tags, draw_data, at) is Some,
    ensures
        ({
            let offsets = data_offsets(draw_tags);
            let open = open_layers(draw_tags, draw_data, offsets, at)->0;
            let outer = depth(draw_tags, draw_data, offsets, draw);
            match nesting(0, draw_tags.subrange(draw + 1, at)) {
                Some(inner) => open.len() == outer + 1 + inner && open[outer as int].0 == draw,
                None => forall|k: int| 0 <= k < open.len() ==> (#[trigger] open[k]).0 != draw,
            }
        }),
    decreases at - draw,
{
    let offsets = data_offsets(draw_tags);
    let open = open_layers(draw_tags, draw_data, offsets, at)->0;
    let run = draw_tags.subrange(draw + 1, at);
    lemma_layers_nest_before(draw_tags, draw_data, at - 1, at);
    lemma_layers_nest_before(draw_tags, draw_data, draw, at);
    if at == draw + 1 {
        assert(run =~= Seq::empty());
    } else {
        lemma_layer_stays(draw_tags, draw_data, draw, at - 1);
        assert(run.drop_last() =~= draw_tags.subrange(draw + 1, at - 1));
        assert(run.last() == draw_tags[at - 1]);
        let before = open_layers(draw_tags, draw_data, offsets, at - 1)->0;
        if nesting(0, run) is None && nesting(0, run.drop_last()) is Some {
            let outer = depth(draw_tags, draw_data, offsets, draw);
            assert(open =~= before.drop_last());
            lemma_opened_in_order(draw_tags, draw_data, offsets, at - 1);
            assert forall|k: int| 0 <= k < open.len() implies (#[trigger] open[k]).0 != draw by {
                assert(before[k].0 < before[outer as int].0);
            }
        }
    }
}

/// The draw objects that opened the open layers are those that begin a layer which is
/// still open.
pub proof fn lemma_seeds_are_open_layers(
    draw_tags: Seq<u32>,
    draw_data: Seq<u32>,
    draw: u32,
    at: int,
)
    requires
        0 <= at <= draw_tags.len(),
        draw_tags.len() <= u32::MAX,
        seed_at(draw_tags, draw_data, at) is Some,
    ensures
        seed_at(draw_tags, draw_data, at)->0.begin_draws.contains(draw) <==> opens_until(
            draw_tags,
            draw as int,
            at,
        ),
{
    let offsets = data_offsets(draw_tags);
    let open = open_layers(draw_tags, draw_data, offsets, at)->0;
    let draws = seed_at(draw_tags, draw_data, at)->0.begin_draws;
    lemma_seed_draws(draw_tags, draw_data, at);
    assert forall|k: int| 0 <= k < draws.len() implies #[trigger] draws[k] == open[k].0 by {}
    if draw < at && draw_tags[draw as int] == DrawTag::BEGIN_CLIP {
        lemma_layer_stays(draw_tags, draw_data, draw as int, at);
        if nesting(0, draw_tags.subrange(draw + 1, at)) is Some {
            let k = depth(draw_tags, draw_data, offsets, draw as int) as int;
            assert(draws[k] == draw);
        } else if draws.contains(draw) {
            let k = choose|k: int| 0 <= k < draws.len() && draws[k] == draw;
            assert(open[k].0 == draw);
        }
    }
}

/// Whether a segment opens again, outermost first, the layers that are open before its
/// range, and no others.
pub open spec fn reopens_layers(draw_tags: Seq<u32>, segment: SegmentRange) -> bool {
    &&& forall|draw: u32| #[trigger]
        segment.seeds.contains(draw) <==> opens_until(
            draw_tags,
            draw as int,
            segment.draw_start as int,
        )
    &&& forall|k: int, l: int|
        0 <= k < l < segment.seeds.len() ==> (#[trigger] segment.seeds[k]) < (
        #[trigger] segment.seeds[l])
}

proof fn lemma_opening_draws(input: ReplayInput, segment: SegmentRange)
    requires
        input.nests(),
        input.draw_tags.len() <= u32::MAX,
        segment.draw_start <= input.draw_tags.len(),
        segment.seeds == input.opening_draws(segment.draw_start),
    ensures
        reopens_layers(input.draw_tags, segment),
{
    let tags = input.draw_tags;
    let data = input.draw_data;
    let start = segment.draw_start as int;
    lemma_layers_nest_before(tags, data, start, tags.len() as int);
    lemma_seed_draws(tags, data, start);
    assert forall|draw: u32| #[trigger]
        segment.seeds.contains(draw) <==> opens_until(tags, draw as int, start) by {
        if start > 0 {
            lemma_seeds_are_open_layers(tags, data, draw, start);
        }
    }
}

/// Every segment opens again, outermost first, the layers that are open before its range,
/// and no others.
pub proof fn lemma_segments_reopen_layers(input: ReplayInput, k: int)
    requires
        input.nests(),
        input.draw_tags.len() <= u32::MAX,
        0 <= k < input.ops.len(),
        input.cursor(k) <= input.draw_tags.len(),
        input.cursor(input.ops.len() as int) <= input.draw_tags.len(),
    ensures
        reopens_layers(input.draw_tags, input.first_segment()),
        reopens_layers(input.draw_tags, input.segment_before(k)),
        reopens_layers(input.draw_tags, input.tail_segment()),
{
    reveal(ReplayInput::first_segment);
    reveal(ReplayInput::segment_before);
    reveal(ReplayInput::tail_segment);
    assert(input.first_segment().seeds =~= input.opening_draws(0));
    lemma_opening_draws(input, input.first_segment());
    lemma_opening_draws(input, input.segment_before(k));
    lemma_opening_draws(input, input.tail_segment());
}

/// Whether some layer that is open before draw object `at` does more than clip.
pub open spec fn inside_more_than_clips(draw_tags: Seq<u32>, draw_data: Seq<u32>, at: int) -> bool {
    exists|draw: u32| #[trigger]
        opens_until(draw_tags, draw as int, at) && more_than_clips(
            draw_tags,
            draw_data,
            draw as int,
        )
}

/// A seed says whether some open layer does more than clip.
proof fn lemma_active_non_clip(draw_tags: Seq<u32>, draw_data: Seq<u32>, at: int)
    requires
        0 <= at <= draw_tags.len(),
        draw_tags.len() <= u32::MAX,
        seed_at(draw_tags, draw_data, at) is Some,
    ensures
        seed_at(draw_tags, draw_data, at)->0.has_active_non_clip <==> inside_more_than_clips(
            draw_tags,
            draw_data,
            at,
        ),
{
    let offsets = data_offsets(draw_tags);
    let open = open_layers(draw_tags, draw_data, offsets, at)->0;
    let draws = seed_at(draw_tags, draw_data, at)->0.begin_draws;
    lemma_opened_in_order(draw_tags, draw_data, offsets, at);
    assert forall|k: int| 0 <= k < draws.len() implies #[trigger] draws[k] == open[k].0 by {}
    if seed_at(draw_tags, draw_data, at)->0.has_active_non_clip {
        let k = choose|k: int| 0 <= k < open.len() && !(#[trigger] open[k]).1;
        let draw = open[k].0;
        assert(draws[k] == draw);
        assert(draws.contains(draw));
        lemma_seeds_are_open_layers(draw_tags, draw_data, draw, at);
        assert(opens_until(draw_tags, draw as int, at));
    }
    if inside_more_than_clips(draw_tags, draw_data, at) {
        let draw = choose|draw: u32| #[trigger]
            opens_until(draw_tags, draw as int, at) && more_than_clips(
                draw_tags,
                draw_data,
                draw as int,
            );
        lemma_seeds_are_open_layers(draw_tags, draw_data, draw, at);
        let k = choose|k: int| 0 <= k < draws.len() && draws[k] == draw;
        assert(open[k].0 == draw);
        assert(!open[k].1);
    }
}

/// In a scene that can be replayed in segments, the segment before the first backdrop
/// closes all of its layers where one of those that are open at the backdrop does more
/// than clip, and none where they all only clip.
pub proof fn lemma_first_segment_closes(input: ReplayInput)
    requires
        input.replayable(),
        input.draw_tags.len() <= u32::MAX,
        input.ops.len() > 0,
    ensures
        ({
            let segment = input.first_segment();
            if inside_more_than_clips(
                input.draw_tags,
                input.draw_data,
                segment.draw_end as int,
            ) {
                nesting(0, segment_tags(input.draw_tags, segment)) == Some(0nat)
            } else {
                segment.ends == 0
            }
        }),
{
    reveal(ReplayInput::first_segment);
    let tags = input.draw_tags;
    let data = input.draw_data;
    let end = input.first_end();
    assert(input.ops[0] < tags.len());
    assert(input.op_allowed(0));
    lemma_layers_nest_before(tags, data, end as int, tags.len() as int);
    lemma_active_non_clip(tags, data, end as int);
    lemma_seed_draws(tags, data, end as int);
    let seed = seed_at(tags, data, end as int)->0;
    lemma_increasing_len(seed.begin_draws, end as int);
    if seed.has_active_non_clip {
        lemma_inside_some(tags, data, end as int);
        let begins = seed.non_replay_safe_non_clip_begin_draws;
        if input.painted_allowed(end) {
            lemma_forbidding_layers_are_open(
                open_layers(tags, data, data_offsets(tags), end as int)->0,
                begins[0],
            );
            assert(begins.contains(begins[0]));
            assert(seed.begin_draws.contains(begins[0]));
        }
        assert(input.first_segment().ends == seed.begin_draws.len());
    }
    assert(input.first_segment().seeds =~= input.opening_draws(0));
    lemma_segment_nests(input, input.first_segment());
}

/// A layer that is open before a draw object stands before it.
proof fn lemma_inside_some(draw_tags: Seq<u32>, draw_data: Seq<u32>, at: int)
    requires
        0 <= at,
        inside_more_than_clips(draw_tags, draw_data, at),
    ensures
        at > 0,
{
}

/// In a scene that can be replayed in segments, the segment before a backdrop closes all
/// of its layers where one of those that are open at the backdrop does more than clip, and
/// none where they all only clip.
pub proof fn lemma_segment_before_closes(input: ReplayInput, k: int)
    requires
        input.replayable(),
        input.draw_tags.len() <= u32::MAX,
        0 < k < input.ops.len(),
        input.ops[0] < input.cursor(k) < input.ops[k],
    ensures
        ({
            let segment = input.segment_before(k);
            if inside_more_than_clips(
                input.draw_tags,
                input.draw_data,
                segment.draw_end as int,
            ) {
                nesting(0, segment_tags(input.draw_tags, segment)) == Some(0nat)
            } else {
                segment.ends == 0
            }
        }),
{
    reveal(ReplayInput::segment_before);
    let tags = input.draw_tags;
    let data = input.draw_data;
    let end = input.ops[k];
    assert(input.ops[k] < tags.len());
    assert(input.op_allowed(k));
    lemma_layers_nest_before(tags, data, end as int, tags.len() as int);
    lemma_active_non_clip(tags, data, end as int);
    lemma_seed_draws(tags, data, end as int);
    let seed = seed_at(tags, data, end as int)->0;
    lemma_increasing_len(seed.begin_draws, end as int);
    if seed.has_active_non_clip {
        assert(input.segment_before(k).ends == seed.begin_draws.len());
    }
    lemma_segment_nests(input, input.segment_before(k));
}

} // verus!
