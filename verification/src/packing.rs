//! Packed scenes that hold a part of another scene.

use vstd::prelude::*;
use vstd::slice::slice_subrange;

use crate::encoding::{
    draw_prefix_monoid, info_size_sum, pack_path_tags, try_draw_prefix_monoid,
    try_pack_path_tags, DrawMonoid, DrawTag, PathMonoid, PathTag, Style, Transform,
};
use crate::encoded::info_fits;
use crate::layout::{pack_streams, Layout};

verus! {

use crate::encoding::{
    draw_clips, draw_counts_fit, draw_info, draw_paths, draw_words, lemma_draw_concat,
    lemma_draw_monotone, lemma_path_monotone, path_counts_fit, path_style_words,
    path_transforms, path_words,
};
use crate::layout::{
    empty_layout, lemma_pack_round_trip, packed_bytes, packed_layout, Streams,
};

// ---------------------------------------------------------------------------
// Path tags of the first paths
// ---------------------------------------------------------------------------

/// Where the next `count` paths end, from position `at` of the path tags: after
/// the path marker of the last of them, or at the end of the tags.
pub open spec fn path_tag_end_from(path_tags: Seq<u8>, at: int, count: int) -> int
    decreases path_tags.len() - at,
{
    if at >= path_tags.len() || count <= 0 {
        at
    } else if path_tags[at] == PathTag::PATH {
        path_tag_end_from(path_tags, at + 1, count - 1)
    } else {
        path_tag_end_from(path_tags, at + 1, count)
    }
}

/// Where the first `count` paths end.
pub open spec fn path_tag_end(path_tags: Seq<u8>, count: int) -> int {
    path_tag_end_from(path_tags, 0, count)
}

/// The number of path markers among the tags.
pub open spec fn path_markers(path_tags: Seq<u8>) -> nat {
    crate::encoding::total(
        path_tags,
        |tag: u8|
            if tag == PathTag::PATH {
                1nat
            } else {
                0nat
            },
    )
}

/// The end of the first paths lies within the tags, and more paths do not end
/// before fewer.
pub proof fn lemma_path_tag_end_bounds(path_tags: Seq<u8>, at: int, fewer: int, more: int)
    requires
        0 <= at <= path_tags.len(),
        fewer <= more,
    ensures
        at <= path_tag_end_from(path_tags, at, fewer) <= path_tag_end_from(path_tags, at, more)
            <= path_tags.len(),
    decreases path_tags.len() - at,
{
    if at < path_tags.len() && more > 0 {
        if path_tags[at] == PathTag::PATH {
            lemma_path_tag_end_bounds(path_tags, at + 1, fewer - 1, more - 1);
        } else {
            lemma_path_tag_end_bounds(path_tags, at + 1, fewer, more);
        }
    }
}

/// The tags up to the end of the first `count` paths hold `count` path markers,
/// the last of them at their end, unless the tags hold fewer.
pub proof fn lemma_path_tag_end_markers(path_tags: Seq<u8>, count: int)
    requires
        0 <= count,
    ensures
        ({
            let end = path_tag_end(path_tags, count);
            &&& 0 <= end <= path_tags.len()
            &&& path_markers(path_tags.take(end)) <= count
            &&& path_markers(path_tags.take(end)) < count ==> end == path_tags.len()
            &&& path_markers(path_tags.take(end)) == count && 0 < count ==> path_tags[end - 1]
                == PathTag::PATH
        }),
{
    assert(path_tags.take(0) =~= Seq::empty());
    lemma_path_tag_end_markers_from(path_tags, 0, count, count);
}

proof fn lemma_path_tag_end_markers_from(path_tags: Seq<u8>, at: int, rest: int, count: int)
    requires
        0 <= at <= path_tags.len(),
        0 <= rest,
        path_markers(path_tags.take(at)) == count - rest,
        0 < count && rest == 0 ==> at > 0 && path_tags[at - 1] == PathTag::PATH,
    ensures
        ({
            let end = path_tag_end_from(path_tags, at, rest);
            &&& at <= end <= path_tags.len()
            &&& path_markers(path_tags.take(end)) <= count
            &&& path_markers(path_tags.take(end)) < count ==> end == path_tags.len()
            &&& path_markers(path_tags.take(end)) == count && 0 < count ==> path_tags[end - 1]
                == PathTag::PATH
        }),
    decreases path_tags.len() - at,
{
    if at < path_tags.len() && rest > 0 {
        assert(path_tags.take(at + 1).drop_last() =~= path_tags.take(at));
        if path_tags[at] == PathTag::PATH {
            lemma_path_tag_end_markers_from(path_tags, at + 1, rest - 1, count);
        } else {
            lemma_path_tag_end_markers_from(path_tags, at + 1, rest, count);
        }
    }
}

/// Where the first `path_count` paths end.
pub fn path_tag_end_for_path_count(path_tags: &[u8], path_count: usize) -> (end: usize)
    ensures
        end == path_tag_end(path_tags@, path_count as int),
        end <= path_tags@.len(),
{
    let mut path_tag_end: usize = 0;
    let mut seen_paths: usize = 0;
    while path_tag_end < path_tags.len() && seen_paths < path_count
        invariant
            path_tag_end <= path_tags@.len(),
            seen_paths <= path_count,
            path_tag_end_from(path_tags@, path_tag_end as int, path_count - seen_paths)
                == path_tag_end_from(path_tags@, 0, path_count as int),
        decreases path_tags.len() - path_tag_end,
    {
        if path_tags[path_tag_end] == PathTag::PATH {
            seen_paths += 1;
        }
        path_tag_end += 1;
    }
    path_tag_end
}

// ---------------------------------------------------------------------------
// Ranges of draw objects
// ---------------------------------------------------------------------------

/// The path tags of the draw objects before `end`.
pub open spec fn path_tags_before(full: Streams, end: int) -> Seq<u8> {
    full.path_tags.take(path_tag_end(full.path_tags, draw_paths(full.draw_tags.take(end)) as int))
}

/// Whether the streams hold all that the draw objects before `end` refer to.
pub open spec fn available(full: Streams, end: int) -> bool {
    let tags = full.draw_tags.take(end);
    let path_tags = path_tags_before(full, end);
    &&& draw_counts_fit(tags)
    &&& draw_words(tags) <= full.draw_data.len()
    &&& path_counts_fit(path_tags)
    &&& 4 * path_words(path_tags) <= full.path_data.len()
    &&& path_transforms(path_tags) <= full.transforms.len()
    &&& path_style_words(path_tags) <= 2 * full.styles.len()
}

/// Whether a range takes over the transform and the style that are active
/// before it: tags come before it, and there are such by its end.
pub open spec fn takes_over_state(full: Streams, start: int, end: int) -> bool {
    &&& path_tags_before(full, start).len() > 0
    &&& path_transforms(path_tags_before(full, end)) > 0
    &&& path_style_words(path_tags_before(full, end)) > 0
}

/// One less than `value`, at least zero.
pub open spec fn one_before(value: int) -> int {
    if value > 0 {
        value - 1
    } else {
        0
    }
}

/// The streams of the draw objects from `start` to `end`. Transforms and styles
/// stay active over draw boundaries, so a range that takes them over begins
/// with a marker for each.
pub open spec fn range_streams(full: Streams, start: int, end: int) -> Streams {
    if end <= start {
        Streams::empty()
    } else {
        let before = path_tags_before(full, start);
        let through = path_tags_before(full, end);
        let seeded = takes_over_state(full, start, end);
        let transforms = path_transforms(before) as int;
        let styles = path_style_words(before) as int / 2;
        Streams {
            path_tags: (if seeded {
                seq![PathTag::TRANSFORM, PathTag::STYLE]
            } else {
                Seq::empty()
            }) + through.skip(before.len() as int),
            path_data: full.path_data.subrange(
                4 * path_words(before) as int,
                4 * path_words(through) as int,
            ),
            draw_tags: full.draw_tags.subrange(start, end),
            draw_data: full.draw_data.subrange(
                draw_words(full.draw_tags.take(start)) as int,
                draw_words(full.draw_tags.take(end)) as int,
            ),
            transforms: full.transforms.subrange(
                if seeded {
                    one_before(transforms)
                } else {
                    transforms
                },
                path_transforms(through) as int,
            ),
            styles: full.styles.subrange(
                if seeded {
                    one_before(styles)
                } else {
                    styles
                },
                path_style_words(through) as int / 2,
            ),
        }
    }
}

/// A draw index of a scene, at most the number of its draw objects.
pub open spec fn clamped_draw(full: Streams, draw: int) -> int {
    if draw <= full.draw_tags.len() {
        draw
    } else {
        full.draw_tags.len() as int
    }
}

/// Whether a range can be cut out of a packed scene: its draw tags can be read, and
/// where draw objects are in the range, the other streams too, which hold all that
/// these refer to.
pub open spec fn range_ready(
    layout: Layout,
    packed: Seq<u8>,
    draw_start: int,
    draw_end: int,
) -> bool {
    let full = layout.streams(packed);
    &&& layout.has_draw_tags(packed.len())
    &&& clamped_draw(full, draw_start) < clamped_draw(full, draw_end) ==> {
        &&& layout.readable(packed.len())
        &&& available(full, clamped_draw(full, draw_end))
    }
}

/// The packed scene of streams whose counts are those of their draw tags.
#[verifier::opaque]
pub open spec fn packed_scene(streams: Streams) -> (Layout, Seq<u8>) {
    let tags = streams.draw_tags;
    (
        packed_layout(
            streams,
            tags.len() as u32,
            draw_paths(tags) as u32,
            draw_clips(tags) as u32,
            draw_info(tags) as u32,
        ),
        packed_bytes(streams),
    )
}

/// The packed scene of the draw objects from `draw_start` to `draw_end`.
pub open spec fn packed_range(
    layout: Layout,
    packed: Seq<u8>,
    draw_start: int,
    draw_end: int,
) -> (Layout, Seq<u8>) {
    let full = layout.streams(packed);
    packed_scene(range_streams(full, clamped_draw(full, draw_start), clamped_draw(full, draw_end)))
}

/// An empty scene packs to nothing.
pub proof fn lemma_empty_scene()
    ensures
        packed_scene(Streams::empty()) == (empty_layout(), Seq::<u8>::empty()),
{
    reveal(packed_scene);
    assert(packed_bytes(Streams::empty()) =~= Seq::<u8>::empty());
}

/// The style words of a run of path tags come in pairs.
pub(crate) proof fn lemma_style_words_even(tags: Seq<u8>)
    ensures
        path_style_words(tags) % 2 == 0,
    decreases tags.len(),
{
    if tags.len() > 0 {
        lemma_style_words_even(tags.drop_last());
    }
}

/// What is available for later draw objects is available for earlier ones.
pub proof fn lemma_available_before(full: Streams, start: int, end: int)
    requires
        0 <= start <= end <= full.draw_tags.len(),
        available(full, end),
    ensures
        available(full, start),
        path_tags_before(full, start).len() <= path_tags_before(full, end).len(),
        path_tags_before(full, end).take(path_tags_before(full, start).len() as int)
            == path_tags_before(full, start),
        path_words(path_tags_before(full, start)) <= path_words(path_tags_before(full, end)),
        path_transforms(path_tags_before(full, start)) <= path_transforms(path_tags_before(full, end)),
        path_style_words(path_tags_before(full, start)) <= path_style_words(
            path_tags_before(full, end),
        ),
{
    lemma_draw_monotone(full.draw_tags, start, end);
    let few = draw_paths(full.draw_tags.take(start)) as int;
    let many = draw_paths(full.draw_tags.take(end)) as int;
    lemma_path_tag_end_bounds(full.path_tags, 0, few, many);
    let s = path_tag_end(full.path_tags, few);
    let e = path_tag_end(full.path_tags, many);
    lemma_path_monotone(full.path_tags, s, e);
    assert(full.path_tags.take(e).take(s) =~= full.path_tags.take(s));
}

/// Packs streams whose counts are those of their draw tags.
fn pack_scene(
    path_tags: &[u8],
    path_data: &[u8],
    draw_tags: &[u32],
    draw_data: &[u32],
    transforms: &[Transform],
    styles: &[Style],
    counts: Layout,
) -> (result: (Layout, Vec<u8>))
    requires
        counts.n_draw_objects == draw_tags@.len(),
        counts.n_paths == draw_paths(draw_tags@),
        counts.n_clips == draw_clips(draw_tags@),
        counts.bin_data_start == draw_info(draw_tags@),
    ensures
        (result.0, result.1@) == packed_scene(
            (Streams {
                path_tags: path_tags@,
                path_data: path_data@,
                draw_tags: draw_tags@,
                draw_data: draw_data@,
                transforms: transforms@,
                styles: styles@,
            }),
        ),
{
    reveal(packed_scene);
    pack_streams(path_tags, path_data, draw_tags, draw_data, transforms, styles, counts)
}

/// What the draw objects before `draws` refer to: the counts of their draw tags, the
/// number of their path tags, and the counts of these.
fn prefix_counts(
    draw_tags: &[u32],
    path_tags: &[u8],
    draws: usize,
    Ghost(full): Ghost<Streams>,
) -> (counts: (DrawMonoid, usize, PathMonoid))
    requires
        draw_tags@ == full.draw_tags,
        path_tags@ == full.path_tags,
        draws <= full.draw_tags.len(),
        available(full, draws as int),
    ensures
        counts.0.counts(full.draw_tags.take(draws as int)),
        counts.1 == path_tags_before(full, draws as int).len(),
        counts.1 <= full.path_tags.len(),
        path_tags_before(full, draws as int) == full.path_tags.take(counts.1 as int),
        counts.2.counts(path_tags_before(full, draws as int)),
{
    let tags = slice_subrange(draw_tags, 0, draws);
    assert(tags@ =~= full.draw_tags.take(draws as int));
    let draw: DrawMonoid = draw_prefix_monoid(tags);
    let end: usize = path_tag_end_for_path_count(path_tags, draw.path_ix as usize);
    let used = slice_subrange(path_tags, 0, end);
    assert(used@ =~= path_tags_before(full, draws as int));
    (draw, end, pack_path_tags(used))
}

/// The packed scene of the draw objects from `draw_start` to `draw_end`, with
/// the transform and the style that are active before them.
#[verifier::rlimit(60)]
#[verifier::spinoff_prover]
pub fn build_packed_contiguous_range(
    full_packed: &[u8],
    full_layout: Layout,
    draw_start: u32,
    draw_end: u32,
) -> (result: (Layout, Vec<u8>))
    requires
        range_ready(full_layout, full_packed@, draw_start as int, draw_end as int),
    ensures
        (result.0, result.1@) == packed_range(
            full_layout,
            full_packed@,
            draw_start as int,
            draw_end as int,
        ),
{
    let ghost full = full_layout.streams(full_packed@);
    let draw_tags = full_layout.draw_tags(full_packed);
    let draw_start: u32 = if (draw_start as usize) < draw_tags.len() {
        draw_start
    } else {
        draw_tags.len() as u32
    };
    let draw_end: u32 = if (draw_end as usize) < draw_tags.len() {
        draw_end
    } else {
        draw_tags.len() as u32
    };
    if draw_end <= draw_start {
        proof {
            lemma_empty_scene();
        }
        return (Layout::default(), Vec::new());
    }
    let start: usize = draw_start as usize;
    let end: usize = draw_end as usize;
    proof {
        lemma_available_before(full, start as int, end as int);
        lemma_style_words_even(path_tags_before(full, start as int));
        lemma_style_words_even(path_tags_before(full, end as int));
        lemma_draw_monotone(full.draw_tags, start as int, end as int);
        assert(full.draw_tags.take(end as int) =~= full.draw_tags.take(start as int)
            + full.draw_tags.subrange(start as int, end as int));
        lemma_draw_concat(
            full.draw_tags.take(start as int),
            full.draw_tags.subrange(start as int, end as int),
        );
    }
    let tags_range = slice_subrange(draw_tags.as_slice(), start, end);
    let bin_data_start: u32 = info_size_sum(tags_range);

    let path_tags = full_layout.path_tags(full_packed);
    let (draw_before, path_tag_start, path_before) = prefix_counts(
        draw_tags.as_slice(),
        path_tags,
        start,
        Ghost(full),
    );
    let (draw_through, path_tag_end, path_through) = prefix_counts(
        draw_tags.as_slice(),
        path_tags,
        end,
        Ghost(full),
    );
    let transform_range_start: usize = path_before.trans_ix as usize;
    let transform_end: usize = path_through.trans_ix as usize;
    let transform_seed_start: usize = transform_range_start.saturating_sub(1);
    let style_range_start: usize = path_before.style_ix as usize / 2;
    let style_seed_start: usize = (path_before.style_ix as usize).saturating_sub(2) / 2;
    let style_end: usize = path_through.style_ix as usize / 2;
    let has_seed_state = path_tag_start > 0 && transform_seed_start < transform_end
        && style_seed_start < style_end;
    assert(has_seed_state == takes_over_state(full, start as int, end as int));
    let transform_start: usize = if has_seed_state {
        transform_seed_start
    } else {
        transform_range_start
    };
    let style_start: usize = if has_seed_state {
        style_seed_start
    } else {
        style_range_start
    };

    let full_path_data = full_layout.path_data(full_packed);
    let full_draw_data = full_layout.draw_data(full_packed);
    let full_transforms = full_layout.transforms(full_packed);
    let full_styles = full_layout.styles(full_packed);
    assert(full_path_data.len() <= usize::MAX);

    // Path encoding keeps transform and style as state that carries across draw
    // boundaries: seed the range with those that are active before it.
    let mut segment_tags: Vec<u8> = Vec::new();
    if has_seed_state {
        segment_tags.push(PathTag::TRANSFORM);
        segment_tags.push(PathTag::STYLE);
    }
    segment_tags.extend_from_slice(slice_subrange(path_tags, path_tag_start, path_tag_end));

    let path_data = slice_subrange(
        full_path_data,
        path_before.pathseg_offset as usize * 4,
        path_through.pathseg_offset as usize * 4,
    );
    let draw_data = slice_subrange(
        full_draw_data.as_slice(),
        draw_before.scene_offset as usize,
        draw_through.scene_offset as usize,
    );
    let transforms = slice_subrange(full_transforms.as_slice(), transform_start, transform_end);
    let styles = slice_subrange(full_styles.as_slice(), style_start, style_end);
    let mut counts = Layout::default();
    counts.n_draw_objects = draw_end - draw_start;
    counts.n_paths = draw_through.path_ix - draw_before.path_ix;
    counts.n_clips = draw_through.clip_ix - draw_before.clip_ix;
    counts.bin_data_start = bin_data_start;
    proof {
        let streams = range_streams(full, start as int, end as int);
        assert(segment_tags@ =~= streams.path_tags);
        assert(path_data@ =~= streams.path_data);
        assert(draw_data@ =~= streams.draw_data);
        assert(transforms@ =~= streams.transforms);
        assert(styles@ =~= streams.styles);
        assert(tags_range@ =~= streams.draw_tags);
    }
    pack_scene(
        segment_tags.as_slice(),
        path_data,
        tags_range,
        draw_data,
        transforms,
        styles,
        counts,
    )
}

/// Whether the streams of a packed scene can be read.
pub fn scene_is_readable(packed: &[u8], layout: Layout) -> (is_readable: bool)
    ensures
        is_readable == layout.readable(packed@.len()),
{
    if layout.path_tag_base > layout.path_data_base || layout.path_data_base > layout.draw_tag_base
        || layout.draw_tag_base > layout.draw_data_base || layout.draw_data_base
        > layout.transform_base || layout.transform_base > layout.style_base {
        return false;
    }
    if layout.style_base as usize > packed.len() / 4 {
        return false;
    }
    (layout.style_base - layout.transform_base) % 6 == 0 && (packed.len() - layout.style_base
        as usize * 4) % 8 == 0
}

/// Whether a packed scene holds all that its draw objects before `draw_end` refer to.
pub fn draws_are_available(packed: &[u8], layout: Layout, draw_end: u32) -> (are_available: bool)
    requires
        layout.readable(packed@.len()),
    ensures
        ({
            let full = layout.streams(packed@);
            are_available == available(full, clamped_draw(full, draw_end as int))
        }),
{
    let ghost full = layout.streams(packed@);
    let draw_tags = layout.draw_tags(packed);
    let draw_data = layout.draw_data(packed);
    let path_tags = layout.path_tags(packed);
    let path_data = layout.path_data(packed);
    let transforms = layout.transforms(packed);
    let styles = layout.styles(packed);
    let draws: usize = if draw_end as usize <= draw_tags.len() {
        draw_end as usize
    } else {
        draw_tags.len()
    };
    let tags = slice_subrange(draw_tags.as_slice(), 0, draws);
    assert(tags@ =~= full.draw_tags.take(draws as int));
    let counts = match try_draw_prefix_monoid(tags) {
        Some(counts) => counts,
        None => {
            return false;
        },
    };
    let end: usize = path_tag_end_for_path_count(path_tags, counts.path_ix as usize);
    let used_tags = slice_subrange(path_tags, 0, end);
    assert(used_tags@ =~= path_tags_before(full, draws as int));
    match try_pack_path_tags(used_tags) {
        Some(used) => counts.scene_offset as usize <= draw_data.len() && used.pathseg_offset as u64
            * 4 <= path_data.len() as u64 && used.trans_ix as usize <= transforms.len()
            && (used.style_ix as u64 + 1) / 2 <= styles.len() as u64,
        None => false,
    }
}

/// The packed scene of the draw objects before `draw_end`.
pub fn build_packed_prefix(full_packed: &[u8], full_layout: Layout, draw_end: u32) -> (result: (
    Layout,
    Vec<u8>,
))
    requires
        full_layout.readable(full_packed@.len()),
        ({
            let full = full_layout.streams(full_packed@);
            available(full, clamped_draw(full, draw_end as int))
        }),
    ensures
        (result.0, result.1@) == packed_range(full_layout, full_packed@, 0, draw_end as int),
{
    let ghost full = full_layout.streams(full_packed@);
    let draw_tags = full_layout.draw_tags(full_packed);
    let draw_end: u32 = if (draw_end as usize) < draw_tags.len() {
        draw_end
    } else {
        draw_tags.len() as u32
    };
    let end: usize = draw_end as usize;
    let tags_prefix = slice_subrange(draw_tags.as_slice(), 0, end);
    assert(tags_prefix@ =~= full.draw_tags.take(end as int));
    let bin_data_start: u32 = info_size_sum(tags_prefix);

    let path_tags = full_layout.path_tags(full_packed);
    let (draw_monoid, path_tag_end, path_monoid) = prefix_counts(
        draw_tags.as_slice(),
        path_tags,
        end,
        Ghost(full),
    );
    let path_tags_prefix = slice_subrange(path_tags, 0, path_tag_end);
    assert(path_tags_prefix@ =~= path_tags_before(full, end as int));

    let full_path_data = full_layout.path_data(full_packed);
    let full_draw_data = full_layout.draw_data(full_packed);
    let full_transforms = full_layout.transforms(full_packed);
    let full_styles = full_layout.styles(full_packed);
    assert(full_path_data.len() <= usize::MAX);

    let path_data = slice_subrange(full_path_data, 0, path_monoid.pathseg_offset as usize * 4);
    let draw_data = slice_subrange(
        full_draw_data.as_slice(),
        0,
        draw_monoid.scene_offset as usize,
    );
    let transforms = slice_subrange(full_transforms.as_slice(), 0, path_monoid.trans_ix as usize);
    let styles = slice_subrange(full_styles.as_slice(), 0, path_monoid.style_ix as usize / 2);
    let mut counts = Layout::default();
    counts.n_draw_objects = draw_end;
    counts.n_paths = draw_monoid.path_ix;
    counts.n_clips = draw_monoid.clip_ix;
    counts.bin_data_start = bin_data_start;
    proof {
        let streams = range_streams(full, 0, end as int);
        assert(full.draw_tags.take(0) =~= Seq::<u32>::empty());
        assert(full.path_tags.take(0) =~= Seq::<u8>::empty());
        assert(path_tags_before(full, 0) =~= Seq::<u8>::empty());
        if end == 0 {
            assert(path_tags_before(full, end as int) =~= Seq::<u8>::empty());
        }
        assert(path_tags_prefix@ =~= streams.path_tags);
        assert(path_data@ =~= streams.path_data);
        assert(draw_data@ =~= streams.draw_data);
        assert(transforms@ =~= streams.transforms);
        assert(styles@ =~= streams.styles);
        assert(tags_prefix@ =~= streams.draw_tags);
    }
    pack_scene(path_tags_prefix, path_data, tags_prefix, draw_data, transforms, styles, counts)
}

// ---------------------------------------------------------------------------
// Joined scenes
// ---------------------------------------------------------------------------

/// The sum of two words, at most the largest word.
pub open spec fn saturated_sum(a: u32, b: u32) -> u32 {
    if a + b <= u32::MAX {
        (a + b) as u32
    } else {
        u32::MAX
    }
}

/// The counts of two scenes together; positions are left at zero.
pub open spec fn joined_counts(a: Layout, b: Layout) -> Layout {
    Layout {
        n_draw_objects: saturated_sum(a.n_draw_objects, b.n_draw_objects),
        n_paths: saturated_sum(a.n_paths, b.n_paths),
        n_clips: saturated_sum(a.n_clips, b.n_clips),
        bin_data_start: saturated_sum(a.bin_data_start, b.bin_data_start),
        ..empty_layout()
    }
}

/// Packed scenes, each with its bytes.
pub open spec fn parts_view(parts: Seq<(Layout, Vec<u8>)>) -> Seq<(Layout, Seq<u8>)> {
    parts.map_values(|part: (Layout, Vec<u8>)| (part.0, part.1@))
}

/// The counts and streams of packed scenes one after the other. A scene without
/// draw objects is left out.
pub open spec fn joined_parts(parts: Seq<(Layout, Seq<u8>)>) -> (Layout, Streams)
    decreases parts.len(),
{
    if parts.len() == 0 {
        (empty_layout(), Streams::empty())
    } else {
        let (counts, streams) = joined_parts(parts.drop_last());
        let (layout, packed) = parts.last();
        if layout.n_draw_objects == 0 {
            (counts, streams)
        } else {
            (joined_counts(counts, layout), streams.join(layout.streams(packed)))
        }
    }
}

/// The packed scene that holds packed scenes one after the other.
pub open spec fn merged_parts(parts: Seq<(Layout, Seq<u8>)>) -> (Layout, Seq<u8>) {
    let (counts, streams) = joined_parts(parts);
    (
        packed_layout(
            streams,
            counts.n_draw_objects,
            counts.n_paths,
            counts.n_clips,
            counts.bin_data_start,
        ),
        packed_bytes(streams),
    )
}

/// Whether the streams of every packed scene that has draw objects can be read.
pub open spec fn parts_readable(parts: Seq<(Layout, Seq<u8>)>) -> bool {
    forall|k: int|
        0 <= k < parts.len() && (#[trigger] parts[k]).0.n_draw_objects != 0
            ==> parts[k].0.readable(parts[k].1.len())
}

/// The packed scene that holds packed scenes one after the other.
pub fn merge_packed_parts(parts: &[(Layout, Vec<u8>)]) -> (result: (Layout, Vec<u8>))
    requires
        parts_readable(parts_view(parts@)),
    ensures
        (result.0, result.1@) == merged_parts(parts_view(parts@)),
{
    let mut path_tags: Vec<u8> = Vec::new();
    let mut path_data: Vec<u8> = Vec::new();
    let mut draw_tags: Vec<u32> = Vec::new();
    let mut draw_data: Vec<u32> = Vec::new();
    let mut transforms: Vec<Transform> = Vec::new();
    let mut styles: Vec<Style> = Vec::new();
    let mut counts = Layout::default();
    let ghost all = parts_view(parts@);
    let mut k: usize = 0;
    assert(all.take(0) =~= Seq::empty());
    while k < parts.len()
        invariant
            k <= parts.len(),
            all == parts_view(parts@),
            parts_readable(all),
            joined_parts(all.take(k as int)) == (
                counts,
                Streams {
                    path_tags: path_tags@,
                    path_data: path_data@,
                    draw_tags: draw_tags@,
                    draw_data: draw_data@,
                    transforms: transforms@,
                    styles: styles@,
                },
            ),
        decreases parts.len() - k,
    {
        let layout: Layout = parts[k].0;
        let packed: &Vec<u8> = &parts[k].1;
        let ghost before = joined_parts(all.take(k as int));
        assert(all.take(k + 1).drop_last() =~= all.take(k as int));
        assert(all[k as int] == (layout, packed@));
        if layout.n_draw_objects != 0 {
            let bytes: &[u8] = packed.as_slice();
            path_tags.extend_from_slice(layout.path_tags(bytes));
            path_data.extend_from_slice(layout.path_data(bytes));
            let mut part_draw_tags = layout.draw_tags(bytes);
            draw_tags.append(&mut part_draw_tags);
            let mut part_draw_data = layout.draw_data(bytes);
            draw_data.append(&mut part_draw_data);
            let mut part_transforms = layout.transforms(bytes);
            transforms.append(&mut part_transforms);
            let mut part_styles = layout.styles(bytes);
            styles.append(&mut part_styles);
            counts.n_draw_objects = counts.n_draw_objects.saturating_add(layout.n_draw_objects);
            counts.n_paths = counts.n_paths.saturating_add(layout.n_paths);
            counts.n_clips = counts.n_clips.saturating_add(layout.n_clips);
            counts.bin_data_start = counts.bin_data_start.saturating_add(layout.bin_data_start);
            proof {
                lemma_joined_positions(all.take(k as int));
                let read = layout.streams(packed@);
                assert(path_tags@ =~= before.1.path_tags + read.path_tags);
                assert(path_data@ =~= before.1.path_data + read.path_data);
            }
        }
        k += 1;
    }
    assert(all.take(parts.len() as int) =~= all);
    pack_streams(
        path_tags.as_slice(),
        path_data.as_slice(),
        draw_tags.as_slice(),
        draw_data.as_slice(),
        transforms.as_slice(),
        styles.as_slice(),
        counts,
    )
}

/// Joined counts leave the positions at zero.
proof fn lemma_joined_positions(parts: Seq<(Layout, Seq<u8>)>)
    ensures
        ({
            let counts = joined_parts(parts).0;
            counts == Layout {
                n_draw_objects: counts.n_draw_objects,
                n_paths: counts.n_paths,
                n_clips: counts.n_clips,
                bin_data_start: counts.bin_data_start,
                ..empty_layout()
            }
        }),
    decreases parts.len(),
{
    if parts.len() > 0 {
        lemma_joined_positions(parts.drop_last());
    }
}

// ---------------------------------------------------------------------------
// Closed layers
// ---------------------------------------------------------------------------

/// `count` times `item`.
pub open spec fn repeated<T>(item: T, count: nat) -> Seq<T> {
    Seq::new(count, |i: int| item)
}

/// The packed scene of streams that have a path for each draw object.
pub open spec fn repacked(streams: Streams, n_clips: u32) -> (Layout, Seq<u8>) {
    let draws = streams.draw_tags.len();
    let missing = if streams.path_tags.len() < draws {
        (draws - streams.path_tags.len()) as nat
    } else {
        0
    };
    let complete = Streams {
        path_tags: streams.path_tags + repeated(PathTag::PATH, missing),
        ..streams
    };
    (
        packed_layout(
            complete,
            draws as u32,
            draws as u32,
            n_clips,
            draw_info(streams.draw_tags) as u32,
        ),
        packed_bytes(complete),
    )
}

/// Appends `count` times `item`.
fn extend_repeated<T: Copy>(items: &mut Vec<T>, item: T, count: usize)
    ensures
        final(items)@ == old(items)@ + repeated(item, count as nat),
{
    let ghost before = items@;
    let mut i: usize = 0;
    assert(items@ =~= before + repeated(item, 0));
    while i < count
        invariant
            i <= count,
            items@ == before + repeated(item, i as nat),
        decreases count - i,
    {
        items.push(item);
        i += 1;
        assert(items@ =~= before + repeated(item, i as nat));
    }
}

/// Packs streams, after path markers have been appended until there are as many
/// path tags as draw objects.
pub fn repack_streams(
    path_tags: Vec<u8>,
    path_data: Vec<u8>,
    draw_tags: Vec<u32>,
    draw_data: Vec<u32>,
    transforms: Vec<Transform>,
    styles: Vec<Style>,
    n_clips: u32,
) -> (result: (Layout, Vec<u8>))
    requires
        draw_info(draw_tags@) <= u32::MAX,
    ensures
        (result.0, result.1@) == repacked(
            Streams {
                path_tags: path_tags@,
                path_data: path_data@,
                draw_tags: draw_tags@,
                draw_data: draw_data@,
                transforms: transforms@,
                styles: styles@,
            },
            n_clips,
        ),
{
    let mut path_tags = path_tags;
    let ghost given = path_tags@;
    assert(given + repeated(PathTag::PATH, 0) =~= given);
    if path_tags.len() < draw_tags.len() {
        let missing: usize = draw_tags.len() - path_tags.len();
        extend_repeated(&mut path_tags, PathTag::PATH, missing);
    }
    let mut counts = Layout::default();
    counts.n_draw_objects = draw_tags.len() as u32;
    counts.n_paths = draw_tags.len() as u32;
    counts.n_clips = n_clips;
    counts.bin_data_start = info_size_sum(draw_tags.as_slice());
    pack_streams(
        path_tags.as_slice(),
        path_data.as_slice(),
        draw_tags.as_slice(),
        draw_data.as_slice(),
        transforms.as_slice(),
        styles.as_slice(),
        counts,
    )
}

/// The packed scene with `count` more draw objects that each end a layer.
pub open spec fn with_end_clips(layout: Layout, packed: Seq<u8>, count: u32) -> (Layout, Seq<u8>) {
    if count == 0 {
        (layout, packed)
    } else {
        let streams = layout.streams(packed);
        repacked(
            Streams {
                path_tags: streams.path_tags + repeated(PathTag::PATH, count as nat),
                draw_tags: streams.draw_tags + repeated(DrawTag::END_CLIP, count as nat),
                ..streams
            },
            saturated_sum(layout.n_clips, count),
        )
    }
}

/// Ends of layers take no draw info.
pub(crate) proof fn lemma_end_clips_info(count: nat)
    ensures
        draw_info(repeated(DrawTag::END_CLIP, count)) == 0,
    decreases count,
{
    assert((0x21u32 >> 6) & 0xf == 0) by (bit_vector);
    if count > 0 {
        assert(repeated(DrawTag::END_CLIP, count).drop_last() =~= repeated(
            DrawTag::END_CLIP,
            (count - 1) as nat,
        ));
        lemma_end_clips_info((count - 1) as nat);
    }
}

/// Appends draw objects that each end a layer to a packed scene.
pub fn append_synthetic_end_clips(
    layout: Layout,
    packed: Vec<u8>,
    synthetic_end_clip_count: u32,
) -> (result: (Layout, Vec<u8>))
    requires
        synthetic_end_clip_count > 0 ==> {
            &&& layout.readable(packed@.len())
            &&& draw_info(layout.streams(packed@).draw_tags) <= u32::MAX
        },
    ensures
        (result.0, result.1@) == with_end_clips(layout, packed@, synthetic_end_clip_count),
{
    if synthetic_end_clip_count == 0 {
        return (layout, packed);
    }
    let bytes: &[u8] = packed.as_slice();
    let count: usize = synthetic_end_clip_count as usize;
    let mut path_tags: Vec<u8> = Vec::new();
    path_tags.extend_from_slice(layout.path_tags(bytes));
    extend_repeated(&mut path_tags, PathTag::PATH, count);
    let mut path_data: Vec<u8> = Vec::new();
    path_data.extend_from_slice(layout.path_data(bytes));
    let mut draw_tags = layout.draw_tags(bytes);
    proof {
        lemma_draw_concat(draw_tags@, repeated(DrawTag::END_CLIP, count as nat));
        lemma_end_clips_info(count as nat);
    }
    extend_repeated(&mut draw_tags, DrawTag::END_CLIP, count);
    let draw_data = layout.draw_data(bytes);
    let transforms = layout.transforms(bytes);
    let styles = layout.styles(bytes);
    proof {
        let streams = layout.streams(packed@);
        assert(path_tags@ =~= streams.path_tags + repeated(PathTag::PATH, count as nat));
        assert(path_data@ =~= streams.path_data);
    }
    repack_streams(
        path_tags,
        path_data,
        draw_tags,
        draw_data,
        transforms,
        styles,
        layout.n_clips.saturating_add(synthetic_end_clip_count),
    )
}

// ---------------------------------------------------------------------------
// Segments
// ---------------------------------------------------------------------------

/// The packed scenes of single draw objects. Those beyond the scene are left out.
pub open spec fn seed_parts(layout: Layout, packed: Seq<u8>, seeds: Seq<u32>) -> Seq<
    (Layout, Seq<u8>),
>
    decreases seeds.len(),
{
    if seeds.len() == 0 {
        Seq::empty()
    } else {
        let parts = seed_parts(layout, packed, seeds.drop_last());
        let draw = seeds.last();
        if draw < layout.n_draw_objects {
            parts.push(packed_range(layout, packed, draw as int, draw + 1))
        } else {
            parts
        }
    }
}

/// The packed scenes that make up a segment: the draw objects that open its
/// layers, and its range.
pub open spec fn segment_parts(
    layout: Layout,
    packed: Seq<u8>,
    draw_start: int,
    draw_end: int,
    seeds: Seq<u32>,
) -> Seq<(Layout, Seq<u8>)> {
    seed_parts(layout, packed, seeds).push(packed_range(layout, packed, draw_start, draw_end))
}

/// The packed scene of a segment whose layers are not closed yet.
pub open spec fn open_segment(
    layout: Layout,
    packed: Seq<u8>,
    draw_start: int,
    draw_end: int,
    seeds: Seq<u32>,
) -> (Layout, Seq<u8>) {
    if seeds.len() == 0 {
        packed_range(layout, packed, draw_start, draw_end)
    } else {
        merged_parts(segment_parts(layout, packed, draw_start, draw_end, seeds))
    }
}

/// The packed scene of a segment: the draw objects that open its layers, its
/// range, and `ends` draw objects that each end a layer.
pub open spec fn packed_segment(
    layout: Layout,
    packed: Seq<u8>,
    draw_start: int,
    draw_end: int,
    seeds: Seq<u32>,
    ends: u32,
) -> (Layout, Seq<u8>) {
    let segment = open_segment(layout, packed, draw_start, draw_end, seeds);
    with_end_clips(segment.0, segment.1, ends)
}

/// Whether a segment can be cut out of a packed scene.
pub open spec fn segment_ready(
    layout: Layout,
    packed: Seq<u8>,
    draw_start: int,
    draw_end: int,
    seeds: Seq<u32>,
) -> bool {
    &&& range_ready(layout, packed, draw_start, draw_end)
    &&& forall|k: int|
        0 <= k < seeds.len() && (#[trigger] seeds[k]) < layout.n_draw_objects ==> range_ready(
            layout,
            packed,
            seeds[k] as int,
            seeds[k] + 1,
        )
}

/// Whether a range can be cut out of a packed scene.
pub fn range_is_ready(packed: &[u8], layout: Layout, draw_start: u32, draw_end: u32) -> (is_ready:
    bool)
    ensures
        is_ready == range_ready(layout, packed@, draw_start as int, draw_end as int),
{
    if layout.draw_tag_base > layout.draw_data_base || layout.draw_data_base as usize > packed.len()
        / 4 {
        return false;
    }
    let tags: u32 = layout.draw_data_base - layout.draw_tag_base;
    assert(layout.streams(packed@).draw_tags.len() == tags);
    if draw_start >= tags || draw_end <= draw_start {
        return true;
    }
    scene_is_readable(packed, layout) && draws_are_available(packed, layout, draw_end)
}

/// Whether a segment can be cut out of a packed scene.
pub fn segment_is_ready(
    packed: &[u8],
    layout: Layout,
    draw_start: u32,
    draw_end: u32,
    seeds: &[u32],
) -> (is_ready: bool)
    ensures
        is_ready == segment_ready(layout, packed@, draw_start as int, draw_end as int, seeds@),
{
    if !range_is_ready(packed, layout, draw_start, draw_end) {
        return false;
    }
    let mut k: usize = 0;
    while k < seeds.len()
        invariant
            k <= seeds@.len(),
            range_ready(layout, packed@, draw_start as int, draw_end as int),
            forall|j: int|
                0 <= j < k && (#[trigger] seeds@[j]) < layout.n_draw_objects ==> range_ready(
                    layout,
                    packed@,
                    seeds@[j] as int,
                    seeds@[j] + 1,
                ),
        decreases seeds.len() - k,
    {
        let draw: u32 = seeds[k];
        if draw < layout.n_draw_objects && !range_is_ready(packed, layout, draw, draw + 1) {
            assert(seeds@[k as int] == draw);
            return false;
        }
        k += 1;
    }
    true
}

/// Whether the positions and the draw info in a buffer that is read again fit in words.
pub open spec fn rereadable(scene: (Layout, Seq<u8>)) -> bool {
    &&& scene.1.len() / 4 <= u32::MAX
    &&& draw_info(scene.0.streams(scene.1).draw_tags) <= u32::MAX
}

/// Whether the buffers that a segment is made of can be read again where they
/// have to be.
pub open spec fn segment_fits(
    layout: Layout,
    packed: Seq<u8>,
    draw_start: int,
    draw_end: int,
    seeds: Seq<u32>,
    ends: u32,
) -> bool {
    &&& seeds.len() > 0 ==> {
        let parts = segment_parts(layout, packed, draw_start, draw_end, seeds);
        forall|k: int| 0 <= k < parts.len() ==> (#[trigger] parts[k]).1.len() / 4 <= u32::MAX
    }
    &&& ends > 0 ==> rereadable(open_segment(layout, packed, draw_start, draw_end, seeds))
}

/// The range of a scene can be read again where its positions fit.
pub proof fn lemma_range_readable(layout: Layout, packed: Seq<u8>, draw_start: int, draw_end: int)
    requires
        0 <= draw_start,
        0 <= draw_end,
        range_ready(layout, packed, draw_start, draw_end),
        packed_range(layout, packed, draw_start, draw_end).1.len() / 4 <= u32::MAX,
    ensures
        ({
            let full = layout.streams(packed);
            let streams = range_streams(
                full,
                clamped_draw(full, draw_start),
                clamped_draw(full, draw_end),
            );
            let (part, bytes) = packed_range(layout, packed, draw_start, draw_end);
            &&& part.readable(bytes.len())
            &&& part.streams(bytes) == streams.padded()
        }),
{
    reveal(packed_scene);
    let full = layout.streams(packed);
    let start = clamped_draw(full, draw_start);
    let end = clamped_draw(full, draw_end);
    let streams = range_streams(full, start, end);
    if start < end {
        lemma_available_before(full, start, end);
    }
    let tags = streams.draw_tags;
    lemma_pack_round_trip(
        streams,
        tags.len() as u32,
        draw_paths(tags) as u32,
        draw_clips(tags) as u32,
        draw_info(tags) as u32,
    );
}

/// Merged scenes can be read again where their positions fit.
pub proof fn lemma_merged_readable(parts: Seq<(Layout, Seq<u8>)>)
    requires
        parts_readable(parts),
        merged_parts(parts).1.len() / 4 <= u32::MAX,
    ensures
        ({
            let (layout, bytes) = merged_parts(parts);
            &&& layout.readable(bytes.len())
            &&& layout.streams(bytes) == joined_parts(parts).1.padded()
        }),
{
    let (counts, streams) = joined_parts(parts);
    lemma_joined_path_data(parts);
    lemma_pack_round_trip(
        streams,
        counts.n_draw_objects,
        counts.n_paths,
        counts.n_clips,
        counts.bin_data_start,
    );
}

/// Joined path data fill whole words.
proof fn lemma_joined_path_data(parts: Seq<(Layout, Seq<u8>)>)
    requires
        parts_readable(parts),
    ensures
        joined_parts(parts).1.path_data.len() % 4 == 0,
    decreases parts.len(),
{
    if parts.len() > 0 {
        let first = parts.drop_last();
        assert forall|k: int| 0 <= k < first.len() && (#[trigger] first[k]).0.n_draw_objects != 0 implies
            first[k].0.readable(first[k].1.len()) by {
            assert(first[k] == parts[k]);
        }
        lemma_joined_path_data(first);
        assert(parts.last() == parts[parts.len() - 1]);
    }
}

/// The packed scene of a segment, where its buffers can be read again as its
/// construction needs.
pub fn try_build_packed_range(
    full_packed: &[u8],
    full_layout: Layout,
    draw_start: u32,
    draw_end: u32,
    clip_seed_begin_draws: &[u32],
    synthetic_end_clip_count: u32,
) -> (result: Option<(Layout, Vec<u8>)>)
    requires
        segment_ready(
            full_layout,
            full_packed@,
            draw_start as int,
            draw_end as int,
            clip_seed_begin_draws@,
        ),
    ensures
        match result {
            Some((layout, packed)) => {
                &&& segment_fits(
                    full_layout,
                    full_packed@,
                    draw_start as int,
                    draw_end as int,
                    clip_seed_begin_draws@,
                    synthetic_end_clip_count,
                )
                &&& (layout, packed@) == packed_segment(
                    full_layout,
                    full_packed@,
                    draw_start as int,
                    draw_end as int,
                    clip_seed_begin_draws@,
                    synthetic_end_clip_count,
                )
            },
            None => !segment_fits(
                full_layout,
                full_packed@,
                draw_start as int,
                draw_end as int,
                clip_seed_begin_draws@,
                synthetic_end_clip_count,
            ),
        },
{
    let ghost seeds = clip_seed_begin_draws@;
    let ghost full = full_layout.streams(full_packed@);
    let (layout, packed) = if clip_seed_begin_draws.is_empty() {
        build_packed_contiguous_range(full_packed, full_layout, draw_start, draw_end)
    } else {
        let mut parts: Vec<(Layout, Vec<u8>)> = Vec::new();
        let mut k: usize = 0;
        assert(seeds.take(0) =~= Seq::empty());
        assert(parts_view(parts@) =~= Seq::empty());
        while k < clip_seed_begin_draws.len()
            invariant
                k <= clip_seed_begin_draws.len(),
                seeds == clip_seed_begin_draws@,
                full == full_layout.streams(full_packed@),
                segment_ready(
                    full_layout,
                    full_packed@,
                    draw_start as int,
                    draw_end as int,
                    seeds,
                ),
                parts_view(parts@) == seed_parts(full_layout, full_packed@, seeds.take(k as int)),
                parts_ready(parts_view(parts@)),
            decreases clip_seed_begin_draws.len() - k,
        {
            let draw: u32 = clip_seed_begin_draws[k];
            let ghost before = parts_view(parts@);
            assert(seeds.take(k + 1).drop_last() =~= seeds.take(k as int));
            assert(seeds.take(k + 1).last() == draw);
            if draw < full_layout.n_draw_objects {
                assert(seeds[k as int] == draw);
                let part = build_packed_contiguous_range(full_packed, full_layout, draw, draw + 1);
                proof {
                    lemma_part_ready(full_layout, full_packed@, draw as int, draw + 1);
                }
                parts.push(part);
                assert(parts_view(parts@) =~= before.push((part.0, part.1@)));
            }
            k += 1;
        }
        assert(seeds.take(seeds.len() as int) =~= seeds);
        let part = build_packed_contiguous_range(full_packed, full_layout, draw_start, draw_end);
        proof {
            lemma_part_ready(full_layout, full_packed@, draw_start as int, draw_end as int);
        }
        let ghost before = parts_view(parts@);
        parts.push(part);
        assert(parts_view(parts@) =~= before.push((part.0, part.1@)));
        let ghost all = segment_parts(
            full_layout,
            full_packed@,
            draw_start as int,
            draw_end as int,
            seeds,
        );
        assert(parts_view(parts@) == all);
        let mut k: usize = 0;
        while k < parts.len()
            invariant
                k <= parts.len(),
                seeds == clip_seed_begin_draws@,
                seeds.len() > 0,
                all == segment_parts(
                    full_layout,
                    full_packed@,
                    draw_start as int,
                    draw_end as int,
                    seeds,
                ),
                parts_view(parts@) == all,
                forall|j: int| 0 <= j < k ==> (#[trigger] all[j]).1.len() / 4 <= u32::MAX,
            decreases parts.len() - k,
        {
            assert(all[k as int].1 == parts[k as int].1@);
            if parts[k].1.len() / 4 > 0xffff_ffff {
                assert(all.len() == parts.len());
                return None;
            }
            k += 1;
        }
        assert(parts_readable(all));
        merge_packed_parts(parts.as_slice())
    };
    let ghost segment = open_segment(
        full_layout,
        full_packed@,
        draw_start as int,
        draw_end as int,
        seeds,
    );
    assert((layout, packed@) == segment);
    if synthetic_end_clip_count > 0 {
        if packed.len() / 4 > 0xffff_ffff {
            return None;
        }
        proof {
            if seeds.len() == 0 {
                lemma_range_readable(
                    full_layout,
                    full_packed@,
                    draw_start as int,
                    draw_end as int,
                );
            } else {
                lemma_merged_readable(
                    segment_parts(
                        full_layout,
                        full_packed@,
                        draw_start as int,
                        draw_end as int,
                        seeds,
                    ),
                );
            }
        }
        let draw_tags = layout.draw_tags(packed.as_slice());
        if !info_fits(draw_tags.as_slice()) {
            return None;
        }
    }
    Some(append_synthetic_end_clips(layout, packed, synthetic_end_clip_count))
}

/// Whether the scenes can be read where their positions fit.
spec fn parts_ready(parts: Seq<(Layout, Seq<u8>)>) -> bool {
    forall|k: int|
        0 <= k < parts.len() && (#[trigger] parts[k]).1.len() / 4 <= u32::MAX
            ==> parts[k].0.readable(parts[k].1.len())
}

proof fn lemma_part_ready(layout: Layout, packed: Seq<u8>, draw_start: int, draw_end: int)
    requires
        0 <= draw_start,
        0 <= draw_end,
        range_ready(layout, packed, draw_start, draw_end),
    ensures
        ({
            let part = packed_range(layout, packed, draw_start, draw_end);
            part.1.len() / 4 <= u32::MAX ==> part.0.readable(part.1.len())
        }),
{
    if packed_range(layout, packed, draw_start, draw_end).1.len() / 4 <= u32::MAX {
        lemma_range_readable(layout, packed, draw_start, draw_end);
    }
}

/// The packed scene of a segment: the draw objects `clip_seed_begin_draws`, the
/// range from `draw_start` to `draw_end`, and `synthetic_end_clip_count` draw
/// objects that each end a layer.
pub fn build_packed_range(
    full_packed: &[u8],
    full_layout: Layout,
    draw_start: u32,
    draw_end: u32,
    clip_seed_begin_draws: &[u32],
    synthetic_end_clip_count: u32,
) -> (result: (Layout, Vec<u8>))
    requires
        segment_ready(
            full_layout,
            full_packed@,
            draw_start as int,
            draw_end as int,
            clip_seed_begin_draws@,
        ),
        segment_fits(
            full_layout,
            full_packed@,
            draw_start as int,
            draw_end as int,
            clip_seed_begin_draws@,
            synthetic_end_clip_count,
        ),
    ensures
        (result.0, result.1@) == packed_segment(
            full_layout,
            full_packed@,
            draw_start as int,
            draw_end as int,
            clip_seed_begin_draws@,
            synthetic_end_clip_count,
        ),
{
    let segment = try_build_packed_range(
        full_packed,
        full_layout,
        draw_start,
        draw_end,
        clip_seed_begin_draws,
        synthetic_end_clip_count,
    );
    segment.unwrap()
}

} // verus!
