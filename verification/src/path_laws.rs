//! Where the paths of a packed scene are placed, and how they are drawn: what holds of
//! every scene that is cut out of another one, or put together from others.

use vstd::prelude::*;

use crate::encoding::{DrawTag, PathTag, Style, Transform};
use crate::layout::Layout;

verus! {

use crate::encoding::{
    draw_info, draw_paths, draw_words, lemma_draw_concat, lemma_draw_monotone, lemma_path_concat,
    lemma_path_monotone, lemma_path_zero,
    path_style_words, path_transforms, path_words,
};
use crate::layout::{lemma_pack_round_trip, packed_bytes, packed_layout, pad_to_words, Streams};
use crate::packing::{
    joined_parts, lemma_available_before, lemma_end_clips_info,
    lemma_merged_readable,
    lemma_path_tag_end_bounds, lemma_range_readable, lemma_style_words_even,
    merged_parts, open_segment, packed_range, packed_segment, parts_readable,
    path_tags_before, range_ready, range_streams, repeated, rereadable, saturated_sum, seed_parts,
    segment_fits, segment_parts, segment_ready, with_end_clips,
};
use crate::segment_laws::{lemma_range_count, seeds_in_scene};

/// The transform of the path element at a path tag: the one that the last marker up to
/// there brought in.
pub open spec fn transform_at(scene: Streams, at: int) -> Option<Transform> {
    let count = path_transforms(scene.path_tags.take(at + 1));
    if 0 < count <= scene.transforms.len() {
        Some(scene.transforms[count - 1])
    } else {
        None
    }
}

/// The style of the path element at a path tag: the one that the last marker up to there
/// brought in.
pub open spec fn style_at(scene: Streams, at: int) -> Option<Style> {
    let count = path_style_words(scene.path_tags.take(at + 1)) / 2;
    if 0 < count <= scene.styles.len() {
        Some(scene.styles[count - 1])
    } else {
        None
    }
}

/// The points of the path element at a path tag, where the scene has them.
pub open spec fn points_at(scene: Streams, at: int) -> Option<Seq<u8>> {
    let start = 4 * path_words(scene.path_tags.take(at)) as int;
    let end = 4 * path_words(scene.path_tags.take(at + 1)) as int;
    if start <= end <= scene.path_data.len() {
        Some(scene.path_data.subrange(start, end))
    } else {
        None
    }
}

/// The draw data of a draw object, where the scene has them.
pub open spec fn draw_data_at(scene: Streams, draw: int) -> Option<Seq<u32>> {
    let start = draw_words(scene.draw_tags.take(draw)) as int;
    let end = draw_words(scene.draw_tags.take(draw + 1)) as int;
    if start <= end <= scene.draw_data.len() {
        Some(scene.draw_data.subrange(start, end))
    } else {
        None
    }
}

/// Whether a path element of one scene is drawn as one of another: with the same tag,
/// transform, style and points, where the other one has them.
pub open spec fn drawn_alike(a: Streams, i: int, b: Streams, j: int) -> bool {
    &&& 0 <= i < a.path_tags.len()
    &&& 0 <= j < b.path_tags.len()
    &&& a.path_tags[i] == b.path_tags[j]
    &&& transform_at(b, j) is Some ==> transform_at(a, i) == transform_at(b, j)
    &&& style_at(b, j) is Some ==> style_at(a, i) == style_at(b, j)
    &&& points_at(b, j) is Some ==> points_at(a, i) == points_at(b, j)
}

/// Whether a draw object of one scene has the tag and the data of one of another.
pub open spec fn same_draw(a: Streams, i: int, b: Streams, j: int) -> bool {
    &&& 0 <= i < a.draw_tags.len()
    &&& 0 <= j < b.draw_tags.len()
    &&& a.draw_tags[i] == b.draw_tags[j]
    &&& draw_data_at(b, j) is Some ==> draw_data_at(a, i) == draw_data_at(b, j)
}

/// Whether a scene has as many transforms, styles, points and draw data as its tags ask
/// for.
pub open spec fn is_complete(scene: Streams) -> bool {
    &&& path_transforms(scene.path_tags) == scene.transforms.len()
    &&& path_style_words(scene.path_tags) == 2 * scene.styles.len()
    &&& 4 * path_words(scene.path_tags) == scene.path_data.len()
    &&& draw_words(scene.draw_tags) == scene.draw_data.len()
}

/// The streams of a scene.
pub enum Stream {
    PathTags,
    PathData,
    DrawTags,
    DrawData,
    Transforms,
    Styles,
}

/// The length of a stream.
pub open spec fn length(scene: Streams, stream: Stream) -> int {
    (match stream {
        Stream::PathTags => scene.path_tags.len(),
        Stream::PathData => scene.path_data.len(),
        Stream::DrawTags => scene.draw_tags.len(),
        Stream::DrawData => scene.draw_data.len(),
        Stream::Transforms => scene.transforms.len(),
        Stream::Styles => scene.styles.len(),
    }) as int
}

/// What is read back of a packed scene.
#[verifier::opaque]
pub open spec fn read(part: (Layout, Seq<u8>)) -> Streams {
    part.0.streams(part.1)
}

/// How much of a stream stands in the parts before part `k` that have draw objects.
pub open spec fn place(parts: Seq<(Layout, Seq<u8>)>, k: int, stream: Stream) -> int
    decreases k,
{
    if k <= 0 {
        0
    } else if parts[k - 1].0.n_draw_objects == 0 {
        place(parts, k - 1, stream)
    } else {
        place(parts, k - 1, stream) + length(read(parts[k - 1]), stream)
    }
}

/// Whether a run stands in another one from a place on.
pub open spec fn stands_at<T>(whole: Seq<T>, at: int, part: Seq<T>) -> bool {
    &&& 0 <= at
    &&& at + part.len() <= whole.len()
    &&& whole.subrange(at, at + part.len()) == part
}

/// The places in parts do not depend on the parts behind.
proof fn lemma_place_prefix(
    parts: Seq<(Layout, Seq<u8>)>,
    fewer: Seq<(Layout, Seq<u8>)>,
    k: int,
    stream: Stream,
)
    requires
        0 <= k <= fewer.len() <= parts.len(),
        fewer == parts.take(fewer.len() as int),
    ensures
        place(parts, k, stream) == place(fewer, k, stream),
    decreases k,
{
    if k > 0 {
        lemma_place_prefix(parts, fewer, k - 1, stream);
        assert(parts[k - 1] == fewer[k - 1]);
    }
}

/// Where each part stands in the joined streams.
proof fn lemma_joined_places(parts: Seq<(Layout, Seq<u8>)>, k: int)
    requires
        0 <= k < parts.len(),
    ensures
        ({
            let all = joined_parts(parts).1;
            let part = read(parts[k]);
            &&& parts[k].0.n_draw_objects != 0 ==> {
                &&& stands_at(all.path_tags, place(parts, k, Stream::PathTags), part.path_tags)
                &&& stands_at(all.path_data, place(parts, k, Stream::PathData), part.path_data)
                &&& stands_at(all.draw_tags, place(parts, k, Stream::DrawTags), part.draw_tags)
                &&& stands_at(all.draw_data, place(parts, k, Stream::DrawData), part.draw_data)
                &&& stands_at(all.transforms, place(parts, k, Stream::Transforms), part.transforms)
                &&& stands_at(all.styles, place(parts, k, Stream::Styles), part.styles)
            }
            &&& forall|stream: Stream| #[trigger]
                length(all, stream) == place(parts, parts.len() as int, stream)
        }),
    decreases parts.len(),
{
    reveal(read);
    let n = parts.len() as int;
    let fewer = parts.drop_last();
    assert(fewer =~= parts.take(n - 1));
    let last = read(parts[n - 1]);
    let before = joined_parts(fewer).1;
    let all = joined_parts(parts).1;
    assert(parts.last() == parts[n - 1]);
    assert forall|stream: Stream| #[trigger] length(all, stream) == place(parts, n, stream) by {
        lemma_place_prefix(parts, fewer, n - 1, stream);
        if n > 1 {
            lemma_joined_places(fewer, 0);
            assert(length(before, stream) == place(fewer, n - 1, stream));
        }
        assert(length(before, stream) == place(parts, n - 1, stream));
    }
    lemma_place_prefix(parts, fewer, k, Stream::PathTags);
    lemma_place_prefix(parts, fewer, k, Stream::PathData);
    lemma_place_prefix(parts, fewer, k, Stream::DrawTags);
    lemma_place_prefix(parts, fewer, k, Stream::DrawData);
    lemma_place_prefix(parts, fewer, k, Stream::Transforms);
    lemma_place_prefix(parts, fewer, k, Stream::Styles);
    if n > 1 {
        lemma_joined_places(fewer, if k < n - 1 { k } else { 0 });
    }
    assert(length(before, Stream::PathTags) == place(fewer, n - 1, Stream::PathTags));
    assert(length(before, Stream::PathData) == place(fewer, n - 1, Stream::PathData));
    assert(length(before, Stream::DrawTags) == place(fewer, n - 1, Stream::DrawTags));
    assert(length(before, Stream::DrawData) == place(fewer, n - 1, Stream::DrawData));
    assert(length(before, Stream::Transforms) == place(fewer, n - 1, Stream::Transforms));
    assert(length(before, Stream::Styles) == place(fewer, n - 1, Stream::Styles));
    if parts[k].0.n_draw_objects != 0 {
        let part = read(parts[k]);
        if k < n - 1 {
            assert(fewer[k] == parts[k]);
            lemma_stands_in_longer(
                before.path_tags,
                all.path_tags,
                place(parts, k, Stream::PathTags),
                part.path_tags,
            );
            lemma_stands_in_longer(
                before.path_data,
                all.path_data,
                place(parts, k, Stream::PathData),
                part.path_data,
            );
            lemma_stands_in_longer(
                before.draw_tags,
                all.draw_tags,
                place(parts, k, Stream::DrawTags),
                part.draw_tags,
            );
            lemma_stands_in_longer(
                before.draw_data,
                all.draw_data,
                place(parts, k, Stream::DrawData),
                part.draw_data,
            );
            lemma_stands_in_longer(
                before.transforms,
                all.transforms,
                place(parts, k, Stream::Transforms),
                part.transforms,
            );
            lemma_stands_in_longer(
                before.styles,
                all.styles,
                place(parts, k, Stream::Styles),
                part.styles,
            );
        } else {
            lemma_stands_behind(before.path_tags, part.path_tags);
            lemma_stands_behind(before.path_data, part.path_data);
            lemma_stands_behind(before.draw_tags, part.draw_tags);
            lemma_stands_behind(before.draw_data, part.draw_data);
            lemma_stands_behind(before.transforms, part.transforms);
            lemma_stands_behind(before.styles, part.styles);
        }
    }
}

/// What stands in a run stands at the same place in one that goes on.
proof fn lemma_stands_in_longer<T>(whole: Seq<T>, longer: Seq<T>, at: int, part: Seq<T>)
    requires
        stands_at(whole, at, part),
        whole.len() <= longer.len(),
        longer.take(whole.len() as int) =~= whole,
    ensures
        stands_at(longer, at, part),
{
    assert(longer.subrange(at, at + part.len()) =~= whole.subrange(
        at,
        at + part.len(),
    ));
}

/// A run stands behind the one that it is put behind.
proof fn lemma_stands_behind<T>(whole: Seq<T>, part: Seq<T>)
    ensures
        stands_at(whole + part, whole.len() as int, part),
{
    let at = whole.len() as int;
    assert((whole + part).subrange(at, at + part.len()) =~= part);
}

/// Scenes that are put together stand one after the other: in each stream of the whole,
/// what is read back of a part with draw objects stands behind what is read back of those
/// before it, in order, and nothing else stands in it but zeros that fill the last word of
/// the path tags.
pub proof fn lemma_merged_in_order(parts: Seq<(Layout, Seq<u8>)>, k: int)
    requires
        parts_readable(parts),
        merged_parts(parts).1.len() / 4 <= u32::MAX,
        0 <= k < parts.len(),
        parts[k].0.n_draw_objects != 0,
    ensures
        ({
            let whole = read(merged_parts(parts));
            let part = read(parts[k]);
            let n = parts.len() as int;
            &&& stands_at(whole.path_tags, place(parts, k, Stream::PathTags), part.path_tags)
            &&& stands_at(whole.path_data, place(parts, k, Stream::PathData), part.path_data)
            &&& stands_at(whole.draw_tags, place(parts, k, Stream::DrawTags), part.draw_tags)
            &&& stands_at(whole.draw_data, place(parts, k, Stream::DrawData), part.draw_data)
            &&& stands_at(whole.transforms, place(parts, k, Stream::Transforms), part.transforms)
            &&& stands_at(whole.styles, place(parts, k, Stream::Styles), part.styles)
            &&& place(parts, n, Stream::PathTags) <= whole.path_tags.len() < place(
                parts,
                n,
                Stream::PathTags,
            ) + 4
            &&& forall|i: int|
                place(parts, n, Stream::PathTags) <= i < whole.path_tags.len()
                    ==> whole.path_tags[i] == 0
            &&& whole.path_data.len() == place(parts, n, Stream::PathData)
            &&& whole.draw_tags.len() == place(parts, n, Stream::DrawTags)
            &&& whole.draw_data.len() == place(parts, n, Stream::DrawData)
            &&& whole.transforms.len() == place(parts, n, Stream::Transforms)
            &&& whole.styles.len() == place(parts, n, Stream::Styles)
        }),
{
    let all = joined_parts(parts).1;
    let part = read(parts[k]);
    assert(read(merged_parts(parts)) == all.padded()) by {
        reveal(read);
        lemma_merged_readable(parts);
    }
    lemma_joined_places(parts, k);
    let padded = pad_to_words(all.path_tags);
    assert(padded.take(all.path_tags.len() as int) =~= all.path_tags);
    lemma_stands_in_longer(
        all.path_tags,
        padded,
        place(parts, k, Stream::PathTags),
        part.path_tags,
    );
    assert(length(all, Stream::PathTags) == place(parts, parts.len() as int, Stream::PathTags));
    assert(length(all, Stream::PathData) == place(parts, parts.len() as int, Stream::PathData));
    assert(length(all, Stream::DrawTags) == place(parts, parts.len() as int, Stream::DrawTags));
    assert(length(all, Stream::DrawData) == place(parts, parts.len() as int, Stream::DrawData));
    assert(length(all, Stream::Transforms) == place(parts, parts.len() as int, Stream::Transforms));
    assert(length(all, Stream::Styles) == place(parts, parts.len() as int, Stream::Styles));
}

/// A run of path elements that stands in two scenes is drawn alike in both, where the
/// transforms, the styles and the points that it selects stand in both as far apart as its
/// selections are.
proof fn lemma_shifted(a: Streams, i0: int, b: Streams, j0: int, n: int, k: int)
    requires
        0 <= i0,
        0 <= j0,
        0 <= k < n,
        i0 + n <= a.path_tags.len(),
        j0 + n <= b.path_tags.len(),
        a.path_tags.subrange(i0, i0 + n) == b.path_tags.subrange(j0, j0 + n),
        ({
            let from = path_transforms(b.path_tags.take(j0)) as int;
            let to = path_transforms(b.path_tags.take(j0 + n)) as int;
            let shift = path_transforms(a.path_tags.take(i0)) - from;
            forall|c: int|
                from <= c <= to && 0 < c <= b.transforms.len() ==> 0 < c + shift
                    <= a.transforms.len() && a.transforms[c + shift - 1] == #[trigger] b.transforms[c
                    - 1]
        }),
        ({
            let from = path_style_words(b.path_tags.take(j0)) as int / 2;
            let to = path_style_words(b.path_tags.take(j0 + n)) as int / 2;
            let shift = path_style_words(a.path_tags.take(i0)) as int / 2 - from;
            forall|c: int|
                from <= c <= to && 0 < c <= b.styles.len() ==> 0 < c + shift <= a.styles.len()
                    && a.styles[c + shift - 1] == #[trigger] b.styles[c - 1]
        }),
        ({
            let from = 4 * path_words(b.path_tags.take(j0)) as int;
            let to = 4 * path_words(b.path_tags.take(j0 + n)) as int;
            let shift = 4 * path_words(a.path_tags.take(i0)) - from;
            &&& from <= b.path_data.len() ==> from + shift <= a.path_data.len()
            &&& forall|c: int|
                from <= c < to && c < b.path_data.len() ==> 0 <= c + shift < a.path_data.len()
                    && a.path_data[c + shift] == #[trigger] b.path_data[c]
        }),
    ensures
        drawn_alike(a, i0 + k, b, j0 + k),
{
    let run = b.path_tags.subrange(j0, j0 + n);
    assert(run[k] == a.path_tags[i0 + k] && run[k] == b.path_tags[j0 + k]) by {
        assert(a.path_tags.subrange(i0, i0 + n)[k] == a.path_tags[i0 + k]);
    }
    assert forall|m: int| 0 <= m <= n implies #[trigger] a.path_tags.take(i0 + m)
        == a.path_tags.take(i0) + run.take(m) && b.path_tags.take(j0 + m) == b.path_tags.take(j0)
        + run.take(m) by {
        assert(a.path_tags.subrange(i0, i0 + n).take(m) =~= a.path_tags.subrange(i0, i0 + m));
        assert(a.path_tags.take(i0 + m) =~= a.path_tags.take(i0) + run.take(m));
        assert(b.path_tags.take(j0 + m) =~= b.path_tags.take(j0) + run.take(m));
    }
    let a0 = a.path_tags.take(i0);
    let b0 = b.path_tags.take(j0);
    assert(a.path_tags.take(i0 + k) == a0 + run.take(k));
    assert(a.path_tags.take(i0 + (k + 1)) == a0 + run.take(k + 1));
    assert(b.path_tags.take(j0 + n) == b0 + run.take(n)) by {
        assert(a.path_tags.take(i0 + n) == a0 + run.take(n));
    }
    lemma_path_concat(a0, run.take(k));
    lemma_path_concat(b0, run.take(k));
    lemma_path_concat(a0, run.take(k + 1));
    lemma_path_concat(b0, run.take(k + 1));
    lemma_path_concat(b0, run.take(n));
    lemma_path_monotone(run, k, k + 1);
    lemma_path_monotone(run, k + 1, n);
    lemma_style_words_even(a0);
    lemma_style_words_even(b0);
    lemma_style_words_even(run.take(k + 1));
    let t = path_transforms(b.path_tags.take(j0 + k + 1)) as int;
    if 0 < t <= b.transforms.len() {
        assert(b.transforms[t - 1] == transform_at(b, j0 + k)->0);
    }
    let c = path_style_words(b.path_tags.take(j0 + k + 1)) as int / 2;
    if 0 < c <= b.styles.len() {
        assert(b.styles[c - 1] == style_at(b, j0 + k)->0);
    }
    let start = 4 * path_words(b.path_tags.take(j0 + k)) as int;
    let end = 4 * path_words(b.path_tags.take(j0 + k + 1)) as int;
    let shift = 4 * path_words(a0) - 4 * path_words(b0);
    if end <= b.path_data.len() {
        if 4 * path_words(b0) < end {
            assert(a.path_data[end - 1 + shift] == b.path_data[end - 1]);
        }
        assert(end + shift <= a.path_data.len());
        assert(4 * path_words(a.path_tags.take(i0 + k)) == start + shift);
        assert(4 * path_words(a.path_tags.take(i0 + k + 1)) == end + shift);
        if points_at(a, i0 + k) is Some {
            assert forall|x: int| 0 <= x < end - start implies #[trigger] a.path_data.subrange(
                start + shift,
                end + shift,
            )[x] == b.path_data.subrange(start, end)[x] by {
                assert(a.path_data[start + x + shift] == b.path_data[start + x]);
            }
            assert(a.path_data.subrange(start + shift, end + shift) =~= b.path_data.subrange(
                start,
                end,
            ));
        }
        assert(points_at(a, i0 + k) == points_at(b, j0 + k));
    }
    assert(transform_at(b, j0 + k) is Some ==> transform_at(a, i0 + k) == transform_at(b, j0 + k));
    assert(style_at(b, j0 + k) is Some ==> style_at(a, i0 + k) == style_at(b, j0 + k));
}

/// How much the parts before part `k` select, where each of them is complete.
proof fn lemma_selected_before(parts: Seq<(Layout, Seq<u8>)>, whole: Streams, k: int)
    requires
        0 <= k <= parts.len(),
        forall|j: int|
            0 <= j < k && (#[trigger] parts[j]).0.n_draw_objects != 0 ==> {
                let part = read(parts[j]);
                &&& is_complete(part)
                &&& stands_at(whole.path_tags, place(parts, j, Stream::PathTags), part.path_tags)
                &&& stands_at(whole.draw_tags, place(parts, j, Stream::DrawTags), part.draw_tags)
            },
    ensures
        0 <= place(parts, k, Stream::PathTags) <= whole.path_tags.len(),
        0 <= place(parts, k, Stream::DrawTags) <= whole.draw_tags.len(),
        ({
            let tags = whole.path_tags.take(place(parts, k, Stream::PathTags));
            let draws = whole.draw_tags.take(place(parts, k, Stream::DrawTags));
            &&& path_transforms(tags) == place(parts, k, Stream::Transforms)
            &&& path_style_words(tags) == 2 * place(parts, k, Stream::Styles)
            &&& 4 * path_words(tags) == place(parts, k, Stream::PathData)
            &&& draw_words(draws) == place(parts, k, Stream::DrawData)
        }),
    decreases k,
{
    let at = place(parts, k, Stream::PathTags);
    let draws_at = place(parts, k, Stream::DrawTags);
    if k == 0 {
        assert(whole.path_tags.take(0) =~= Seq::empty());
        assert(whole.draw_tags.take(0) =~= Seq::empty());
    } else {
        lemma_selected_before(parts, whole, k - 1);
        if parts[k - 1].0.n_draw_objects != 0 {
            let part = read(parts[k - 1]);
            let before = place(parts, k - 1, Stream::PathTags);
            let draws_before = place(parts, k - 1, Stream::DrawTags);
            assert(whole.path_tags.take(at) =~= whole.path_tags.take(before) + part.path_tags) by {
                assert(whole.path_tags.take(at) =~= whole.path_tags.take(before)
                    + whole.path_tags.subrange(before, at));
            }
            assert(whole.draw_tags.take(draws_at) =~= whole.draw_tags.take(draws_before)
                + part.draw_tags) by {
                assert(whole.draw_tags.take(draws_at) =~= whole.draw_tags.take(draws_before)
                    + whole.draw_tags.subrange(draws_before, draws_at));
            }
            lemma_path_concat(whole.path_tags.take(before), part.path_tags);
            lemma_draw_concat(whole.draw_tags.take(draws_before), part.draw_tags);
        }
    }
}

/// Whether the parts before part `k` that have draw objects are complete.
pub open spec fn complete_before(parts: Seq<(Layout, Seq<u8>)>, k: int) -> bool {
    forall|j: int|
        0 <= j < k && (#[trigger] parts[j]).0.n_draw_objects != 0 ==> is_complete(read(parts[j]))
}

/// In scenes that are put together, each path element of a part is drawn as in the part:
/// its markers select the transform, the style and the points that they select there, and
/// each draw object has the data that it has there; where the parts before it have all
/// that their own tags select.
pub proof fn lemma_merged_paths(parts: Seq<(Layout, Seq<u8>)>, k: int)
    requires
        parts_readable(parts),
        merged_parts(parts).1.len() / 4 <= u32::MAX,
        0 <= k < parts.len(),
        parts[k].0.n_draw_objects != 0,
        complete_before(parts, k),
    ensures
        ({
            let whole = read(merged_parts(parts));
            let part = read(parts[k]);
            &&& forall|i: int|
                0 <= i < part.path_tags.len() ==> #[trigger] drawn_alike(
                    whole,
                    place(parts, k, Stream::PathTags) + i,
                    part,
                    i,
                )
            &&& forall|i: int|
                0 <= i < part.draw_tags.len() ==> #[trigger] same_draw(
                    whole,
                    place(parts, k, Stream::DrawTags) + i,
                    part,
                    i,
                )
        }),
{
    let whole = read(merged_parts(parts));
    let part = read(parts[k]);
    lemma_merged_in_order(parts, k);
    assert forall|j: int| 0 <= j < k && (#[trigger] parts[j]).0.n_draw_objects != 0 implies {
        let earlier = read(parts[j]);
        &&& is_complete(earlier)
        &&& stands_at(whole.path_tags, place(parts, j, Stream::PathTags), earlier.path_tags)
        &&& stands_at(whole.draw_tags, place(parts, j, Stream::DrawTags), earlier.draw_tags)
    } by {
        lemma_merged_in_order(parts, j);
    }
    lemma_selected_before(parts, whole, k);
    lemma_standing_paths(
        whole,
        part,
        place(parts, k, Stream::PathTags),
        place(parts, k, Stream::DrawTags),
        place(parts, k, Stream::Transforms),
        place(parts, k, Stream::Styles),
        place(parts, k, Stream::PathData),
        place(parts, k, Stream::DrawData),
    );
}

/// A scene that stands in another one is drawn alike there, where all that stands before
/// it is selected before it.
proof fn lemma_standing_paths(
    whole: Streams,
    part: Streams,
    at: int,
    draws_at: int,
    transforms_at: int,
    styles_at: int,
    path_data_at: int,
    draw_data_before: int,
)
    requires
        stands_at(whole.path_tags, at, part.path_tags),
        stands_at(whole.draw_tags, draws_at, part.draw_tags),
        stands_at(whole.transforms, transforms_at, part.transforms),
        stands_at(whole.styles, styles_at, part.styles),
        stands_at(whole.path_data, path_data_at, part.path_data),
        stands_at(whole.draw_data, draw_data_before, part.draw_data),
        path_transforms(whole.path_tags.take(at)) == transforms_at,
        path_style_words(whole.path_tags.take(at)) == 2 * styles_at,
        4 * path_words(whole.path_tags.take(at)) == path_data_at,
        draw_words(whole.draw_tags.take(draws_at)) == draw_data_before,
    ensures
        forall|i: int|
            0 <= i < part.path_tags.len() ==> #[trigger] drawn_alike(whole, at + i, part, i),
        forall|i: int|
            0 <= i < part.draw_tags.len() ==> #[trigger] same_draw(whole, draws_at + i, part, i),
{
    let n = part.path_tags.len() as int;
    assert(part.path_tags.take(0) =~= Seq::empty());
    assert(part.path_tags.subrange(0, 0 + n) =~= part.path_tags);
    assert forall|c: int| 0 < c <= part.transforms.len() implies whole.transforms[c + transforms_at
        - 1] == #[trigger] part.transforms[c - 1] by {
        let run = whole.transforms.subrange(transforms_at, transforms_at + part.transforms.len());
        assert(run[c - 1] == part.transforms[c - 1]);
    }
    assert forall|c: int| 0 < c <= part.styles.len() implies whole.styles[c + styles_at - 1]
        == #[trigger] part.styles[c - 1] by {
        let run = whole.styles.subrange(styles_at, styles_at + part.styles.len());
        assert(run[c - 1] == part.styles[c - 1]);
    }
    assert forall|c: int| 0 <= c < part.path_data.len() implies whole.path_data[c + path_data_at]
        == #[trigger] part.path_data[c] by {
        let run = whole.path_data.subrange(path_data_at, path_data_at + part.path_data.len());
        assert(run[c] == part.path_data[c]);
    }
    assert forall|i: int| 0 <= i < n implies #[trigger] drawn_alike(whole, at + i, part, i) by {
        lemma_shifted(whole, at, part, 0, n, i);
    }
    assert forall|i: int| 0 <= i < part.draw_tags.len() implies #[trigger] same_draw(
        whole,
        draws_at + i,
        part,
        i,
    ) by {
        let count = part.draw_tags.len() as int;
        let run = whole.draw_tags.subrange(draws_at, draws_at + count);
        assert(run == part.draw_tags);
        assert(run[i] == whole.draw_tags[draws_at + i]);
        let before = whole.draw_tags.take(draws_at);
        assert(whole.draw_tags.take(draws_at + i) =~= before + part.draw_tags.take(i)) by {
            assert(run.take(i) =~= whole.draw_tags.subrange(draws_at, draws_at + i));
        }
        assert(whole.draw_tags.take(draws_at + i + 1) =~= before + part.draw_tags.take(i + 1)) by {
            assert(run.take(i + 1) =~= whole.draw_tags.subrange(draws_at, draws_at + i + 1));
        }
        lemma_draw_concat(before, part.draw_tags.take(i));
        lemma_draw_concat(before, part.draw_tags.take(i + 1));
        if draw_data_at(part, i) is Some {
            let start = draw_words(part.draw_tags.take(i)) as int;
            let end = draw_words(part.draw_tags.take(i + 1)) as int;
            assert(whole.draw_data.subrange(draw_data_before + start, draw_data_before + end)
                =~= whole.draw_data.subrange(
                draw_data_before,
                draw_data_before + part.draw_data.len(),
            ).subrange(start, end));
        }
    }
}

/// A count of a packed scene.
pub enum Count {
    DrawObjects,
    Paths,
    Clips,
    DrawInfo,
}

/// A count of a packed scene, as its layout says it.
pub open spec fn counted(layout: Layout, count: Count) -> int {
    (match count {
        Count::DrawObjects => layout.n_draw_objects,
        Count::Paths => layout.n_paths,
        Count::Clips => layout.n_clips,
        Count::DrawInfo => layout.bin_data_start,
    }) as int
}

/// A count over the parts before part `k` that have draw objects.
pub open spec fn counted_before(parts: Seq<(Layout, Seq<u8>)>, k: int, count: Count) -> int
    decreases k,
{
    if k <= 0 {
        0
    } else if parts[k - 1].0.n_draw_objects == 0 {
        counted_before(parts, k - 1, count)
    } else {
        counted_before(parts, k - 1, count) + counted(parts[k - 1].0, count)
    }
}

/// The counts of scenes that are put together are the sums of their counts, at most the
/// largest word.
pub proof fn lemma_merged_counts(parts: Seq<(Layout, Seq<u8>)>, count: Count)
    ensures
        ({
            let sum = counted_before(parts, parts.len() as int, count);
            let merged = counted(merged_parts(parts).0, count);
            &&& sum <= u32::MAX ==> merged == sum
            &&& sum > u32::MAX ==> merged == u32::MAX
        }),
{
    lemma_joined_counts(parts, parts.len() as int, count);
    assert(parts.take(parts.len() as int) =~= parts);
}

/// The counts of the first parts.
proof fn lemma_joined_counts(parts: Seq<(Layout, Seq<u8>)>, k: int, count: Count)
    requires
        0 <= k <= parts.len(),
    ensures
        ({
            let sum = counted_before(parts, k, count);
            let joined = counted(joined_parts(parts.take(k)).0, count);
            &&& 0 <= sum
            &&& sum <= u32::MAX ==> joined == sum
            &&& sum > u32::MAX ==> joined == u32::MAX
        }),
    decreases k,
{
    if k > 0 {
        lemma_joined_counts(parts, k - 1, count);
        assert(parts.take(k).drop_last() =~= parts.take(k - 1));
        assert(parts.take(k).last() == parts[k - 1]);
    }
}

/// Whether a transform and a style are in force before a draw object, where path tags come
/// before it.
pub open spec fn state_is_set(full: Streams, draw: int) -> bool {
    let before = path_tags_before(full, draw);
    before.len() > 0 ==> path_transforms(before) > 0 && path_style_words(before) > 0
}

/// The markers with which a range begins that other path tags come before.
pub open spec fn opening_markers(full: Streams, draw: int) -> int {
    if path_tags_before(full, draw).len() > 0 {
        2
    } else {
        0
    }
}

/// What the markers select that open a range.
proof fn lemma_markers()
    ensures
        ({
            let markers = seq![PathTag::TRANSFORM, PathTag::STYLE];
            &&& path_transforms(markers) == 1
            &&& path_style_words(markers) == 2
            &&& path_words(markers) == 0
        }),
{
    assert(0x20u8 & 0x20 != 0 && 0x40u8 & 0x20 == 0 && 0x20u8 & 0x40 == 0 && 0x40u8 & 0x40 != 0)
        by (bit_vector);
    assert(0x20u8 & 0x3 == 0 && (0x20u8 >> 2) & 0x1 == 0 && 0x40u8 & 0x3 == 0 && (0x40u8 >> 2) & 0x1
        == 0) by (bit_vector);
    let markers = seq![PathTag::TRANSFORM, PathTag::STYLE];
    let one = seq![PathTag::TRANSFORM];
    assert(markers.drop_last() =~= one);
    assert(one.drop_last() =~= Seq::empty());
    reveal_with_fuel(crate::encoding::total, 3);
}

/// Zeros behind path tags select nothing.
proof fn lemma_padding(tags: Seq<u8>)
    ensures
        path_transforms(pad_to_words(tags)) == path_transforms(tags),
        path_style_words(pad_to_words(tags)) == path_style_words(tags),
        path_words(pad_to_words(tags)) == path_words(tags),
{
    let n = ((4 - tags.len() % 4) % 4) as nat;
    lemma_path_zero(n);
    lemma_path_concat(tags, Seq::new(n, |i: int| 0u8));
}

/// A range that is cut out of a scene is drawn as in the scene: each of its path elements
/// has the transform, the style and the points that it has there, also where they were
/// set before the range, and each of its draw objects has its data. And the range has all
/// that its tags select, and no more.
#[verifier::rlimit(40)]
pub proof fn lemma_range_paths(layout: Layout, packed: Seq<u8>, start: int, end: int)
    requires
        0 <= start < end <= layout.streams(packed).draw_tags.len(),
        range_ready(layout, packed, start, end),
        packed_range(layout, packed, start, end).1.len() / 4 <= u32::MAX,
        state_is_set(layout.streams(packed), start),
    ensures
        ({
            let full = layout.streams(packed);
            let part = read(packed_range(layout, packed, start, end));
            let from = path_tags_before(full, start).len() as int;
            let to = path_tags_before(full, end).len() as int;
            &&& is_complete(part)
            &&& forall|i: int|
                from <= i < to ==> #[trigger] drawn_alike(
                    part,
                    i - from + opening_markers(full, start),
                    full,
                    i,
                )
            &&& forall|draw: int|
                start <= draw < end ==> #[trigger] same_draw(part, draw - start, full, draw)
        }),
{
    let full = layout.streams(packed);
    lemma_range_readable(layout, packed, start, end);
    lemma_available_before(full, start, end);
    let streams = range_streams(full, start, end);
    let part = read(packed_range(layout, packed, start, end));
    assert(part == streams.padded()) by {
        reveal(read);
    }
    let before = path_tags_before(full, start);
    let through = path_tags_before(full, end);
    let from = before.len() as int;
    let to = through.len() as int;
    let skip = opening_markers(full, start);
    let markers = if skip == 2 {
        seq![PathTag::TRANSFORM, PathTag::STYLE]
    } else {
        Seq::empty()
    };
    lemma_markers();
    lemma_style_words_even(before);
    lemma_style_words_even(through);
    assert(crate::packing::takes_over_state(full, start, end) == (skip == 2));
    let few = draw_paths(full.draw_tags.take(start)) as int;
    let many = draw_paths(full.draw_tags.take(end)) as int;
    lemma_path_tag_end_bounds(full.path_tags, 0, few, few);
    lemma_path_tag_end_bounds(full.path_tags, 0, many, many);
    let own = through.skip(from);
    assert(streams.path_tags =~= markers + own);
    assert(through =~= before + own);
    assert(through =~= full.path_tags.take(to));
    assert(before =~= full.path_tags.take(from));
    lemma_path_concat(before, own);
    lemma_path_concat(markers, own);
    lemma_padding(streams.path_tags);

    let before_draws = full.draw_tags.take(start);
    let draws = full.draw_tags.subrange(start, end);
    assert(full.draw_tags.take(end) =~= before_draws + draws);
    lemma_draw_concat(before_draws, draws);
    assert(is_complete(part));

    let n = to - from;
    assert(part.path_tags.subrange(skip, skip + n) =~= full.path_tags.subrange(from, from + n)) by {
        assert(part.path_tags.subrange(skip, skip + n) =~= own);
        assert(full.path_tags.subrange(from, from + n) =~= own);
    }
    assert(part.path_tags.take(skip) =~= markers);
    assert(full.path_tags.take(from + n) =~= through);
    assert forall|c: int|
        path_transforms(before) <= c <= path_transforms(through) && 0 < c
            <= full.transforms.len() implies part.transforms[c + path_transforms(markers)
        - path_transforms(before) - 1] == #[trigger] full.transforms[c - 1] by {
    }
    assert forall|i: int| from <= i < to implies #[trigger] drawn_alike(
        part,
        i - from + skip,
        full,
        i,
    ) by {
        lemma_shifted(part, skip, full, from, n, i - from);
    }
    assert forall|draw: int| start <= draw < end implies #[trigger] same_draw(
        part,
        draw - start,
        full,
        draw,
    ) by {
        let i = draw - start;
        assert(full.draw_tags.take(draw) =~= before_draws + draws.take(i));
        assert(full.draw_tags.take(draw + 1) =~= before_draws + draws.take(i + 1));
        lemma_draw_concat(before_draws, draws.take(i));
        lemma_draw_concat(before_draws, draws.take(i + 1));
        lemma_draw_monotone(draws, i, i + 1);
        lemma_draw_monotone(draws, i + 1, draws.len() as int);
        assert(draws.take(draws.len() as int) =~= draws);
        let a = draw_words(draws.take(i)) as int;
        let b = draw_words(draws.take(i + 1)) as int;
        let base = draw_words(before_draws) as int;
        assert(part.draw_data.subrange(a, b) =~= full.draw_data.subrange(base + a, base + b));
    }
}

/// The parts of a segment, one for each draw object that opens a layer of it.
proof fn lemma_seed_part(layout: Layout, packed: Seq<u8>, seeds: Seq<u32>, k: int)
    requires
        seeds_in_scene(layout, packed, seeds),
        0 <= k < seeds.len(),
    ensures
        seed_parts(layout, packed, seeds).len() == seeds.len(),
        seed_parts(layout, packed, seeds)[k] == packed_range(
            layout,
            packed,
            seeds[k] as int,
            seeds[k] + 1,
        ),
    decreases seeds.len(),
{
    let fewer = seeds.drop_last();
    let n = seeds.len() as int;
    assert(seeds[n - 1] == seeds.last());
    assert forall|j: int| 0 <= j < fewer.len() implies (#[trigger] fewer[j])
        < layout.n_draw_objects && fewer[j] < layout.streams(packed).draw_tags.len() by {
        assert(seeds[j] == fewer[j]);
    }
    if n == 1 {
        assert(seed_parts(layout, packed, fewer) =~= Seq::empty());
    } else {
        lemma_seed_part(
            layout,
            packed,
            fewer,
            if k < n - 1 {
                k
            } else {
                0
            },
        );
        if k < n - 1 {
            assert(fewer[k] == seeds[k]);
        }
    }
}

/// Where part `k` of a segment starts in the scene: at a draw object that opens a layer,
/// or at the range.
pub open spec fn part_start(seeds: Seq<u32>, start: int, k: int) -> int {
    if k < seeds.len() {
        seeds[k] as int
    } else {
        start
    }
}

/// Where part `k` of a segment ends in the scene.
pub open spec fn part_end(seeds: Seq<u32>, end: int, k: int) -> int {
    if k < seeds.len() {
        seeds[k] + 1
    } else {
        end
    }
}

/// Whether a segment can be cut out of a scene, and read back, and a transform and a style
/// are in force before each of its parts.
pub open spec fn segment_is_set(
    layout: Layout,
    packed: Seq<u8>,
    start: int,
    end: int,
    seeds: Seq<u32>,
    ends: u32,
) -> bool {
    let full = layout.streams(packed);
    &&& 0 <= start <= end <= full.draw_tags.len()
    &&& seeds_in_scene(layout, packed, seeds)
    &&& segment_ready(layout, packed, start, end, seeds)
    &&& segment_fits(layout, packed, start, end, seeds, ends)
    &&& packed_segment(layout, packed, start, end, seeds, ends).1.len() / 4 <= u32::MAX
    &&& forall|k: int|
        0 <= k <= seeds.len() ==> #[trigger] state_is_set(full, part_start(seeds, start, k))
}

/// What part `k` of a segment is.
proof fn lemma_segment_part(
    layout: Layout,
    packed: Seq<u8>,
    start: int,
    end: int,
    seeds: Seq<u32>,
    ends: u32,
    k: int,
)
    requires
        segment_is_set(layout, packed, start, end, seeds, ends),
        0 <= k <= seeds.len(),
    ensures
        ({
            let parts = segment_parts(layout, packed, start, end, seeds);
            let s = part_start(seeds, start, k);
            let e = part_end(seeds, end, k);
            &&& parts.len() == seeds.len() + 1
            &&& parts[k] == packed_range(layout, packed, s, e)
            &&& 0 <= s <= e <= layout.streams(packed).draw_tags.len()
            &&& range_ready(layout, packed, s, e)
            &&& parts[k].1.len() / 4 <= u32::MAX
            &&& parts[k].0.readable(parts[k].1.len())
            &&& parts[k].0.n_draw_objects != 0 <==> s < e
        }),
{
    let full = layout.streams(packed);
    let parts = segment_parts(layout, packed, start, end, seeds);
    let s = part_start(seeds, start, k);
    let e = part_end(seeds, end, k);
    if seeds.len() > 0 {
        lemma_seed_part(
            layout,
            packed,
            seeds,
            if k < seeds.len() {
                k
            } else {
                0
            },
        );
    }
    assert(parts[k] == packed_range(layout, packed, s, e));
    if k < seeds.len() {
        assert(seeds[k] < layout.n_draw_objects);
    }
    lemma_range_count(layout, packed, s, e);
    assert(full.draw_tags.len() <= u32::MAX);
    lemma_range_readable(layout, packed, s, e);
}

/// A scene that goes on is drawn as before.
proof fn lemma_longer_paths(scene: Streams, longer: Streams)
    requires
        scene.path_tags.len() <= longer.path_tags.len(),
        longer.path_tags.take(scene.path_tags.len() as int) =~= scene.path_tags,
        scene.draw_tags.len() <= longer.draw_tags.len(),
        longer.draw_tags.take(scene.draw_tags.len() as int) =~= scene.draw_tags,
        longer.transforms == scene.transforms,
        longer.styles == scene.styles,
        longer.path_data == scene.path_data,
        longer.draw_data == scene.draw_data,
    ensures
        forall|i: int|
            0 <= i < scene.path_tags.len() ==> #[trigger] drawn_alike(longer, i, scene, i),
        forall|i: int|
            0 <= i < scene.draw_tags.len() ==> #[trigger] same_draw(longer, i, scene, i),
{
    let n = scene.path_tags.len() as int;
    let count = scene.draw_tags.len() as int;
    assert forall|i: int| 0 <= i < n implies #[trigger] drawn_alike(longer, i, scene, i) by {
        assert(longer.path_tags.take(n)[i] == longer.path_tags[i]);
        assert(longer.path_tags.take(i) =~= longer.path_tags.take(n).take(i));
        assert(longer.path_tags.take(i + 1) =~= longer.path_tags.take(n).take(i + 1));
    }
    assert forall|i: int| 0 <= i < count implies #[trigger] same_draw(longer, i, scene, i) by {
        assert(longer.draw_tags.take(count)[i] == longer.draw_tags[i]);
        assert(longer.draw_tags.take(i) =~= longer.draw_tags.take(count).take(i));
        assert(longer.draw_tags.take(i + 1) =~= longer.draw_tags.take(count).take(i + 1));
    }
}

/// The streams of a scene with layers closed behind it.
spec fn closed_streams(scene: Streams, ends: u32) -> Streams {
    let draw_tags = scene.draw_tags + repeated(DrawTag::END_CLIP, ends as nat);
    let path_tags = scene.path_tags + repeated(PathTag::PATH, ends as nat);
    let missing = if path_tags.len() < draw_tags.len() {
        (draw_tags.len() - path_tags.len()) as nat
    } else {
        0
    };
    Streams { path_tags: path_tags + repeated(PathTag::PATH, missing), draw_tags, ..scene }
}

/// What is read back of a scene with layers closed behind it.
proof fn lemma_closed_read(open: (Layout, Seq<u8>), ends: u32)
    requires
        ends > 0,
        open.0.readable(open.1.len()),
        rereadable(open),
        with_end_clips(open.0, open.1, ends).1.len() / 4 <= u32::MAX,
    ensures
        ({
            let whole = closed_streams(read(open), ends);
            let (layout, bytes) = with_end_clips(open.0, open.1, ends);
            &&& read((layout, bytes)) == whole.padded()
            &&& layout.readable(bytes.len())
            &&& layout.n_draw_objects == whole.draw_tags.len()
            &&& layout.n_paths == whole.draw_tags.len()
            &&& layout.n_clips == saturated_sum(open.0.n_clips, ends)
            &&& layout.bin_data_start == draw_info(read(open).draw_tags)
        }),
{
    reveal(read);
    let scene = read(open);
    let whole = closed_streams(scene, ends);
    let (layout, bytes) = with_end_clips(open.0, open.1, ends);
    let draws = whole.draw_tags.len();
    let ended = repeated(DrawTag::END_CLIP, ends as nat);
    lemma_draw_concat(scene.draw_tags, ended);
    lemma_end_clips_info(ends as nat);
    let info = draw_info(whole.draw_tags) as u32;
    let clips = saturated_sum(open.0.n_clips, ends);
    assert(layout == packed_layout(whole, draws as u32, draws as u32, clips, info));
    assert(bytes == packed_bytes(whole));
    lemma_pack_round_trip(whole, draws as u32, draws as u32, clips, info);
    assert(bytes.len() >= 4 * draws);
}

/// A segment whose layers are closed behind it is drawn as one whose layers are not.
proof fn lemma_closed_paths(open: (Layout, Seq<u8>), ends: u32)
    requires
        ends > 0 ==> {
            &&& open.0.readable(open.1.len())
            &&& rereadable(open)
            &&& with_end_clips(open.0, open.1, ends).1.len() / 4 <= u32::MAX
        },
    ensures
        ({
            let scene = read(open);
            let closed = read(with_end_clips(open.0, open.1, ends));
            &&& forall|i: int|
                0 <= i < scene.path_tags.len() ==> #[trigger] drawn_alike(closed, i, scene, i)
            &&& forall|i: int|
                0 <= i < scene.draw_tags.len() ==> #[trigger] same_draw(closed, i, scene, i)
        }),
{
    let scene = read(open);
    let closed = read(with_end_clips(open.0, open.1, ends));
    if ends > 0 {
        lemma_closed_read(open, ends);
    }
    lemma_longer_paths(scene, closed);
}

/// What is drawn alike in turn, from the scene to the segment.
proof fn lemma_drawn_in_turn(
    full: Streams,
    part: Streams,
    whole: Streams,
    segment: Streams,
    s: int,
    e: int,
    from: int,
    to: int,
    skip: int,
    at: int,
    draws_at: int,
)
    requires
        forall|i: int| from <= i < to ==> #[trigger] drawn_alike(part, i - from + skip, full, i),
        forall|i: int|
            0 <= i < part.path_tags.len() ==> #[trigger] drawn_alike(whole, at + i, part, i),
        forall|i: int|
            0 <= i < whole.path_tags.len() ==> #[trigger] drawn_alike(segment, i, whole, i),
        forall|draw: int| s <= draw < e ==> #[trigger] same_draw(part, draw - s, full, draw),
        forall|i: int|
            0 <= i < part.draw_tags.len() ==> #[trigger] same_draw(whole, draws_at + i, part, i),
        forall|i: int|
            0 <= i < whole.draw_tags.len() ==> #[trigger] same_draw(segment, i, whole, i),
    ensures
        forall|i: int|
            from <= i < to ==> #[trigger] drawn_alike(segment, at + skip + i - from, full, i),
        forall|draw: int|
            s <= draw < e ==> #[trigger] same_draw(segment, draws_at + draw - s, full, draw),
{
    assert forall|i: int| from <= i < to implies #[trigger] drawn_alike(
        segment,
        at + skip + i - from,
        full,
        i,
    ) by {
        let j = i - from + skip;
        assert(drawn_alike(part, j, full, i));
        assert(drawn_alike(whole, at + j, part, j));
        assert(drawn_alike(segment, at + j, whole, at + j));
    }
    assert forall|draw: int| s <= draw < e implies #[trigger] same_draw(
        segment,
        draws_at + draw - s,
        full,
        draw,
    ) by {
        let j = draw - s;
        assert(same_draw(part, j, full, draw));
        assert(same_draw(whole, draws_at + j, part, j));
        assert(same_draw(segment, draws_at + j, whole, draws_at + j));
    }
}

/// Where layers are closed behind a scene, it has one more draw object and one more path
/// for each of them, behind what it had, and as many more clip operations; it has a path tag
/// for each draw object, and its counts are those of its draw tags.
pub proof fn lemma_closed_counts(open: (Layout, Seq<u8>), ends: u32)
    requires
        ends > 0,
        open.0.readable(open.1.len()),
        rereadable(open),
        with_end_clips(open.0, open.1, ends).1.len() / 4 <= u32::MAX,
    ensures
        ({
            let scene = read(open);
            let (layout, bytes) = with_end_clips(open.0, open.1, ends);
            let closed = read((layout, bytes));
            let tags = scene.path_tags.len() as int;
            let draws = scene.draw_tags.len() as int;
            &&& layout.readable(bytes.len())
            &&& closed.draw_tags.len() == draws + ends
            &&& layout.n_draw_objects == closed.draw_tags.len()
            &&& layout.n_paths == closed.draw_tags.len()
            &&& open.0.n_clips + ends <= u32::MAX ==> layout.n_clips == open.0.n_clips + ends
            &&& layout.bin_data_start == draw_info(scene.draw_tags)
            &&& forall|i: int|
                draws <= i < closed.draw_tags.len() ==> closed.draw_tags[i] == DrawTag::END_CLIP
            &&& tags + ends <= closed.path_tags.len()
            &&& closed.draw_tags.len() <= closed.path_tags.len()
            &&& forall|i: int|
                tags <= i < tags + ends ==> closed.path_tags[i] == PathTag::PATH
            &&& closed.transforms == scene.transforms
            &&& closed.styles == scene.styles
            &&& closed.path_data == scene.path_data
            &&& closed.draw_data == scene.draw_data
        }),
{
    let scene = read(open);
    let closed = read(with_end_clips(open.0, open.1, ends));
    let whole = closed_streams(scene, ends);
    lemma_closed_read(open, ends);
    let draws = scene.draw_tags.len() as int;
    let tags = scene.path_tags.len() as int;
    assert(closed == whole.padded());
    assert forall|i: int| draws <= i < closed.draw_tags.len() implies closed.draw_tags[i]
        == DrawTag::END_CLIP by {
        assert(closed.draw_tags[i] == repeated(DrawTag::END_CLIP, ends as nat)[i - draws]);
    }
    assert forall|i: int| tags <= i < tags + ends implies closed.path_tags[i] == PathTag::PATH by {
        assert(closed.path_tags[i] == repeated(PathTag::PATH, ends as nat)[i - tags]);
    }
}

/// A segment is drawn as the scene that it is cut out of: each path element of a draw
/// object that opens one of its layers, and of its range, has the transform, the style and
/// the points that it has in the whole scene, and each of these draw objects has its data.
/// The parts stand in the segment one after the other.
pub proof fn lemma_segment_paths(
    layout: Layout,
    packed: Seq<u8>,
    start: int,
    end: int,
    seeds: Seq<u32>,
    ends: u32,
    k: int,
)
    requires
        segment_is_set(layout, packed, start, end, seeds, ends),
        0 <= k <= seeds.len(),
        part_start(seeds, start, k) < part_end(seeds, end, k),
    ensures
        ({
            let full = layout.streams(packed);
            let segment = read(packed_segment(layout, packed, start, end, seeds, ends));
            let parts = segment_parts(layout, packed, start, end, seeds);
            let s = part_start(seeds, start, k);
            let e = part_end(seeds, end, k);
            let from = path_tags_before(full, s).len() as int;
            let to = path_tags_before(full, e).len() as int;
            let at = place(parts, k, Stream::PathTags) + opening_markers(full, s);
            let draws_at = place(parts, k, Stream::DrawTags);
            &&& forall|i: int|
                from <= i < to ==> #[trigger] drawn_alike(segment, at + i - from, full, i)
            &&& forall|draw: int|
                s <= draw < e ==> #[trigger] same_draw(segment, draws_at + draw - s, full, draw)
        }),
{
    let full = layout.streams(packed);
    let parts = segment_parts(layout, packed, start, end, seeds);
    let open = open_segment(layout, packed, start, end, seeds);
    let whole = read(open);
    let segment = read(packed_segment(layout, packed, start, end, seeds, ends));
    let s = part_start(seeds, start, k);
    let e = part_end(seeds, end, k);
    let from = path_tags_before(full, s).len() as int;
    let to = path_tags_before(full, e).len() as int;
    let skip = opening_markers(full, s);
    let part = read(parts[k]);
    let part_at = place(parts, k, Stream::PathTags);
    let draws_at = place(parts, k, Stream::DrawTags);
    lemma_segment_part(layout, packed, start, end, seeds, ends, k);
    lemma_range_paths(layout, packed, s, e);
    assert(open.1.len() / 4 <= u32::MAX);
    if seeds.len() == 0 {
        assert(open == parts[k]);
        assert(open.0.readable(open.1.len()));
        assert forall|i: int| 0 <= i < part.path_tags.len() implies #[trigger] drawn_alike(
            whole,
            part_at + i,
            part,
            i,
        ) by {
        }
        assert forall|i: int| 0 <= i < part.draw_tags.len() implies #[trigger] same_draw(
            whole,
            draws_at + i,
            part,
            i,
        ) by {
        }
    } else {
        assert(parts_readable(parts)) by {
            assert forall|j: int|
                0 <= j < parts.len() && (#[trigger] parts[j]).0.n_draw_objects
                    != 0 implies parts[j].0.readable(parts[j].1.len()) by {
                lemma_segment_part(layout, packed, start, end, seeds, ends, j);
            }
        }
        assert(complete_before(parts, k)) by {
            assert forall|j: int|
                0 <= j < k && (#[trigger] parts[j]).0.n_draw_objects != 0 implies is_complete(
                read(parts[j]),
            ) by {
                lemma_segment_part(layout, packed, start, end, seeds, ends, j);
                lemma_range_paths(
                    layout,
                    packed,
                    part_start(seeds, start, j),
                    part_end(seeds, end, j),
                );
            }
        }
        lemma_merged_readable(parts);
        lemma_merged_paths(parts, k);
    }
    lemma_closed_paths(open, ends);
    lemma_drawn_in_turn(
        full,
        part,
        whole,
        segment,
        s,
        e,
        from,
        to,
        skip,
        part_at,
        draws_at,
    );
}

} // verus!
