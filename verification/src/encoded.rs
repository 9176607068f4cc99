//! What encodings hold, and which encodings are well built.

use vstd::prelude::*;

use crate::encoding::draw_info_size;
use crate::float_bits::{f64_at_least, f64_nan, f64_parts};

verus! {

use vstd::arithmetic::power2::pow2;
use crate::encoding::{
    draw_info, lemma_draw_monotone, lemma_draw_step, DrawTag, PathTag, Style, Transform,
};
use crate::float_bits::{
    f64_exponent, f64_is_infinite, f64_is_nan, f64_is_negative, f64_is_zero, f64_magnitude,
};
use crate::layout::{
    aligned_up, lemma_aligned_up, lemma_pack_round_trip, pad_to_words, packed_bytes,
    packed_layout, words_bytes, Layout, Streams,
};

/// The outside type `vello_encoding::Encoding`: an encoded scene.
#[verifier::external_type_specification]
#[verifier::external_body]
pub struct ExEncoding(vello_encoding::Encoding);

/// A resource that is bound when its scene is resolved.
#[derive(Clone, Copy, Debug, PartialEq, Eq)]
pub enum LateBound {
    /// A gradient ramp: the place of its word in the draw data, its color stops,
    /// and how it goes on behind its ends.
    Ramp { offset: usize, stops_start: usize, stops_end: usize, extend: u32 },
    /// An image: the place of its first word in the draw data.
    Image { offset: usize },
    /// A glyph run, by its index.
    GlyphRun { index: usize },
}

/// The glyphs and coordinates of a glyph run, the places in the streams of its
/// encoding that it goes to, and how its outlines are made bolder. Floats stand for
/// their bits.
#[derive(Clone, Copy, Debug, PartialEq, Eq)]
pub struct GlyphRunPlace {
    pub glyphs_start: usize,
    pub glyphs_end: usize,
    pub coords_start: usize,
    pub coords_end: usize,
    pub path_tags: usize,
    pub path_data: usize,
    pub transforms: usize,
    pub styles: usize,
    /// By how much the outlines are made bolder.
    pub bolder_x: u64,
    pub bolder_y: u64,
    /// The kind of the joins of bolder outlines: bevel, miter or round.
    pub bolder_join: u32,
    pub bolder_tolerance: u64,
}

/// What an encoding holds. Floats stand for their bits.
#[verifier::ext_equal]
pub struct EncodedScene {
    pub path_tags: Seq<u8>,
    pub path_data: Seq<u32>,
    pub draw_tags: Seq<u32>,
    pub draw_data: Seq<u32>,
    pub transforms: Seq<Transform>,
    pub styles: Seq<Style>,
    pub n_paths: u32,
    pub n_clips: u32,
    /// The number of layers that are still open.
    pub n_open_clips: u32,
    /// The resources that are bound late.
    pub patches: Seq<LateBound>,
    pub glyph_runs: Seq<GlyphRunPlace>,
    /// The number of color stops.
    pub color_stops: nat,
    /// The number of glyphs.
    pub glyphs: nat,
    /// The number of normalized coordinates.
    pub normalized_coords: nat,
}

/// What the fields of a `vello_encoding::Encoding` hold.
pub uninterp spec fn encoded(encoding: vello_encoding::Encoding) -> EncodedScene;

// ---------------------------------------------------------------------------
// Closed and packed encodings
// ---------------------------------------------------------------------------

impl EncodedScene {
    /// The path tags with a path for the end of each open layer, and zeros up to
    /// whole workgroups.
    pub open spec fn closed_path_tags(self) -> Seq<u8> {
        let tags = self.path_tags + Seq::new(self.n_open_clips as nat, |i: int| PathTag::PATH);
        tags + Seq::new((aligned_up(tags.len() as int, 1024) - tags.len()) as nat, |i: int| 0u8)
    }

    /// The draw tags with the end of each open layer.
    pub open spec fn closed_draw_tags(self) -> Seq<u32> {
        self.draw_tags + Seq::new(self.n_open_clips as nat, |i: int| DrawTag::END_CLIP)
    }

    /// The streams with all layers closed.
    pub open spec fn closed_streams(self) -> Streams {
        Streams {
            path_tags: self.closed_path_tags(),
            path_data: words_bytes(self.path_data),
            draw_tags: self.closed_draw_tags(),
            draw_data: self.draw_data,
            transforms: self.transforms,
            styles: self.styles,
        }
    }

    /// The streams with all layers closed, packed.
    pub open spec fn packed(self) -> Seq<u8> {
        packed_bytes(self.closed_streams())
    }

    /// The layout of the packed streams.
    pub open spec fn layout(self) -> Layout {
        packed_layout(
            self.closed_streams(),
            self.n_paths,
            self.n_paths,
            self.n_clips,
            draw_info(self.draw_tags) as u32,
        )
    }

    /// The number of bytes of the packed streams.
    pub open spec fn packed_len(self) -> int {
        aligned_up((self.path_tags.len() + self.n_open_clips) as int, 1024) + 4
            * self.path_data.len() + 4 * (self.draw_tags.len() + self.n_open_clips) + 4
            * self.draw_data.len() + 24 * self.transforms.len() + 8 * self.styles.len()
    }
}

/// The packed streams of an encoding are read back, with all layers closed.
pub proof fn lemma_encoding_reads_back(encoding: EncodedScene)
    requires
        encoding.packed().len() / 4 <= u32::MAX,
    ensures
        encoding.packed().len() == encoding.packed_len(),
        encoding.layout().readable(encoding.packed().len()),
        encoding.layout().streams(encoding.packed()) == encoding.closed_streams(),
{
    let streams = encoding.closed_streams();
    let tags = encoding.path_tags.len() + encoding.n_open_clips;
    lemma_aligned_up(tags as int, 1024);
    assert(pad_to_words(streams.path_tags) =~= streams.path_tags);
    lemma_pack_round_trip(
        streams,
        encoding.n_paths,
        encoding.n_paths,
        encoding.n_clips,
        draw_info(encoding.draw_tags) as u32,
    );
}

// ---------------------------------------------------------------------------
// Well-built encodings
// ---------------------------------------------------------------------------

/// The words of draw data behind the last one that these resources change.
pub open spec fn patched_end(patches: Seq<LateBound>) -> int
    decreases patches.len(),
{
    if patches.len() == 0 {
        0
    } else {
        match patches.last() {
            LateBound::Ramp { offset, .. } => offset + 1,
            LateBound::Image { offset } => offset + 2,
            LateBound::GlyphRun { .. } => patched_end(patches.drop_last()),
        }
    }
}

/// The number of glyph runs among these resources.
pub open spec fn run_count(patches: Seq<LateBound>) -> nat
    decreases patches.len(),
{
    if patches.len() == 0 {
        0
    } else {
        run_count(patches.drop_last()) + if patches.last() is GlyphRun {
            1nat
        } else {
            0
        }
    }
}

/// The binary exponent from which on a round corner can be too large for its
/// tolerance. The pieces of a corner grow with the sixth root of the ratio of the two:
/// there a half turn has more of them than fit in memory, with 32 bytes for each.
pub open spec fn corner_exponent() -> nat {
    (6 * (usize::BITS - 5)) as nat
}

impl GlyphRunPlace {
    /// Whether the round corners of bolder outlines have no number of pieces that fits
    /// in memory. Corners are rounded where the outlines get bolder by numbers, not
    /// all of them without bounds, and sideways at all; and only a tolerance that is
    /// not below zero bounds the pieces.
    pub open spec fn corners_overflow(self) -> bool {
        let x = self.bolder_x;
        let y = self.bolder_y;
        let tolerance = self.bolder_tolerance;
        &&& self.glyphs_start < self.glyphs_end
        &&& self.bolder_join == 2
        &&& !f64_is_nan(x) && !f64_is_nan(y) && !f64_is_zero(x)
        &&& !(f64_is_infinite(x) && (f64_is_infinite(y) || f64_is_zero(y)))
        &&& f64_exponent(tolerance) < 0x7ff
        &&& f64_is_zero(tolerance) || !f64_is_negative(tolerance)
        &&& {
            let limit = pow2(corner_exponent()) * f64_magnitude(tolerance);
            ||| f64_is_infinite(x) || f64_is_infinite(y)
            ||| f64_magnitude(x) >= limit || f64_magnitude(y) >= limit
        }
    }
}

impl EncodedScene {
    /// Whether a glyph run only refers to what the encoding holds, and can be
    /// outlined.
    pub open spec fn run_in_bounds(self, run: GlyphRunPlace) -> bool {
        &&& run.glyphs_start <= run.glyphs_end <= self.glyphs
        &&& run.coords_start <= run.coords_end <= self.normalized_coords
        &&& run.path_tags <= self.path_tags.len()
        &&& run.path_data <= self.path_data.len()
        &&& run.transforms <= self.transforms.len()
        &&& run.styles <= self.styles.len()
        &&& !run.corners_overflow()
    }

    /// Whether a resource only refers to what the encoding holds, and only changes
    /// draw data from `end` on. An image that finds no place in the atlas changes two
    /// words, and whether it finds one rests on the caches of the resolver.
    pub open spec fn patch_in_bounds(self, patch: LateBound, end: int) -> bool {
        match patch {
            LateBound::Ramp { offset, stops_start, stops_end, .. } => {
                &&& end <= offset < self.draw_data.len()
                &&& stops_start < stops_end <= self.color_stops
            },
            LateBound::Image { offset } => end <= offset && offset + 2 <= self.draw_data.len(),
            LateBound::GlyphRun { index } => {
                &&& index < self.glyph_runs.len()
                &&& self.run_in_bounds(self.glyph_runs[index as int])
            },
        }
    }

    /// Whether the first `count` resources are in bounds.
    pub open spec fn patches_in_bounds(self, count: int) -> bool {
        forall|k: int|
            0 <= k < count ==> self.patch_in_bounds(
                #[trigger] self.patches[k],
                patched_end(self.patches.take(k)),
            )
    }

    /// Whether the encoding can be resolved: what is bound late refers to what the
    /// encoding holds, in the order of the draw data, and can be outlined; and the
    /// counts and sizes fit.
    pub open spec fn well_built(self) -> bool {
        &&& self.patches_in_bounds(self.patches.len() as int)
        &&& self.n_paths + run_count(self.patches) <= u32::MAX
        &&& draw_info(self.draw_tags) <= u32::MAX
        &&& self.packed_len() <= usize::MAX / 2
    }
}

/// The sizes of what an encoding holds.
#[derive(Clone, Copy, Debug, PartialEq, Eq)]
struct EncodedSizes {
    path_tags: usize,
    path_data: usize,
    draw_data: usize,
    transforms: usize,
    styles: usize,
    color_stops: usize,
    glyphs: usize,
    normalized_coords: usize,
    n_paths: u32,
    n_open_clips: u32,
}

impl EncodedSizes {
    /// Whether these are the sizes of an encoding.
    spec fn are_of(self, encoding: EncodedScene) -> bool {
        &&& self.path_tags == encoding.path_tags.len()
        &&& self.path_data == encoding.path_data.len()
        &&& self.draw_data == encoding.draw_data.len()
        &&& self.transforms == encoding.transforms.len()
        &&& self.styles == encoding.styles.len()
        &&& self.color_stops == encoding.color_stops
        &&& self.glyphs == encoding.glyphs
        &&& self.normalized_coords == encoding.normalized_coords
        &&& self.n_paths == encoding.n_paths
        &&& self.n_open_clips == encoding.n_open_clips
    }
}

/// Reads the lengths of the fields of a `vello_encoding::Encoding`, and two of its
/// counts, as they are.
#[verifier::external_body]
fn encoded_sizes(encoding: &vello_encoding::Encoding) -> (sizes: EncodedSizes)
    ensures
        sizes.are_of(encoded(*encoding)),
{
    EncodedSizes {
        path_tags: encoding.path_tags.len(),
        path_data: encoding.path_data.len(),
        draw_data: encoding.draw_data.len(),
        transforms: encoding.transforms.len(),
        styles: encoding.styles.len(),
        color_stops: encoding.resources.color_stops.len(),
        glyphs: encoding.resources.glyphs.len(),
        normalized_coords: encoding.resources.normalized_coords.len(),
        n_paths: encoding.n_paths,
        n_open_clips: encoding.n_open_clips,
    }
}

/// Reads the draw tags of a `vello_encoding::Encoding`, as they are.
#[verifier::external_body]
fn encoded_draw_tags(encoding: &vello_encoding::Encoding) -> (tags: Vec<u32>)
    ensures
        tags@ == encoded(*encoding).draw_tags,
{
    encoding.draw_tags.iter().map(|tag| tag.0).collect()
}

/// Reads the resources of a `vello_encoding::Encoding` that are bound late, in
/// their order.
#[verifier::external_body]
fn encoded_patches(encoding: &vello_encoding::Encoding) -> (patches: Vec<LateBound>)
    ensures
        patches@ == encoded(*encoding).patches,
{
    encoding.resources.patches.iter().map(|patch| match patch {
        vello_encoding::Patch::Ramp { draw_data_offset, stops, extend, .. } => LateBound::Ramp {
            offset: *draw_data_offset,
            stops_start: stops.start,
            stops_end: stops.end,
            extend: *extend as u32,
        },
        vello_encoding::Patch::Image { draw_data_offset, .. } => LateBound::Image {
            offset: *draw_data_offset,
        },
        vello_encoding::Patch::GlyphRun { index } => LateBound::GlyphRun { index: *index },
    }).collect()
}

/// Reads the ranges, the stream offsets and the bold settings of the glyph runs of a
/// `vello_encoding::Encoding`, in their order.
#[verifier::external_body]
fn encoded_glyph_runs(encoding: &vello_encoding::Encoding) -> (runs: Vec<GlyphRunPlace>)
    ensures
        runs@ == encoded(*encoding).glyph_runs,
{
    encoding.resources.glyph_runs.iter().map(|run| GlyphRunPlace {
        glyphs_start: run.glyphs.start,
        glyphs_end: run.glyphs.end,
        coords_start: run.normalized_coords.start,
        coords_end: run.normalized_coords.end,
        path_tags: run.stream_offsets.path_tags,
        path_data: run.stream_offsets.path_data,
        transforms: run.stream_offsets.transforms,
        styles: run.stream_offsets.styles,
        bolder_x: run.font_embolden.amount.xx.to_bits(),
        bolder_y: run.font_embolden.amount.yy.to_bits(),
        bolder_join: run.font_embolden.join as u32,
        bolder_tolerance: run.font_embolden.tolerance.to_bits(),
    }).collect()
}

/// Whether the draw info of a run of draw tags fits in a word.
pub(crate) fn info_fits(tags: &[u32]) -> (fits: bool)
    ensures
        fits == (draw_info(tags@) <= u32::MAX),
{
    let mut sum: u64 = 0;
    let mut i: usize = 0;
    while i < tags.len()
        invariant
            i <= tags.len(),
            sum == draw_info(tags@.take(i as int)),
            sum <= u32::MAX,
        decreases tags.len() - i,
    {
        proof {
            lemma_draw_step(tags@, i as int);
            lemma_draw_monotone(tags@, i + 1, tags.len() as int);
            assert(tags@.take(tags.len() as int) =~= tags@);
        }
        sum = sum + draw_info_size(tags[i]) as u64;
        if sum > 0xffff_ffff {
            return false;
        }
        i += 1;
    }
    assert(tags@.take(tags.len() as int) =~= tags@);
    true
}

/// Whether the packed streams of an encoding fit in memory.
fn packed_len_fits(sizes: EncodedSizes, draw_tags: usize, Ghost(scene): Ghost<EncodedScene>) -> (
fits: bool)
    requires
        sizes.are_of(scene),
        draw_tags == scene.draw_tags.len(),
    ensures
        fits == (scene.packed_len() <= usize::MAX / 2),
{
    let open: u128 = sizes.n_open_clips as u128;
    let path_tags: u128 = (sizes.path_tags as u128 + open + 1023) / 1024 * 1024;
    let words: u128 = sizes.path_data as u128 + draw_tags as u128 + open + sizes.draw_data as u128;
    let rest: u128 = 24 * (sizes.transforms as u128) + 8 * (sizes.styles as u128);
    path_tags + 4 * words + rest <= (usize::MAX / 2) as u128
}

/// Whether the round corners of bolder outlines have no number of pieces that fits in
/// memory.
fn corners_are_too_large(run: GlyphRunPlace) -> (too_large: bool)
    ensures
        too_large == run.corners_overflow(),
{
    if run.glyphs_start >= run.glyphs_end || run.bolder_join != 2 {
        return false;
    }
    let x = f64_parts(run.bolder_x);
    let y = f64_parts(run.bolder_y);
    let tolerance = f64_parts(run.bolder_tolerance);
    if f64_nan(run.bolder_x) || f64_nan(run.bolder_y) || x.significand == 0 {
        return false;
    }
    if tolerance.is_special || tolerance.is_negative && tolerance.significand > 0 {
        return false;
    }
    if x.is_special {
        return !y.is_special && y.significand > 0;
    }
    let exponent: u32 = 6 * (usize::BITS - 5);
    y.is_special || f64_at_least(x, exponent, tolerance) || f64_at_least(y, exponent, tolerance)
}

/// Whether a glyph run only refers to what an encoding holds, and can be outlined.
fn glyph_run_fits(sizes: EncodedSizes, run: GlyphRunPlace, Ghost(scene): Ghost<EncodedScene>) -> (
fits: bool)
    requires
        sizes.are_of(scene),
    ensures
        fits == scene.run_in_bounds(run),
{
    run.glyphs_start <= run.glyphs_end && run.glyphs_end <= sizes.glyphs && run.coords_start
        <= run.coords_end && run.coords_end <= sizes.normalized_coords && run.path_tags
        <= sizes.path_tags && run.path_data <= sizes.path_data && run.transforms
        <= sizes.transforms && run.styles <= sizes.styles && !corners_are_too_large(run)
}

/// Whether a resource only refers to what an encoding holds, and only changes draw
/// data from `end` on.
fn patch_fits(
    sizes: EncodedSizes,
    runs: &[GlyphRunPlace],
    patch: LateBound,
    end: usize,
    Ghost(scene): Ghost<EncodedScene>,
) -> (fits: bool)
    requires
        sizes.are_of(scene),
        runs@ == scene.glyph_runs,
    ensures
        fits == scene.patch_in_bounds(patch, end as int),
{
    match patch {
        LateBound::Ramp { offset, stops_start, stops_end, .. } => end <= offset && offset
            < sizes.draw_data && stops_start < stops_end && stops_end <= sizes.color_stops,
        LateBound::Image { offset } => end <= offset && offset < sizes.draw_data && offset + 1
            < sizes.draw_data,
        LateBound::GlyphRun { index } => index < runs.len() && glyph_run_fits(
            sizes,
            runs[index],
            Ghost(scene),
        ),
    }
}

/// What one resource more changes.
proof fn lemma_patch_step(scene: EncodedScene, k: int)
    requires
        0 <= k < scene.patches.len(),
    ensures
        patched_end(scene.patches.take(k + 1)) == match scene.patches[k] {
            LateBound::Ramp { offset, .. } => offset + 1,
            LateBound::Image { offset } => offset + 2,
            LateBound::GlyphRun { .. } => patched_end(scene.patches.take(k)),
        },
        run_count(scene.patches.take(k + 1)) == run_count(scene.patches.take(k))
            + if scene.patches[k] is GlyphRun {
            1nat
        } else {
            0
        },
        scene.patches_in_bounds(k + 1) == (scene.patches_in_bounds(k) && scene.patch_in_bounds(
            scene.patches[k],
            patched_end(scene.patches.take(k)),
        )),
{
    assert(scene.patches.take(k + 1).drop_last() =~= scene.patches.take(k));
    assert(scene.patches.take(k + 1).last() == scene.patches[k]);
}

/// Whether an encoding can be resolved.
pub fn is_well_built(encoding: &vello_encoding::Encoding) -> (built: bool)
    ensures
        built == encoded(*encoding).well_built(),
{
    let ghost scene = encoded(*encoding);
    let sizes = encoded_sizes(encoding);
    let draw_tags = encoded_draw_tags(encoding);
    let patches = encoded_patches(encoding);
    let runs = encoded_glyph_runs(encoding);
    if !info_fits(draw_tags.as_slice()) || !packed_len_fits(sizes, draw_tags.len(), Ghost(scene)) {
        return false;
    }
    let mut end: usize = 0;
    let mut paths: u128 = sizes.n_paths as u128;
    let mut k: usize = 0;
    while k < patches.len()
        invariant
            k <= patches@.len(),
            scene == encoded(*encoding),
            sizes.are_of(scene),
            patches@ == scene.patches,
            runs@ == scene.glyph_runs,
            draw_info(scene.draw_tags) <= u32::MAX,
            scene.packed_len() <= usize::MAX / 2,
            scene.patches_in_bounds(k as int),
            end == patched_end(scene.patches.take(k as int)),
            end <= sizes.draw_data,
            paths == scene.n_paths + run_count(scene.patches.take(k as int)),
            paths <= u32::MAX + k,
        decreases patches.len() - k,
    {
        let patch = patches[k];
        proof {
            lemma_patch_step(scene, k as int);
        }
        if !patch_fits(sizes, runs.as_slice(), patch, end, Ghost(scene)) {
            assert(!scene.patches_in_bounds(k + 1));
            return false;
        }
        match patch {
            LateBound::Ramp { offset, .. } => {
                end = offset + 1;
            },
            LateBound::Image { offset } => {
                end = offset + 2;
            },
            LateBound::GlyphRun { .. } => {
                paths = paths + 1;
            },
        }
        k += 1;
    }
    assert(scene.patches.take(k as int) =~= scene.patches);
    paths <= 0xffff_ffff
}

} // verus!
