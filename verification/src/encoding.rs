//! The words of an encoded scene: draw tags, path tags, layer parameters, and
//! the counts that a run of tags adds up to.

use vstd::prelude::*;

verus! {

/// Draw tags: one word for each draw object.
pub struct DrawTag {}

impl DrawTag {
    /// No operation.
    pub const NOP: u32 = 0;

    /// Color fill.
    pub const COLOR: u32 = 0x44;

    /// Linear gradient fill.
    pub const LINEAR_GRADIENT: u32 = 0x114;

    /// Radial gradient fill.
    pub const RADIAL_GRADIENT: u32 = 0x29c;

    /// Sweep gradient fill.
    pub const SWEEP_GRADIENT: u32 = 0x254;

    /// Image fill.
    pub const IMAGE: u32 = 0x28c;

    /// Blurred rounded rectangle.
    pub const BLUR_RECT: u32 = 0x2d4;

    /// Backdrop blur: it has the sizes of a blurred rounded rectangle. The value is one
    /// of this library: `vello_encoding` has no such tag to hold it against.
    pub const BACKDROP_BLUR_RECT: u32 = 0x2f4;

    /// Begin layer or clip.
    pub const BEGIN_CLIP: u32 = 0x49;

    /// End layer or clip.
    pub const END_CLIP: u32 = 0x21;
}

/// Path tags: one byte for each element of a path.
pub struct PathTag {}

impl PathTag {
    /// Path marker: the end of a path.
    pub const PATH: u8 = 0x10;

    /// Transform marker: the path takes the next transform.
    pub const TRANSFORM: u8 = 0x20;

    /// Style marker: the path takes the next style.
    pub const STYLE: u8 = 0x40;
}

/// Parameters of a layer: its first word is the blend mode, its second the
/// binary32 pattern of the group alpha.
pub struct DrawBeginClip {}

impl DrawBeginClip {
    /// The blend mode of a luminance mask.
    pub const LUMINANCE_MASK_BLEND_MODE: u32 = 0x10000;

    /// The blend mode of a layer that only clips.
    pub const CLIP_BLEND_MODE: u32 = 0x8003;

    /// The blend mode of normal mixing with source-over composition.
    pub const SRC_OVER_BLEND_MODE: u32 = 3;
}

/// An affine transformation: the binary32 patterns of its coefficients.
#[derive(Clone, Copy, Debug, PartialEq, Eq, Structural)]
pub struct Transform {
    /// First column of the matrix, upper entry.
    pub m00: u32,
    /// First column of the matrix, lower entry.
    pub m10: u32,
    /// Second column of the matrix, upper entry.
    pub m01: u32,
    /// Second column of the matrix, lower entry.
    pub m11: u32,
    /// Horizontal translation.
    pub tx: u32,
    /// Vertical translation.
    pub ty: u32,
}

impl Transform {
    /// The transformation that changes nothing.
    pub fn identity() -> (transform: Transform)
        ensures
            transform == (Transform { m00: 0x3f80_0000, m10: 0, m01: 0, m11: 0x3f80_0000, tx: 0, ty: 0 }),
    {
        Transform { m00: 0x3f80_0000, m10: 0, m01: 0, m11: 0x3f80_0000, tx: 0, ty: 0 }
    }
}

/// A fill or stroke style.
#[derive(Clone, Copy, Debug, PartialEq, Eq, Structural)]
pub struct Style {
    /// Flags and miter limit.
    pub flags_and_miter_limit: u32,
    /// The binary32 pattern of the line width.
    pub line_width: u32,
}

impl Default for Style {
    fn default() -> (style: Style)
        ensures
            style == (Style { flags_and_miter_limit: 0, line_width: 0 }),
    {
        Style { flags_and_miter_limit: 0, line_width: 0 }
    }
}

/// What a run of draw tags adds up to.
#[derive(Clone, Copy, Debug, PartialEq, Eq, Structural)]
pub struct DrawMonoid {
    /// Number of paths.
    pub path_ix: u32,
    /// Number of clip operations.
    pub clip_ix: u32,
    /// Words of draw data.
    pub scene_offset: u32,
    /// Words of draw info.
    pub info_offset: u32,
}

/// What a run of path tags adds up to.
#[derive(Clone, Copy, Debug, PartialEq, Eq, Structural)]
pub struct PathMonoid {
    /// Number of transforms.
    pub trans_ix: u32,
    /// Number of path segments.
    pub pathseg_ix: u32,
    /// Words of path data.
    pub pathseg_offset: u32,
    /// Words of styles.
    pub style_ix: u32,
    /// Number of paths.
    pub path_ix: u32,
}

/// The number of paths that a draw tag stands for.
pub open spec fn draw_tag_paths(tag: u32) -> nat {
    if tag != DrawTag::NOP {
        1
    } else {
        0
    }
}

/// The number of clip operations that a draw tag stands for.
pub open spec fn draw_tag_clips(tag: u32) -> nat {
    (tag & 1) as nat
}

/// The words of draw data that a draw tag takes.
pub open spec fn draw_tag_words(tag: u32) -> nat {
    ((tag >> 2) & 0x7) as nat
}

/// The words of draw info that a draw tag takes.
pub open spec fn draw_tag_info(tag: u32) -> nat {
    ((tag >> 6) & 0xf) as nat
}

/// The number of transforms that a path tag takes.
pub open spec fn path_tag_transforms(tag: u8) -> nat {
    if tag & 0x20 != 0 {
        1
    } else {
        0
    }
}

/// The number of segments that a path tag stands for.
pub open spec fn path_tag_segments(tag: u8) -> nat {
    if tag & 0x3 != 0 {
        1
    } else {
        0
    }
}

/// The words of path data that a path tag takes: one for each point that it
/// adds (the last point of a subpath is one more), or two where the points
/// are binary32 pairs.
pub open spec fn path_tag_words(tag: u8) -> nat {
    let points = ((tag & 0x3) + ((tag >> 2) & 0x1)) as nat;
    if tag & 0x8 != 0 {
        2 * points
    } else {
        points
    }
}

/// The words of styles that a path tag takes.
pub open spec fn path_tag_style_words(tag: u8) -> nat {
    if tag & 0x40 != 0 {
        2
    } else {
        0
    }
}

/// The number of paths that a path tag ends.
pub open spec fn path_tag_paths(tag: u8) -> nat {
    if tag & 0x10 != 0 {
        1
    } else {
        0
    }
}

/// The sum of `weight` over `tags`.
pub open spec fn total<T>(tags: Seq<T>, weight: spec_fn(T) -> nat) -> nat
    decreases tags.len(),
{
    if tags.len() == 0 {
        0
    } else {
        total(tags.drop_last(), weight) + weight(tags.last())
    }
}

/// The paths of a run of draw tags.
pub open spec fn draw_paths(tags: Seq<u32>) -> nat {
    total(tags, |tag: u32| draw_tag_paths(tag))
}

/// The clip operations of a run of draw tags.
pub open spec fn draw_clips(tags: Seq<u32>) -> nat {
    total(tags, |tag: u32| draw_tag_clips(tag))
}

/// The words of draw data of a run of draw tags.
pub open spec fn draw_words(tags: Seq<u32>) -> nat {
    total(tags, |tag: u32| draw_tag_words(tag))
}

/// The words of draw info of a run of draw tags.
pub open spec fn draw_info(tags: Seq<u32>) -> nat {
    total(tags, |tag: u32| draw_tag_info(tag))
}

/// The transforms of a run of path tags.
pub open spec fn path_transforms(tags: Seq<u8>) -> nat {
    total(tags, |tag: u8| path_tag_transforms(tag))
}

/// The segments of a run of path tags.
pub open spec fn path_segments(tags: Seq<u8>) -> nat {
    total(tags, |tag: u8| path_tag_segments(tag))
}

/// The words of path data of a run of path tags.
pub open spec fn path_words(tags: Seq<u8>) -> nat {
    total(tags, |tag: u8| path_tag_words(tag))
}

/// The words of styles of a run of path tags.
pub open spec fn path_style_words(tags: Seq<u8>) -> nat {
    total(tags, |tag: u8| path_tag_style_words(tag))
}

/// The paths that a run of path tags ends.
pub open spec fn path_ends(tags: Seq<u8>) -> nat {
    total(tags, |tag: u8| path_tag_paths(tag))
}

impl DrawMonoid {
    /// Whether this monoid holds the counts of `tags`.
    pub open spec fn counts(self, tags: Seq<u32>) -> bool {
        &&& self.path_ix == draw_paths(tags)
        &&& self.clip_ix == draw_clips(tags)
        &&& self.scene_offset == draw_words(tags)
        &&& self.info_offset == draw_info(tags)
    }
}

impl PathMonoid {
    /// Whether this monoid holds the counts of `tags`.
    pub open spec fn counts(self, tags: Seq<u8>) -> bool {
        &&& self.trans_ix == path_transforms(tags)
        &&& self.pathseg_ix == path_segments(tags)
        &&& self.pathseg_offset == path_words(tags)
        &&& self.style_ix == path_style_words(tags)
        &&& self.path_ix == path_ends(tags)
    }
}

/// Whether the counts of a run of draw tags fit in words.
pub open spec fn draw_counts_fit(tags: Seq<u32>) -> bool {
    &&& draw_paths(tags) <= u32::MAX
    &&& draw_clips(tags) <= u32::MAX
    &&& draw_words(tags) <= u32::MAX
    &&& draw_info(tags) <= u32::MAX
}

/// Whether the counts of a run of path tags fit in words.
pub open spec fn path_counts_fit(tags: Seq<u8>) -> bool {
    &&& path_transforms(tags) <= u32::MAX
    &&& path_segments(tags) <= u32::MAX
    &&& path_words(tags) <= u32::MAX
    &&& path_style_words(tags) <= u32::MAX
    &&& path_ends(tags) <= u32::MAX
}

/// The total over two runs in a row is the sum of their totals.
pub proof fn lemma_total_concat<T>(a: Seq<T>, b: Seq<T>, weight: spec_fn(T) -> nat)
    ensures
        total(a + b, weight) == total(a, weight) + total(b, weight),
    decreases b.len(),
{
    if b.len() == 0 {
        assert(a + b =~= a);
    } else {
        assert((a + b).drop_last() =~= a + b.drop_last());
        lemma_total_concat(a, b.drop_last(), weight);
    }
}

/// A longer prefix has at least the total of a shorter one.
pub proof fn lemma_total_monotone<T>(tags: Seq<T>, i: int, j: int, weight: spec_fn(T) -> nat)
    requires
        0 <= i <= j <= tags.len(),
    ensures
        total(tags.take(i), weight) <= total(tags.take(j), weight),
{
    assert(tags.take(j) =~= tags.take(i) + tags.subrange(i, j));
    lemma_total_concat(tags.take(i), tags.subrange(i, j), weight);
}

/// The total over one more tag.
pub proof fn lemma_total_step<T>(tags: Seq<T>, i: int, weight: spec_fn(T) -> nat)
    requires
        0 <= i < tags.len(),
    ensures
        total(tags.take(i + 1), weight) == total(tags.take(i), weight) + weight(tags[i]),
{
    assert(tags.take(i + 1).drop_last() =~= tags.take(i));
}

/// Calls `DrawMonoid::new` of vello_encoding: the monoid of one draw tag has a
/// path unless the tag is a no-op, a clip operation for bit 0 of the tag, the
/// words of draw data of bits 2 to 4, and the words of draw info of bits 6 to 9.
#[verifier::external_body]
fn draw_monoid_new(tag: u32) -> (monoid: DrawMonoid)
    ensures
        monoid.path_ix == draw_tag_paths(tag),
        monoid.clip_ix == draw_tag_clips(tag),
        monoid.scene_offset == draw_tag_words(tag),
        monoid.info_offset == draw_tag_info(tag),
{
    let m: vello_encoding::DrawMonoid = vello_encoding::Monoid::new(vello_encoding::DrawTag(tag));
    DrawMonoid {
        path_ix: m.path_ix,
        clip_ix: m.clip_ix,
        scene_offset: m.scene_offset,
        info_offset: m.info_offset,
    }
}

/// Calls `DrawMonoid::combine` of vello_encoding: it adds the two monoids field
/// by field. The sums have to fit, since the addition can panic.
#[verifier::external_body]
fn draw_monoid_combine(a: DrawMonoid, b: DrawMonoid) -> (sum: DrawMonoid)
    requires
        a.path_ix + b.path_ix <= u32::MAX,
        a.clip_ix + b.clip_ix <= u32::MAX,
        a.scene_offset + b.scene_offset <= u32::MAX,
        a.info_offset + b.info_offset <= u32::MAX,
    ensures
        sum.path_ix == a.path_ix + b.path_ix,
        sum.clip_ix == a.clip_ix + b.clip_ix,
        sum.scene_offset == a.scene_offset + b.scene_offset,
        sum.info_offset == a.info_offset + b.info_offset,
{
    let words = |m: DrawMonoid| [m.path_ix, m.clip_ix, m.scene_offset, m.info_offset];
    let x: vello_encoding::DrawMonoid = bytemuck::cast(words(a));
    let y: vello_encoding::DrawMonoid = bytemuck::cast(words(b));
    let m = vello_encoding::Monoid::combine(&x, &y);
    DrawMonoid {
        path_ix: m.path_ix,
        clip_ix: m.clip_ix,
        scene_offset: m.scene_offset,
        info_offset: m.info_offset,
    }
}

/// The four path tags of a word, the first in its lowest byte.
pub open spec fn word_path_tags(word: u32) -> Seq<u8> {
    seq![
        (word & 0xff) as u8,
        ((word >> 8) & 0xff) as u8,
        ((word >> 16) & 0xff) as u8,
        ((word >> 24) & 0xff) as u8,
    ]
}

/// Calls `PathMonoid::new` of vello_encoding: it reduces a word that packs four
/// path tags, the first in its lowest byte, to the counts of those tags.
#[verifier::external_body]
fn path_monoid_new(word: u32) -> (monoid: PathMonoid)
    ensures
        monoid.counts(word_path_tags(word)),
{
    let m: vello_encoding::PathMonoid = vello_encoding::Monoid::new(word);
    PathMonoid {
        trans_ix: m.trans_ix,
        pathseg_ix: m.pathseg_ix,
        pathseg_offset: m.pathseg_offset,
        style_ix: m.style_ix,
        path_ix: m.path_ix,
    }
}

/// Calls `PathMonoid::combine` of vello_encoding: it adds the two monoids field
/// by field. The sums have to fit, since the addition can panic.
#[verifier::external_body]
fn path_monoid_combine(a: PathMonoid, b: PathMonoid) -> (sum: PathMonoid)
    requires
        a.trans_ix + b.trans_ix <= u32::MAX,
        a.pathseg_ix + b.pathseg_ix <= u32::MAX,
        a.pathseg_offset + b.pathseg_offset <= u32::MAX,
        a.style_ix + b.style_ix <= u32::MAX,
        a.path_ix + b.path_ix <= u32::MAX,
    ensures
        sum.trans_ix == a.trans_ix + b.trans_ix,
        sum.pathseg_ix == a.pathseg_ix + b.pathseg_ix,
        sum.pathseg_offset == a.pathseg_offset + b.pathseg_offset,
        sum.style_ix == a.style_ix + b.style_ix,
        sum.path_ix == a.path_ix + b.path_ix,
{
    let words = |m: PathMonoid| [m.trans_ix, m.pathseg_ix, m.pathseg_offset, m.style_ix, m.path_ix];
    let x: vello_encoding::PathMonoid = bytemuck::cast(words(a));
    let y: vello_encoding::PathMonoid = bytemuck::cast(words(b));
    let m = vello_encoding::Monoid::combine(&x, &y);
    PathMonoid {
        trans_ix: m.trans_ix,
        pathseg_ix: m.pathseg_ix,
        pathseg_offset: m.pathseg_offset,
        style_ix: m.style_ix,
        path_ix: m.path_ix,
    }
}

/// Calls `DrawTag::info_size` of vello_encoding: the words of draw info of a
/// tag are its bits 6 to 9.
#[verifier::external_body]
fn info_size(tag: u32) -> (size: u32)
    ensures
        size == draw_tag_info(tag),
{
    vello_encoding::DrawTag(tag).info_size()
}

/// Calls `DrawBeginClip::new` of vello_encoding for normal mixing with
/// source-over composition: the blend mode has the mix in its second byte and
/// the composition in its first, and peniko numbers these two 0 and 3.
#[verifier::external_body]
fn src_over_parameters() -> (blend_mode: u32)
    ensures
        blend_mode == DrawBeginClip::SRC_OVER_BLEND_MODE,
{
    let mode = peniko::BlendMode::new(peniko::Mix::Normal, peniko::Compose::SrcOver);
    vello_encoding::DrawBeginClip::new(mode, Default::default()).blend_mode
}

/// The blend mode of a layer with normal mixing and source-over composition.
pub fn src_over_begin_clip_blend_mode() -> (blend_mode: u32)
    ensures
        blend_mode == DrawBeginClip::SRC_OVER_BLEND_MODE,
{
    src_over_parameters()
}

/// The words of draw data that a draw tag takes.
pub fn draw_data_size(tag: u32) -> (words: u32)
    ensures
        words == draw_tag_words(tag),
{
    draw_monoid_new(tag).scene_offset
}

/// The words of draw info that a draw tag takes.
pub fn draw_info_size(tag: u32) -> (words: u32)
    ensures
        words == draw_tag_info(tag),
{
    info_size(tag)
}

/// Whether the sums of two monoids fit in words.
fn draw_monoids_add_up(a: DrawMonoid, b: DrawMonoid) -> (fit: bool)
    ensures
        fit == (a.path_ix + b.path_ix <= u32::MAX && a.clip_ix + b.clip_ix <= u32::MAX
            && a.scene_offset + b.scene_offset <= u32::MAX && a.info_offset + b.info_offset
            <= u32::MAX),
{
    a.path_ix <= u32::MAX - b.path_ix && a.clip_ix <= u32::MAX - b.clip_ix && a.scene_offset
        <= u32::MAX - b.scene_offset && a.info_offset <= u32::MAX - b.info_offset
}

/// The counts of a run of draw tags, where they fit in words.
pub fn try_draw_prefix_monoid(tags: &[u32]) -> (monoid: Option<DrawMonoid>)
    ensures
        match monoid {
            Some(monoid) => draw_counts_fit(tags@) && monoid.counts(tags@),
            None => !draw_counts_fit(tags@),
        },
{
    let mut monoid = DrawMonoid { path_ix: 0, clip_ix: 0, scene_offset: 0, info_offset: 0 };
    let mut i: usize = 0;
    while i < tags.len()
        invariant
            i <= tags.len(),
            monoid.counts(tags@.take(i as int)),
        decreases tags.len() - i,
    {
        proof {
            lemma_draw_step(tags@, i as int);
            lemma_draw_monotone(tags@, i + 1, tags.len() as int);
            assert(tags@.take(tags.len() as int) =~= tags@);
        }
        let next = draw_monoid_new(tags[i]);
        if !draw_monoids_add_up(monoid, next) {
            return None;
        }
        monoid = draw_monoid_combine(monoid, next);
        i += 1;
    }
    assert(tags@.take(tags.len() as int) =~= tags@);
    Some(monoid)
}

/// The counts of a run of draw tags.
pub fn draw_prefix_monoid(tags: &[u32]) -> (monoid: DrawMonoid)
    requires
        draw_counts_fit(tags@),
    ensures
        monoid.counts(tags@),
{
    try_draw_prefix_monoid(tags).unwrap()
}

/// The words of draw info of a run of draw tags.
pub fn info_size_sum(tags: &[u32]) -> (sum: u32)
    requires
        draw_info(tags@) <= u32::MAX,
    ensures
        sum == draw_info(tags@),
{
    let mut sum: u32 = 0;
    let mut i: usize = 0;
    while i < tags.len()
        invariant
            i <= tags.len(),
            draw_info(tags@) <= u32::MAX,
            sum == draw_info(tags@.take(i as int)),
        decreases tags.len() - i,
    {
        proof {
            lemma_draw_step(tags@, i as int);
            lemma_draw_monotone(tags@, i + 1, tags.len() as int);
            assert(tags@.take(tags.len() as int) =~= tags@);
        }
        sum = sum + info_size(tags[i]);
        i += 1;
    }
    assert(tags@.take(tags.len() as int) =~= tags@);
    sum
}

/// The counts of a run of draw tags grow by those of the next tag.
pub proof fn lemma_draw_step(tags: Seq<u32>, i: int)
    requires
        0 <= i < tags.len(),
    ensures
        draw_paths(tags.take(i + 1)) == draw_paths(tags.take(i)) + draw_tag_paths(tags[i]),
        draw_clips(tags.take(i + 1)) == draw_clips(tags.take(i)) + draw_tag_clips(tags[i]),
        draw_words(tags.take(i + 1)) == draw_words(tags.take(i)) + draw_tag_words(tags[i]),
        draw_info(tags.take(i + 1)) == draw_info(tags.take(i)) + draw_tag_info(tags[i]),
{
    lemma_total_step(tags, i, |tag: u32| draw_tag_paths(tag));
    lemma_total_step(tags, i, |tag: u32| draw_tag_clips(tag));
    lemma_total_step(tags, i, |tag: u32| draw_tag_words(tag));
    lemma_total_step(tags, i, |tag: u32| draw_tag_info(tag));
}

/// The counts of a longer prefix of draw tags are at least those of a shorter one.
pub proof fn lemma_draw_monotone(tags: Seq<u32>, i: int, j: int)
    requires
        0 <= i <= j <= tags.len(),
    ensures
        draw_paths(tags.take(i)) <= draw_paths(tags.take(j)),
        draw_clips(tags.take(i)) <= draw_clips(tags.take(j)),
        draw_words(tags.take(i)) <= draw_words(tags.take(j)),
        draw_info(tags.take(i)) <= draw_info(tags.take(j)),
{
    lemma_total_monotone(tags, i, j, |tag: u32| draw_tag_paths(tag));
    lemma_total_monotone(tags, i, j, |tag: u32| draw_tag_clips(tag));
    lemma_total_monotone(tags, i, j, |tag: u32| draw_tag_words(tag));
    lemma_total_monotone(tags, i, j, |tag: u32| draw_tag_info(tag));
}

/// The counts of two runs of draw tags in a row are the sums of their counts.
pub proof fn lemma_draw_concat(a: Seq<u32>, b: Seq<u32>)
    ensures
        draw_paths(a + b) == draw_paths(a) + draw_paths(b),
        draw_clips(a + b) == draw_clips(a) + draw_clips(b),
        draw_words(a + b) == draw_words(a) + draw_words(b),
        draw_info(a + b) == draw_info(a) + draw_info(b),
{
    lemma_total_concat(a, b, |tag: u32| draw_tag_paths(tag));
    lemma_total_concat(a, b, |tag: u32| draw_tag_clips(tag));
    lemma_total_concat(a, b, |tag: u32| draw_tag_words(tag));
    lemma_total_concat(a, b, |tag: u32| draw_tag_info(tag));
}

/// The counts of two runs of path tags in a row are the sums of their counts.
pub proof fn lemma_path_concat(a: Seq<u8>, b: Seq<u8>)
    ensures
        path_transforms(a + b) == path_transforms(a) + path_transforms(b),
        path_segments(a + b) == path_segments(a) + path_segments(b),
        path_words(a + b) == path_words(a) + path_words(b),
        path_style_words(a + b) == path_style_words(a) + path_style_words(b),
        path_ends(a + b) == path_ends(a) + path_ends(b),
{
    lemma_total_concat(a, b, |tag: u8| path_tag_transforms(tag));
    lemma_total_concat(a, b, |tag: u8| path_tag_segments(tag));
    lemma_total_concat(a, b, |tag: u8| path_tag_words(tag));
    lemma_total_concat(a, b, |tag: u8| path_tag_style_words(tag));
    lemma_total_concat(a, b, |tag: u8| path_tag_paths(tag));
}

/// The counts of a longer prefix of path tags are at least those of a shorter one.
pub proof fn lemma_path_monotone(tags: Seq<u8>, i: int, j: int)
    requires
        0 <= i <= j <= tags.len(),
    ensures
        path_transforms(tags.take(i)) <= path_transforms(tags.take(j)),
        path_segments(tags.take(i)) <= path_segments(tags.take(j)),
        path_words(tags.take(i)) <= path_words(tags.take(j)),
        path_style_words(tags.take(i)) <= path_style_words(tags.take(j)),
        path_ends(tags.take(i)) <= path_ends(tags.take(j)),
{
    lemma_total_monotone(tags, i, j, |tag: u8| path_tag_transforms(tag));
    lemma_total_monotone(tags, i, j, |tag: u8| path_tag_segments(tag));
    lemma_total_monotone(tags, i, j, |tag: u8| path_tag_words(tag));
    lemma_total_monotone(tags, i, j, |tag: u8| path_tag_style_words(tag));
    lemma_total_monotone(tags, i, j, |tag: u8| path_tag_paths(tag));
}

/// A padding byte counts for nothing.
pub(crate) proof fn lemma_path_zero(n: nat)
    ensures
        path_transforms(Seq::new(n, |i: int| 0u8)) == 0,
        path_segments(Seq::new(n, |i: int| 0u8)) == 0,
        path_words(Seq::new(n, |i: int| 0u8)) == 0,
        path_style_words(Seq::new(n, |i: int| 0u8)) == 0,
        path_ends(Seq::new(n, |i: int| 0u8)) == 0,
    decreases n,
{
    assert(0u8 & 0x20 == 0 && 0u8 & 0x3 == 0 && (0u8 >> 2) & 0x1 == 0 && 0u8 & 0x40 == 0 && 0u8 & 0x10
        == 0 && 0u8 & 0x8 == 0) by (bit_vector);
    let zeros = Seq::new(n, |i: int| 0u8);
    if n > 0 {
        assert(zeros.drop_last() =~= Seq::new((n - 1) as nat, |i: int| 0u8));
        lemma_path_zero((n - 1) as nat);
    }
}

/// Whether the sums of two monoids fit in words.
fn path_monoids_add_up(a: PathMonoid, b: PathMonoid) -> (fit: bool)
    ensures
        fit == (a.trans_ix + b.trans_ix <= u32::MAX && a.pathseg_ix + b.pathseg_ix <= u32::MAX
            && a.pathseg_offset + b.pathseg_offset <= u32::MAX && a.style_ix + b.style_ix
            <= u32::MAX && a.path_ix + b.path_ix <= u32::MAX),
{
    a.trans_ix <= u32::MAX - b.trans_ix && a.pathseg_ix <= u32::MAX - b.pathseg_ix
        && a.pathseg_offset <= u32::MAX - b.pathseg_offset && a.style_ix <= u32::MAX - b.style_ix
        && a.path_ix <= u32::MAX - b.path_ix
}

/// The counts of a run of path tags, reduced four tags at a time, where they fit
/// in words.
pub fn try_pack_path_tags(tags: &[u8]) -> (monoid: Option<PathMonoid>)
    ensures
        match monoid {
            Some(monoid) => path_counts_fit(tags@) && monoid.counts(tags@),
            None => !path_counts_fit(tags@),
        },
{
    let mut monoid = PathMonoid {
        trans_ix: 0,
        pathseg_ix: 0,
        pathseg_offset: 0,
        style_ix: 0,
        path_ix: 0,
    };
    let mut start: usize = 0;
    while start < tags.len()
        invariant
            start <= tags.len(),
            monoid.counts(tags@.take(start as int)),
        decreases tags.len() - start,
    {
        let rest: usize = tags.len() - start;
        let t0: u8 = tags[start];
        let t1: u8 = if rest > 1 {
            tags[start + 1]
        } else {
            0
        };
        let t2: u8 = if rest > 2 {
            tags[start + 2]
        } else {
            0
        };
        let t3: u8 = if rest > 3 {
            tags[start + 3]
        } else {
            0
        };
        let word: u32 = (t0 as u32) | ((t1 as u32) << 8) | ((t2 as u32) << 16) | ((t3 as u32) << 24);
        let count: usize = if rest > 4 {
            4
        } else {
            rest
        };
        proof {
            assert({
                let word = (t0 as u32) | ((t1 as u32) << 8) | ((t2 as u32) << 16) | ((t3 as u32)
                    << 24);
                &&& (word & 0xff) as u8 == t0
                &&& ((word >> 8) & 0xff) as u8 == t1
                &&& ((word >> 16) & 0xff) as u8 == t2
                &&& ((word >> 24) & 0xff) as u8 == t3
            }) by (bit_vector);
            let chunk = tags@.subrange(start as int, start + count);
            let zeros = Seq::new((4 - count) as nat, |i: int| 0u8);
            assert(word_path_tags(word) =~= chunk + zeros);
            lemma_path_zero((4 - count) as nat);
            lemma_path_concat(chunk, zeros);
            assert(tags@.take(start + count) =~= tags@.take(start as int) + chunk);
            lemma_path_concat(tags@.take(start as int), chunk);
            lemma_path_monotone(tags@, start + count, tags.len() as int);
            assert(tags@.take(tags.len() as int) =~= tags@);
        }
        let next = path_monoid_new(word);
        if !path_monoids_add_up(monoid, next) {
            return None;
        }
        monoid = path_monoid_combine(monoid, next);
        start = start + count;
    }
    assert(tags@.take(tags.len() as int) =~= tags@);
    Some(monoid)
}

/// The counts of a run of path tags, reduced four tags at a time.
pub fn pack_path_tags(tags: &[u8]) -> (monoid: PathMonoid)
    requires
        path_counts_fit(tags@),
    ensures
        monoid.counts(tags@),
{
    try_pack_path_tags(tags).unwrap()
}

} // verus!
