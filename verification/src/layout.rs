//! Packed scenes: six streams in one buffer of bytes, and the layout that says
//! where each begins.
//!
//! Words are stored with their lowest byte first.

use vstd::prelude::*;
use vstd::slice::slice_subrange;

use crate::encoding::{Style, Transform};

verus! {

/// Layout of a packed scene. Stream positions are in words.
#[derive(Clone, Copy, Debug, PartialEq, Eq, Structural)]
pub struct Layout {
    /// Number of draw objects.
    pub n_draw_objects: u32,
    /// Number of paths.
    pub n_paths: u32,
    /// Number of clips.
    pub n_clips: u32,
    /// Start of binning data.
    pub bin_data_start: u32,
    /// Start of path tag stream.
    pub path_tag_base: u32,
    /// Start of path data stream.
    pub path_data_base: u32,
    /// Start of draw tag stream.
    pub draw_tag_base: u32,
    /// Start of draw data stream.
    pub draw_data_base: u32,
    /// Start of transform stream.
    pub transform_base: u32,
    /// Start of style stream.
    pub style_base: u32,
}

/// The layout of an empty scene.
pub open spec fn empty_layout() -> Layout {
    Layout {
        n_draw_objects: 0,
        n_paths: 0,
        n_clips: 0,
        bin_data_start: 0,
        path_tag_base: 0,
        path_data_base: 0,
        draw_tag_base: 0,
        draw_data_base: 0,
        transform_base: 0,
        style_base: 0,
    }
}

impl Default for Layout {
    fn default() -> (layout: Layout)
        ensures
            layout == empty_layout(),
    {
        Layout {
            n_draw_objects: 0,
            n_paths: 0,
            n_clips: 0,
            bin_data_start: 0,
            path_tag_base: 0,
            path_data_base: 0,
            draw_tag_base: 0,
            draw_data_base: 0,
            transform_base: 0,
            style_base: 0,
        }
    }
}

/// The streams of a scene.
#[verifier::ext_equal]
pub struct Streams {
    pub path_tags: Seq<u8>,
    pub path_data: Seq<u8>,
    pub draw_tags: Seq<u32>,
    pub draw_data: Seq<u32>,
    pub transforms: Seq<Transform>,
    pub styles: Seq<Style>,
}

impl Streams {
    /// The streams of an empty scene.
    pub open spec fn empty() -> Streams {
        Streams {
            path_tags: Seq::empty(),
            path_data: Seq::empty(),
            draw_tags: Seq::empty(),
            draw_data: Seq::empty(),
            transforms: Seq::empty(),
            styles: Seq::empty(),
        }
    }

    /// The streams of this scene followed by those of another.
    pub open spec fn join(self, other: Streams) -> Streams {
        Streams {
            path_tags: self.path_tags + other.path_tags,
            path_data: self.path_data + other.path_data,
            draw_tags: self.draw_tags + other.draw_tags,
            draw_data: self.draw_data + other.draw_data,
            transforms: self.transforms + other.transforms,
            styles: self.styles + other.styles,
        }
    }

    /// The streams as they can be read after packing: the path tags fill whole words.
    pub open spec fn padded(self) -> Streams {
        Streams { path_tags: pad_to_words(self.path_tags), ..self }
    }
}

// ---------------------------------------------------------------------------
// Words and bytes
// ---------------------------------------------------------------------------

/// The bytes of a word, lowest first.
pub open spec fn word_bytes(word: u32) -> Seq<u8> {
    seq![
        (word & 0xff) as u8,
        ((word >> 8) & 0xff) as u8,
        ((word >> 16) & 0xff) as u8,
        ((word >> 24) & 0xff) as u8,
    ]
}

/// The word at position `at` (in words) of a buffer.
pub open spec fn word_at(bytes: Seq<u8>, at: int) -> u32 {
    (bytes[4 * at] as u32) | ((bytes[4 * at + 1] as u32) << 8) | ((bytes[4 * at + 2] as u32) << 16)
        | ((bytes[4 * at + 3] as u32) << 24)
}

/// The bytes of a run of words.
pub open spec fn words_bytes(words: Seq<u32>) -> Seq<u8> {
    Seq::new(4 * words.len(), |i: int| word_bytes(words[i / 4])[i % 4])
}

/// `bytes`, with zeros up to a whole number of words.
pub open spec fn pad_to_words(bytes: Seq<u8>) -> Seq<u8> {
    bytes + Seq::new(((4 - bytes.len() % 4) % 4) as nat, |i: int| 0u8)
}

/// The words of a run of transforms, six each.
pub open spec fn transform_words(transforms: Seq<Transform>) -> Seq<u32> {
    Seq::new(6 * transforms.len(), |i: int| transform_word(transforms[i / 6], i % 6))
}

/// One of the six words of a transform.
pub open spec fn transform_word(transform: Transform, i: int) -> u32 {
    if i == 0 {
        transform.m00
    } else if i == 1 {
        transform.m10
    } else if i == 2 {
        transform.m01
    } else if i == 3 {
        transform.m11
    } else if i == 4 {
        transform.tx
    } else {
        transform.ty
    }
}

/// The words of a run of styles, two each.
pub open spec fn style_words(styles: Seq<Style>) -> Seq<u32> {
    Seq::new(
        2 * styles.len(),
        |i: int|
            if i % 2 == 0 {
                styles[i / 2].flags_and_miter_limit
            } else {
                styles[i / 2].line_width
            },
    )
}

/// A word is read back from the bytes it is stored as.
pub proof fn lemma_word_round_trip(bytes: Seq<u8>, at: int, word: u32)
    requires
        0 <= at,
        4 * at + 4 <= bytes.len(),
        bytes[4 * at] == word_bytes(word)[0],
        bytes[4 * at + 1] == word_bytes(word)[1],
        bytes[4 * at + 2] == word_bytes(word)[2],
        bytes[4 * at + 3] == word_bytes(word)[3],
    ensures
        word_at(bytes, at) == word,
{
    assert((((word & 0xff) as u8) as u32) | ((((word >> 8) & 0xff) as u8) as u32) << 8 | ((((word
        >> 16) & 0xff) as u8) as u32) << 16 | ((((word >> 24) & 0xff) as u8) as u32) << 24 == word)
        by (bit_vector);
}

/// A run of words is read back from the bytes it is stored as.
pub proof fn lemma_words_round_trip(bytes: Seq<u8>, start: int, words: Seq<u32>)
    requires
        0 <= start,
        bytes.len() >= 4 * start + 4 * words.len(),
        bytes.subrange(4 * start, 4 * start + 4 * words.len()) == words_bytes(words),
    ensures
        forall|i: int|
            0 <= i < words.len() ==> #[trigger] word_at(bytes, start + i) == words[i],
{
    let stored = words_bytes(words);
    assert forall|i: int| 0 <= i < words.len() implies #[trigger] word_at(bytes, start + i)
        == words[i] by {
        let at = 4 * start;
        let section = bytes.subrange(at, at + 4 * words.len());
        assert(section[4 * i] == stored[4 * i]);
        assert(section[4 * i + 1] == stored[4 * i + 1]);
        assert(section[4 * i + 2] == stored[4 * i + 2]);
        assert(section[4 * i + 3] == stored[4 * i + 3]);
        lemma_word_round_trip(bytes, start + i, words[i]);
    }
}

// ---------------------------------------------------------------------------
// Reading streams
// ---------------------------------------------------------------------------

impl Layout {
    /// Whether the streams can be read from a buffer of `len` bytes: they lie in
    /// it in order, and the last two hold whole transforms and styles.
    pub open spec fn readable(self, len: nat) -> bool {
        &&& self.path_tag_base <= self.path_data_base <= self.draw_tag_base <= self.draw_data_base
            <= self.transform_base <= self.style_base
        &&& 4 * self.style_base <= len
        &&& (self.style_base - self.transform_base) % 6 == 0
        &&& (len - 4 * self.style_base) % 8 == 0
    }

    /// Whether the draw tags lie in a buffer of `len` bytes.
    pub open spec fn has_draw_tags(self, len: nat) -> bool {
        self.draw_tag_base <= self.draw_data_base && 4 * self.draw_data_base <= len
    }

    /// Whether the draw data lie in a buffer of `len` bytes.
    pub open spec fn has_draw_data(self, len: nat) -> bool {
        self.draw_data_base <= self.transform_base && 4 * self.transform_base <= len
    }

    /// The streams of a packed scene.
    pub open spec fn streams(self, packed: Seq<u8>) -> Streams {
        Streams {
            path_tags: packed.subrange(4 * self.path_tag_base, 4 * self.path_data_base),
            path_data: packed.subrange(4 * self.path_data_base, 4 * self.draw_tag_base),
            draw_tags: Seq::new(
                (self.draw_data_base - self.draw_tag_base) as nat,
                |i: int| word_at(packed, self.draw_tag_base + i),
            ),
            draw_data: Seq::new(
                (self.transform_base - self.draw_data_base) as nat,
                |i: int| word_at(packed, self.draw_data_base + i),
            ),
            transforms: Seq::new(
                ((self.style_base - self.transform_base) / 6) as nat,
                |i: int|
                    Transform {
                        m00: word_at(packed, self.transform_base + 6 * i),
                        m10: word_at(packed, self.transform_base + 6 * i + 1),
                        m01: word_at(packed, self.transform_base + 6 * i + 2),
                        m11: word_at(packed, self.transform_base + 6 * i + 3),
                        tx: word_at(packed, self.transform_base + 6 * i + 4),
                        ty: word_at(packed, self.transform_base + 6 * i + 5),
                    },
            ),
            styles: Seq::new(
                ((packed.len() - 4 * self.style_base) / 8) as nat,
                |i: int|
                    Style {
                        flags_and_miter_limit: word_at(packed, self.style_base + 2 * i),
                        line_width: word_at(packed, self.style_base + 2 * i + 1),
                    },
            ),
        }
    }

    /// The path tag stream.
    pub fn path_tags<'a>(&self, packed: &'a [u8]) -> (tags: &'a [u8])
        requires
            self.readable(packed@.len()),
        ensures
            tags@ == self.streams(packed@).path_tags,
    {
        assert(packed.len() <= usize::MAX);
        slice_subrange(packed, self.path_tag_base as usize * 4, self.path_data_base as usize * 4)
    }

    /// The path data stream.
    pub fn path_data<'a>(&self, packed: &'a [u8]) -> (data: &'a [u8])
        requires
            self.readable(packed@.len()),
        ensures
            data@ == self.streams(packed@).path_data,
    {
        assert(packed.len() <= usize::MAX);
        slice_subrange(packed, self.path_data_base as usize * 4, self.draw_tag_base as usize * 4)
    }

    /// The draw tag stream.
    pub fn draw_tags(&self, packed: &[u8]) -> (tags: Vec<u32>)
        requires
            self.has_draw_tags(packed@.len()),
        ensures
            tags@ == self.streams(packed@).draw_tags,
    {
        assert(packed.len() <= usize::MAX);
        let tags = read_words(packed, self.draw_tag_base as usize, self.draw_data_base as usize);
        assert(tags@ =~= self.streams(packed@).draw_tags);
        tags
    }

    /// The draw data stream.
    pub fn draw_data(&self, packed: &[u8]) -> (data: Vec<u32>)
        requires
            self.has_draw_data(packed@.len()),
        ensures
            data@ == self.streams(packed@).draw_data,
    {
        assert(packed.len() <= usize::MAX);
        let data = read_words(packed, self.draw_data_base as usize, self.transform_base as usize);
        assert(data@ =~= self.streams(packed@).draw_data);
        data
    }

    /// The transform stream.
    pub fn transforms(&self, packed: &[u8]) -> (transforms: Vec<Transform>)
        requires
            self.readable(packed@.len()),
        ensures
            transforms@ == self.streams(packed@).transforms,
    {
        assert(packed.len() <= usize::MAX);
        let mut transforms: Vec<Transform> = Vec::new();
        let mut at: usize = self.transform_base as usize;
        let end: usize = self.style_base as usize;
        let ghost all = self.streams(packed@).transforms;
        while at < end
            invariant
                self.readable(packed@.len()),
                end == self.style_base,
                4 * end <= packed@.len() <= usize::MAX,
                at == self.transform_base + 6 * transforms.len(),
                at <= end,
                (end - at) % 6 == 0,
                all == self.streams(packed@).transforms,
                transforms.len() <= all.len(),
                forall|k: int| 0 <= k < transforms.len() ==> #[trigger] transforms[k] == all[k],
            decreases end - at,
        {
            let transform = Transform {
                m00: read_word(packed, at),
                m10: read_word(packed, at + 1),
                m01: read_word(packed, at + 2),
                m11: read_word(packed, at + 3),
                tx: read_word(packed, at + 4),
                ty: read_word(packed, at + 5),
            };
            transforms.push(transform);
            at = at + 6;
        }
        assert(transforms@ =~= all);
        transforms
    }

    /// The style stream.
    pub fn styles(&self, packed: &[u8]) -> (styles: Vec<Style>)
        requires
            self.readable(packed@.len()),
        ensures
            styles@ == self.streams(packed@).styles,
    {
        let mut styles: Vec<Style> = Vec::new();
        let mut at: usize = self.style_base as usize;
        let end: usize = packed.len() / 4;
        let ghost all = self.streams(packed@).styles;
        while at < end
            invariant
                self.readable(packed@.len()),
                end == packed@.len() / 4,
                packed@.len() <= usize::MAX,
                at == self.style_base + 2 * styles.len(),
                at <= end,
                (end - at) % 2 == 0,
                all == self.streams(packed@).styles,
                styles.len() <= all.len(),
                forall|k: int| 0 <= k < styles.len() ==> #[trigger] styles[k] == all[k],
            decreases end - at,
        {
            let style = Style {
                flags_and_miter_limit: read_word(packed, at),
                line_width: read_word(packed, at + 1),
            };
            styles.push(style);
            at = at + 2;
        }
        assert(styles@ =~= all);
        styles
    }
}

/// The word at position `at` (in words) of a buffer.
fn read_word(packed: &[u8], at: usize) -> (word: u32)
    requires
        4 * at + 4 <= packed@.len(),
    ensures
        word == word_at(packed@, at as int),
{
    assert(packed.len() <= usize::MAX);
    (packed[4 * at] as u32) | ((packed[4 * at + 1] as u32) << 8) | ((packed[4 * at + 2] as u32)
        << 16) | ((packed[4 * at + 3] as u32) << 24)
}

/// The words of a buffer from `start` to `end`.
fn read_words(packed: &[u8], start: usize, end: usize) -> (words: Vec<u32>)
    requires
        start <= end,
        4 * end <= packed@.len(),
    ensures
        words.len() == end - start,
        forall|i: int|
            0 <= i < words.len() ==> #[trigger] words[i] == word_at(packed@, start + i),
{
    assert(packed.len() <= usize::MAX);
    let mut words: Vec<u32> = Vec::new();
    let mut at: usize = start;
    while at < end
        invariant
            start <= at <= end,
            4 * end <= packed@.len() <= usize::MAX,
            words.len() == at - start,
            forall|i: int|
                0 <= i < words.len() ==> #[trigger] words[i] == word_at(packed@, start + i),
        decreases end - at,
    {
        words.push(read_word(packed, at));
        at += 1;
    }
    words
}

// ---------------------------------------------------------------------------
// Writing streams
// ---------------------------------------------------------------------------

/// The bytes of packed streams.
pub open spec fn packed_bytes(streams: Streams) -> Seq<u8> {
    pad_to_words(streams.path_tags) + streams.path_data + words_bytes(streams.draw_tags)
        + words_bytes(streams.draw_data) + words_bytes(transform_words(streams.transforms))
        + words_bytes(style_words(streams.styles))
}

/// The layout of packed streams with the given counts. Positions count whole
/// words, in 32 bits.
pub open spec fn packed_layout(
    streams: Streams,
    n_draw_objects: u32,
    n_paths: u32,
    n_clips: u32,
    bin_data_start: u32,
) -> Layout {
    let path_data = pad_to_words(streams.path_tags).len();
    let draw_tags = path_data + streams.path_data.len();
    let draw_data = draw_tags + 4 * streams.draw_tags.len();
    let transforms = draw_data + 4 * streams.draw_data.len();
    let styles = transforms + 24 * streams.transforms.len();
    Layout {
        n_draw_objects,
        n_paths,
        n_clips,
        bin_data_start,
        path_tag_base: 0,
        path_data_base: (path_data / 4) as u32,
        draw_tag_base: (draw_tags / 4) as u32,
        draw_data_base: (draw_data / 4) as u32,
        transform_base: (transforms / 4) as u32,
        style_base: (styles / 4) as u32,
    }
}

/// Whether packed streams can be read back: the path data fills whole words,
/// and all positions fit in 32 bits.
pub open spec fn streams_fit(streams: Streams) -> bool {
    &&& streams.path_data.len() % 4 == 0
    &&& packed_bytes(streams).len() / 4 <= u32::MAX
}

/// Each of six runs of bytes in a row is found where the ones before it end.
proof fn lemma_sections(
    a: Seq<u8>,
    b: Seq<u8>,
    c: Seq<u8>,
    d: Seq<u8>,
    e: Seq<u8>,
    f: Seq<u8>,
)
    ensures
        ({
            let all = a + b + c + d + e + f;
            let nb = a.len() + b.len();
            let nc = nb + c.len();
            let nd = nc + d.len();
            let ne = nd + e.len();
            &&& all.len() == ne + f.len()
            &&& all.subrange(0, a.len() as int) == a
            &&& all.subrange(a.len() as int, nb as int) == b
            &&& all.subrange(nb as int, nc as int) == c
            &&& all.subrange(nc as int, nd as int) == d
            &&& all.subrange(nd as int, ne as int) == e
            &&& all.subrange(ne as int, (ne + f.len()) as int) == f
        }),
{
    let all = a + b + c + d + e + f;
    let nb = a.len() + b.len();
    let nc = nb + c.len();
    let nd = nc + d.len();
    let ne = nd + e.len();
    assert(all.subrange(0, a.len() as int) =~= a);
    assert(all.subrange(a.len() as int, nb as int) =~= b);
    assert(all.subrange(nb as int, nc as int) =~= c);
    assert(all.subrange(nc as int, nd as int) =~= d);
    assert(all.subrange(nd as int, ne as int) =~= e);
    assert(all.subrange(ne as int, (ne + f.len()) as int) =~= f);
}

/// Transforms are read back from the words they are stored as.
proof fn lemma_transforms_round_trip(packed: Seq<u8>, base: int, transforms: Seq<Transform>)
    requires
        0 <= base,
        packed.len() >= 4 * base + 24 * transforms.len(),
        packed.subrange(4 * base, 4 * base + 24 * transforms.len()) == words_bytes(
            transform_words(transforms),
        ),
    ensures
        forall|i: int|
            0 <= i < transforms.len() ==> #[trigger] transforms[i] == (Transform {
                m00: word_at(packed, base + 6 * i),
                m10: word_at(packed, base + 6 * i + 1),
                m01: word_at(packed, base + 6 * i + 2),
                m11: word_at(packed, base + 6 * i + 3),
                tx: word_at(packed, base + 6 * i + 4),
                ty: word_at(packed, base + 6 * i + 5),
            }),
{
    let words = transform_words(transforms);
    lemma_words_round_trip(packed, base, words);
    assert forall|i: int| 0 <= i < transforms.len() implies #[trigger] transforms[i] == (Transform {
        m00: word_at(packed, base + 6 * i),
        m10: word_at(packed, base + 6 * i + 1),
        m01: word_at(packed, base + 6 * i + 2),
        m11: word_at(packed, base + 6 * i + 3),
        tx: word_at(packed, base + 6 * i + 4),
        ty: word_at(packed, base + 6 * i + 5),
    }) by {
        assert(word_at(packed, base + 6 * i) == words[6 * i]);
        assert(word_at(packed, base + (6 * i + 1)) == words[6 * i + 1]);
        assert(word_at(packed, base + (6 * i + 2)) == words[6 * i + 2]);
        assert(word_at(packed, base + (6 * i + 3)) == words[6 * i + 3]);
        assert(word_at(packed, base + (6 * i + 4)) == words[6 * i + 4]);
        assert(word_at(packed, base + (6 * i + 5)) == words[6 * i + 5]);
    }
}

/// Styles are read back from the words they are stored as.
proof fn lemma_styles_round_trip(packed: Seq<u8>, base: int, styles: Seq<Style>)
    requires
        0 <= base,
        packed.len() >= 4 * base + 8 * styles.len(),
        packed.subrange(4 * base, 4 * base + 8 * styles.len()) == words_bytes(style_words(styles)),
    ensures
        forall|i: int|
            0 <= i < styles.len() ==> #[trigger] styles[i] == (Style {
                flags_and_miter_limit: word_at(packed, base + 2 * i),
                line_width: word_at(packed, base + 2 * i + 1),
            }),
{
    let words = style_words(styles);
    lemma_words_round_trip(packed, base, words);
    assert forall|i: int| 0 <= i < styles.len() implies #[trigger] styles[i] == (Style {
        flags_and_miter_limit: word_at(packed, base + 2 * i),
        line_width: word_at(packed, base + 2 * i + 1),
    }) by {
        assert(word_at(packed, base + 2 * i) == words[2 * i]);
        assert(word_at(packed, base + (2 * i + 1)) == words[2 * i + 1]);
    }
}

/// Whole numbers of words, transforms and styles keep positions at whole words.
proof fn lemma_positions(na: nat, path_data: nat, tags: nat, data: nat, transforms: nat, styles: nat)
    requires
        na % 4 == 0,
        path_data % 4 == 0,
        (na + path_data + 4 * tags + 4 * data + 24 * transforms + 8 * styles) / 4 <= u32::MAX,
    ensures
        ({
            let nb = na + path_data;
            let nc = nb + 4 * tags;
            let nd = nc + 4 * data;
            let ne = nd + 24 * transforms;
            &&& 4 * ((na / 4) as u32) == na
            &&& 4 * ((nb / 4) as u32) == nb
            &&& 4 * ((nc / 4) as u32) == nc
            &&& 4 * ((nd / 4) as u32) == nd
            &&& 4 * ((ne / 4) as u32) == ne
            &&& ((ne / 4) as u32 - (nd / 4) as u32) % 6 == 0
            &&& (8 * styles) % 8 == 0
        }),
{
    let nb = na + path_data;
    let nc = nb + 4 * tags;
    let nd = nc + 4 * data;
    let ne = nd + 24 * transforms;
    assert(nb % 4 == 0);
    assert(nc % 4 == 0);
    assert(nd % 4 == 0);
    assert(ne % 4 == 0);
    assert(ne / 4 - nd / 4 == 6 * transforms);
}

/// The positions of packed streams that can be read back.
proof fn lemma_packed_positions(
    streams: Streams,
    n_draw_objects: u32,
    n_paths: u32,
    n_clips: u32,
    bin_data_start: u32,
)
    requires
        streams_fit(streams),
    ensures
        ({
            let layout = packed_layout(streams, n_draw_objects, n_paths, n_clips, bin_data_start);
            let na = pad_to_words(streams.path_tags).len();
            let nb = na + streams.path_data.len();
            let nc = nb + 4 * streams.draw_tags.len();
            let nd = nc + 4 * streams.draw_data.len();
            let ne = nd + 24 * streams.transforms.len();
            let nf = ne + 8 * streams.styles.len();
            &&& 4 * layout.path_data_base == na
            &&& 4 * layout.draw_tag_base == nb
            &&& 4 * layout.draw_data_base == nc
            &&& 4 * layout.transform_base == nd
            &&& 4 * layout.style_base == ne
            &&& packed_bytes(streams).len() == nf
            &&& layout.readable(nf)
        }),
{
    let na = pad_to_words(streams.path_tags).len();
    let nf = na + streams.path_data.len() + 4 * streams.draw_tags.len() + 4
        * streams.draw_data.len() + 24 * streams.transforms.len() + 8 * streams.styles.len();
    assert(na % 4 == 0);
    assert(packed_bytes(streams).len() == nf);
    lemma_positions(
        na,
        streams.path_data.len(),
        streams.draw_tags.len(),
        streams.draw_data.len(),
        streams.transforms.len(),
        streams.styles.len(),
    );
}

/// Streams are read back from the buffer that they were packed into; only the
/// path tags come with zeros up to a whole number of words.
pub proof fn lemma_pack_round_trip(
    streams: Streams,
    n_draw_objects: u32,
    n_paths: u32,
    n_clips: u32,
    bin_data_start: u32,
)
    requires
        streams_fit(streams),
    ensures
        ({
            let packed = packed_bytes(streams);
            let layout = packed_layout(streams, n_draw_objects, n_paths, n_clips, bin_data_start);
            &&& layout.readable(packed.len())
            &&& layout.streams(packed) == streams.padded()
        }),
{
    let packed = packed_bytes(streams);
    let layout = packed_layout(streams, n_draw_objects, n_paths, n_clips, bin_data_start);
    lemma_packed_positions(streams, n_draw_objects, n_paths, n_clips, bin_data_start);
    lemma_sections(
        pad_to_words(streams.path_tags),
        streams.path_data,
        words_bytes(streams.draw_tags),
        words_bytes(streams.draw_data),
        words_bytes(transform_words(streams.transforms)),
        words_bytes(style_words(streams.styles)),
    );
    lemma_words_round_trip(packed, layout.draw_tag_base as int, streams.draw_tags);
    lemma_words_round_trip(packed, layout.draw_data_base as int, streams.draw_data);
    lemma_transforms_round_trip(packed, layout.transform_base as int, streams.transforms);
    lemma_styles_round_trip(packed, layout.style_base as int, streams.styles);
    let read = layout.streams(packed);
    assert(read.draw_tags =~= streams.draw_tags);
    assert(read.draw_data =~= streams.draw_data);
    assert(read.transforms =~= streams.transforms);
    assert(read.styles =~= streams.styles);
    assert(read =~= streams.padded());
}

/// The bytes of a run that grows by one word.
proof fn lemma_words_bytes_push(words: Seq<u32>, word: u32)
    ensures
        words_bytes(words.push(word)) == words_bytes(words) + word_bytes(word),
{
    assert(words_bytes(words.push(word)) =~= words_bytes(words) + word_bytes(word));
}

/// Appends a word to a buffer.
pub fn write_word(packed: &mut Vec<u8>, word: u32)
    ensures
        final(packed)@ == old(packed)@ + word_bytes(word),
{
    packed.push((word & 0xff) as u8);
    packed.push(((word >> 8) & 0xff) as u8);
    packed.push(((word >> 16) & 0xff) as u8);
    packed.push(((word >> 24) & 0xff) as u8);
    assert(packed@ =~= old(packed)@ + word_bytes(word));
}

/// Appends a run of words to a buffer.
pub fn write_words(packed: &mut Vec<u8>, words: &[u32])
    ensures
        final(packed)@ == old(packed)@ + words_bytes(words@),
{
    let ghost before = packed@;
    let mut i: usize = 0;
    assert(packed@ =~= before + words_bytes(words@.take(0)));
    while i < words.len()
        invariant
            i <= words.len(),
            packed@ == before + words_bytes(words@.take(i as int)),
        decreases words.len() - i,
    {
        write_word(packed, words[i]);
        proof {
            lemma_words_bytes_push(words@.take(i as int), words@[i as int]);
            assert(words@.take(i + 1) =~= words@.take(i as int).push(words@[i as int]));
            assert(packed@ =~= before + words_bytes(words@.take(i + 1)));
        }
        i += 1;
    }
    assert(words@.take(words.len() as int) =~= words@);
}

/// Appends a run of bytes to a buffer.
pub fn write_bytes(packed: &mut Vec<u8>, bytes: &[u8])
    ensures
        final(packed)@ == old(packed)@ + bytes@,
{
    packed.extend_from_slice(bytes);
    assert(packed@ =~= old(packed)@ + bytes@);
}

/// Appends a run of transforms to a buffer.
fn write_transforms(packed: &mut Vec<u8>, transforms: &[Transform])
    ensures
        final(packed)@ == old(packed)@ + words_bytes(transform_words(transforms@)),
{
    let mut words: Vec<u32> = Vec::new();
    let mut i: usize = 0;
    while i < transforms.len()
        invariant
            i <= transforms.len(),
            words.len() == 6 * i,
            forall|k: int|
                0 <= k < words.len() ==> #[trigger] words[k] == transform_words(transforms@)[k],
        decreases transforms.len() - i,
    {
        let transform = transforms[i];
        words.push(transform.m00);
        words.push(transform.m10);
        words.push(transform.m01);
        words.push(transform.m11);
        words.push(transform.tx);
        words.push(transform.ty);
        i += 1;
    }
    assert(words@ =~= transform_words(transforms@));
    write_words(packed, words.as_slice());
}

/// Appends a run of styles to a buffer.
fn write_styles(packed: &mut Vec<u8>, styles: &[Style])
    ensures
        final(packed)@ == old(packed)@ + words_bytes(style_words(styles@)),
{
    let mut words: Vec<u32> = Vec::new();
    let mut i: usize = 0;
    while i < styles.len()
        invariant
            i <= styles.len(),
            words.len() == 2 * i,
            forall|k: int| 0 <= k < words.len() ==> #[trigger] words[k] == style_words(styles@)[k],
        decreases styles.len() - i,
    {
        let style = styles[i];
        words.push(style.flags_and_miter_limit);
        words.push(style.line_width);
        i += 1;
    }
    assert(words@ =~= style_words(styles@));
    write_words(packed, words.as_slice());
}

/// The smallest multiple of `multiple` that is not below `value`.
pub open spec fn aligned_up(value: int, multiple: int) -> int {
    if multiple == 0 {
        value
    } else {
        (value + multiple - 1) / multiple * multiple
    }
}

/// The smallest multiple that is not below a value is a multiple, and less than one
/// step above the value.
pub proof fn lemma_aligned_up(value: int, multiple: int)
    requires
        0 <= value,
        0 < multiple,
    ensures
        aligned_up(value, multiple) % multiple == 0,
        value <= aligned_up(value, multiple) < value + multiple,
{
    let steps = (value + multiple - 1) / multiple;
    vstd::arithmetic::div_mod::lemma_fundamental_div_mod(value + multiple - 1, multiple);
    vstd::arithmetic::div_mod::lemma_mod_multiples_basic(steps, multiple);
    assert(multiple * steps == steps * multiple) by (nonlinear_arith);
}

/// The smallest multiple of `multiple` that is not below `value`, or `value`
/// where `multiple` is zero.
pub fn align_up_to(value: usize, multiple: usize) -> (aligned: usize)
    requires
        aligned_up(value as int, multiple as int) <= usize::MAX,
    ensures
        aligned == aligned_up(value as int, multiple as int),
{
    if multiple == 0 {
        return value;
    }
    let quotient: usize = value / multiple;
    let rest: usize = value % multiple;
    proof {
        let v = value as int;
        let m = multiple as int;
        vstd::arithmetic::div_mod::lemma_fundamental_div_mod(v, m);
        if rest == 0 {
            assert((v + m - 1) / m == v / m) by {
                vstd::arithmetic::div_mod::lemma_fundamental_div_mod_converse(
                    v + m - 1,
                    m,
                    v / m,
                    m - 1,
                );
            }
        } else {
            assert(m * (v / m + 1) == m * (v / m) + m) by (nonlinear_arith);
            vstd::arithmetic::div_mod::lemma_fundamental_div_mod_converse(
                v + m - 1,
                m,
                v / m + 1,
                rest as int - 1,
            );
        }
        vstd::arithmetic::mul::lemma_mul_is_commutative(m, v / m);
        vstd::arithmetic::mul::lemma_mul_is_commutative(m, v / m + 1);
        assert(quotient + 1 <= usize::MAX || rest == 0) by {
            if rest != 0 {
                assert(v / m + 1 <= (v / m + 1) * m) by (nonlinear_arith)
                    requires
                        m >= 1,
                        v / m >= 0,
                ;
            }
        }
    }
    if rest == 0 {
        quotient * multiple
    } else {
        (quotient + 1) * multiple
    }
}

/// Packs streams into one buffer, with the given counts in its layout.
pub fn pack_streams(
    path_tags: &[u8],
    path_data: &[u8],
    draw_tags: &[u32],
    draw_data: &[u32],
    transforms: &[Transform],
    styles: &[Style],
    counts: Layout,
) -> (result: (Layout, Vec<u8>))
    ensures
        ({
            let streams = Streams {
                path_tags: path_tags@,
                path_data: path_data@,
                draw_tags: draw_tags@,
                draw_data: draw_data@,
                transforms: transforms@,
                styles: styles@,
            };
            &&& result.0 == packed_layout(
                streams,
                counts.n_draw_objects,
                counts.n_paths,
                counts.n_clips,
                counts.bin_data_start,
            )
            &&& result.1@ == packed_bytes(streams)
        }),
{
    let ghost streams = Streams {
        path_tags: path_tags@,
        path_data: path_data@,
        draw_tags: draw_tags@,
        draw_data: draw_data@,
        transforms: transforms@,
        styles: styles@,
    };
    let mut packed: Vec<u8> = Vec::new();
    let mut layout = counts;
    layout.path_tag_base = 0;
    write_bytes(&mut packed, path_tags);
    assert(packed@ =~= path_tags@);
    let tail: usize = packed.len() % 4;
    let padding: usize = align_up_to(tail, 4) - tail;
    let mut i: usize = 0;
    while i < padding
        invariant
            i <= padding,
            packed@ == path_tags@ + Seq::new(i as nat, |k: int| 0u8),
        decreases padding - i,
    {
        packed.push(0);
        i += 1;
        assert(packed@ =~= path_tags@ + Seq::new(i as nat, |k: int| 0u8));
    }
    assert(packed@ =~= pad_to_words(path_tags@));
    layout.path_data_base = (packed.len() / 4) as u32;
    write_bytes(&mut packed, path_data);
    layout.draw_tag_base = (packed.len() / 4) as u32;
    write_words(&mut packed, draw_tags);
    layout.draw_data_base = (packed.len() / 4) as u32;
    write_words(&mut packed, draw_data);
    layout.transform_base = (packed.len() / 4) as u32;
    write_transforms(&mut packed, transforms);
    layout.style_base = (packed.len() / 4) as u32;
    write_styles(&mut packed, styles);
    (layout, packed)
}

} // verus!
