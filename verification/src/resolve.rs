//! Resolved scenes: encodings with their gradients, images and glyphs bound.

use vstd::prelude::*;

use crate::coarse::Ramps;
use crate::encoded::is_well_built;
use crate::layout::{write_words, Layout};
use crate::recording::{AlphaType, ImageData, ImageFormat};

verus! {

use crate::coarse::placed_pixels;
use crate::encoded::{
    encoded, lemma_encoding_reads_back, run_count, EncodedScene, GlyphRunPlace, LateBound,
};
use crate::encoding::draw_info;
use crate::layout::{words_bytes, Streams};
use crate::recording::Pixels;

/// The outside type `vello_encoding::Resolver`: the caches of gradients, images
/// and glyphs.
#[verifier::external_type_specification]
#[verifier::external_body]
pub struct ExResolver(vello_encoding::Resolver);

/// The images that a resolved scene brings along.
#[verifier::ext_equal]
pub struct SceneImages {
    /// The pixels of the gradient ramps.
    pub ramps: Seq<u32>,
    pub ramp_width: u32,
    pub ramp_height: u32,
    pub atlas_width: u32,
    pub atlas_height: u32,
    /// The images that are new in the atlas, with their places.
    pub atlas_images: Seq<(Pixels, u32, u32)>,
}

/// A resolved scene.
#[verifier::ext_equal]
pub struct SceneInput {
    pub layout: Layout,
    pub packed: Seq<u8>,
    pub images: SceneImages,
}

/// The images that a resolved scene brings along.
pub open spec fn scene_images(
    ramps: Ramps,
    atlas_width: u32,
    atlas_height: u32,
    atlas_images: Seq<(ImageData, u32, u32)>,
) -> SceneImages {
    SceneImages {
        ramps: ramps.data@,
        ramp_width: ramps.width,
        ramp_height: ramps.height,
        atlas_width,
        atlas_height,
        atlas_images: placed_pixels(atlas_images),
    }
}

/// A resolved scene.
#[derive(Debug, PartialEq, Eq)]
pub struct ResolvedScene {
    pub layout: Layout,
    pub packed: Vec<u8>,
    pub ramps: Ramps,
    pub atlas_width: u32,
    pub atlas_height: u32,
    /// The images that are new in the atlas, with their places.
    pub images: Vec<(ImageData, u32, u32)>,
}

impl View for ResolvedScene {
    type V = SceneInput;

    open spec fn view(&self) -> SceneInput {
        SceneInput {
            layout: self.layout,
            packed: self.packed@,
            images: scene_images(
                self.ramps,
                self.atlas_width,
                self.atlas_height,
                self.images@,
            ),
        }
    }
}

/// No images.
pub open spec fn no_images() -> SceneImages {
    SceneImages {
        ramps: Seq::empty(),
        ramp_width: 0,
        ramp_height: 0,
        atlas_width: 0,
        atlas_height: 0,
        atlas_images: Seq::empty(),
    }
}

/// What the caches of a `vello_encoding::Resolver` hold: the gradient ramps, the
/// size of the image atlas, and the images that are new in it since the last scene
/// with late-bound resources.
pub uninterp spec fn held_images(resolver: vello_encoding::Resolver) -> SceneImages;

// ---------------------------------------------------------------------------
// What encodings resolve to
// ---------------------------------------------------------------------------

/// Whether `whole` is `inner` with more put into it: `leads` and `trails` say up to
/// where and from where on it is unchanged.
pub open spec fn widened<T>(
    inner: Seq<T>,
    whole: Seq<T>,
    leads: spec_fn(int) -> bool,
    trails: spec_fn(int) -> bool,
) -> bool {
    &&& inner.len() <= whole.len()
    &&& forall|at: int|
        0 <= at <= inner.len() && leads(at) ==> #[trigger] whole.take(at) == inner.take(at)
    &&& forall|at: int|
        0 <= at <= inner.len() && trails(at) ==> whole.skip(whole.len() - inner.len() + at)
            == #[trigger] inner.skip(at)
}

impl EncodedScene {
    /// Whether all glyph runs go to places from `at` on.
    pub open spec fn runs_follow(self, place: spec_fn(GlyphRunPlace) -> int, at: int) -> bool {
        forall|k: int|
            0 <= k < self.patches.len() ==> match #[trigger] self.patches[k] {
                LateBound::GlyphRun { index } => at <= place(self.glyph_runs[index as int]),
                _ => true,
            }
    }

    /// Whether all glyph runs go to places up to `at`.
    pub open spec fn runs_precede(self, place: spec_fn(GlyphRunPlace) -> int, at: int) -> bool {
        forall|k: int|
            0 <= k < self.patches.len() ==> match #[trigger] self.patches[k] {
                LateBound::GlyphRun { index } => place(self.glyph_runs[index as int]) <= at,
                _ => true,
            }
    }

    /// Whether a stream of this is in `whole`, with glyphs put into it at most
    /// between the places of the first and the last glyph run.
    pub open spec fn holds_stream<T>(
        self,
        inner: Seq<T>,
        whole: Seq<T>,
        place: spec_fn(GlyphRunPlace) -> int,
    ) -> bool {
        widened(
            inner,
            whole,
            |at: int| self.runs_follow(place, at),
            |at: int| self.runs_precede(place, at),
        )
    }

    /// Whether a late-bound resource may change a word of draw data.
    pub open spec fn is_patched(self, at: int) -> bool {
        exists|k: int|
            0 <= k < self.patches.len() && match #[trigger] self.patches[k] {
                LateBound::Ramp { offset, .. } => at == offset,
                LateBound::Image { offset } => at == offset || at == offset + 1,
                LateBound::GlyphRun { .. } => false,
            }
    }

    /// Whether draw data is that of this, with the late-bound resources filled in. A
    /// gradient gets the number of its ramp. An image gets its place in the atlas,
    /// or no place and no size where it found none.
    pub open spec fn binds_data(self, data: Seq<u32>, ramp_height: u32) -> bool {
        &&& data.len() == self.draw_data.len()
        &&& forall|at: int|
            0 <= at < data.len() && !self.is_patched(at) ==> #[trigger] data[at]
                == self.draw_data[at]
        &&& forall|k: int|
            0 <= k < self.patches.len() ==> match #[trigger] self.patches[k] {
                LateBound::Ramp { offset, extend, .. } => ramp_height <= 0x4000_0000 ==> {
                    &&& data[offset as int] >> 2 < ramp_height
                    &&& data[offset as int] & 3 == extend
                },
                LateBound::Image { offset } => {
                    ||| data[offset + 1] == self.draw_data[offset + 1]
                    ||| data[offset as int] == 0 && data[offset + 1] == 0
                },
                LateBound::GlyphRun { .. } => true,
            }
    }

    /// Whether this becomes `bound` when its late-bound resources are filled in,
    /// with this many gradient ramps. Only glyph runs change other streams than the
    /// draw data.
    pub open spec fn binds_to(self, bound: EncodedScene, ramp_height: u32) -> bool {
        &&& bound.draw_tags == self.draw_tags
        &&& bound.n_clips == self.n_clips
        &&& bound.n_open_clips == self.n_open_clips
        &&& self.n_paths <= bound.n_paths <= self.n_paths + run_count(self.patches)
        &&& self.binds_data(bound.draw_data, ramp_height)
        &&& self.holds_stream(
            self.path_tags,
            bound.path_tags,
            |run: GlyphRunPlace| run.path_tags as int,
        )
        &&& self.holds_stream(
            self.path_data,
            bound.path_data,
            |run: GlyphRunPlace| run.path_data as int,
        )
        &&& self.holds_stream(
            self.transforms,
            bound.transforms,
            |run: GlyphRunPlace| run.transforms as int,
        )
        &&& self.holds_stream(self.styles, bound.styles, |run: GlyphRunPlace| run.styles as int)
        &&& run_count(self.patches) == 0 ==> {
            &&& bound.path_tags == self.path_tags
            &&& bound.path_data == self.path_data
            &&& bound.transforms == self.transforms
            &&& bound.styles == self.styles
        }
    }

    /// Whether a late-bound resource is a gradient.
    pub open spec fn has_ramp(self) -> bool {
        exists|k: int| 0 <= k < self.patches.len() && #[trigger] self.patches[k] is Ramp
    }

    /// Whether this can resolve to a scene, with caches that then hold `held`. The
    /// late-bound resources are filled in, and the streams are packed in a row.
    pub open spec fn resolves_to(self, scene: SceneInput, held: SceneImages) -> bool {
        &&& scene.layout.n_draw_objects == scene.layout.n_paths
        &&& self.n_paths <= scene.layout.n_paths <= self.n_paths + run_count(self.patches)
        &&& scene.layout.n_clips == self.n_clips
        &&& scene.layout.bin_data_start == draw_info(self.draw_tags)
        &&& scene.layout.path_tag_base == 0
        &&& if self.patches.len() == 0 {
            scene.images == no_images()
        } else {
            &&& scene.images == held
            &&& held.ramp_width == 512
            &&& held.ramps.len() == 512 * held.ramp_height
            &&& self.has_ramp() ==> held.ramp_height > 0
            &&& 1024 <= held.atlas_width == held.atlas_height <= 8192
        }
        &&& scene.packed.len() / 4 <= u32::MAX ==> exists|bound: EncodedScene|
            #[trigger] self.binds_to(bound, scene.images.ramp_height) && scene.layout
                == bound.layout() && scene.packed == bound.packed()
    }
}

/// The draw data of a scene without late-bound resources is left as it is.
proof fn lemma_nothing_bound(encoding: EncodedScene, bound: EncodedScene, ramp_height: u32)
    requires
        encoding.patches.len() == 0,
        encoding.binds_to(bound, ramp_height),
    ensures
        bound.layout() == encoding.layout(),
        bound.packed() == encoding.packed(),
{
    assert forall|at: int| 0 <= at < bound.draw_data.len() implies bound.draw_data[at]
        == encoding.draw_data[at] by {
        assert(!encoding.is_patched(at));
    }
    assert(bound.draw_data =~= encoding.draw_data);
}

/// What an encoding without late-bound resources resolves to is its streams in a
/// row, with all layers closed, and no images.
pub proof fn lemma_solid_scene(encoding: EncodedScene, scene: SceneInput, held: SceneImages)
    requires
        encoding.patches.len() == 0,
        scene.packed.len() / 4 <= u32::MAX,
        encoding.resolves_to(scene, held),
    ensures
        scene == (SceneInput {
            layout: encoding.layout(),
            packed: encoding.packed(),
            images: no_images(),
        }),
{
    let bound = choose|bound: EncodedScene|
        #[trigger] encoding.binds_to(bound, scene.images.ramp_height) && scene.layout
            == bound.layout() && scene.packed == bound.packed();
    lemma_nothing_bound(encoding, bound, scene.images.ramp_height);
}

/// What was encoded is read back from the scene that it resolves to, with all
/// layers closed: the draw tags as they are, the draw data with the late-bound
/// resources filled in, and without glyph runs the other streams as they are too.
pub proof fn lemma_resolved_reads_back(
    encoding: EncodedScene,
    scene: SceneInput,
    held: SceneImages,
)
    requires
        scene.packed.len() / 4 <= u32::MAX,
        encoding.resolves_to(scene, held),
    ensures
        scene.layout.readable(scene.packed.len()),
        ({
            let read = scene.layout.streams(scene.packed);
            let closed = encoding.closed_streams();
            &&& read.draw_tags == closed.draw_tags
            &&& encoding.binds_data(read.draw_data, scene.images.ramp_height)
            &&& run_count(encoding.patches) == 0 ==> {
                &&& read == (Streams { draw_data: read.draw_data, ..closed })
                &&& scene.layout.n_paths == encoding.n_paths
            }
        }),
{
    let bound = choose|bound: EncodedScene|
        #[trigger] encoding.binds_to(bound, scene.images.ramp_height) && scene.layout
            == bound.layout() && scene.packed == bound.packed();
    lemma_encoding_reads_back(bound);
}

// ---------------------------------------------------------------------------
// Resolving
// ---------------------------------------------------------------------------

/// The layout of these words.
pub open spec fn words_layout(words: [u32; 10]) -> Layout {
    Layout {
        n_draw_objects: words[0],
        n_paths: words[1],
        n_clips: words[2],
        bin_data_start: words[3],
        path_tag_base: words[4],
        path_data_base: words[5],
        draw_tag_base: words[6],
        draw_data_base: words[7],
        transform_base: words[8],
        style_base: words[9],
    }
}

/// An image with its place in the atlas, as its bytes and the numbers of its
/// format, its handling of alpha, its width and height, and its place.
type CodedImage = (Vec<u8>, [u32; 6]);

/// The pixels of an image, with its place.
spec fn coded_pixels(image: CodedImage) -> (Pixels, u32, u32) {
    (
        Pixels {
            data: image.0@,
            format: if image.1[0] == 1 {
                ImageFormat::Bgra8
            } else {
                ImageFormat::Rgba8
            },
            alpha_type: if image.1[1] == 1 {
                AlphaType::AlphaPremultiplied
            } else {
                AlphaType::Alpha
            },
            width: image.1[2],
            height: image.1[3],
        },
        image.1[4],
        image.1[5],
    )
}

/// The pixels of images, with their places.
spec fn all_coded_pixels(images: Seq<CodedImage>) -> Seq<(Pixels, u32, u32)> {
    images.map_values(|image: CodedImage| coded_pixels(image))
}

/// The images with their places.
fn decode_images(coded: Vec<CodedImage>) -> (images: Vec<(ImageData, u32, u32)>)
    ensures
        placed_pixels(images@) == all_coded_pixels(coded@),
{
    let ghost all = coded@;
    let mut rest = coded;
    let mut images: Vec<(ImageData, u32, u32)> = Vec::new();
    while rest.len() > 0
        invariant
            images@.len() + rest@.len() == all.len(),
            rest@ == all.skip(images@.len() as int),
            placed_pixels(images@) == all_coded_pixels(all.take(images@.len() as int)),
        decreases rest.len(),
    {
        let ghost done = images@.len() as int;
        let (data, numbers) = rest.remove(0);
        assert(all[done] == (data, numbers));
        let format = if numbers[0] == 1 {
            ImageFormat::Bgra8
        } else {
            ImageFormat::Rgba8
        };
        let alpha_type = if numbers[1] == 1 {
            AlphaType::AlphaPremultiplied
        } else {
            AlphaType::Alpha
        };
        let image = ImageData { data, format, alpha_type, width: numbers[2], height: numbers[3] };
        images.push((image, numbers[4], numbers[5]));
        assert(all.take(done + 1) =~= all.take(done).push(all[done]));
        assert(placed_pixels(images@) =~~= all_coded_pixels(all.take(done)).push(
            coded_pixels(all[done]),
        ));
        assert(all_coded_pixels(all.take(done + 1)) =~= all_coded_pixels(all.take(done)).push(
            coded_pixels(all[done]),
        ));
    }
    assert(all.take(images@.len() as int) =~= all);
    images
}

/// What `vello_encoding::Resolver::resolve` gives.
struct Resolution {
    /// The words of the layout.
    layout: [u32; 10],
    /// The packed path tags.
    path_tags: Vec<u8>,
    /// The packed words of the other streams.
    words: Vec<u32>,
    ramps: Ramps,
    /// The width and the height of the image atlas.
    atlas: (u32, u32),
    images: Vec<CodedImage>,
}

impl Resolution {
    /// The resolved scene.
    spec fn scene(self) -> SceneInput {
        SceneInput {
            layout: words_layout(self.layout),
            packed: self.path_tags@ + words_bytes(self.words@),
            images: SceneImages {
                ramps: self.ramps.data@,
                ramp_width: self.ramps.width,
                ramp_height: self.ramps.height,
                atlas_width: self.atlas.0,
                atlas_height: self.atlas.1,
                atlas_images: all_coded_pixels(self.images@),
            },
        }
    }
}

/// `vello_encoding::Resolver::resolve`: fills in the late-bound resources of an
/// encoding and packs its streams in a row, with the layout that goes with them. Without
/// late-bound resources there are no images, and the resolver stays as it is.
/// Otherwise the ramps and the images are those that the resolver then holds. Which
/// ramp and which place in the atlas a resource gets, and what is put into the
/// streams for a glyph run, rests on the caches, the images and the fonts, and is
/// left unsaid; so is what the streams hold of a scene of more words than a layout
/// can count. The words are handed on as numbers, whatever their byte order.
#[verifier::external_body]
fn resolve_encoding(encoding: &vello_encoding::Encoding, resolver: &mut vello_encoding::Resolver)
    -> (resolution: Resolution)
    requires
        encoded(*encoding).well_built(),
    ensures
        encoded(*encoding).resolves_to(resolution.scene(), held_images(*final(resolver))),
        encoded(*encoding).patches.len() == 0 ==> *final(resolver) == *old(resolver),
{
    let mut path_tags = Vec::new();
    let (layout, ramps, atlas) = resolver.resolve(encoding, &mut path_tags);
    let words = path_tags.split_off(4 * layout.path_data_base as usize);
    Resolution {
        layout: bytemuck::cast(layout),
        path_tags,
        words: words.chunks_exact(4).map(|w| u32::from_ne_bytes(w.try_into().unwrap())).collect(),
        ramps: Ramps { data: ramps.data.to_vec(), width: ramps.width, height: ramps.height },
        atlas: (atlas.width, atlas.height),
        images: atlas.images.iter().map(|(i, x, y)| (i.data.data().to_vec(),
            [i.format as u32, i.alpha_type as u32, i.width, i.height, *x, *y])).collect()
    }
}

/// Resolves an encoded scene, where it is well built.
pub fn resolve(encoding: &vello_encoding::Encoding, resolver: &mut vello_encoding::Resolver) -> (
scene: Option<ResolvedScene>)
    ensures
        match scene {
            Some(scene) => {
                &&& encoded(*encoding).well_built()
                &&& encoded(*encoding).resolves_to(scene@, held_images(*final(resolver)))
                &&& encoded(*encoding).patches.len() == 0 ==> *final(resolver) == *old(resolver)
            },
            None => !encoded(*encoding).well_built() && *final(resolver) == *old(resolver),
        },
{
    if !is_well_built(encoding) {
        return None;
    }
    let resolution = resolve_encoding(encoding, resolver);
    let ghost scene = resolution.scene();
    let mut packed = resolution.path_tags;
    write_words(&mut packed, resolution.words.as_slice());
    let words = resolution.layout;
    let resolved = ResolvedScene {
        layout: Layout {
            n_draw_objects: words[0],
            n_paths: words[1],
            n_clips: words[2],
            bin_data_start: words[3],
            path_tag_base: words[4],
            path_data_base: words[5],
            draw_tag_base: words[6],
            draw_data_base: words[7],
            transform_base: words[8],
            style_base: words[9],
        },
        packed,
        ramps: resolution.ramps,
        atlas_width: resolution.atlas.0,
        atlas_height: resolution.atlas.1,
        images: decode_images(resolution.images),
    };
    assert(resolved@ == scene);
    Some(resolved)
}

} // verus!
