//! What the stages of a pass make of a scene: each of them works on what the stages
//! before it left.

use vstd::prelude::*;

use crate::coarse::{AaConfig, CoarseResources, FullShaders};
use crate::config::WorkgroupCounts;
use crate::recording::{ImageProxy, ResourceProxy, ShaderId};

verus! {

use crate::coarse::{
    bin_actions, buf, clip_actions, draw_actions, finish_actions, flatten_actions, input_actions,
    nth_buffer, path_tag_actions, scene_bytes, tile_actions,
};
use crate::config::{configured, ConfigValues};
use crate::flow_laws::{
    contents, follows, found, lemma_clear, lemma_dispatch, lemma_dispatch_indirect, lemma_draw,
    lemma_quiet, lemma_upload, lemma_upload_image, made, written_slot, Contents, Interface, Launch,
};
use crate::layout::words_bytes;
use crate::recording::{Action, Pixels};
use crate::render::{CoarsePass, RenderState};
use crate::resolve::SceneImages;

/// What a pass works on: the scene and the configuration in buffers, and how its stages
/// run.
pub struct Flow {
    pub shaders: FullShaders,
    pub counts: WorkgroupCounts,
    /// Whether the path tags are scanned in two steps.
    pub large: bool,
    pub scene: Contents,
    pub config: Contents,
}

/// What a shader left at one of its bindings that ran in as many workgroups as an earlier
/// one said.
pub open spec fn made_indirect(
    shader: ShaderId,
    counts: Contents,
    slot: int,
    inputs: Seq<Contents>,
) -> Contents {
    Contents::Made(shader, Launch::Indirect(Box::new(counts), 0), slot, inputs)
}

impl Flow {
    /// The path tags, summed up in blocks.
    pub open spec fn reduced(self) -> Contents {
        made(
            self.shaders.pathtag_reduce,
            self.counts.path_reduce,
            2,
            seq![self.config, self.scene, Contents::Nothing],
        )
    }

    /// The sums, summed up in blocks.
    pub open spec fn reduced_again(self) -> Contents {
        made(
            self.shaders.pathtag_reduce2,
            self.counts.path_reduce2,
            1,
            seq![self.reduced(), Contents::Nothing],
        )
    }

    /// The sums before each block.
    pub open spec fn reduced_scan(self) -> Contents {
        made(
            self.shaders.pathtag_scan1,
            self.counts.path_scan1,
            2,
            seq![self.reduced(), self.reduced_again(), Contents::Nothing],
        )
    }

    /// The place of each path tag's data.
    pub open spec fn tag_monoids(self) -> Contents {
        if self.large {
            made(
                self.shaders.pathtag_scan_large,
                self.counts.path_scan,
                3,
                seq![self.config, self.scene, self.reduced_scan(), Contents::Nothing],
            )
        } else {
            made(
                self.shaders.pathtag_scan,
                self.counts.path_scan,
                3,
                seq![self.config, self.scene, self.reduced(), Contents::Nothing],
            )
        }
    }

    /// Bounds that hold nothing.
    pub open spec fn no_bounds(self) -> Contents {
        made(
            self.shaders.bbox_clear,
            self.counts.bbox_clear,
            1,
            seq![self.config, Contents::Nothing],
        )
    }

    /// Counters at zero.
    pub open spec fn no_bump(self) -> Contents {
        Contents::Cleared(Box::new(Contents::Nothing), 0, None)
    }

    /// What the paths are turned into lines from.
    pub open spec fn at_flatten(self) -> Seq<Contents> {
        seq![
            self.config,
            self.scene,
            self.tag_monoids(),
            self.no_bounds(),
            self.no_bump(),
            Contents::Nothing,
        ]
    }

    /// The bounds of the paths.
    pub open spec fn path_bounds(self) -> Contents {
        made(self.shaders.flatten, self.counts.flatten, 3, self.at_flatten())
    }

    /// The counters behind the lines.
    pub open spec fn bump_of_lines(self) -> Contents {
        made(self.shaders.flatten, self.counts.flatten, 4, self.at_flatten())
    }

    /// The lines of the paths.
    pub open spec fn lines(self) -> Contents {
        made(self.shaders.flatten, self.counts.flatten, 5, self.at_flatten())
    }

    /// The draw tags, summed up in blocks.
    pub open spec fn draw_reduced(self) -> Contents {
        made(
            self.shaders.draw_reduce,
            self.counts.draw_reduce,
            2,
            seq![self.config, self.scene, Contents::Nothing],
        )
    }

    /// What the places of the draw data are found from.
    pub open spec fn at_draw_leaf(self) -> Seq<Contents> {
        seq![
            self.config,
            self.scene,
            self.draw_reduced(),
            self.path_bounds(),
            Contents::Nothing,
            Contents::Nothing,
            Contents::Nothing,
        ]
    }

    /// The place of each draw object's data.
    pub open spec fn draw_places(self) -> Contents {
        made(self.shaders.draw_leaf, self.counts.draw_leaf, 4, self.at_draw_leaf())
    }

    /// The draw info.
    pub open spec fn draw_info(self) -> Contents {
        made(self.shaders.draw_leaf, self.counts.draw_leaf, 5, self.at_draw_leaf())
    }

    /// The clip operations.
    pub open spec fn clip_inputs(self) -> Contents {
        made(self.shaders.draw_leaf, self.counts.draw_leaf, 6, self.at_draw_leaf())
    }

    /// What the clips are summed up from.
    pub open spec fn at_clip_reduce(self) -> Seq<Contents> {
        seq![self.clip_inputs(), self.path_bounds(), Contents::Nothing, Contents::Nothing]
    }

    /// The clips that are open behind each block.
    pub open spec fn clip_bics(self) -> Contents {
        if self.counts.clip_reduce.0 > 0 {
            made(self.shaders.clip_reduce, self.counts.clip_reduce, 2, self.at_clip_reduce())
        } else {
            Contents::Nothing
        }
    }

    /// The bounds of these.
    pub open spec fn clip_elements(self) -> Contents {
        if self.counts.clip_reduce.0 > 0 {
            made(self.shaders.clip_reduce, self.counts.clip_reduce, 3, self.at_clip_reduce())
        } else {
            Contents::Nothing
        }
    }

    /// What the bounds of the clips are found from.
    pub open spec fn at_clip_leaf(self) -> Seq<Contents> {
        seq![
            self.config,
            self.clip_inputs(),
            self.path_bounds(),
            self.clip_bics(),
            self.clip_elements(),
            self.draw_places(),
            Contents::Nothing,
        ]
    }

    /// The place of each draw object's data, with those of the clips.
    pub open spec fn draw_monoids(self) -> Contents {
        if self.counts.clip_leaf.0 > 0 {
            made(self.shaders.clip_leaf, self.counts.clip_leaf, 5, self.at_clip_leaf())
        } else {
            self.draw_places()
        }
    }

    /// The bounds of the clips.
    pub open spec fn clip_bounds(self) -> Contents {
        if self.counts.clip_leaf.0 > 0 {
            made(self.shaders.clip_leaf, self.counts.clip_leaf, 6, self.at_clip_leaf())
        } else {
            Contents::Nothing
        }
    }

    /// What the draw objects are sorted into bins from.
    pub open spec fn at_binning(self) -> Seq<Contents> {
        seq![
            self.config,
            self.draw_monoids(),
            self.path_bounds(),
            self.clip_bounds(),
            Contents::Nothing,
            self.bump_of_lines(),
            self.draw_info(),
            Contents::Nothing,
        ]
    }

    /// The bounds of the draw objects.
    pub open spec fn draw_bounds(self) -> Contents {
        made(self.shaders.binning, self.counts.binning, 4, self.at_binning())
    }

    /// The counters behind the bins.
    pub open spec fn bump_of_bins(self) -> Contents {
        made(self.shaders.binning, self.counts.binning, 5, self.at_binning())
    }

    /// The draw info, and what is in each bin.
    pub open spec fn info_bin_data(self) -> Contents {
        made(self.shaders.binning, self.counts.binning, 6, self.at_binning())
    }

    /// Where each bin is found.
    pub open spec fn bin_headers(self) -> Contents {
        made(self.shaders.binning, self.counts.binning, 7, self.at_binning())
    }

    /// What tiles are made from.
    pub open spec fn at_tile_alloc(self) -> Seq<Contents> {
        seq![
            self.config,
            self.scene,
            self.draw_bounds(),
            self.bump_of_bins(),
            Contents::Nothing,
            Contents::Nothing,
        ]
    }

    /// The counters behind the tiles.
    pub open spec fn bump_of_tiles(self) -> Contents {
        made(self.shaders.tile_alloc, self.counts.tile_alloc, 3, self.at_tile_alloc())
    }

    /// The paths with their tiles.
    pub open spec fn paths(self) -> Contents {
        made(self.shaders.tile_alloc, self.counts.tile_alloc, 4, self.at_tile_alloc())
    }

    /// Tiles without segments.
    pub open spec fn new_tiles(self) -> Contents {
        made(self.shaders.tile_alloc, self.counts.tile_alloc, 5, self.at_tile_alloc())
    }

    /// The workgroups for the lines.
    pub open spec fn line_groups(self) -> Contents {
        made(
            self.shaders.path_count_setup,
            self.counts.path_count_setup,
            1,
            seq![self.bump_of_tiles(), Contents::Nothing],
        )
    }

    /// What segments are counted from.
    pub open spec fn at_path_count(self) -> Seq<Contents> {
        seq![
            self.config,
            self.bump_of_tiles(),
            self.lines(),
            self.paths(),
            self.new_tiles(),
            Contents::Nothing,
        ]
    }

    /// The counters behind the segment counts.
    pub open spec fn bump_of_counts(self) -> Contents {
        made_indirect(self.shaders.path_count, self.line_groups(), 1, self.at_path_count())
    }

    /// Tiles with their segment counts.
    pub open spec fn counted_tiles(self) -> Contents {
        made_indirect(self.shaders.path_count, self.line_groups(), 4, self.at_path_count())
    }

    /// The segments in each tile.
    pub open spec fn segment_counts(self) -> Contents {
        made_indirect(self.shaders.path_count, self.line_groups(), 5, self.at_path_count())
    }

    /// Tiles with the winding from their left.
    pub open spec fn wound_tiles(self) -> Contents {
        made(
            self.shaders.backdrop,
            self.counts.backdrop,
            3,
            seq![self.config, self.bump_of_counts(), self.paths(), self.counted_tiles()],
        )
    }

    /// What the commands of the tiles are written from.
    pub open spec fn at_coarse(self) -> Seq<Contents> {
        seq![
            self.config,
            self.scene,
            self.draw_monoids(),
            self.bin_headers(),
            self.info_bin_data(),
            self.paths(),
            self.wound_tiles(),
            self.bump_of_counts(),
            Contents::Nothing,
        ]
    }

    /// Tiles with the places of their segments.
    pub open spec fn tiles(self) -> Contents {
        made(self.shaders.coarse, self.counts.coarse, 6, self.at_coarse())
    }

    /// The counters behind the commands.
    pub open spec fn bump_of_commands(self) -> Contents {
        made(self.shaders.coarse, self.counts.coarse, 7, self.at_coarse())
    }

    /// The commands of the tiles.
    pub open spec fn raw_commands(self) -> Contents {
        made(self.shaders.coarse, self.counts.coarse, 8, self.at_coarse())
    }

    /// What the workgroups for the segments are counted from.
    pub open spec fn at_tiling_setup(self) -> Seq<Contents> {
        seq![self.bump_of_commands(), self.line_groups(), self.raw_commands()]
    }

    /// The workgroups for the segments.
    pub open spec fn segment_groups(self) -> Contents {
        made(
            self.shaders.path_tiling_setup,
            self.counts.path_tiling_setup,
            1,
            self.at_tiling_setup(),
        )
    }

    /// The commands of the tiles, unless memory ran out.
    pub open spec fn commands(self) -> Contents {
        made(
            self.shaders.path_tiling_setup,
            self.counts.path_tiling_setup,
            2,
            self.at_tiling_setup(),
        )
    }

    /// What the lines are cut into segments from.
    pub open spec fn at_tiling(self) -> Seq<Contents> {
        seq![
            self.bump_of_commands(),
            self.segment_counts(),
            self.lines(),
            self.paths(),
            self.tiles(),
            Contents::Nothing,
        ]
    }

    /// The segments of the lines.
    pub open spec fn segments(self) -> Contents {
        made_indirect(self.shaders.path_tiling, self.segment_groups(), 5, self.at_tiling())
    }

}

/// Where the resources of a pass are, among those that it makes: the identities go up
/// from `first`, and from `next` behind those of the scan in two steps.
pub open spec fn spread(r: CoarseResources, first: int, next: int) -> bool {
    &&& 0 <= first
    &&& r.gradient_image.id == first
    &&& r.image_atlas.id == first + 1
    &&& r.scene_buf.id == first + 2
    &&& r.config_buf.id == first + 3
    &&& r.info_bin_data_buf.id == first + 4
    &&& r.tile_buf.id == first + 5
    &&& r.segments_buf.id == first + 6
    &&& r.ptcl_buf.id == first + 7
    &&& r.reduced_buf.id == first + 8
    &&& match r.large_pathtag_bufs {
        Some((reduced2, reduced_scan)) => {
            &&& next == first + 11
            &&& reduced2.id == first + 9
            &&& reduced_scan.id == first + 10
        },
        None => next == first + 9,
    }
    &&& r.tagmonoid_buf.id == next
    &&& r.path_bbox_buf.id == next + 1
    &&& r.bump_buf.id == next + 2
    &&& r.lines_buf.id == next + 3
    &&& r.draw_reduced_buf.id == next + 4
    &&& r.draw_monoid_buf.id == next + 5
    &&& r.clip_inp_buf.id == next + 6
    &&& r.clip_el_buf.id == next + 7
    &&& r.clip_bic_buf.id == next + 8
    &&& r.clip_bbox_buf.id == next + 9
    &&& r.draw_bbox_buf.id == next + 10
    &&& r.bin_header_buf.id == next + 11
    &&& r.path_buf.id == next + 12
    &&& r.indirect_count_buf.id == next + 13
    &&& r.seg_counts_buf.id == next + 14
    &&& r.out_image.id == next + 15
    &&& r.blend_spill_buf.id == next + 16
}

/// What the path tag stages make.
pub(crate) proof fn lemma_path_tag_contents(
    access: Interface,
    before: Seq<Action>,
    r: CoarseResources,
    flow: Flow,
    first: int,
    next: int,
)
    requires
        follows(access, flow.shaders),
        spread(r, first, next),
        flow.large == (r.large_pathtag_bufs is Some),
        contents(access, before, r.config_buf.id) == flow.config,
        contents(access, before, r.scene_buf.id) == flow.scene,
        forall|id: u64| first + 8 <= id <= next ==> contents(access, before, id) is Nothing,
    ensures
        ({
            let after = before + path_tag_actions(r, flow.shaders, flow.counts);
            &&& contents(access, after, r.tagmonoid_buf.id) == flow.tag_monoids()
            &&& forall|id: u64|
                !(first + 8 <= id <= next) ==> #[trigger] contents(access, after, id) == contents(
                    access,
                    before,
                    id,
                )
        }),
{
    reveal_with_fuel(written_slot, 5);
    let shaders = flow.shaders;
    let counts = flow.counts;
    let nothing = Contents::Nothing;
    assert(contents(access, before, r.reduced_buf.id) is Nothing);
    assert(contents(access, before, r.tagmonoid_buf.id) is Nothing);
    let b1 = seq![buf(r.config_buf), buf(r.scene_buf), buf(r.reduced_buf)];
    let a1 = before.push(Action::Dispatch(shaders.pathtag_reduce, counts.path_reduce, b1));
    lemma_dispatch(access, before, shaders.pathtag_reduce, counts.path_reduce, b1);
    assert(found(access, before, shaders.pathtag_reduce, b1) =~= seq![
        flow.config,
        flow.scene,
        nothing,
    ]);
    match r.large_pathtag_bufs {
        Some((reduced2, reduced_scan)) => {
            assert(contents(access, before, reduced2.id) is Nothing);
            assert(contents(access, before, reduced_scan.id) is Nothing);
            let b2 = seq![buf(r.reduced_buf), buf(reduced2)];
            let a2 = a1.push(Action::Dispatch(shaders.pathtag_reduce2, counts.path_reduce2, b2));
            lemma_dispatch(access, a1, shaders.pathtag_reduce2, counts.path_reduce2, b2);
            assert(found(access, a1, shaders.pathtag_reduce2, b2) =~= seq![
                flow.reduced(),
                nothing,
            ]);
            let b3 = seq![buf(r.reduced_buf), buf(reduced2), buf(reduced_scan)];
            let a3 = a2.push(Action::Dispatch(shaders.pathtag_scan1, counts.path_scan1, b3));
            lemma_dispatch(access, a2, shaders.pathtag_scan1, counts.path_scan1, b3);
            assert(found(access, a2, shaders.pathtag_scan1, b3) =~= seq![
                flow.reduced(),
                flow.reduced_again(),
                nothing,
            ]);
            let b4 = seq![
                buf(r.config_buf),
                buf(r.scene_buf),
                buf(reduced_scan),
                buf(r.tagmonoid_buf),
            ];
            let a4 = a3.push(Action::Dispatch(shaders.pathtag_scan_large, counts.path_scan, b4));
            lemma_dispatch(access, a3, shaders.pathtag_scan_large, counts.path_scan, b4);
            assert(found(access, a3, shaders.pathtag_scan_large, b4) =~= seq![
                flow.config,
                flow.scene,
                flow.reduced_scan(),
                nothing,
            ]);
            let qend = seq![
                Action::FreeBuffer(r.reduced_buf),
                Action::FreeBuffer(reduced2),
                Action::FreeBuffer(reduced_scan),
            ];
            let end = a4 + qend;
            assert forall|id: u64| #[trigger]
                contents(access, end, id) == contents(access, a4, id) by {
                lemma_quiet(access, a4, qend, id);
            }
            assert(before + path_tag_actions(r, flow.shaders, flow.counts) =~= end);
        },
        None => {
            let b5 = seq![
                buf(r.config_buf),
                buf(r.scene_buf),
                buf(r.reduced_buf),
                buf(r.tagmonoid_buf),
            ];
            let a5 = a1.push(Action::Dispatch(shaders.pathtag_scan, counts.path_scan, b5));
            lemma_dispatch(access, a1, shaders.pathtag_scan, counts.path_scan, b5);
            assert(found(access, a1, shaders.pathtag_scan, b5) =~= seq![
                flow.config,
                flow.scene,
                flow.reduced(),
                nothing,
            ]);
            let qend = seq![Action::FreeBuffer(r.reduced_buf)];
            let end = a5 + qend;
            assert forall|id: u64| #[trigger]
                contents(access, end, id) == contents(access, a5, id) by {
                lemma_quiet(access, a5, qend, id);
            }
            assert(before + path_tag_actions(r, flow.shaders, flow.counts) =~= end);
        },
    }
}

/// What the stages that turn paths into lines make.
pub(crate) proof fn lemma_flatten_contents(
    access: Interface,
    before: Seq<Action>,
    r: CoarseResources,
    flow: Flow,
    first: int,
    next: int,
)
    requires
        follows(access, flow.shaders),
        spread(r, first, next),
        contents(access, before, r.config_buf.id) == flow.config,
        contents(access, before, r.scene_buf.id) == flow.scene,
        contents(access, before, r.tagmonoid_buf.id) == flow.tag_monoids(),
        contents(access, before, r.path_bbox_buf.id) == Contents::Nothing,
        contents(access, before, r.bump_buf.id) == Contents::Nothing,
        contents(access, before, r.lines_buf.id) == Contents::Nothing,
    ensures
        ({
            let after = before + flatten_actions(r, flow.shaders, flow.counts);
            &&& contents(access, after, r.path_bbox_buf.id) == flow.path_bounds()
            &&& contents(access, after, r.bump_buf.id) == flow.bump_of_lines()
            &&& contents(access, after, r.lines_buf.id) == flow.lines()
            &&& forall|id: u64|
                {
                    &&& id != r.path_bbox_buf.id
                    &&& id != r.bump_buf.id
                    &&& id != r.lines_buf.id
                } ==> #[trigger] contents(
                    access,
                    after,
                    id,
                ) == contents(access, before, id)
        }),
{
    reveal_with_fuel(written_slot, 11);
    let shaders = flow.shaders;
    let counts = flow.counts;
    let nothing = Contents::Nothing;
    let b1 = seq![buf(r.config_buf), buf(r.path_bbox_buf)];
    let a1 = before.push(Action::Dispatch(shaders.bbox_clear, counts.bbox_clear, b1));
    lemma_dispatch(access, before, shaders.bbox_clear, counts.bbox_clear, b1);
    assert(found(access, before, shaders.bbox_clear, b1) =~= seq![flow.config, nothing]);
    let a2 = a1.push(Action::Clear(r.bump_buf, 0, None));
    lemma_clear(access, a1, r.bump_buf, 0, None);
    let b3 = seq![
        buf(r.config_buf),
        buf(r.scene_buf),
        buf(r.tagmonoid_buf),
        buf(r.path_bbox_buf),
        buf(r.bump_buf),
        buf(r.lines_buf),
    ];
    let end = a2.push(Action::Dispatch(shaders.flatten, counts.flatten, b3));
    lemma_dispatch(access, a2, shaders.flatten, counts.flatten, b3);
    assert(found(access, a2, shaders.flatten, b3) =~= flow.at_flatten());
    assert(before + flatten_actions(r, flow.shaders, flow.counts) =~= end);
}

/// What the stages that find the place of each draw object's data make.
pub(crate) proof fn lemma_draw_contents(
    access: Interface,
    before: Seq<Action>,
    r: CoarseResources,
    flow: Flow,
    first: int,
    next: int,
)
    requires
        follows(access, flow.shaders),
        spread(r, first, next),
        contents(access, before, r.config_buf.id) == flow.config,
        contents(access, before, r.scene_buf.id) == flow.scene,
        contents(access, before, r.path_bbox_buf.id) == flow.path_bounds(),
        contents(access, before, r.draw_reduced_buf.id) == Contents::Nothing,
        contents(access, before, r.draw_monoid_buf.id) == Contents::Nothing,
        contents(access, before, r.info_bin_data_buf.id) == Contents::Nothing,
        contents(access, before, r.clip_inp_buf.id) == Contents::Nothing,
    ensures
        ({
            let after = before + draw_actions(r, flow.shaders, flow.counts);
            &&& contents(access, after, r.draw_monoid_buf.id) == flow.draw_places()
            &&& contents(access, after, r.info_bin_data_buf.id) == flow.draw_info()
            &&& contents(access, after, r.clip_inp_buf.id) == flow.clip_inputs()
            &&& forall|id: u64|
                {
                    &&& id != r.draw_reduced_buf.id
                    &&& id != r.draw_monoid_buf.id
                    &&& id != r.info_bin_data_buf.id
                    &&& id != r.clip_inp_buf.id
                } ==> #[trigger] contents(
                    access,
                    after,
                    id,
                ) == contents(access, before, id)
        }),
{
    reveal_with_fuel(written_slot, 11);
    let shaders = flow.shaders;
    let counts = flow.counts;
    let nothing = Contents::Nothing;
    let b1 = seq![buf(r.config_buf), buf(r.scene_buf), buf(r.draw_reduced_buf)];
    let a1 = before.push(Action::Dispatch(shaders.draw_reduce, counts.draw_reduce, b1));
    lemma_dispatch(access, before, shaders.draw_reduce, counts.draw_reduce, b1);
    assert(found(access, before, shaders.draw_reduce, b1) =~= seq![
        flow.config,
        flow.scene,
        nothing,
    ]);
    let b2 = seq![
        buf(r.config_buf),
        buf(r.scene_buf),
        buf(r.draw_reduced_buf),
        buf(r.path_bbox_buf),
        buf(r.draw_monoid_buf),
        buf(r.info_bin_data_buf),
        buf(r.clip_inp_buf),
    ];
    let a2 = a1.push(Action::Dispatch(shaders.draw_leaf, counts.draw_leaf, b2));
    lemma_dispatch(access, a1, shaders.draw_leaf, counts.draw_leaf, b2);
    assert(found(access, a1, shaders.draw_leaf, b2) =~= flow.at_draw_leaf());
    let qend = seq![Action::FreeBuffer(r.draw_reduced_buf)];
    let end = a2 + qend;
    assert forall|id: u64| #[trigger] contents(access, end, id) == contents(access, a2, id) by {
        lemma_quiet(access, a2, qend, id);
    }
    assert(before + draw_actions(r, flow.shaders, flow.counts) =~= end);
}

/// What the clip stages make.
pub(crate) proof fn lemma_clip_contents(
    access: Interface,
    before: Seq<Action>,
    r: CoarseResources,
    flow: Flow,
    first: int,
    next: int,
)
    requires
        follows(access, flow.shaders),
        spread(r, first, next),
        contents(access, before, r.config_buf.id) == flow.config,
        contents(access, before, r.path_bbox_buf.id) == flow.path_bounds(),
        contents(access, before, r.clip_inp_buf.id) == flow.clip_inputs(),
        contents(access, before, r.draw_monoid_buf.id) == flow.draw_places(),
        contents(access, before, r.clip_bic_buf.id) == Contents::Nothing,
        contents(access, before, r.clip_el_buf.id) == Contents::Nothing,
        contents(access, before, r.clip_bbox_buf.id) == Contents::Nothing,
    ensures
        ({
            let after = before + clip_actions(r, flow.shaders, flow.counts);
            &&& contents(access, after, r.draw_monoid_buf.id) == flow.draw_monoids()
            &&& contents(access, after, r.clip_bbox_buf.id) == flow.clip_bounds()
            &&& forall|id: u64|
                {
                    &&& id != r.clip_bic_buf.id
                    &&& id != r.clip_el_buf.id
                    &&& id != r.draw_monoid_buf.id
                    &&& id != r.clip_bbox_buf.id
                } ==> #[trigger] contents(
                    access,
                    after,
                    id,
                ) == contents(access, before, id)
        }),
{
    reveal_with_fuel(written_slot, 11);
    let shaders = flow.shaders;
    let counts = flow.counts;
    let nothing = Contents::Nothing;
    let b1 = seq![
        buf(r.clip_inp_buf),
        buf(r.path_bbox_buf),
        buf(r.clip_bic_buf),
        buf(r.clip_el_buf),
    ];
    let a1 = if counts.clip_reduce.0 > 0 {
        before.push(Action::Dispatch(shaders.clip_reduce, counts.clip_reduce, b1))
    } else {
        before
    };
    lemma_dispatch(access, before, shaders.clip_reduce, counts.clip_reduce, b1);
    assert(found(access, before, shaders.clip_reduce, b1) =~= flow.at_clip_reduce());
    let b2 = seq![
        buf(r.config_buf),
        buf(r.clip_inp_buf),
        buf(r.path_bbox_buf),
        buf(r.clip_bic_buf),
        buf(r.clip_el_buf),
        buf(r.draw_monoid_buf),
        buf(r.clip_bbox_buf),
    ];
    let a2 = if counts.clip_leaf.0 > 0 {
        a1.push(Action::Dispatch(shaders.clip_leaf, counts.clip_leaf, b2))
    } else {
        a1
    };
    lemma_dispatch(access, a1, shaders.clip_leaf, counts.clip_leaf, b2);
    assert(found(access, a1, shaders.clip_leaf, b2) =~= flow.at_clip_leaf());
    let qend = seq![
        Action::FreeBuffer(r.clip_inp_buf),
        Action::FreeBuffer(r.clip_bic_buf),
        Action::FreeBuffer(r.clip_el_buf),
    ];
    let end = a2 + qend;
    assert forall|id: u64| #[trigger] contents(access, end, id) == contents(access, a2, id) by {
        lemma_quiet(access, a2, qend, id);
    }
    assert(before + clip_actions(r, flow.shaders, flow.counts) =~= end);
}

/// What the stages that sort draw objects into bins and paths into tiles make.
pub(crate) proof fn lemma_bin_contents(
    access: Interface,
    before: Seq<Action>,
    r: CoarseResources,
    flow: Flow,
    first: int,
    next: int,
)
    requires
        follows(access, flow.shaders),
        spread(r, first, next),
        contents(access, before, r.config_buf.id) == flow.config,
        contents(access, before, r.scene_buf.id) == flow.scene,
        contents(access, before, r.draw_monoid_buf.id) == flow.draw_monoids(),
        contents(access, before, r.path_bbox_buf.id) == flow.path_bounds(),
        contents(access, before, r.clip_bbox_buf.id) == flow.clip_bounds(),
        contents(access, before, r.bump_buf.id) == flow.bump_of_lines(),
        contents(access, before, r.info_bin_data_buf.id) == flow.draw_info(),
        contents(access, before, r.draw_bbox_buf.id) == Contents::Nothing,
        contents(access, before, r.bin_header_buf.id) == Contents::Nothing,
        contents(access, before, r.path_buf.id) == Contents::Nothing,
        contents(access, before, r.tile_buf.id) == Contents::Nothing,
    ensures
        ({
            let after = before + bin_actions(r, flow.shaders, flow.counts);
            &&& contents(access, after, r.info_bin_data_buf.id) == flow.info_bin_data()
            &&& contents(access, after, r.bin_header_buf.id) == flow.bin_headers()
            &&& contents(access, after, r.bump_buf.id) == flow.bump_of_tiles()
            &&& contents(access, after, r.path_buf.id) == flow.paths()
            &&& contents(access, after, r.tile_buf.id) == flow.new_tiles()
            &&& forall|id: u64|
                {
                    &&& id != r.draw_bbox_buf.id
                    &&& id != r.bump_buf.id
                    &&& id != r.info_bin_data_buf.id
                    &&& id != r.bin_header_buf.id
                    &&& id != r.path_buf.id
                    &&& id != r.tile_buf.id
                } ==> #[trigger] contents(
                    access,
                    after,
                    id,
                ) == contents(access, before, id)
        }),
{
    reveal_with_fuel(written_slot, 11);
    let shaders = flow.shaders;
    let counts = flow.counts;
    let nothing = Contents::Nothing;
    let b1 = seq![
        buf(r.config_buf),
        buf(r.draw_monoid_buf),
        buf(r.path_bbox_buf),
        buf(r.clip_bbox_buf),
        buf(r.draw_bbox_buf),
        buf(r.bump_buf),
        buf(r.info_bin_data_buf),
        buf(r.bin_header_buf),
    ];
    let a1 = before.push(Action::Dispatch(shaders.binning, counts.binning, b1));
    lemma_dispatch(access, before, shaders.binning, counts.binning, b1);
    assert(found(access, before, shaders.binning, b1) =~= flow.at_binning());
    let qa2 = seq![Action::FreeBuffer(r.draw_monoid_buf), Action::FreeBuffer(r.clip_bbox_buf)];
    let a2 = a1 + qa2;
    assert forall|id: u64| #[trigger] contents(access, a2, id) == contents(access, a1, id) by {
        lemma_quiet(access, a1, qa2, id);
    }
    let b3 = seq![
        buf(r.config_buf),
        buf(r.scene_buf),
        buf(r.draw_bbox_buf),
        buf(r.bump_buf),
        buf(r.path_buf),
        buf(r.tile_buf),
    ];
    let a3 = a2.push(Action::Dispatch(shaders.tile_alloc, counts.tile_alloc, b3));
    lemma_dispatch(access, a2, shaders.tile_alloc, counts.tile_alloc, b3);
    assert(found(access, a2, shaders.tile_alloc, b3) =~= flow.at_tile_alloc());
    let qend = seq![Action::FreeBuffer(r.draw_bbox_buf), Action::FreeBuffer(r.tagmonoid_buf)];
    let end = a3 + qend;
    assert forall|id: u64| #[trigger] contents(access, end, id) == contents(access, a3, id) by {
        lemma_quiet(access, a3, qend, id);
    }
    assert(before + bin_actions(r, flow.shaders, flow.counts) =~= end);
}

/// What the stages that cut lines into segments and write the commands of each tile make.
pub(crate) proof fn lemma_tile_contents(
    access: Interface,
    before: Seq<Action>,
    r: CoarseResources,
    flow: Flow,
    first: int,
    next: int,
)
    requires
        follows(access, flow.shaders),
        spread(r, first, next),
        contents(access, before, r.config_buf.id) == flow.config,
        contents(access, before, r.scene_buf.id) == flow.scene,
        contents(access, before, r.bump_buf.id) == flow.bump_of_tiles(),
        contents(access, before, r.lines_buf.id) == flow.lines(),
        contents(access, before, r.path_buf.id) == flow.paths(),
        contents(access, before, r.tile_buf.id) == flow.new_tiles(),
        contents(access, before, r.draw_monoid_buf.id) == flow.draw_monoids(),
        contents(access, before, r.bin_header_buf.id) == flow.bin_headers(),
        contents(access, before, r.info_bin_data_buf.id) == flow.info_bin_data(),
        contents(access, before, r.indirect_count_buf.id) == Contents::Nothing,
        contents(access, before, r.seg_counts_buf.id) == Contents::Nothing,
        contents(access, before, r.ptcl_buf.id) == Contents::Nothing,
        contents(access, before, r.segments_buf.id) == Contents::Nothing,
    ensures
        ({
            let after = before + tile_actions(r, flow.shaders, flow.counts);
            &&& contents(access, after, r.bump_buf.id) == flow.bump_of_commands()
            &&& contents(access, after, r.ptcl_buf.id) == flow.commands()
            &&& contents(access, after, r.segments_buf.id) == flow.segments()
            &&& forall|id: u64|
                {
                    &&& id != r.indirect_count_buf.id
                    &&& id != r.bump_buf.id
                    &&& id != r.tile_buf.id
                    &&& id != r.seg_counts_buf.id
                    &&& id != r.ptcl_buf.id
                    &&& id != r.segments_buf.id
                } ==> #[trigger] contents(
                    access,
                    after,
                    id,
                ) == contents(access, before, id)
        }),
{
    reveal_with_fuel(written_slot, 11);
    let shaders = flow.shaders;
    let counts = flow.counts;
    let nothing = Contents::Nothing;
    let b1 = seq![buf(r.bump_buf), buf(r.indirect_count_buf)];
    let a1 = before.push(Action::Dispatch(shaders.path_count_setup, counts.path_count_setup, b1));
    lemma_dispatch(access, before, shaders.path_count_setup, counts.path_count_setup, b1);
    assert(found(access, before, shaders.path_count_setup, b1) =~= seq![
        flow.bump_of_tiles(),
        nothing,
    ]);
    let b2 = seq![
        buf(r.config_buf),
        buf(r.bump_buf),
        buf(r.lines_buf),
        buf(r.path_buf),
        buf(r.tile_buf),
        buf(r.seg_counts_buf),
    ];
    let a2 = a1.push(Action::DispatchIndirect(shaders.path_count, r.indirect_count_buf, 0, b2));
    lemma_dispatch_indirect(access, a1, shaders.path_count, r.indirect_count_buf, 0, b2);
    assert(found(access, a1, shaders.path_count, b2) =~= flow.at_path_count());
    let b3 = seq![buf(r.config_buf), buf(r.bump_buf), buf(r.path_buf), buf(r.tile_buf)];
    let a3 = a2.push(Action::Dispatch(shaders.backdrop, counts.backdrop, b3));
    lemma_dispatch(access, a2, shaders.backdrop, counts.backdrop, b3);
    assert(found(access, a2, shaders.backdrop, b3) =~= seq![
        flow.config,
        flow.bump_of_counts(),
        flow.paths(),
        flow.counted_tiles(),
    ]);
    let b4 = seq![
        buf(r.config_buf),
        buf(r.scene_buf),
        buf(r.draw_monoid_buf),
        buf(r.bin_header_buf),
        buf(r.info_bin_data_buf),
        buf(r.path_buf),
        buf(r.tile_buf),
        buf(r.bump_buf),
        buf(r.ptcl_buf),
    ];
    let a4 = a3.push(Action::Dispatch(shaders.coarse, counts.coarse, b4));
    lemma_dispatch(access, a3, shaders.coarse, counts.coarse, b4);
    assert(found(access, a3, shaders.coarse, b4) =~= flow.at_coarse());
    let b5 = seq![buf(r.bump_buf), buf(r.indirect_count_buf), buf(r.ptcl_buf)];
    let a5 = a4.push(Action::Dispatch(shaders.path_tiling_setup, counts.path_tiling_setup, b5));
    lemma_dispatch(access, a4, shaders.path_tiling_setup, counts.path_tiling_setup, b5);
    assert(found(access, a4, shaders.path_tiling_setup, b5) =~= flow.at_tiling_setup());
    let b6 = seq![
        buf(r.bump_buf),
        buf(r.seg_counts_buf),
        buf(r.lines_buf),
        buf(r.path_buf),
        buf(r.tile_buf),
        buf(r.segments_buf),
    ];
    let a6 = a5.push(Action::DispatchIndirect(shaders.path_tiling, r.indirect_count_buf, 0, b6));
    lemma_dispatch_indirect(access, a5, shaders.path_tiling, r.indirect_count_buf, 0, b6);
    assert(found(access, a5, shaders.path_tiling, b6) =~= flow.at_tiling());
    let qend = seq![
        Action::FreeBuffer(r.indirect_count_buf),
        Action::FreeBuffer(r.seg_counts_buf),
        Action::FreeBuffer(r.scene_buf),
        Action::FreeBuffer(r.draw_monoid_buf),
        Action::FreeBuffer(r.bin_header_buf),
        Action::FreeBuffer(r.path_buf),
    ];
    let end = a6 + qend;
    assert forall|id: u64| #[trigger] contents(access, end, id) == contents(access, a6, id) by {
        lemma_quiet(access, a6, qend, id);
    }
    assert(before + tile_actions(r, flow.shaders, flow.counts) =~= end);
}

/// The image atlas with these images written into it.
pub open spec fn atlas_with(images: Seq<(Pixels, u32, u32)>) -> Contents
    decreases images.len(),
{
    if images.len() == 0 {
        Contents::Nothing
    } else {
        let (pixels, x, y) = images.last();
        Contents::Drawn(Box::new(atlas_with(images.drop_last())), x, y, pixels)
    }
}

/// The gradient ramps of a scene, where it has some.
pub open spec fn gradients_of(images: SceneImages) -> Contents {
    if images.ramp_height == 0 {
        Contents::Nothing
    } else {
        Contents::Bytes(words_bytes(images.ramps))
    }
}

/// The writes of images into the atlas.
spec fn atlas_writes(atlas: ImageProxy, images: Seq<(Pixels, u32, u32)>) -> Seq<Action> {
    Seq::new(
        images.len(),
        |i: int| Action::WriteImage(atlas, images[i].1, images[i].2, images[i].0),
    )
}

/// What the atlas holds behind the writes of its images.
proof fn lemma_atlas_contents(
    access: Interface,
    before: Seq<Action>,
    atlas: ImageProxy,
    images: Seq<(Pixels, u32, u32)>,
)
    requires
        contents(access, before, atlas.id) is Nothing,
    ensures
        ({
            let after = before + atlas_writes(atlas, images);
            &&& contents(access, after, atlas.id) == atlas_with(images)
            &&& forall|id: u64|
                id != atlas.id ==> #[trigger] contents(access, after, id) == contents(
                    access,
                    before,
                    id,
                )
        }),
    decreases images.len(),
{
    if images.len() == 0 {
        assert(before + atlas_writes(atlas, images) =~= before);
    } else {
        let fewer = images.drop_last();
        let (pixels, x, y) = images.last();
        lemma_atlas_contents(access, before, atlas, fewer);
        lemma_draw(access, before + atlas_writes(atlas, fewer), atlas, x, y, pixels);
        assert(before + atlas_writes(atlas, images) =~= (before + atlas_writes(atlas, fewer)).push(
            Action::WriteImage(atlas, x, y, pixels),
        ));
    }
}

/// What the upload of a scene brings along.
proof fn lemma_input_contents(
    access: Interface,
    before: Seq<Action>,
    r: CoarseResources,
    first: int,
    next: int,
    packed: Seq<u8>,
    images: SceneImages,
    uniform: Seq<u32>,
)
    requires
        spread(r, first, next),
        contents(access, before, r.gradient_image.id) is Nothing,
        contents(access, before, r.image_atlas.id) is Nothing,
    ensures
        ({
            let after = before + input_actions(
                r,
                packed,
                images.ramps,
                images.ramp_height,
                images.atlas_images,
                uniform,
            );
            &&& contents(access, after, r.gradient_image.id) == gradients_of(images)
            &&& contents(access, after, r.image_atlas.id) == atlas_with(images.atlas_images)
            &&& contents(access, after, r.scene_buf.id) == Contents::Bytes(scene_bytes(packed))
            &&& contents(access, after, r.config_buf.id) == Contents::Bytes(words_bytes(uniform))
            &&& forall|id: u64|
                !(first <= id < first + 4) ==> #[trigger] contents(access, after, id) == contents(
                    access,
                    before,
                    id,
                )
        }),
{
    let ramps = words_bytes(images.ramps);
    lemma_upload_image(access, before, r.gradient_image, ramps);
    let a1 = if images.ramp_height == 0 {
        before
    } else {
        before.push(Action::UploadImage(r.gradient_image, ramps))
    };
    lemma_atlas_contents(access, a1, r.image_atlas, images.atlas_images);
    let a2 = a1 + atlas_writes(r.image_atlas, images.atlas_images);
    lemma_upload(access, a2, r.scene_buf, scene_bytes(packed));
    let a3 = a2.push(Action::Upload(r.scene_buf, scene_bytes(packed)));
    lemma_upload(access, a3, r.config_buf, words_bytes(uniform));
    let a4 = a3.push(Action::UploadUniform(r.config_buf, words_bytes(uniform)));
    assert(before + input_actions(
        r,
        packed,
        images.ramps,
        images.ramp_height,
        images.atlas_images,
        uniform,
    ) =~= a4);
}

/// What the stages of a pass work on.
pub open spec fn pass_flow(pass: CoarsePass) -> Flow {
    Flow {
        shaders: pass.shaders,
        counts: pass.config.workgroup_counts,
        large: pass.large(),
        scene: Contents::Bytes(scene_bytes(pass.packed)),
        config: Contents::Bytes(words_bytes(pass.config.uniform)),
    }
}

/// Whether nothing was put into a resource with an identity from `first` on.
pub open spec fn unused(access: Interface, actions: Seq<Action>, first: int) -> bool {
    forall|id: u64| first <= id ==> #[trigger] contents(access, actions, id) is Nothing
}

/// Behind coarse rasterization, fine rasterization is given the configuration of the
/// scene, the segments, the commands and the draw info that the stages made of the
/// scene, its gradient ramps and its images, and an image without contents. The bump
/// buffer holds the counters, and captured buffers hold the bounds of the paths and the
/// lines. Nothing but the resources of the pass is changed.
#[verifier::rlimit(40)]
pub proof fn lemma_coarse_contents(
    access: Interface,
    before: Seq<Action>,
    pass: CoarsePass,
    first: int,
    state: RenderState,
)
    requires
        follows(access, pass.shaders),
        0 <= first,
        first + pass.resource_count() <= u64::MAX,
        unused(access, before, first),
    ensures
        ({
            let after = before + pass.actions(first, state.debug_layers);
            let flow = pass_flow(pass);
            let prepared = pass.state_after(first, state);
            let fine = prepared.fine_resources->0;
            &&& prepared.fine_resources is Some
            &&& prepared.fine_wg_count == Some(pass.config.workgroup_counts.fine)
            &&& fine.aa_config == pass.params.antialiasing_method
            &&& contents(access, after, fine.config_buf.resource_id()) == flow.config
            &&& contents(access, after, fine.segments_buf.resource_id()) == flow.segments()
            &&& contents(access, after, fine.ptcl_buf.resource_id()) == flow.commands()
            &&& contents(access, after, fine.info_bin_data_buf.resource_id())
                == flow.info_bin_data()
            &&& contents(access, after, fine.bump_buf.resource_id()) == flow.bump_of_commands()
            &&& contents(access, after, fine.gradient_image.resource_id()) == gradients_of(
                pass.images,
            )
            &&& contents(access, after, fine.image_atlas.resource_id()) == atlas_with(
                pass.images.atlas_images,
            )
            &&& contents(access, after, fine.blend_spill_buf.resource_id()) is Nothing
            &&& contents(access, after, fine.out_image.id) is Nothing
            &&& pass.robust && state.debug_layers ==> {
                let captured = prepared.captured_buffers->0;
                &&& prepared.captured_buffers is Some
                &&& contents(access, after, captured.path_bboxes.id) == flow.path_bounds()
                &&& contents(access, after, captured.lines.id) == flow.lines()
            }
            &&& forall|id: u64|
                !(first <= id < first + pass.resource_count()) ==> #[trigger] contents(
                    access,
                    after,
                    id,
                ) == contents(access, before, id)
        }),
{
    let r = pass.resources(first);
    let next = if pass.large() {
        first + 11
    } else {
        first + 9
    };
    let flow = pass_flow(pass);
    let shaders = flow.shaders;
    let counts = flow.counts;
    let capture = pass.robust && state.debug_layers;
    assert(spread(r, first, next));
    lemma_input_contents(
        access,
        before,
        r,
        first,
        next,
        pass.packed,
        pass.images,
        pass.config.uniform,
    );
    let a0 = before + input_actions(
        r,
        pass.packed,
        pass.images.ramps,
        pass.images.ramp_height,
        pass.images.atlas_images,
        pass.config.uniform,
    );
    assert forall|id: u64| first + 4 <= id implies #[trigger] contents(access, a0, id) is Nothing by {
    }
    lemma_path_tag_contents(access, a0, r, flow, first, next);
    let a1 = a0 + path_tag_actions(r, shaders, counts);
    lemma_flatten_contents(access, a1, r, flow, first, next);
    let a2 = a1 + flatten_actions(r, shaders, counts);
    lemma_draw_contents(access, a2, r, flow, first, next);
    let a3 = a2 + draw_actions(r, shaders, counts);
    lemma_clip_contents(access, a3, r, flow, first, next);
    let a4 = a3 + clip_actions(r, shaders, counts);
    lemma_bin_contents(access, a4, r, flow, first, next);
    let a5 = a4 + bin_actions(r, shaders, counts);
    lemma_tile_contents(access, a5, r, flow, first, next);
    let a6 = a5 + tile_actions(r, shaders, counts);
    let finish = finish_actions(r, pass.robust, capture);
    let a7 = a6 + finish;
    assert forall|id: u64| #[trigger] contents(access, a7, id) == contents(access, a6, id) by {
        lemma_quiet(access, a6, finish, id);
    }
    assert(before + pass.actions(first, state.debug_layers) =~= a7);
}

/// Whether fine rasterization changes two resources that it does not read.
pub open spec fn fine_apart(state: RenderState) -> bool {
    let fine = state.fine_resources->0;
    let spill = fine.blend_spill_buf.resource_id();
    let reads = seq![
        fine.config_buf.resource_id(),
        fine.segments_buf.resource_id(),
        fine.ptcl_buf.resource_id(),
        fine.info_bin_data_buf.resource_id(),
        fine.gradient_image.resource_id(),
        fine.image_atlas.resource_id(),
    ];
    &&& spill != fine.out_image.id
    &&& !reads.contains(spill)
    &&& !reads.contains(fine.out_image.id)
}

/// Behind fine rasterization, the image holds what the shader for the way to smooth edges
/// made, in the workgroups that were asked for, of what it held before, and of the
/// configuration, the segments, the commands, the draw info, the gradients and the images,
/// each at its binding; and of the sample masks, where the edges are smoothed by samples.
/// Nothing else is changed but the blend spill and the buffer of the masks.
pub proof fn lemma_fine_contents(
    access: Interface,
    before: Seq<Action>,
    state: RenderState,
    first: int,
    shaders: FullShaders,
    mask_lut: Seq<u8>,
)
    requires
        follows(access, shaders),
        state.ready_for_fine(shaders),
        state.mask_buf is None,
        fine_apart(state),
        0 <= first <= u64::MAX,
        ({
            let fine = state.fine_resources->0;
            &&& fine.config_buf.resource_id() < first
            &&& fine.segments_buf.resource_id() < first
            &&& fine.ptcl_buf.resource_id() < first
            &&& fine.info_bin_data_buf.resource_id() < first
            &&& fine.blend_spill_buf.resource_id() < first
            &&& fine.out_image.id < first
            &&& fine.gradient_image.resource_id() < first
            &&& fine.image_atlas.resource_id() < first
        }),
    ensures
        ({
            let after = before + state.fine_actions(first, shaders, mask_lut);
            let fine = state.fine_resources->0;
            let inputs = seq![
                contents(access, before, fine.config_buf.resource_id()),
                contents(access, before, fine.segments_buf.resource_id()),
                contents(access, before, fine.ptcl_buf.resource_id()),
                contents(access, before, fine.info_bin_data_buf.resource_id()),
                contents(access, before, fine.blend_spill_buf.resource_id()),
                contents(access, before, fine.out_image.id),
                contents(access, before, fine.gradient_image.resource_id()),
                contents(access, before, fine.image_atlas.resource_id()),
            ];
            let groups = state.fine_wg_count->0;
            &&& contents(access, after, fine.out_image.id) == match fine.aa_config {
                AaConfig::Area => made(shaders.fine_area->0, groups, 5, inputs),
                AaConfig::Msaa8 => made(
                    shaders.fine_msaa8->0,
                    groups,
                    5,
                    inputs.push(Contents::Bytes(mask_lut)),
                ),
                AaConfig::Msaa16 => made(
                    shaders.fine_msaa16->0,
                    groups,
                    5,
                    inputs.push(Contents::Bytes(mask_lut)),
                ),
            }
            &&& forall|id: u64|
                id != fine.out_image.id && id != fine.blend_spill_buf.resource_id() && !(
                fine.aa_config != AaConfig::Area && id == first) ==> #[trigger] contents(
                    access,
                    after,
                    id,
                ) == contents(access, before, id)
        }),
{
    reveal_with_fuel(written_slot, 11);
    let f = state.fine_resources->0;
    let spill = f.blend_spill_buf.resource_id();
    let reads = seq![
        f.config_buf.resource_id(),
        f.segments_buf.resource_id(),
        f.ptcl_buf.resource_id(),
        f.info_bin_data_buf.resource_id(),
        f.gradient_image.resource_id(),
        f.image_atlas.resource_id(),
    ];
    assert(reads[0] == f.config_buf.resource_id());
    assert(reads[1] == f.segments_buf.resource_id());
    assert(reads[2] == f.ptcl_buf.resource_id());
    assert(reads[3] == f.info_bin_data_buf.resource_id());
    assert(reads[4] == f.gradient_image.resource_id());
    assert(reads[5] == f.image_atlas.resource_id());
    let inputs = seq![
        contents(access, before, f.config_buf.resource_id()),
        contents(access, before, f.segments_buf.resource_id()),
        contents(access, before, f.ptcl_buf.resource_id()),
        contents(access, before, f.info_bin_data_buf.resource_id()),
        contents(access, before, f.blend_spill_buf.resource_id()),
        contents(access, before, f.out_image.id),
        contents(access, before, f.gradient_image.resource_id()),
        contents(access, before, f.image_atlas.resource_id()),
    ];
    let common = seq![
        f.config_buf,
        f.segments_buf,
        f.ptcl_buf,
        f.info_bin_data_buf,
        f.blend_spill_buf,
        ResourceProxy::Image(f.out_image),
        f.gradient_image,
        f.image_atlas,
    ];
    let mask = nth_buffer(first, 0, mask_lut.len() as u64, "vello.mask_lut");
    let all = state.fine_actions(first, shaders, mask_lut);
    let groups = state.fine_wg_count->0;
    let area = f.aa_config == AaConfig::Area;
    lemma_upload(access, before, mask, mask_lut);
    let a1 = if area {
        before
    } else {
        before.push(Action::Upload(mask, mask_lut))
    };
    let shader = match f.aa_config {
        AaConfig::Area => shaders.fine_area->0,
        AaConfig::Msaa8 => shaders.fine_msaa8->0,
        AaConfig::Msaa16 => shaders.fine_msaa16->0,
    };
    let bindings = if area {
        common
    } else {
        common.push(buf(mask))
    };
    let a2 = a1.push(Action::Dispatch(shader, groups, bindings));
    lemma_dispatch(access, a1, shader, groups, bindings);
    assert(found(access, a1, shader, bindings) =~= if area {
        inputs
    } else {
        inputs.push(Contents::Bytes(mask_lut))
    });
    let quiet = all.skip(a2.len() - before.len());
    let a3 = a2 + quiet;
    assert forall|id: u64| #[trigger] contents(access, a3, id) == contents(access, a2, id) by {
        lemma_quiet(access, a2, quiet, id);
    }
    assert(before + all =~= a3);
}

/// An image with a background written into it, where there is one.
pub open spec fn canvas_with(background: Option<Pixels>) -> Contents {
    match background {
        Some(pixels) => Contents::Drawn(Box::new(Contents::Nothing), 0, 0, pixels),
        None => Contents::Nothing,
    }
}

/// What is in the image of a pass: what fine rasterization makes of what the stages of the
/// pass made of its scene, over a background, where there is one.
pub open spec fn rendered(
    pass: CoarsePass,
    background: Option<Pixels>,
    mask_lut: Seq<u8>,
) -> Contents {
    let flow = pass_flow(pass);
    let inputs = seq![
        flow.config,
        flow.segments(),
        flow.commands(),
        flow.info_bin_data(),
        Contents::Nothing,
        canvas_with(background),
        gradients_of(pass.images),
        atlas_with(pass.images.atlas_images),
    ];
    let groups = pass.config.workgroup_counts.fine;
    match pass.params.antialiasing_method {
        AaConfig::Area => made(pass.shaders.fine_area->0, groups, 5, inputs),
        AaConfig::Msaa8 => made(
            pass.shaders.fine_msaa8->0,
            groups,
            5,
            inputs.push(Contents::Bytes(mask_lut)),
        ),
        AaConfig::Msaa16 => made(
            pass.shaders.fine_msaa16->0,
            groups,
            5,
            inputs.push(Contents::Bytes(mask_lut)),
        ),
    }
}

/// The actions between coarse and fine rasterization.
pub open spec fn background_actions(image: ImageProxy, background: Option<Pixels>) -> Seq<Action> {
    match background {
        Some(pixels) => seq![Action::WriteImage(image, 0, 0, pixels)],
        None => Seq::empty(),
    }
}

/// Behind coarse rasterization, a background that is written into the image, where there
/// is one, and fine rasterization, the image of a pass holds what is made of the scene
/// over that background. Nothing but the resources of the pass is changed.
pub proof fn lemma_pass_contents(
    access: Interface,
    before: Seq<Action>,
    pass: CoarsePass,
    first: int,
    state: RenderState,
    background: Option<Pixels>,
    mask_lut: Seq<u8>,
)
    requires
        follows(access, pass.shaders),
        0 <= first,
        first + pass.resource_count() + 1 <= u64::MAX,
        unused(access, before, first),
        state.mask_buf is None,
        pass.state_after(first, state).ready_for_fine(pass.shaders),
    ensures
        ({
            let prepared = pass.state_after(first, state);
            let image = prepared.fine_resources->0.out_image;
            let last = first + pass.resource_count();
            let after = before + pass.actions(first, state.debug_layers) + background_actions(
                image,
                background,
            ) + prepared.fine_actions(last, pass.shaders, mask_lut);
            &&& contents(access, after, image.id) == rendered(pass, background, mask_lut)
            &&& first <= image.id < last
            &&& forall|id: u64|
                !(first <= id < last + if pass.params.antialiasing_method == AaConfig::Area {
                    0int
                } else {
                    1
                }) ==> #[trigger] contents(access, after, id) == contents(access, before, id)
        }),
{
    let prepared = pass.state_after(first, state);
    let image = prepared.fine_resources->0.out_image;
    let fine = prepared.fine_resources->0;
    let last = first + pass.resource_count();
    let next = if pass.large() {
        first + 11
    } else {
        first + 9
    };
    assert(spread(pass.resources(first), first, next));
    let a1 = before + pass.actions(first, state.debug_layers);
    lemma_coarse_contents(access, before, pass, first, state);
    let a2 = a1 + background_actions(image, background);
    if let Some(pixels) = background {
        lemma_draw(access, a1, image, 0, 0, pixels);
        assert(a2 =~= a1.push(Action::WriteImage(image, 0, 0, pixels)));
    } else {
        assert(a2 =~= a1);
    }
    lemma_fine_contents(access, a2, prepared, last, pass.shaders, mask_lut);
    let flow = pass_flow(pass);
    let canvas = canvas_with(background);
    assert(contents(access, a2, image.id) == canvas);
    let given = seq![
        contents(access, a2, fine.config_buf.resource_id()),
        contents(access, a2, fine.segments_buf.resource_id()),
        contents(access, a2, fine.ptcl_buf.resource_id()),
        contents(access, a2, fine.info_bin_data_buf.resource_id()),
        contents(access, a2, fine.blend_spill_buf.resource_id()),
        contents(access, a2, fine.out_image.id),
        contents(access, a2, fine.gradient_image.resource_id()),
        contents(access, a2, fine.image_atlas.resource_id()),
    ];
    let wanted = seq![
        flow.config,
        flow.segments(),
        flow.commands(),
        flow.info_bin_data(),
        Contents::Nothing,
        canvas,
        gradients_of(pass.images),
        atlas_with(pass.images.atlas_images),
    ];
    assert(given =~= wanted);
    let after = a2 + prepared.fine_actions(last, pass.shaders, mask_lut);
    assert(given.push(Contents::Bytes(mask_lut)) == wanted.push(Contents::Bytes(mask_lut)));
    match fine.aa_config {
        AaConfig::Area => {
            assert(contents(access, after, image.id) == rendered(pass, background, mask_lut));
        },
        AaConfig::Msaa8 => {
            assert(contents(access, after, image.id) == rendered(pass, background, mask_lut));
        },
        AaConfig::Msaa16 => {
            assert(contents(access, after, image.id) == rendered(pass, background, mask_lut));
        },
    }
    assert(first <= image.id < last);
    assert forall|id: u64|
        !(first <= id < last + if pass.params.antialiasing_method == AaConfig::Area {
            0int
        } else {
            1
        }) implies #[trigger] contents(access, after, id) == contents(access, before, id) by {
        assert(contents(access, after, id) == contents(access, a2, id));
        assert(contents(access, a2, id) == contents(access, a1, id));
    }
}

/// Each resource of a pass has the size that was computed for what the stages put into it:
/// uploads fit the buffers that they go to, and images without contents have one pixel.
pub proof fn lemma_pass_sizes(pass: CoarsePass, first: int)
    requires
        pass.packed.len() <= u64::MAX,
    ensures
        ({
            let r = pass.resources(first);
            let sizes = pass.config.buffer_sizes;
            let images = pass.images;
            &&& r.scene_buf.size == scene_bytes(pass.packed).len()
            &&& pass.config.uniform.len() == 22 ==> r.config_buf.size == words_bytes(
                pass.config.uniform,
            ).len()
            &&& r.info_bin_data_buf.size == sizes.bin_data
            &&& r.tile_buf.size == sizes.tiles
            &&& r.segments_buf.size == sizes.segments
            &&& r.ptcl_buf.size == sizes.ptcl
            &&& r.reduced_buf.size == sizes.path_reduced
            &&& r.large_pathtag_bufs is Some <==> pass.large()
            &&& r.large_pathtag_bufs matches Some((reduced2, reduced_scan)) ==> {
                &&& reduced2.size == sizes.path_reduced2
                &&& reduced_scan.size == sizes.path_reduced_scan
            }
            &&& r.tagmonoid_buf.size == sizes.path_monoids
            &&& r.path_bbox_buf.size == sizes.path_bboxes
            &&& r.bump_buf.size == sizes.bump_alloc
            &&& r.lines_buf.size == sizes.lines
            &&& r.draw_reduced_buf.size == sizes.draw_reduced
            &&& r.draw_monoid_buf.size == sizes.draw_monoids
            &&& r.clip_inp_buf.size == sizes.clip_inps
            &&& r.clip_el_buf.size == sizes.clip_els
            &&& r.clip_bic_buf.size == sizes.clip_bics
            &&& r.clip_bbox_buf.size == sizes.clip_bboxes
            &&& r.draw_bbox_buf.size == sizes.draw_bboxes
            &&& r.bin_header_buf.size == sizes.bin_headers
            &&& r.path_buf.size == sizes.paths
            &&& r.indirect_count_buf.size == sizes.indirect_count
            &&& r.seg_counts_buf.size == sizes.seg_counts
            &&& r.blend_spill_buf.size == sizes.blend_spill
            &&& r.out_image.width == pass.params.width
            &&& r.out_image.height == pass.params.height
            &&& if images.ramp_height == 0 {
                r.gradient_image.width == 1 && r.gradient_image.height == 1
            } else {
                &&& r.gradient_image.width == images.ramp_width
                &&& r.gradient_image.height == images.ramp_height
            }
            &&& if images.atlas_images.len() == 0 {
                r.image_atlas.width == 1 && r.image_atlas.height == 1
            } else {
                &&& r.image_atlas.width == images.atlas_width
                &&& r.image_atlas.height == images.atlas_height
            }
        }),
{
}

/// Each stage runs in the workgroups that were computed for it, and each buffer whose size
/// depends on the scene has the size that was computed for it.
pub proof fn lemma_pass_config(values: ConfigValues)
    requires
        values.workgroups.len() == 17,
        values.sizes.len() == 16,
    ensures
        ({
            let counts = configured(values).workgroup_counts;
            let sizes = configured(values).buffer_sizes;
            &&& configured(values).uniform == values.uniform
            &&& counts.use_large_path_scan == values.use_large_path_scan
            &&& seq![
                counts.path_reduce,
                counts.path_reduce2,
                counts.path_scan1,
                counts.path_scan,
                counts.bbox_clear,
                counts.flatten,
                counts.draw_reduce,
                counts.draw_leaf,
                counts.clip_reduce,
                counts.clip_leaf,
                counts.binning,
                counts.tile_alloc,
                counts.path_count_setup,
                counts.backdrop,
                counts.coarse,
                counts.path_tiling_setup,
                counts.fine,
            ] == values.workgroups
            &&& seq![
                sizes.path_reduced as u32,
                sizes.path_reduced2 as u32,
                sizes.path_reduced_scan as u32,
                sizes.path_monoids as u32,
                sizes.path_bboxes as u32,
                sizes.draw_reduced as u32,
                sizes.draw_monoids as u32,
                sizes.clip_inps as u32,
                sizes.clip_els as u32,
                sizes.clip_bics as u32,
                sizes.clip_bboxes as u32,
                sizes.draw_bboxes as u32,
                sizes.bump_alloc as u32,
                sizes.indirect_count as u32,
                sizes.bin_headers as u32,
                sizes.paths as u32,
            ] == values.sizes
        }),
{
    let counts = configured(values).workgroup_counts;
    let sizes = configured(values).buffer_sizes;
    assert(seq![
        counts.path_reduce,
        counts.path_reduce2,
        counts.path_scan1,
        counts.path_scan,
        counts.bbox_clear,
        counts.flatten,
        counts.draw_reduce,
        counts.draw_leaf,
        counts.clip_reduce,
        counts.clip_leaf,
        counts.binning,
        counts.tile_alloc,
        counts.path_count_setup,
        counts.backdrop,
        counts.coarse,
        counts.path_tiling_setup,
        counts.fine,
    ] =~= values.workgroups);
    assert(seq![
        sizes.path_reduced as u32,
        sizes.path_reduced2 as u32,
        sizes.path_reduced_scan as u32,
        sizes.path_monoids as u32,
        sizes.path_bboxes as u32,
        sizes.draw_reduced as u32,
        sizes.draw_monoids as u32,
        sizes.clip_inps as u32,
        sizes.clip_els as u32,
        sizes.clip_bics as u32,
        sizes.clip_bboxes as u32,
        sizes.draw_bboxes as u32,
        sizes.bump_alloc as u32,
        sizes.indirect_count as u32,
        sizes.bin_headers as u32,
        sizes.paths as u32,
    ] =~= values.sizes);
}

} // verus!
