//! Replay of a scene in segments that end at its backdrops.
//!
//! The draw objects before the first backdrop, between two backdrops and after
//! the last one are rendered each on their own, so that a backdrop samples
//! exactly what was painted before it. Not every scene allows that.

use vstd::prelude::*;

use crate::layers::{
    allow_prefirst_paint_free_non_replay_safe_boundary, draw_data_offsets, layer_seed_state_at,
    layer_seed_states, post_first_backdrop_boundary_allows_non_replay_safe_painted, LayerSeedState,
};
use crate::ranges::{
    first_range_supports_seeded_non_clip_layers, replay_range_non_replay_safe_layers_paint_free,
    replay_range_supports_layers,
};

verus! {

use crate::layers::{boundary_allows_painted, data_offsets, seed_at, LayerSeed};
use crate::ranges::{first_range_supported, range_paint_free, range_supported};

/// A part of a scene that is rendered on its own: a range of draw objects, the
/// draw objects before it that open its layers, and the number of layers that
/// are closed behind it.
#[verifier::ext_equal]
pub struct SegmentRange {
    pub draw_start: u32,
    pub draw_end: u32,
    pub seeds: Seq<u32>,
    pub ends: u32,
}

/// A part of a scene that is rendered on its own.
#[derive(Debug, PartialEq, Eq)]
pub struct Segment {
    /// The first draw object of the range.
    pub draw_start: u32,
    /// The draw object after the range.
    pub draw_end: u32,
    /// The draw objects before the range that open its layers.
    pub clip_seed_begin_draws: Vec<u32>,
    /// The number of layers that are closed behind the range.
    pub synthetic_end_clip_count: u32,
}

impl View for Segment {
    type V = SegmentRange;

    open spec fn view(&self) -> SegmentRange {
        SegmentRange {
            draw_start: self.draw_start,
            draw_end: self.draw_end,
            seeds: self.clip_seed_begin_draws@,
            ends: self.synthetic_end_clip_count,
        }
    }
}

/// What the replay of a scene depends on: its draw tags and draw data, the
/// number of its draw objects, and the draw indices of its backdrops.
#[verifier::ext_equal]
pub struct ReplayInput {
    pub draw_tags: Seq<u32>,
    pub draw_data: Seq<u32>,
    pub n_draw_objects: u32,
    pub ops: Seq<u32>,
}

impl ReplayInput {
    /// Whether the scene has one backdrop.
    pub open spec fn single(self) -> bool {
        self.ops.len() == 1
    }

    /// Whether the scene has more than one backdrop.
    pub open spec fn multiple(self) -> bool {
        self.ops.len() > 1
    }

    /// Where the range before the first backdrop ends.
    pub open spec fn first_end(self) -> u32 {
        if self.ops.len() > 0 {
            self.ops[0]
        } else {
            self.n_draw_objects
        }
    }

    /// Where the range before backdrop `k` starts: behind the backdrop before
    /// it. With `k` the number of backdrops, where the range behind the last
    /// backdrop starts.
    pub open spec fn cursor(self, k: int) -> u32 {
        if k <= 0 {
            self.first_end()
        } else if self.ops[k - 1] < u32::MAX {
            (self.ops[k - 1] + 1) as u32
        } else {
            u32::MAX
        }
    }

    /// The layers that are open before draw object `draw`, where there are so
    /// many draw objects.
    pub open spec fn seed(self, draw: u32) -> Option<LayerSeed> {
        if draw <= self.draw_tags.len() {
            seed_at(self.draw_tags, self.draw_data, draw as int)
        } else {
            None
        }
    }

    /// Whether the draw objects from `start` to `end` paint nothing under layers
    /// that forbid it.
    pub open spec fn paint_free(self, start: u32, end: u32) -> bool {
        range_paint_free(
            self.draw_tags,
            self.draw_data,
            data_offsets(self.draw_tags),
            start as int,
            end as int,
            self.seed(start),
        )
    }

    /// Whether the draw objects from `start` to `end` can be replayed on account
    /// of the layers that begin among them.
    pub open spec fn supported(self, start: u32, end: u32) -> bool {
        range_supported(
            self.draw_tags,
            self.draw_data,
            data_offsets(self.draw_tags),
            start as int,
            end as int,
            self.multiple(),
            self.multiple(),
        )
    }

    /// Whether the paint-free range before the first backdrop counts at later
    /// boundaries.
    pub open spec fn first_range_counts(self) -> bool {
        self.paint_free(0, self.first_end()) && self.ops.len() > 2
    }

    /// Whether a boundary inside layers that do more than clip is allowed, given
    /// whether the range before it is paint-free and whether paint is allowed.
    pub open spec fn boundary_supports(
        self,
        seed: LayerSeed,
        paint_free: bool,
        painted_allowed: bool,
    ) -> bool {
        ||| !seed.has_active_non_clip
        ||| self.single()
        ||| self.multiple() && (seed.active_non_clip_replay_safe || paint_free || painted_allowed)
    }

    /// Whether a boundary may fall inside layers under which the range has painted.
    pub open spec fn painted_allowed(self, draw: u32) -> bool {
        self.seed(draw) is Some && boundary_allows_painted(
            self.seed(draw)->0,
            self.first_end(),
            self.multiple(),
            self.first_range_counts(),
        )
    }

    /// Whether the scene can be cut before draw object `draw`, given whether the
    /// range is paint-free.
    pub open spec fn boundary_allowed(self, draw: u32, paint_free: bool) -> bool {
        self.seed(draw) is Some && self.boundary_supports(
            self.seed(draw)->0,
            paint_free,
            self.painted_allowed(draw),
        )
    }

    /// Whether the range before the first backdrop can be replayed.
    pub open spec fn first_range_allowed(self) -> bool {
        let offsets = data_offsets(self.draw_tags);
        let closable = first_range_supported(
            self.draw_tags,
            self.draw_data,
            offsets,
            self.first_end() as int,
            false,
            false,
        );
        ||| self.supported(0, self.first_end())
        ||| self.single() && closable
        ||| self.multiple() && self.paint_free(0, self.first_end()) && closable
    }

    /// Where the range that decides on the boundary before backdrop `k` starts.
    pub open spec fn boundary_range_start(self, k: int) -> u32 {
        if self.ops[k] == self.first_end() {
            0
        } else {
            self.cursor(k)
        }
    }

    /// Whether the scene can be cut at backdrop `k`.
    pub open spec fn op_allowed(self, k: int) -> bool {
        let op = self.ops[k];
        let cursor = self.cursor(k);
        let paint_free = self.paint_free(self.boundary_range_start(k), op);
        &&& op > 0 ==> self.boundary_allowed(op, paint_free)
        &&& cursor < op ==> {
            &&& self.supported(cursor, op) || (self.multiple() && paint_free)
            &&& cursor > 0 ==> self.boundary_allowed(cursor, paint_free)
        }
    }

    /// Whether the range behind the last backdrop can be replayed.
    pub open spec fn tail_allowed(self) -> bool {
        let cursor = self.cursor(self.ops.len() as int);
        let paint_free = self.paint_free(cursor, self.n_draw_objects);
        cursor < self.n_draw_objects ==> {
            &&& self.supported(cursor, self.n_draw_objects) || (self.multiple() && paint_free)
            &&& cursor > 0 ==> self.boundary_allowed(cursor, paint_free)
        }
    }

    /// Whether the layers of the scene nest.
    pub open spec fn nests(self) -> bool {
        seed_at(self.draw_tags, self.draw_data, self.draw_tags.len() as int) is Some
    }

    /// Whether the scene can be replayed in segments: its layers nest, its
    /// backdrops are draw objects, and it can be cut at each of them.
    pub open spec fn replayable(self) -> bool {
        &&& self.nests()
        &&& forall|k: int|
            0 <= k < self.ops.len() ==> (#[trigger] self.ops[k]) < self.draw_tags.len()
        &&& self.first_range_allowed()
        &&& forall|k: int| 0 <= k < self.ops.len() ==> #[trigger] self.op_allowed(k)
        &&& self.tail_allowed()
    }

    /// The number of layers that are closed behind a range that ends before
    /// draw object `draw`: all open ones, where some do more than clip and the
    /// boundary allows it.
    pub open spec fn closed_layers(self, draw: u32, paint_free: bool, painted_allowed: bool) -> u32 {
        match self.seed(draw) {
            Some(seed) => if seed.has_active_non_clip && self.boundary_supports(
                seed,
                paint_free,
                painted_allowed,
            ) {
                seed.begin_draws.len() as u32
            } else {
                0
            },
            None => 0,
        }
    }

    /// The draw objects that open the layers of a range that starts at `cursor`.
    pub open spec fn opening_draws(self, cursor: u32) -> Seq<u32> {
        if cursor > 0 && self.seed(cursor) is Some {
            self.seed(cursor)->0.begin_draws
        } else {
            Seq::empty()
        }
    }

    /// The segment before the first backdrop.
    #[verifier::opaque]
    pub open spec fn first_segment(self) -> SegmentRange {
        SegmentRange {
            draw_start: 0,
            draw_end: self.first_end(),
            seeds: Seq::empty(),
            ends: self.closed_layers(
                self.first_end(),
                self.paint_free(0, self.first_end()),
                false,
            ),
        }
    }

    /// The segment before backdrop `k`, behind the backdrop before it.
    #[verifier::opaque]
    pub open spec fn segment_before(self, k: int) -> SegmentRange {
        let op = self.ops[k];
        let cursor = self.cursor(k);
        SegmentRange {
            draw_start: cursor,
            draw_end: op,
            seeds: self.opening_draws(cursor),
            ends: self.closed_layers(op, self.paint_free(cursor, op), self.painted_allowed(op)),
        }
    }

    /// The segment behind the last backdrop.
    #[verifier::opaque]
    pub open spec fn tail_segment(self) -> SegmentRange {
        let cursor = self.cursor(self.ops.len() as int);
        SegmentRange {
            draw_start: cursor,
            draw_end: self.n_draw_objects,
            seeds: self.opening_draws(cursor),
            ends: 0,
        }
    }
}

/// A scene with its layers, as its replay in segments needs it.
pub struct ReplayScene {
    draw_tags: Vec<u32>,
    draw_data: Vec<u32>,
    draw_offsets: Vec<usize>,
    states: Vec<LayerSeedState>,
    n_draw_objects: u32,
    ops: Vec<u32>,
    first_range_paint_free: bool,
}

impl View for ReplayScene {
    type V = ReplayInput;

    closed spec fn view(&self) -> ReplayInput {
        ReplayInput {
            draw_tags: self.draw_tags@,
            draw_data: self.draw_data@,
            n_draw_objects: self.n_draw_objects,
            ops: self.ops@,
        }
    }
}

impl ReplayScene {
    /// Whether what is held of the layers is what the draw objects say.
    pub closed spec fn wf(&self) -> bool {
        &&& self.draw_offsets@ == data_offsets(self.draw_tags@)
        &&& self.states.len() == self.draw_tags.len() + 1
        &&& forall|ix: int|
            0 <= ix <= self.draw_tags.len() ==> seed_at(self.draw_tags@, self.draw_data@, ix)
                == Some((#[trigger] self.states[ix])@)
        &&& self.first_range_paint_free == self@.paint_free(0, self@.first_end())
    }

    /// The scene with these draw objects and backdrops, where its layers nest.
    pub fn new(
        draw_tags: Vec<u32>,
        draw_data: Vec<u32>,
        n_draw_objects: u32,
        ops: Vec<u32>,
    ) -> (scene: Option<ReplayScene>)
        ensures
            ({
                let input = ReplayInput {
                    draw_tags: draw_tags@,
                    draw_data: draw_data@,
                    n_draw_objects,
                    ops: ops@,
                };
                match scene {
                    Some(scene) => scene.wf() && scene@ == input && input.nests(),
                    None => !input.nests(),
                }
            }),
    {
        let draw_offsets = draw_data_offsets(draw_tags.as_slice());
        let states = match layer_seed_states(draw_tags.as_slice(), draw_data.as_slice()) {
            Some(states) => states,
            None => {
                return None;
            },
        };
        let first_end: u32 = if ops.len() > 0 {
            ops[0]
        } else {
            n_draw_objects
        };
        let first_range_paint_free = replay_range_non_replay_safe_layers_paint_free(
            draw_tags.as_slice(),
            draw_data.as_slice(),
            draw_offsets.as_slice(),
            0,
            first_end,
            layer_seed_state_at(states.as_slice(), 0),
        );
        let scene = ReplayScene {
            draw_tags,
            draw_data,
            draw_offsets,
            states,
            n_draw_objects,
            ops,
            first_range_paint_free,
        };
        proof {
            let n = scene.draw_tags.len() as int;
            assert(scene.states[0]@ == scene@.seed(0)->0);
            assert(seed_at(scene.draw_tags@, scene.draw_data@, n) == Some(scene.states[n]@));
        }
        Some(scene)
    }

    /// The number of backdrops.
    pub fn op_count(&self) -> (count: usize)
        ensures
            count == self@.ops.len(),
    {
        self.ops.len()
    }

    /// Where the range before the first backdrop ends.
    fn first_end(&self) -> (end: u32)
        ensures
            end == self@.first_end(),
    {
        if self.ops.len() > 0 {
            self.ops[0]
        } else {
            self.n_draw_objects
        }
    }

    /// Where the range before backdrop `k` starts.
    fn cursor(&self, k: usize) -> (cursor: u32)
        requires
            k <= self@.ops.len(),
        ensures
            cursor == self@.cursor(k as int),
    {
        if k == 0 {
            self.first_end()
        } else {
            self.ops[k - 1].saturating_add(1)
        }
    }

    /// The layers that are open before draw object `draw`.
    fn seed_state(&self, draw: u32) -> (state: Option<&LayerSeedState>)
        requires
            self.wf(),
        ensures
            match state {
                Some(state) => self@.seed(draw) == Some(state@),
                None => self@.seed(draw) is None,
            },
    {
        assert(draw <= self.draw_tags.len() ==> self.states[draw as int]@
            == self.states[draw as int]@);
        layer_seed_state_at(self.states.as_slice(), draw)
    }

    /// Whether the draw objects from `start` to `end` paint nothing under layers
    /// that forbid it.
    fn paint_free(&self, start: u32, end: u32) -> (paint_free: bool)
        requires
            self.wf(),
        ensures
            paint_free == self@.paint_free(start, end),
    {
        let seed_state = self.seed_state(start);
        replay_range_non_replay_safe_layers_paint_free(
            self.draw_tags.as_slice(),
            self.draw_data.as_slice(),
            self.draw_offsets.as_slice(),
            start,
            end,
            seed_state,
        )
    }

    /// Whether the draw objects from `start` to `end` can be replayed on account
    /// of the layers that begin among them.
    fn supported(&self, start: u32, end: u32) -> (supported: bool)
        requires
            self.wf(),
        ensures
            supported == self@.supported(start, end),
    {
        let multiple = self.ops.len() > 1;
        replay_range_supports_layers(
            self.draw_tags.as_slice(),
            self.draw_data.as_slice(),
            self.draw_offsets.as_slice(),
            start,
            end,
            multiple,
            multiple,
        )
    }

    /// Whether a boundary inside layers that do more than clip is allowed.
    fn boundary_supports_non_clip(
        &self,
        state: &LayerSeedState,
        paint_free: bool,
        painted_allowed: bool,
    ) -> (supported: bool)
        ensures
            supported == self@.boundary_supports(state@, paint_free, painted_allowed),
    {
        !state.has_active_non_clip || self.ops.len() == 1 || (self.ops.len() > 1 && (
        state.active_non_clip_replay_safe || paint_free || painted_allowed))
    }

    /// Whether a boundary may fall inside layers under which the range has painted.
    fn painted_allowed(&self, draw: u32) -> (allowed: bool)
        requires
            self.wf(),
        ensures
            allowed == self@.painted_allowed(draw),
    {
        match self.seed_state(draw) {
            Some(state) => post_first_backdrop_boundary_allows_non_replay_safe_painted(
                state,
                self.first_end(),
                self.ops.len() > 1,
                self.first_range_paint_free && (self.ops.len() > 1
                    && allow_prefirst_paint_free_non_replay_safe_boundary(self.ops.len())),
            ),
            None => false,
        }
    }

    /// Whether the scene can be cut before draw object `draw`.
    fn boundary_allowed(&self, draw: u32, paint_free: bool) -> (allowed: bool)
        requires
            self.wf(),
        ensures
            allowed == self@.boundary_allowed(draw, paint_free),
    {
        let painted_allowed = self.painted_allowed(draw);
        match self.seed_state(draw) {
            Some(state) => self.boundary_supports_non_clip(state, paint_free, painted_allowed),
            None => false,
        }
    }

    /// Whether the range before the first backdrop can be replayed.
    fn first_range_allowed(&self) -> (allowed: bool)
        requires
            self.wf(),
        ensures
            allowed == self@.first_range_allowed(),
    {
        let first_end: u32 = self.first_end();
        if self.supported(0, first_end) {
            return true;
        }
        if self.ops.len() == 0 || (self.ops.len() > 1 && !self.first_range_paint_free) {
            return false;
        }
        first_range_supports_seeded_non_clip_layers(
            self.draw_tags.as_slice(),
            self.draw_data.as_slice(),
            self.draw_offsets.as_slice(),
            first_end,
            false,
            false,
        )
    }

    /// Whether the scene can be cut at backdrop `k`.
    fn op_allowed(&self, k: usize) -> (allowed: bool)
        requires
            self.wf(),
            k < self@.ops.len(),
        ensures
            allowed == self@.op_allowed(k as int),
    {
        let multiple = self.ops.len() > 1;
        let op: u32 = self.ops[k];
        let cursor: u32 = self.cursor(k);
        let range_start: u32 = if op == self.first_end() {
            0
        } else {
            cursor
        };
        let paint_free = self.paint_free(range_start, op);
        if op > 0 && !self.boundary_allowed(op, paint_free) {
            return false;
        }
        if cursor < op {
            if !(self.supported(cursor, op) || (multiple && paint_free)) {
                return false;
            }
            if cursor > 0 && !self.boundary_allowed(cursor, paint_free) {
                return false;
            }
        }
        true
    }

    /// Whether the range behind the last backdrop can be replayed.
    fn tail_allowed(&self) -> (allowed: bool)
        requires
            self.wf(),
        ensures
            allowed == self@.tail_allowed(),
    {
        let multiple = self.ops.len() > 1;
        let cursor: u32 = self.cursor(self.ops.len());
        if cursor < self.n_draw_objects {
            let paint_free = self.paint_free(cursor, self.n_draw_objects);
            if !(self.supported(cursor, self.n_draw_objects) || (multiple && paint_free)) {
                return false;
            }
            if cursor > 0 && !self.boundary_allowed(cursor, paint_free) {
                return false;
            }
        }
        true
    }

    /// Whether the scene can be replayed in segments.
    pub fn replayable(&self) -> (replayable: bool)
        requires
            self.wf(),
            self@.nests(),
        ensures
            replayable == self@.replayable(),
    {
        let in_range = supports_segment_replay(self.ops.as_slice(), self.draw_tags.as_slice());
        assert(in_range == forall|k: int|
            0 <= k < self@.ops.len() ==> (#[trigger] self@.ops[k]) < self@.draw_tags.len()) by {
            assert forall|k: int| 0 <= k < self.ops@.len() implies #[trigger] self.ops@[k]
                == self@.ops[k] by {}
        }
        if !in_range || !self.first_range_allowed() {
            return false;
        }
        let mut k: usize = 0;
        while k < self.ops.len()
            invariant
                self.wf(),
                k <= self@.ops.len(),
                self@.ops.len() == self.ops.len(),
                forall|j: int| 0 <= j < k ==> #[trigger] self@.op_allowed(j),
            decreases self.ops.len() - k,
        {
            if !self.op_allowed(k) {
                return false;
            }
            k += 1;
        }
        self.tail_allowed()
    }

    /// The number of layers that are closed behind a range.
    fn closed_layers(&self, draw: u32, paint_free: bool, painted_allowed: bool) -> (count: u32)
        requires
            self.wf(),
        ensures
            count == self@.closed_layers(draw, paint_free, painted_allowed),
    {
        match self.seed_state(draw) {
            Some(state) => if state.has_active_non_clip && self.boundary_supports_non_clip(
                state,
                paint_free,
                painted_allowed,
            ) {
                state.begin_draws.len() as u32
            } else {
                0
            },
            None => 0,
        }
    }

    /// The draw objects that open the layers of a range that starts at `cursor`.
    fn opening_draws(&self, cursor: u32) -> (draws: Vec<u32>)
        requires
            self.wf(),
        ensures
            draws@ == self@.opening_draws(cursor),
    {
        let mut draws: Vec<u32> = Vec::new();
        if cursor > 0 {
            if let Some(state) = self.seed_state(cursor) {
                draws.extend_from_slice(state.begin_draws.as_slice());
                assert(draws@ =~= state.begin_draws@);
            }
        }
        draws
    }

    /// The segment before the first backdrop.
    pub fn first_segment(&self) -> (segment: Segment)
        requires
            self.wf(),
        ensures
            segment@ == self@.first_segment(),
    {
        let first_end: u32 = self.first_end();
        let segment = Segment {
            draw_start: 0,
            draw_end: first_end,
            clip_seed_begin_draws: Vec::new(),
            synthetic_end_clip_count: self.closed_layers(
                first_end,
                self.first_range_paint_free,
                false,
            ),
        };
        reveal(ReplayInput::first_segment);
        assert(segment@ =~= self@.first_segment());
        segment
    }

    /// The segment before backdrop `k`, where there are draw objects between it
    /// and the backdrop before it.
    pub fn segment_before(&self, k: usize) -> (segment: Option<Segment>)
        requires
            self.wf(),
            k < self@.ops.len(),
        ensures
            match segment {
                Some(segment) => {
                    &&& self@.cursor(k as int) < self@.ops[k as int]
                    &&& segment@ == self@.segment_before(k as int)
                },
                None => self@.cursor(k as int) >= self@.ops[k as int],
            },
    {
        let op: u32 = self.ops[k];
        let cursor: u32 = self.cursor(k);
        if cursor >= op {
            return None;
        }
        let paint_free = self.paint_free(cursor, op);
        let painted_allowed = self.painted_allowed(op);
        let segment = Segment {
            draw_start: cursor,
            draw_end: op,
            clip_seed_begin_draws: self.opening_draws(cursor),
            synthetic_end_clip_count: self.closed_layers(op, paint_free, painted_allowed),
        };
        reveal(ReplayInput::segment_before);
        assert(segment@ =~= self@.segment_before(k as int));
        Some(segment)
    }

    /// The segment behind the last backdrop, where there are draw objects behind it.
    pub fn tail_segment(&self) -> (segment: Option<Segment>)
        requires
            self.wf(),
        ensures
            match segment {
                Some(segment) => {
                    &&& self@.cursor(self@.ops.len() as int) < self@.n_draw_objects
                    &&& segment@ == self@.tail_segment()
                },
                None => self@.cursor(self@.ops.len() as int) >= self@.n_draw_objects,
            },
    {
        let cursor: u32 = self.cursor(self.ops.len());
        if cursor >= self.n_draw_objects {
            return None;
        }
        let segment = Segment {
            draw_start: cursor,
            draw_end: self.n_draw_objects,
            clip_seed_begin_draws: self.opening_draws(cursor),
            synthetic_end_clip_count: 0,
        };
        reveal(ReplayInput::tail_segment);
        assert(segment@ =~= self@.tail_segment());
        Some(segment)
    }
}

/// Whether all backdrops are draw objects of the scene.
pub fn supports_segment_replay(ops: &[u32], draw_tags: &[u32]) -> (supported: bool)
    ensures
        supported == forall|k: int|
            0 <= k < ops@.len() ==> (#[trigger] ops@[k]) < draw_tags@.len(),
{
    let mut k: usize = 0;
    while k < ops.len()
        invariant
            k <= ops.len(),
            forall|j: int| 0 <= j < k ==> (#[trigger] ops@[j]) < draw_tags@.len(),
        decreases ops.len() - k,
    {
        if ops[k] as usize >= draw_tags.len() {
            return false;
        }
        k += 1;
    }
    true
}

} // verus!
