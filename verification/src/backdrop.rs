//! Backdrop blur: the commands that blur what lies behind a backdrop and put
//! the result back into the scene.

use vstd::prelude::*;

use crate::coarse::{FullShaders, RenderParams};
use crate::color::{premultiplied_rgba, Color};
use crate::float_bits::{f64_nan, f64_rounded_clamped};
use crate::layout::write_words;
use crate::recording::{
    BufferProxy, ImageProxy, Recording, ResourceIds, ResourceProxy, WorkgroupSize,
};

verus! {

use crate::coarse::{buf, nth_buffer};
use crate::color::draw_color;
use crate::config::ceil_div;
use crate::float_bits::{
    f64_clamped_ceil, f64_clamped_floor, f64_is_infinite, f64_is_nan, f64_one, f64_units,
};
use crate::layout::words_bytes;
use crate::recording::Action;

/// A rectangle. Each coordinate is the bit pattern of a binary64 number.
#[derive(Clone, Copy, Debug, PartialEq, Eq, Structural)]
pub struct Rect {
    pub x0: u64,
    pub y0: u64,
    pub x1: u64,
    pub y1: u64,
}

/// The first pixel of a side that starts at `bits`. A NaN counts as zero.
pub open spec fn side_start(bits: u64, limit: u32) -> int {
    if f64_is_nan(bits) {
        0
    } else {
        f64_clamped_floor(bits, limit)
    }
}

/// The pixel behind a side that ends at `bits`. A NaN counts as zero.
pub open spec fn side_end(bits: u64, limit: u32) -> int {
    if f64_is_nan(bits) {
        0
    } else {
        f64_clamped_ceil(bits, limit)
    }
}

/// Whether no pixel lies on a side. A side with a NaN is not taken for empty.
pub open spec fn side_is_empty(start: u64, end: u64, limit: u32) -> bool {
    &&& !f64_is_nan(start)
    &&& !f64_is_nan(end)
    &&& side_end(end, limit) <= side_start(start, limit)
}

impl Rect {
    /// Whether no pixel of the frame lies in the rectangle.
    pub open spec fn misses(self, width: u32, height: u32) -> bool {
        side_is_empty(self.x0, self.x1, width) || side_is_empty(self.y0, self.y1, height)
    }

    /// Whether a rectangle that is not empty has sides that do not end before
    /// they start. Only a NaN as the end of a side can break this.
    pub open spec fn is_ordered(self, width: u32, height: u32) -> bool {
        self.misses(width, height) || {
            &&& side_start(self.x0, width) <= side_end(self.x1, width)
            &&& side_start(self.y0, height) <= side_end(self.y1, height)
        }
    }

    /// The pixels of the frame that the rectangle touches: the first column and
    /// row, and the number of columns and rows.
    pub open spec fn roi(self, width: u32, height: u32) -> Option<Seq<u32>> {
        if self.misses(width, height) {
            None
        } else {
            let x = side_start(self.x0, width);
            let y = side_start(self.y0, height);
            Some(
                seq![
                    x as u32,
                    y as u32,
                    (side_end(self.x1, width) - x) as u32,
                    (side_end(self.y1, height) - y) as u32,
                ],
            )
        }
    }
}

/// A pixel lies on a side with finite ends exactly where the side reaches into it.
pub proof fn lemma_side_pixels(start: u64, end: u64, limit: u32, pixel: int)
    requires
        !f64_is_nan(start),
        !f64_is_nan(end),
        !f64_is_infinite(start),
        !f64_is_infinite(end),
        0 <= pixel < limit,
    ensures
        side_start(start, limit) <= pixel <==> f64_units(start) < (pixel + 1) * f64_one(),
        pixel < side_end(end, limit) <==> pixel * f64_one() < f64_units(end),
{
    let one = f64_one();
    let a = f64_units(start);
    let b = f64_units(end);
    vstd::arithmetic::power2::lemma_pow2_pos(1074);
    assert(a / one <= pixel <==> a < (pixel + 1) * one) by (nonlinear_arith)
        requires
            one > 0,
    ;
    assert((-b) / one <= -pixel - 1 <==> pixel * one < b) by (nonlinear_arith)
        requires
            one > 0,
    ;
}

/// The pixels that a rectangle touches lie in the frame, and there are some unless
/// a side of the rectangle has a NaN.
pub proof fn lemma_roi_in_frame(rect: Rect, width: u32, height: u32)
    requires
        rect.is_ordered(width, height),
        rect.roi(width, height) is Some,
    ensures
        ({
            let roi = rect.roi(width, height)->0;
            &&& roi.len() == 4
            &&& roi[0] + roi[2] <= width
            &&& roi[1] + roi[3] <= height
            &&& !f64_is_nan(rect.x0) && !f64_is_nan(rect.x1) ==> roi[2] > 0
            &&& !f64_is_nan(rect.y0) && !f64_is_nan(rect.y1) ==> roi[3] > 0
        }),
{
}

/// Workgroups of eight by eight cover an area, and none of them lies outside of it.
pub proof fn lemma_groups_cover(width: u32, height: u32)
    ensures
        ({
            let groups = covering_groups(width, height);
            &&& width <= 8 * groups.0 < width + 8
            &&& height <= 8 * groups.1 < height + 8
            &&& groups.2 == 1
        }),
{
}

/// The pixel at which a side starts or ends.
fn side_pixel(bits: u64, up: bool, limit: u32) -> (pixel: u32)
    ensures
        pixel == if up {
            side_end(bits, limit)
        } else {
            side_start(bits, limit)
        },
{
    if f64_nan(bits) {
        0
    } else {
        f64_rounded_clamped(bits, up, limit)
    }
}

/// Whether no pixel lies on a side.
fn side_empty(start: u64, end: u64, limit: u32) -> (empty: bool)
    ensures
        empty == side_is_empty(start, end, limit),
{
    !f64_nan(start) && !f64_nan(end) && side_pixel(end, true, limit) <= side_pixel(
        start,
        false,
        limit,
    )
}

/// Whether a rectangle that is not empty has sides that do not end before they
/// start.
pub fn rect_is_ordered(rect: Rect, width: u32, height: u32) -> (ordered: bool)
    ensures
        ordered == rect.is_ordered(width, height),
{
    side_empty(rect.x0, rect.x1, width) || side_empty(rect.y0, rect.y1, height) || (side_pixel(
        rect.x0,
        false,
        width,
    ) <= side_pixel(rect.x1, true, width) && side_pixel(rect.y0, false, height) <= side_pixel(
        rect.y1,
        true,
        height,
    ))
}

/// The pixels of the frame that a rectangle touches.
pub fn rect_to_roi(rect: Rect, width: u32, height: u32) -> (roi: Option<[u32; 4]>)
    requires
        rect.is_ordered(width, height),
    ensures
        match roi {
            Some(roi) => rect.roi(width, height) == Some(roi@),
            None => rect.roi(width, height) is None,
        },
{
    if side_empty(rect.x0, rect.x1, width) || side_empty(rect.y0, rect.y1, height) {
        return None;
    }
    let x0: u32 = side_pixel(rect.x0, false, width);
    let y0: u32 = side_pixel(rect.y0, false, height);
    let x1: u32 = side_pixel(rect.x1, true, width);
    let y1: u32 = side_pixel(rect.y1, true, height);
    let roi = [x0, y0, x1 - x0, y1 - y0];
    assert(roi@ =~= rect.roi(width, height)->0);
    Some(roi)
}

/// A backdrop blur. The bounds come from the transformed rectangle of the
/// backdrop; numbers that only the shaders read are bit patterns of binary32
/// numbers.
#[derive(Clone, Copy, Debug, PartialEq, Eq)]
pub struct BackdropBlurOp {
    /// The draw object at which the backdrop stands.
    pub draw_index: u32,
    /// The bounds of what is blurred.
    pub blur_bounds: Rect,
    /// The bounds of what is replaced.
    pub apply_bounds: Rect,
    /// The radius of the blur in pixels.
    pub blur_radius: u32,
    /// The standard deviation of the blur.
    pub sigma: u32,
    /// The first row of the transform from the frame to the backdrop.
    pub inv_row0: [u32; 4],
    /// The second row of the transform from the frame to the backdrop.
    pub inv_row1: [u32; 4],
    /// The center and the half extents of the rectangle.
    pub rect: [u32; 4],
    /// The corner radius and the softness of the edge.
    pub radius_soft: [u32; 4],
    /// The tint that is laid over the blur.
    pub tint: Color,
}

impl BackdropBlurOp {
    /// Whether the bounds of the backdrop are in order.
    pub open spec fn is_ordered(self, params: RenderParams) -> bool {
        &&& self.blur_bounds.is_ordered(params.width, params.height)
        &&& self.apply_bounds.is_ordered(params.width, params.height)
    }

    /// Whether the backdrop touches the frame.
    pub open spec fn is_visible(self, params: RenderParams) -> bool {
        &&& self.blur_bounds.roi(params.width, params.height) is Some
        &&& self.apply_bounds.roi(params.width, params.height) is Some
    }

    /// The words of the uniform of the blur shaders.
    pub open spec fn blur_words(self, params: RenderParams) -> Seq<u32> {
        seq![params.width, params.height, self.blur_radius, 0u32] + self.blur_bounds.roi(
            params.width,
            params.height,
        )->0 + seq![self.sigma, 0u32, 0u32, 0u32]
    }

    /// The words of the uniform of the shader that puts the blur into the scene,
    /// with the tint as draw data.
    pub open spec fn apply_words(self, params: RenderParams, tint_rgba: u32) -> Seq<u32> {
        seq![params.width, params.height, tint_rgba, 0u32] + self.apply_bounds.roi(
            params.width,
            params.height,
        )->0 + self.inv_row0@ + self.inv_row1@ + self.rect@ + self.radius_soft@
    }
}

/// Workgroups of eight by eight that cover an area.
pub open spec fn covering_groups(width: u32, height: u32) -> WorkgroupSize {
    (ceil_div(width as int, 8) as u32, ceil_div(height as int, 8) as u32, 1u32)
}

/// The number of groups of eight that cover a length.
fn groups_of_eight(length: u32) -> (groups: u32)
    ensures
        groups == ceil_div(length as int, 8),
{
    if length % 8 == 0 {
        length / 8
    } else {
        length / 8 + 1
    }
}

/// Workgroups of eight by eight that cover an area.
fn workgroups(width: u32, height: u32) -> (size: WorkgroupSize)
    ensures
        size == covering_groups(width, height),
{
    (groups_of_eight(width), groups_of_eight(height), 1)
}

/// An image as a resource.
pub open spec fn img(image: ImageProxy) -> ResourceProxy {
    ResourceProxy::Image(image)
}

/// The action that composes an image over another one.
pub open spec fn compose_action(
    shaders: FullShaders,
    params_buf: BufferProxy,
    width: u32,
    height: u32,
    base_image: ImageProxy,
    overlay_image: ImageProxy,
    dst_image: ImageProxy,
) -> Action {
    Action::Dispatch(
        shaders.backdrop_src_over,
        covering_groups(width, height),
        seq![buf(params_buf), img(base_image), img(overlay_image), img(dst_image)],
    )
}

/// Records the composition of an image over another one.
pub fn compose_src_over(
    recording: &mut Recording,
    shaders: &FullShaders,
    params_buf: BufferProxy,
    width: u32,
    height: u32,
    base_image: ImageProxy,
    overlay_image: ImageProxy,
    dst_image: ImageProxy,
)
    ensures
        final(recording)@ == old(recording)@.push(
            compose_action(
                *shaders,
                params_buf,
                width,
                height,
                base_image,
                overlay_image,
                dst_image,
            ),
        ),
{
    let bindings = vec![
        ResourceProxy::Buffer(params_buf),
        ResourceProxy::Image(base_image),
        ResourceProxy::Image(overlay_image),
        ResourceProxy::Image(dst_image),
    ];
    assert(bindings@ =~= seq![
        buf(params_buf),
        img(base_image),
        img(overlay_image),
        img(dst_image),
    ]);
    recording.dispatch(shaders.backdrop_src_over, workgroups(width, height), bindings);
}

/// The action that copies an image.
pub open spec fn copy_action(
    shaders: FullShaders,
    params_buf: BufferProxy,
    width: u32,
    height: u32,
    src_image: ImageProxy,
    dst_image: ImageProxy,
) -> Action {
    Action::Dispatch(
        shaders.backdrop_copy,
        covering_groups(width, height),
        seq![buf(params_buf), img(src_image), img(dst_image)],
    )
}

/// Records the copy of an image.
pub fn copy_image(
    recording: &mut Recording,
    shaders: &FullShaders,
    params_buf: BufferProxy,
    width: u32,
    height: u32,
    src_image: ImageProxy,
    dst_image: ImageProxy,
)
    ensures
        final(recording)@ == old(recording)@.push(
            copy_action(*shaders, params_buf, width, height, src_image, dst_image),
        ),
{
    let bindings = vec![
        ResourceProxy::Buffer(params_buf),
        ResourceProxy::Image(src_image),
        ResourceProxy::Image(dst_image),
    ];
    assert(bindings@ =~= seq![buf(params_buf), img(src_image), img(dst_image)]);
    recording.dispatch(shaders.backdrop_copy, workgroups(width, height), bindings);
}

/// The images that a backdrop works on.
#[derive(Clone, Copy, Debug, PartialEq, Eq, Structural)]
pub struct BackdropImages {
    /// What lies behind the backdrop.
    pub source: ImageProxy,
    /// The scene into which the blur is put.
    pub scene_image: ImageProxy,
    pub blur_tmp: ImageProxy,
    pub blur_image: ImageProxy,
    /// Where the scene with the blur goes.
    pub scene_tmp: ImageProxy,
}

/// The actions of a visible backdrop, with identities from `first` on: the source
/// is blurred in two steps, the scene is copied, and the blur is put into the
/// copy, under the tint.
#[verifier::opaque]
pub open spec fn tinted_backdrop_actions(
    first: int,
    shaders: FullShaders,
    params: RenderParams,
    copy_params_buf: BufferProxy,
    op: BackdropBlurOp,
    tint_rgba: u32,
    images: BackdropImages,
) -> Seq<Action> {
    let blur_roi = op.blur_bounds.roi(params.width, params.height)->0;
    let apply_roi = op.apply_bounds.roi(params.width, params.height)->0;
    let blur_buf = nth_buffer(first, 0, 48, "vello.backdrop_blur_params");
    let apply_buf = nth_buffer(first, 1, 96, "vello.backdrop_apply_params");
    seq![
        Action::UploadUniform(blur_buf, words_bytes(op.blur_words(params))),
        Action::Dispatch(
            shaders.backdrop_blur_h,
            covering_groups(blur_roi[2], blur_roi[3]),
            seq![buf(blur_buf), img(images.source), img(images.blur_tmp)],
        ),
        Action::Dispatch(
            shaders.backdrop_blur_v,
            covering_groups(blur_roi[2], blur_roi[3]),
            seq![buf(blur_buf), img(images.blur_tmp), img(images.blur_image)],
        ),
        Action::FreeBuffer(blur_buf),
        Action::UploadUniform(apply_buf, words_bytes(op.apply_words(params, tint_rgba))),
        copy_action(
            shaders,
            copy_params_buf,
            params.width,
            params.height,
            images.scene_image,
            images.scene_tmp,
        ),
        Action::Dispatch(
            shaders.backdrop_apply,
            covering_groups(apply_roi[2], apply_roi[3]),
            seq![
                buf(apply_buf),
                img(images.scene_image),
                img(images.blur_image),
                img(images.scene_tmp),
            ],
        ),
        Action::FreeBuffer(apply_buf),
    ]
}

/// The actions of a visible backdrop, with identities from `first` on.
pub open spec fn backdrop_actions(
    first: int,
    shaders: FullShaders,
    params: RenderParams,
    copy_params_buf: BufferProxy,
    op: BackdropBlurOp,
    images: BackdropImages,
) -> Seq<Action> {
    tinted_backdrop_actions(
        first,
        shaders,
        params,
        copy_params_buf,
        op,
        draw_color(op.tint.components()),
        images,
    )
}

/// The number of resources that a visible backdrop makes.
pub const BACKDROP_RESOURCES: u64 = 2;

/// The bytes of the uniform of the blur shaders.
fn blur_uniform(op: &BackdropBlurOp, params: &RenderParams, roi: [u32; 4]) -> (bytes: Vec<u8>)
    requires
        op.blur_bounds.roi(params.width, params.height) == Some(roi@),
    ensures
        bytes@ == words_bytes(op.blur_words(*params)),
        bytes@.len() == 48,
{
    let words = [
        params.width,
        params.height,
        op.blur_radius,
        0,
        roi[0],
        roi[1],
        roi[2],
        roi[3],
        op.sigma,
        0,
        0,
        0,
    ];
    assert(words@ =~= op.blur_words(*params));
    let mut bytes: Vec<u8> = Vec::new();
    write_words(&mut bytes, words.as_slice());
    assert(bytes@ =~= words_bytes(words@));
    bytes
}

/// The bytes of the uniform of the shader that puts the blur into the scene.
fn apply_uniform(op: &BackdropBlurOp, params: &RenderParams, roi: [u32; 4], tint_rgba: u32) -> (
bytes: Vec<u8>)
    requires
        op.apply_bounds.roi(params.width, params.height) == Some(roi@),
    ensures
        bytes@ == words_bytes(op.apply_words(*params, tint_rgba)),
        bytes@.len() == 96,
{
    let words = [
        params.width,
        params.height,
        tint_rgba,
        0,
        roi[0],
        roi[1],
        roi[2],
        roi[3],
        op.inv_row0[0],
        op.inv_row0[1],
        op.inv_row0[2],
        op.inv_row0[3],
        op.inv_row1[0],
        op.inv_row1[1],
        op.inv_row1[2],
        op.inv_row1[3],
        op.rect[0],
        op.rect[1],
        op.rect[2],
        op.rect[3],
        op.radius_soft[0],
        op.radius_soft[1],
        op.radius_soft[2],
        op.radius_soft[3],
    ];
    assert(words@ =~= op.apply_words(*params, tint_rgba));
    let mut bytes: Vec<u8> = Vec::new();
    write_words(&mut bytes, words.as_slice());
    assert(bytes@ =~= words_bytes(words@));
    bytes
}

/// Whether a backdrop touches the frame.
pub fn backdrop_is_visible(op: &BackdropBlurOp, params: &RenderParams) -> (visible: bool)
    requires
        op.is_ordered(*params),
    ensures
        visible == op.is_visible(*params),
{
    rect_to_roi(op.blur_bounds, params.width, params.height).is_some() && rect_to_roi(
        op.apply_bounds,
        params.width,
        params.height,
    ).is_some()
}

/// Records a backdrop with its tint as draw data, where it touches the frame, and
/// says whether it does. The scene with the blur is then in `images.scene_tmp`.
pub fn apply_tinted_backdrop_op(
    recording: &mut Recording,
    ids: &mut ResourceIds,
    shaders: &FullShaders,
    params: &RenderParams,
    copy_params_buf: BufferProxy,
    op: &BackdropBlurOp,
    tint_rgba: u32,
    images: BackdropImages,
) -> (applied: bool)
    requires
        op.is_ordered(*params),
        old(ids).has_room(BACKDROP_RESOURCES as int),
    ensures
        applied == op.is_visible(*params),
        final(recording)@ == if applied {
            old(recording)@ + tinted_backdrop_actions(
                old(ids).next_id() as int,
                *shaders,
                *params,
                copy_params_buf,
                *op,
                tint_rgba,
                images,
            )
        } else {
            old(recording)@
        },
        final(ids).next_id() == old(ids).next_id() + if applied {
            BACKDROP_RESOURCES as int
        } else {
            0
        },
{
    let ghost first = ids.next_id() as int;
    let blur_roi = match rect_to_roi(op.blur_bounds, params.width, params.height) {
        Some(roi) => roi,
        None => {
            return false;
        },
    };
    let apply_roi = match rect_to_roi(op.apply_bounds, params.width, params.height) {
        Some(roi) => roi,
        None => {
            return false;
        },
    };
    let blur_params_buf = recording.upload_uniform(
        ids,
        "vello.backdrop_blur_params",
        blur_uniform(op, params, blur_roi),
    );
    let blur_workgroups = workgroups(blur_roi[2], blur_roi[3]);
    recording.dispatch(
        shaders.backdrop_blur_h,
        blur_workgroups,
        vec![
            ResourceProxy::Buffer(blur_params_buf),
            ResourceProxy::Image(images.source),
            ResourceProxy::Image(images.blur_tmp),
        ],
    );
    recording.dispatch(
        shaders.backdrop_blur_v,
        blur_workgroups,
        vec![
            ResourceProxy::Buffer(blur_params_buf),
            ResourceProxy::Image(images.blur_tmp),
            ResourceProxy::Image(images.blur_image),
        ],
    );
    recording.free_buffer(blur_params_buf);
    let apply_params_buf = recording.upload_uniform(
        ids,
        "vello.backdrop_apply_params",
        apply_uniform(op, params, apply_roi, tint_rgba),
    );
    copy_image(
        recording,
        shaders,
        copy_params_buf,
        params.width,
        params.height,
        images.scene_image,
        images.scene_tmp,
    );
    recording.dispatch(
        shaders.backdrop_apply,
        workgroups(apply_roi[2], apply_roi[3]),
        vec![
            ResourceProxy::Buffer(apply_params_buf),
            ResourceProxy::Image(images.scene_image),
            ResourceProxy::Image(images.blur_image),
            ResourceProxy::Image(images.scene_tmp),
        ],
    );
    recording.free_buffer(apply_params_buf);
    reveal(tinted_backdrop_actions);
    assert(recording@ =~~= old(recording)@ + tinted_backdrop_actions(
        first,
        *shaders,
        *params,
        copy_params_buf,
        *op,
        tint_rgba,
        images,
    ));
    true
}

/// Records a backdrop, where it touches the frame, and says whether it does. The
/// scene with the blur is then in `images.scene_tmp`.
pub fn apply_backdrop_op(
    recording: &mut Recording,
    ids: &mut ResourceIds,
    shaders: &FullShaders,
    params: &RenderParams,
    copy_params_buf: BufferProxy,
    op: &BackdropBlurOp,
    images: BackdropImages,
) -> (applied: bool)
    requires
        op.is_ordered(*params),
        old(ids).has_room(BACKDROP_RESOURCES as int),
    ensures
        applied == op.is_visible(*params),
        final(recording)@ == if applied {
            old(recording)@ + backdrop_actions(
                old(ids).next_id() as int,
                *shaders,
                *params,
                copy_params_buf,
                *op,
                images,
            )
        } else {
            old(recording)@
        },
        final(ids).next_id() == old(ids).next_id() + if applied {
            BACKDROP_RESOURCES as int
        } else {
            0
        },
{
    apply_tinted_backdrop_op(
        recording,
        ids,
        shaders,
        params,
        copy_params_buf,
        op,
        premultiplied_rgba(op.tint),
        images,
    )
}

} // verus!
