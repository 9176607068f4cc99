//! Colors and images of one color.

use vstd::prelude::*;

use crate::recording::{AlphaType, ImageData, ImageFormat};

verus! {

use crate::layout::word_bytes;
use crate::recording::Pixels;

/// A color in the sRGB color space with separate alpha. Each component is the
/// bit pattern of a binary32 number.
#[derive(Clone, Copy, Debug, PartialEq, Eq, Structural)]
pub struct Color {
    pub red: u32,
    pub green: u32,
    pub blue: u32,
    pub alpha: u32,
}

impl Color {
    /// The components in order.
    pub open spec fn components(self) -> Seq<u32> {
        seq![self.red, self.green, self.blue, self.alpha]
    }

    /// The components in order.
    pub fn to_components(self) -> (components: [u32; 4])
        ensures
            components@ == self.components(),
    {
        let components = [self.red, self.green, self.blue, self.alpha];
        assert(components@ =~= self.components());
        components
    }

    /// The color with all components zero.
    pub open spec fn clear() -> Color {
        Color { red: 0, green: 0, blue: 0, alpha: 0 }
    }

    /// The color with all components zero.
    pub fn transparent() -> (color: Color)
        ensures
            color == Color::clear(),
    {
        Color { red: 0, green: 0, blue: 0, alpha: 0 }
    }
}

/// The premultiplied color with these components as draw data: eight bits for
/// each component, red in the lowest ones and alpha in the highest ones.
pub uninterp spec fn draw_color(components: Seq<u32>) -> u32;

/// `vello_encoding::DrawColor::from` for a `peniko::Color` with these components,
/// as a number that is the same for either byte order of the machine. How the
/// components are multiplied and rounded is left to the outside crate.
#[verifier::external_body]
fn draw_color_from(components: [u32; 4]) -> (rgba: u32)
    ensures
        rgba == draw_color(components@),
{
    let color = peniko::Color::new(bytemuck::cast(components));
    vello_encoding::DrawColor::from(color).rgba.to_le()
}

/// The premultiplied color as draw data.
pub fn premultiplied_rgba(color: Color) -> (rgba: u32)
    ensures
        rgba == draw_color(color.components()),
{
    draw_color_from(color.to_components())
}

/// The bytes of `count` pixels of one color.
pub open spec fn solid_bytes(count: nat, rgba: u32) -> Seq<u8> {
    Seq::new(4 * count, |i: int| word_bytes(rgba)[i % 4])
}

/// An image of one color.
pub open spec fn solid_pixels(width: u32, height: u32, rgba: u32) -> Pixels {
    Pixels {
        data: solid_bytes((width * height) as nat, rgba),
        format: ImageFormat::Rgba8,
        alpha_type: AlphaType::Alpha,
        width,
        height,
    }
}

/// Whether the pixels of an image can be held in memory.
pub open spec fn pixels_fit(width: u32, height: u32) -> bool {
    4 * (width * height) <= usize::MAX
}

/// Whether the pixels of an image can be held in memory.
pub fn image_fits(width: u32, height: u32) -> (fits: bool)
    ensures
        fits == pixels_fit(width, height),
{
    assert(width * height <= 0xffff_ffff * 0xffff_ffff) by (nonlinear_arith)
        requires
            width <= 0xffff_ffff,
            height <= 0xffff_ffff,
    ;
    4 * (width as u128 * height as u128) <= usize::MAX as u128
}

/// An image of one color, given as draw data.
pub fn filled_image(width: u32, height: u32, rgba: u32) -> (image: ImageData)
    requires
        pixels_fit(width, height),
    ensures
        image@ == solid_pixels(width, height, rgba),
{
    proof {
        assert(width * height >= 0) by (nonlinear_arith)
            requires
                width >= 0,
                height >= 0,
        ;
    }
    let count: usize = width as usize * height as usize;
    let mut data: Vec<u8> = Vec::new();
    let mut pixel: usize = 0;
    assert(data@ =~= solid_bytes(0, rgba));
    while pixel < count
        invariant
            pixel <= count,
            data@ == solid_bytes(pixel as nat, rgba),
        decreases count - pixel,
    {
        crate::layout::write_word(&mut data, rgba);
        pixel += 1;
        assert(data@ =~= solid_bytes(pixel as nat, rgba));
    }
    ImageData {
        data,
        format: ImageFormat::Rgba8,
        alpha_type: AlphaType::Alpha,
        width,
        height,
    }
}

/// An image of one color.
pub fn solid_image_data(width: u32, height: u32, color: Color) -> (image: ImageData)
    requires
        pixels_fit(width, height),
    ensures
        image@ == solid_pixels(width, height, draw_color(color.components())),
{
    filled_image(width, height, premultiplied_rgba(color))
}

} // verus!
