//! The texture sampler: a decoded image and the lookup of one texel as a
//! packed RGB value.

use vstd::prelude::*;
use image::{DynamicImage, GenericImageView};

verus! {

/// The colour that a lookup outside the texture gives.
pub const OUT_OF_RANGE_COLOR: u32 = 0x00FF0000;

/// Makes `image::DynamicImage` known as an opaque type: a decoded image of
/// any pixel format.
#[verifier::external_type_specification]
#[verifier::external_body]
pub struct ExDynamicImage(DynamicImage);

/// The width, in pixels, that `DynamicImage::width` reports.
pub uninterp spec fn image_width(image: DynamicImage) -> nat;

/// The height, in pixels, that `DynamicImage::height` reports.
pub uninterp spec fn image_height(image: DynamicImage) -> nat;

/// The red, green, blue and alpha channels that `get_pixel` gives for the
/// image at `(x, y)`.
pub uninterp spec fn image_pixel(image: DynamicImage, x: u32, y: u32) -> (u8, u8, u8, u8);

/// Calls `DynamicImage::width`. Trusted: the result is the image's width.
#[verifier::external_body]
fn width_of(image: &DynamicImage) -> (w: u32)
    ensures
        w == image_width(*image),
{
    image.width()
}

/// Calls `DynamicImage::height`. Trusted: the result is the image's height.
#[verifier::external_body]
fn height_of(image: &DynamicImage) -> (h: u32)
    ensures
        h == image_height(*image),
{
    image.height()
}

/// Calls `GenericImageView::get_pixel` on the image, which panics outside
/// the image, so the coordinate must lie inside. Trusted: the four channels
/// are those of the image at that coordinate.
#[verifier::external_body]
fn pixel_of(image: &DynamicImage, x: u32, y: u32) -> (rgba: (u8, u8, u8, u8))
    requires
        x < image_width(*image),
        y < image_height(*image),
    ensures
        rgba == image_pixel(*image, x, y),
{
    let pixel = image.get_pixel(x, y);
    (pixel[0], pixel[1], pixel[2], pixel[3])
}

/// The three channels as one `0x00RRGGBB` value.
pub open spec fn pack_rgb(r: u8, g: u8, b: u8) -> u32 {
    ((r as u32) << 16) | ((g as u32) << 8) | (b as u32)
}

/// The packed value, read as a number, is `r * 65536 + g * 256 + b`.
pub proof fn lemma_pack_rgb_value(r: u8, g: u8, b: u8)
    ensures
        pack_rgb(r, g, b) == r * 65536 + g * 256 + b,
        pack_rgb(r, g, b) <= 0xFFFFFF,
{
    assert((((r as u32) << 16) | ((g as u32) << 8) | (b as u32)) == (r as u32) * 65536 + (g as u32)
        * 256 + (b as u32)) by (bit_vector);
}

/// Packs three channels into one `0x00RRGGBB` value; the top byte is zero.
pub fn pack_color(r: u8, g: u8, b: u8) -> (c: u32)
    ensures
        c == pack_rgb(r, g, b),
        c == r * 65536 + g * 256 + b,
        c <= 0xFFFFFF,
{
    proof {
        lemma_pack_rgb_value(r, g, b);
    }
    ((r as u32) << 16) | ((g as u32) << 8) | (b as u32)
}

/// A decoded image with its size.
pub struct Texture {
    image: DynamicImage,
    width: u32,
    height: u32,
}

impl Texture {
    #[verifier::type_invariant]
    spec fn inv(self) -> bool {
        &&& self.width == image_width(self.image)
        &&& self.height == image_height(self.image)
    }

    /// The number of texel columns.
    pub closed spec fn spec_width(self) -> nat {
        self.width as nat
    }

    /// The number of texel rows.
    pub closed spec fn spec_height(self) -> nat {
        self.height as nat
    }

    /// The image that the texture was made of.
    pub closed spec fn source(self) -> DynamicImage {
        self.image
    }

    /// What `get_pixel_color` gives at `(x, y)`: the packed channels of the
    /// texel, or the out-of-range colour outside the texture.
    pub open spec fn color_at(self, x: int, y: int) -> u32 {
        if 0 <= x < self.spec_width() && 0 <= y < self.spec_height() {
            let rgb = image_pixel(self.source(), x as u32, y as u32);
            pack_rgb(rgb.0, rgb.1, rgb.2)
        } else {
            OUT_OF_RANGE_COLOR
        }
    }

    /// Wraps a decoded image.
    pub fn new(image: DynamicImage) -> (texture: Texture)
        ensures
            texture.source() == image,
            texture.spec_width() == image_width(image),
            texture.spec_height() == image_height(image),
    {
        let width = width_of(&image);
        let height = height_of(&image);
        Texture { image, width, height }
    }

    /// The number of texel columns.
    pub fn width(&self) -> (w: u32)
        ensures
            w == self.spec_width(),
    {
        self.width
    }

    /// The number of texel rows.
    pub fn height(&self) -> (h: u32)
        ensures
            h == self.spec_height(),
    {
        self.height
    }

    /// The colour of the texel at `(x, y)` as `0x00RRGGBB`, alpha discarded;
    /// the out-of-range colour when `x` or `y` lies outside the texture.
    pub fn get_pixel_color(&self, x: u32, y: u32) -> (color: u32)
        ensures
            color == self.color_at(x as int, y as int),
            color <= 0xFFFFFF,
            x >= self.spec_width() || y >= self.spec_height() ==> color == OUT_OF_RANGE_COLOR,
            x < self.spec_width() && y < self.spec_height() ==> color == pack_rgb(
                image_pixel(self.source(), x, y).0,
                image_pixel(self.source(), x, y).1,
                image_pixel(self.source(), x, y).2,
            ),
    {
        proof {
            use_type_invariant(self);
        }
        if x >= self.width || y >= self.height {
            return OUT_OF_RANGE_COLOR;
        }
        let (r, g, b, _) = pixel_of(&self.image, x, y);
        pack_color(r, g, b)
    }
}

} // verus!
