//! Decoded images as a source of boards.

use image::{DynamicImage, GenericImageView};
use vstd::prelude::*;

verus! {

/// `image::DynamicImage`, a decoded image of any pixel format. Its contents
/// are known only through `image_extent` and `image_pixels`.
#[verifier::external_type_specification]
#[verifier::external_body]
pub struct ExDynamicImage(DynamicImage);

/// Width and height of an image, in pixels.
pub uninterp spec fn image_extent(image: DynamicImage) -> (u32, u32);

/// The pixels of an image as red, green, blue and alpha, by column and row
/// counted from the top left.
pub uninterp spec fn image_pixels(image: DynamicImage) -> Map<(u32, u32), [u8; 4]>;

/// `GenericImageView::dimensions` of a `DynamicImage`: the width and the
/// height of the image.
#[verifier::external_body]
pub(crate) fn extent(image: &DynamicImage) -> (size: (u32, u32))
    ensures
        size == image_extent(*image),
{
    image.dimensions()
}

/// `GenericImageView::get_pixel` of a `DynamicImage`: the pixel in column
/// `x` of row `y`, converted to eight-bit RGBA. The call panics outside the
/// image, so both coordinates must lie inside.
#[verifier::external_body]
pub(crate) fn pixel(image: &DynamicImage, x: u32, y: u32) -> (rgba: [u8; 4])
    requires
        x < image_extent(*image).0,
        y < image_extent(*image).1,
    ensures
        rgba == image_pixels(*image)[(x, y)],
{
    image.get_pixel(x, y).0
}

/// A pixel is blank when it is opaque white: all four channels at their
/// maximum.
pub open spec fn blank(rgba: [u8; 4]) -> bool {
    rgba[0] == 255 && rgba[1] == 255 && rgba[2] == 255 && rgba[3] == 255
}

/// Whether a pixel is opaque white.
pub fn is_blank(rgba: [u8; 4]) -> (white: bool)
    ensures
        white == blank(rgba),
{
    rgba[0] == 255 && rgba[1] == 255 && rgba[2] == 255 && rgba[3] == 255
}

} // verus!
