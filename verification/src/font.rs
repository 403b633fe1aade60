//! The 7x13 ASCII font atlas of `embedded_graphics`.
use vstd::prelude::*;

verus! {

/// Width of one glyph in the atlas, in pixels.
pub const FONT_CHAR_WIDTH: u32 = 7;

/// Height of one glyph in the atlas, in pixels.
pub const FONT_CHAR_HEIGHT: u32 = 13;

/// First character of the atlas (space).
pub const ASCII_START: u8 = 32;

/// Last character of the atlas (`~`).
pub const ASCII_END: u8 = 126;

/// Width of the atlas image, in pixels.
pub open spec fn atlas_width() -> int {
    112
}

/// Height of the atlas image, in pixels.
pub open spec fn atlas_height() -> int {
    78
}

/// Whether atlas pixel (`x`, `y`) is set: `Some(true)` for a set pixel,
/// `Some(false)` for a clear one, `None` outside the atlas.
pub uninterp spec fn atlas_pixel(x: i32, y: i32) -> Option<bool>;

/// Calls `OriginDimensions::size` on the image of
/// `embedded_graphics::mono_font::ascii::FONT_7X13` and returns its width.
/// The crate builds that image with `ImageRaw::new(.., 112)`, which keeps the
/// width it is given.
#[verifier::external_body]
pub(crate) fn font_image_width() -> (w: u32)
    ensures
        w == atlas_width(),
{
    embedded_graphics::geometry::OriginDimensions::size(&embedded_graphics::mono_font::ascii::FONT_7X13.image).width
}

/// Calls `GetPixel::pixel` on the image of
/// `embedded_graphics::mono_font::ascii::FONT_7X13` at `Point::new(x, y)` and
/// tells `BinaryColor::On` (`true`) from `BinaryColor::Off` (`false`).
/// The result depends on the font data alone; the crate returns `None`
/// exactly outside the image, which is 112 pixels wide and, from 1092 bytes
/// of one bit per pixel in rows of 14 bytes, 78 pixels high.
#[verifier::external_body]
pub(crate) fn font_pixel(x: i32, y: i32) -> (p: Option<bool>)
    ensures
        p == atlas_pixel(x, y),
        p is Some <==> (0 <= x < atlas_width() && 0 <= y < atlas_height()),
{
    match embedded_graphics::image::GetPixel::pixel(
        &embedded_graphics::mono_font::ascii::FONT_7X13.image,
        embedded_graphics::geometry::Point::new(x, y),
    ) {
        Some(embedded_graphics::pixelcolor::BinaryColor::On) => Some(true),
        Some(embedded_graphics::pixelcolor::BinaryColor::Off) => Some(false),
        None => None,
    }
}

} // verus!
