//! Pixel colours with the wallpaper's opacity applied.
use vstd::prelude::*;

verus! {

/// Opacity of everything drawn, in percent.
pub const OPACITY_PERCENT: u32 = 50;

/// `c * OPACITY_PERCENT / 100`, rounded to the nearest integer (halves away from zero).
pub open spec fn with_opacity(c: int) -> int {
    (2 * c * OPACITY_PERCENT + 100) / 200
}

/// Packs alpha, red, green and blue bytes into an ARGB pixel.
pub open spec fn argb(a: int, r: int, g: int, b: int) -> int {
    a * 0x100_0000 + r * 0x1_0000 + g * 0x100 + b
}

/// The ARGB pixel of colour (`r`, `g`, `b`) drawn with the wallpaper's opacity:
/// alpha is the opacity of 255, and every channel is scaled by the opacity.
pub open spec fn transparent(r: int, g: int, b: int) -> u32 {
    argb(with_opacity(255), with_opacity(r), with_opacity(g), with_opacity(b)) as u32
}

/// Scales one channel by the opacity.
fn scale_channel(c: u8) -> (s: u32)
    ensures
        s == with_opacity(c as int),
        s <= c,
{
    (2 * (c as u32) * OPACITY_PERCENT + 100) / 200
}

/// The ARGB pixel of colour (`r`, `g`, `b`) with the wallpaper's opacity applied.
pub fn apply_transparency(r: u8, g: u8, b: u8) -> (p: u32)
    ensures
        p == transparent(r as int, g as int, b as int),
        p as int == argb(with_opacity(255), with_opacity(r as int), with_opacity(g as int), with_opacity(b as int)),
{
    let alpha = scale_channel(255);
    let r = scale_channel(r);
    let g = scale_channel(g);
    let b = scale_channel(b);
    assert(alpha < 256 && r < 256 && g < 256 && b < 256);
    let p = (alpha << 24) | (r << 16) | (g << 8) | b;
    assert(p == alpha * 0x100_0000 + r * 0x1_0000 + g * 0x100 + b) by (bit_vector)
        requires
            alpha < 256,
            r < 256,
            g < 256,
            b < 256,
            p == (alpha << 24) | (r << 16) | (g << 8) | b,
    ;
    p
}

/// Opacity never brightens a channel, and black stays black.
pub proof fn lemma_opacity_darkens(c: int)
    requires
        0 <= c <= 255,
    ensures
        0 <= with_opacity(c) <= c,
        with_opacity(0) == 0,
{
}

} // verus!
