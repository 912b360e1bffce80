use vstd::prelude::*;

verus! {

/// One RGBA pixel: four independent 8-bit channels. A plain value with no
/// identity; copying it is always legal.
#[derive(Clone, Copy, Debug, PartialEq, Eq, Structural)]
pub struct Pixel {
    pub r: u8,
    pub g: u8,
    pub b: u8,
    pub a: u8,
}

/// Packs four channel bytes into one pixel value.
pub fn pack_rgba8(r: u8, g: u8, b: u8, a: u8) -> (p: Pixel)
    ensures
        p == (Pixel { r, g, b, a }),
{
    Pixel { r, g, b, a }
}

/// What a wide channel value becomes on the way into a pixel: values outside
/// `0..=255` are clamped to the nearest representable channel value.
pub open spec fn clamped_channel(v: i32) -> u8 {
    if v < 0 {
        0u8
    } else if v > 255 {
        255u8
    } else {
        v as u8
    }
}

fn clamp_channel(v: i32) -> (c: u8)
    ensures
        c == clamped_channel(v),
{
    if v < 0 {
        0
    } else if v > 255 {
        255
    } else {
        v as u8
    }
}

/// Builds a pixel from the wide integers a script hands across the bridge.
/// Out-of-range channel values are clamped to `0..=255`; this clamping is the
/// defined behaviour of the bridge, not a silent truncation.
pub fn pixel_from_wide(r: i32, g: i32, b: i32, a: i32) -> (p: Pixel)
    ensures
        p.r == clamped_channel(r),
        p.g == clamped_channel(g),
        p.b == clamped_channel(b),
        p.a == clamped_channel(a),
{
    Pixel {
        r: clamp_channel(r),
        g: clamp_channel(g),
        b: clamp_channel(b),
        a: clamp_channel(a),
    }
}

} // verus!
