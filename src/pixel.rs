use vstd::prelude::*;

verus! {

/// Fixed-point scale of a channel: the value `ONE` stands for 1.0.
///
/// It is `255 * 65536`, so every 8-bit input level `b / 255` is exact.
pub const ONE: i32 = 16711680;

/// Scale from an 8-bit level to a channel value.
pub const LEVEL_STEP: i32 = 65536;

/// One RGBA working pixel; each channel is a fixed-point number over `ONE`.
#[derive(Debug, Clone, Copy, PartialEq, Eq, Structural)]
pub struct Pixel {
    pub r: i32,
    pub g: i32,
    pub b: i32,
    pub a: i32,
}

/// Channel `k` of a pixel (0 red, 1 green, 2 blue, 3 alpha).
pub open spec fn chan(p: Pixel, k: int) -> int {
    if k == 0 {
        p.r as int
    } else if k == 1 {
        p.g as int
    } else if k == 2 {
        p.b as int
    } else {
        p.a as int
    }
}

/// The channel value of an 8-bit level: `level / 255` in units of `ONE`.
pub open spec fn level_value(b: u8) -> int {
    b as int * LEVEL_STEP as int
}

/// The pixel that four bytes in RGBA order decode to.
pub open spec fn decoded(r: u8, g: u8, b: u8, a: u8) -> Pixel {
    Pixel {
        r: level_value(r) as i32,
        g: level_value(g) as i32,
        b: level_value(b) as i32,
        a: level_value(a) as i32,
    }
}

/// Channel value of one 8-bit level.
pub fn level_to_channel(b: u8) -> (r: i32)
    ensures
        r == level_value(b),
        0 <= r <= ONE,
{
    b as i32 * LEVEL_STEP
}

/// Decodes one RGBA byte group into a working pixel.
pub fn decode_pixel(r: u8, g: u8, b: u8, a: u8) -> (p: Pixel)
    ensures
        p == decoded(r, g, b, a),
        chan(p, 0) == level_value(r),
        chan(p, 1) == level_value(g),
        chan(p, 2) == level_value(b),
        chan(p, 3) == level_value(a),
{
    Pixel {
        r: level_to_channel(r),
        g: level_to_channel(g),
        b: level_to_channel(b),
        a: level_to_channel(a),
    }
}

} // verus!
