use vstd::prelude::*;
use vstd::arithmetic::div_mod::lemma_multiply_divide_lt;

verus! {

/// One 8-bit RGB pixel of the output grid.
#[derive(Clone, Copy, PartialEq, Eq, Structural, Debug)]
pub struct Rgb {
    pub r: u8,
    pub g: u8,
    pub b: u8,
}

/// Position band for one axis: `v * 255 / limit` with integer division,
/// the gradient that runs across the image.
pub open spec fn band_of(v: nat, limit: nat) -> nat
    recommends
        v < limit,
{
    v * 255 / limit
}

/// One of the two mixed channels: half the position band plus half the
/// iteration count, both with integer division.
pub open spec fn mixed_channel(count: nat, band: nat) -> nat {
    band / 2 + count / 2
}

/// The color of the pixel at `(x, y)` in a `w` by `h` grid whose escape
/// iteration count is `count`: red mixes the x band with the count, green is
/// the count itself, and blue mixes the y band with the count. Both render
/// modes derive their colors from this one function.
pub open spec fn color_of(count: nat, x: nat, y: nat, w: nat, h: nat) -> Rgb {
    Rgb {
        r: mixed_channel(count, band_of(x, w)) as u8,
        g: count as u8,
        b: mixed_channel(count, band_of(y, h)) as u8,
    }
}

/// A position band never reaches 255: `v < limit` keeps `v * 255 / limit`
/// strictly below 255.
pub proof fn lemma_band_le_254(v: nat, limit: nat)
    requires
        v < limit,
    ensures
        band_of(v, limit) <= 254,
{
    assert(v * 255 < limit * 255) by (nonlinear_arith)
        requires
            v < limit,
    ;
    lemma_multiply_divide_lt((v * 255) as int, limit as int, 255);
}

/// Every channel of every derived color lies in [0, 255]: the mixed channels
/// stay at or below 254 and the green channel equals the count, which is
/// capped at 255.
pub proof fn lemma_color_in_range(count: nat, x: nat, y: nat, w: nat, h: nat)
    requires
        x < w,
        y < h,
        count <= 255,
    ensures
        mixed_channel(count, band_of(x, w)) <= 254,
        mixed_channel(count, band_of(y, h)) <= 254,
{
    lemma_band_le_254(x, w);
    lemma_band_le_254(y, h);
}

/// Derive the color of one pixel from its escape iteration count and its
/// position in the grid.
pub fn color_pixel(count: u8, x: u32, y: u32, width: u32, height: u32) -> (p: Rgb)
    requires
        x < width,
        y < height,
    ensures
        p == color_of(count as nat, x as nat, y as nat, width as nat, height as nat),
{
    proof {
        lemma_color_in_range(count as nat, x as nat, y as nat, width as nat, height as nat);
    }
    let band_r: u64 = (x as u64) * 255 / (width as u64);
    let band_b: u64 = (y as u64) * 255 / (height as u64);
    let r: u8 = (band_r / 2) as u8 + count / 2;
    let b: u8 = (band_b / 2) as u8 + count / 2;
    Rgb { r, g: count, b }
}

} // verus!
