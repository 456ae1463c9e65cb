use vstd::prelude::*;
use vstd::arithmetic::div_mod::lemma_fundamental_div_mod_converse;
use crate::color::{Rgb, color_of, color_pixel};

verus! {

/// The finished output grid: `width * height` RGB pixels in row-major
/// order, the pixel at `(x, y)` standing at index `y * width + x`.
pub struct FractalImage {
    pub width: u32,
    pub height: u32,
    pub pixels: Vec<Rgb>,
}

/// The grid that a sequence of per-pixel iteration counts renders to: pixel
/// `i` carries the color derived from count `counts[i]` and the position
/// `(i % w, i / w)`.
pub open spec fn rendered(counts: Seq<u8>, w: nat, h: nat) -> Seq<Rgb> {
    Seq::new(
        w * h,
        |i: int|
            color_of(
                counts[i] as nat,
                (i % (w as int)) as nat,
                (i / (w as int)) as nat,
                w,
                h,
            ),
    )
}

/// Both render modes share one color derivation: a pixel of the finished
/// grid depends on its iteration count and its position alone, so two count
/// grids that agree at a pixel render to the same color there.
pub proof fn lemma_shared_color_map(c1: Seq<u8>, c2: Seq<u8>, w: nat, h: nat, i: int)
    requires
        c1.len() == w * h,
        c2.len() == w * h,
        0 <= i < w * h,
        c1[i] == c2[i],
    ensures
        rendered(c1, w, h)[i] == rendered(c2, w, h)[i],
{
}

/// Reading a rendered grid back pointwise: the pixel stored at row-major
/// index `y * w + x` carries the color derived from that cell's count and
/// the position `(x, y)`.
pub proof fn lemma_rendered_at(counts: Seq<u8>, w: nat, h: nat, x: nat, y: nat)
    requires
        counts.len() == w * h,
        x < w,
        y < h,
    ensures
        rendered(counts, w, h)[(y * w + x) as int] == color_of(
            counts[(y * w + x) as int] as nat,
            x,
            y,
            w,
            h,
        ),
{
    assert((y as int) * (w as int) + (x as int) < (w as int) * (h as int)) by (nonlinear_arith)
        requires
            y < h,
            x < w,
    ;
    lemma_fundamental_div_mod_converse((y * w + x) as int, w as int, y as int, x as int);
}

impl FractalImage {
    /// A well-formed image holds exactly one pixel per grid cell.
    pub open spec fn wf(&self) -> bool {
        self.pixels@.len() == self.width * self.height
    }

    /// Read the pixel at `(x, y)`.
    pub fn pixel_at(&self, x: u32, y: u32) -> (p: Rgb)
        requires
            self.wf(),
            x < self.width,
            y < self.height,
        ensures
            p == self.pixels@[y * self.width + x],
    {
        proof {
            assert((y as int) * (self.width as int) + (x as int) < (self.width as int) * (self.height
                as int)) by (nonlinear_arith)
                requires
                    y < self.height,
                    x < self.width,
            ;
            vstd::std_specs::vec::axiom_spec_len(&self.pixels);
            assert((y as int) * (self.width as int) + (x as int) < self.pixels@.len());
        }
        let idx: usize = (y as usize) * (self.width as usize) + (x as usize);
        self.pixels[idx]
    }

    /// Flatten the grid into raw bytes, three per pixel in channel order
    /// red, green, blue, for handing to an image encoder.
    pub fn rgb_bytes(&self) -> (bytes: Vec<u8>)
        requires
            3 * self.pixels@.len() <= usize::MAX,
        ensures
            bytes@.len() == 3 * self.pixels@.len(),
            forall|i: int|
                0 <= i < self.pixels@.len() ==> bytes@[3 * i] == self.pixels@[i].r && bytes@[3 * i
                    + 1] == self.pixels@[i].g && bytes@[3 * i + 2] == self.pixels@[i].b,
    {
        let mut bytes: Vec<u8> = Vec::new();
        let mut i: usize = 0;
        while i < self.pixels.len()
            invariant
                i <= self.pixels@.len(),
                3 * self.pixels@.len() <= usize::MAX,
                bytes@.len() == 3 * i,
                forall|j: int|
                    0 <= j < i ==> bytes@[3 * j] == self.pixels@[j].r && bytes@[3 * j + 1]
                        == self.pixels@[j].g && bytes@[3 * j + 2] == self.pixels@[j].b,
            decreases self.pixels@.len() - i,
        {
            let p = self.pixels[i];
            bytes.push(p.r);
            bytes.push(p.g);
            bytes.push(p.b);
            i = i + 1;
        }
        bytes
    }
}

/// Assemble the output grid from per-pixel iteration counts, row by row.
/// The result has exactly `width * height` pixels, each carrying the color
/// its count and position derive.
pub fn render_from_counts(width: u32, height: u32, counts: &Vec<u8>) -> (img: FractalImage)
    requires
        counts@.len() == width * height,
    ensures
        img.width == width,
        img.height == height,
        img.wf(),
        img.pixels@ == rendered(counts@, width as nat, height as nat),
{
    let ghost full = rendered(counts@, width as nat, height as nat);
    let mut pixels: Vec<Rgb> = Vec::new();
    let mut y: u32 = 0;
    while y < height
        invariant
            counts@.len() == width * height,
            full == rendered(counts@, width as nat, height as nat),
            y <= height,
            pixels@.len() == y * width,
            pixels@ == full.take((y * width) as int),
        decreases height - y,
    {
        let mut x: u32 = 0;
        while x < width
            invariant
                counts@.len() == width * height,
                full == rendered(counts@, width as nat, height as nat),
                y < height,
                x <= width,
                pixels@.len() == y * width + x,
                pixels@ == full.take((y * width + x) as int),
            decreases width - x,
        {
            let idx: usize = pixels.len();
            proof {
                assert((y as int) * (width as int) + (x as int) < (width as int) * (height as int))
                    by (nonlinear_arith)
                    requires
                        y < height,
                        x < width,
                ;
                lemma_fundamental_div_mod_converse(idx as int, width as int, y as int, x as int);
            }
            let p = color_pixel(counts[idx], x, y, width, height);
            pixels.push(p);
            proof {
                assert(pixels@ =~= full.take(idx + 1));
            }
            x = x + 1;
        }
        proof {
            assert((y as int + 1) * (width as int) == (y as int) * (width as int) + (width as int))
                by (nonlinear_arith);
        }
        y = y + 1;
    }
    proof {
        assert((height as int) * (width as int) == (width as int) * (height as int))
            by (nonlinear_arith);
        assert(pixels@ =~= full);
    }
    FractalImage { width, height, pixels }
}

} // verus!
