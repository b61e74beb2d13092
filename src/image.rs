use vstd::prelude::*;
use crate::ppm::{Rgb8, ppm_text, pixel_lines, push_header, push_pixel};
use crate::raster::{Raster, pixel_index};

verus! {

/// The colour of a pixel that nothing has been written to.
pub open spec fn black() -> Rgb8 {
    Rgb8 { r: 0, g: 0, b: 0 }
}

/// Pixel `(i, j)` of a column-`i`, row-`j` grid of `width` columns stored
/// row-major in `pixels`.
pub open spec fn pixel_of(pixels: Seq<Rgb8>, width: nat, i: nat, j: nat) -> Rgb8 {
    pixels[pixel_index(width, i, j) as int]
}

/// A frame of quantized pixels, one per cell of its raster, kept in
/// row-major order: top row first, left to right within a row.
pub struct Image {
    raster: Raster,
    pixels: Vec<Rgb8>,
}

impl Image {
    /// Well-formedness: one pixel per cell of the raster.
    pub open spec fn wf(&self) -> bool {
        self.pixels().len() == self.columns() * self.rows()
    }

    /// The raster that this image covers.
    pub closed spec fn raster(&self) -> Raster {
        self.raster
    }

    /// Every pixel, row-major.
    pub closed spec fn pixels(&self) -> Seq<Rgb8> {
        self.pixels@
    }

    /// Number of pixel columns.
    pub open spec fn columns(&self) -> nat {
        self.raster().columns()
    }

    /// Number of pixel rows.
    pub open spec fn rows(&self) -> nat {
        self.raster().rows()
    }

    /// Pixel `(i, j)`: column `i`, row `j`, row 0 at the top.
    pub open spec fn pixel(&self, i: nat, j: nat) -> Rgb8 {
        pixel_of(self.pixels(), self.columns(), i, j)
    }

    /// An all-black image over `raster`.
    pub fn new(raster: Raster) -> (img: Image)
        ensures
            img.wf(),
            img.raster() == raster,
            img.pixels() == Seq::new(raster.columns() * raster.rows(), |k: int| black()),
    {
        let n = raster.pixel_count();
        let mut pixels: Vec<Rgb8> = Vec::new();
        let mut k: usize = 0;
        while k < n
            invariant
                k <= n,
                pixels@ == Seq::new(k as nat, |m: int| black()),
            decreases n - k,
        {
            pixels.push(Rgb8 { r: 0, g: 0, b: 0 });
            k = k + 1;
        }
        Image { raster, pixels }
    }

    /// Number of pixel columns.
    pub fn width(&self) -> (w: u32)
        ensures
            w == self.columns(),
            w >= 1,
    {
        self.raster.width()
    }

    /// Number of pixel rows.
    pub fn height(&self) -> (h: u32)
        ensures
            h == self.rows(),
            h >= 1,
    {
        self.raster.height()
    }

    /// Pixel `(i, j)`.
    pub fn get(&self, i: u32, j: u32) -> (c: Rgb8)
        requires
            self.wf(),
            i < self.columns(),
            j < self.rows(),
        ensures
            c == self.pixel(i as nat, j as nat),
    {
        self.pixels[self.raster.index_of(i, j)]
    }

    /// Writes `c` at pixel `(i, j)` and leaves every other pixel as it was.
    pub fn set(&mut self, i: u32, j: u32, c: Rgb8)
        requires
            old(self).wf(),
            i < old(self).columns(),
            j < old(self).rows(),
        ensures
            final(self).wf(),
            final(self).raster() == old(self).raster(),
            final(self).pixels() == old(self).pixels().update(
                pixel_index(old(self).columns(), i as nat, j as nat) as int,
                c,
            ),
    {
        let k = self.raster.index_of(i, j);
        self.pixels.set(k, c);
    }

    /// The image as P3 text: header, then one line per pixel in row-major
    /// order.
    pub fn encode_ppm(&self) -> (out: Vec<u8>)
        requires
            self.wf(),
        ensures
            out@ == ppm_text(self.columns(), self.rows(), self.pixels()),
    {
        let mut out: Vec<u8> = Vec::new();
        push_header(&mut out, self.raster.width(), self.raster.height());
        let ghost header = out@;
        let n = self.pixels.len();
        let mut k: usize = 0;
        while k < n
            invariant
                k <= n,
                n == self.pixels@.len(),
                out@ == header + pixel_lines(self.pixels@.subrange(0, k as int)),
            decreases n - k,
        {
            proof {
                assert(self.pixels@.subrange(0, k + 1).drop_last() =~= self.pixels@.subrange(
                    0,
                    k as int,
                ));
            }
            push_pixel(&mut out, self.pixels[k]);
            k = k + 1;
            proof {
                assert(out@ =~= header + pixel_lines(self.pixels@.subrange(0, k as int)));
            }
        }
        proof {
            assert(self.pixels@.subrange(0, n as int) =~= self.pixels@);
        }
        out
    }
}

} // verus!
