//! The image surface: a rectangular, row-major grid of colors.

use vstd::prelude::*;
use crate::color::Color;

verus! {

/// A width × height grid of colors, row-major: the pixel at column `x`,
/// row `y` sits at index `y * width + x`.
pub struct ImageBuffer {
    pub width: u32,
    pub height: u32,
    pub pixels: Vec<Color>,
}

/// The cell count of any grid with 32-bit dimensions fits in 64 bits.
proof fn lemma_cell_count_fits(width: u32, height: u32)
    ensures
        0 <= (width as int) * (height as int) <= 0xffff_ffff * 0xffff_ffff,
{
    assert(0 <= (width as int) * (height as int) <= 0xffff_ffff * 0xffff_ffff)
        by (nonlinear_arith)
        requires
            0 <= (width as int) <= 0xffff_ffff,
            0 <= (height as int) <= 0xffff_ffff,
    ;
}

impl ImageBuffer {
    /// The grid is rectangular: exactly one color per cell.
    pub open spec fn wf(&self) -> bool {
        self.pixels@.len() == self.width * self.height
    }

    /// Builds a buffer from dimensions and a row-major pixel vector; refuses
    /// a vector whose length does not match the dimensions.
    pub fn from_pixels(width: u32, height: u32, pixels: Vec<Color>) -> (r: Option<ImageBuffer>)
        ensures
            match r {
                Some(buf) => {
                    &&& buf.wf()
                    &&& buf.width == width
                    &&& buf.height == height
                    &&& buf.pixels@ == pixels@
                },
                None => pixels@.len() != width * height,
            },
    {
        proof {
            lemma_cell_count_fits(width, height);
        }
        let expected: u64 = (width as u64) * (height as u64);
        if pixels.len() as u64 == expected {
            Some(ImageBuffer { width, height, pixels })
        } else {
            None
        }
    }

    /// Builds a buffer from dimensions and a row-major byte vector of RGB
    /// triples; refuses a vector whose length is not exactly three bytes per
    /// cell.
    pub fn from_bytes(width: u32, height: u32, bytes: &Vec<u8>) -> (r: Option<ImageBuffer>)
        ensures
            match r {
                Some(buf) => {
                    &&& buf.wf()
                    &&& buf.width == width
                    &&& buf.height == height
                    &&& bytes@.len() == 3 * (width * height)
                    &&& forall|i: int|
                        0 <= i < buf.pixels@.len() ==> buf.pixels@[i] == (Color {
                            r: bytes@[3 * i],
                            g: bytes@[3 * i + 1],
                            b: bytes@[3 * i + 2],
                        })
                },
                None => bytes@.len() != 3 * (width * height),
            },
    {
        proof {
            lemma_cell_count_fits(width, height);
        }
        let cells: u64 = (width as u64) * (height as u64);
        if bytes.len() as u128 != 3 * (cells as u128) {
            return None;
        }
        let n: usize = cells as usize;
        let mut pixels: Vec<Color> = Vec::new();
        let mut i: usize = 0;
        while i < n
            invariant
                3 * n == bytes@.len(),
                bytes@.len() <= usize::MAX,
                0 <= i <= n,
                pixels@.len() == i,
                forall|j: int|
                    0 <= j < i ==> pixels@[j] == (Color {
                        r: bytes@[3 * j],
                        g: bytes@[3 * j + 1],
                        b: bytes@[3 * j + 2],
                    }),
            decreases n - i,
        {
            let base: usize = 3 * i;
            let c = Color { r: bytes[base], g: bytes[base + 1], b: bytes[base + 2] };
            pixels.push(c);
            i += 1;
        }
        Some(ImageBuffer { width, height, pixels })
    }

    /// The buffer's contents as a row-major byte vector of RGB triples, the
    /// inverse of `from_bytes`.
    pub fn to_bytes(&self) -> (bytes: Vec<u8>)
        requires
            self.wf(),
        ensures
            bytes@.len() == 3 * self.pixels@.len(),
            forall|i: int|
                0 <= i < self.pixels@.len() ==> {
                    &&& bytes@[3 * i] == self.pixels@[i].r
                    &&& bytes@[3 * i + 1] == self.pixels@[i].g
                    &&& bytes@[3 * i + 2] == self.pixels@[i].b
                },
    {
        let n: usize = self.pixels.len();
        let mut bytes: Vec<u8> = Vec::new();
        let mut i: usize = 0;
        while i < n
            invariant
                n == self.pixels@.len(),
                0 <= i <= n,
                bytes@.len() == 3 * i,
                forall|j: int|
                    0 <= j < i ==> {
                        &&& bytes@[3 * j] == self.pixels@[j].r
                        &&& bytes@[3 * j + 1] == self.pixels@[j].g
                        &&& bytes@[3 * j + 2] == self.pixels@[j].b
                    },
            decreases n - i,
        {
            let c = self.pixels[i];
            bytes.push(c.r);
            bytes.push(c.g);
            bytes.push(c.b);
            i += 1;
        }
        bytes
    }

    /// The pixel at column `x`, row `y`.
    pub fn get(&self, x: u32, y: u32) -> (c: Color)
        requires
            self.wf(),
            x < self.width,
            y < self.height,
        ensures
            c == self.pixels@[y * self.width + x],
    {
        let n: usize = self.pixels.len();
        proof {
            assert(0 <= (y as int) * (self.width as int) && (y as int) * (self.width as int) + (
            x as int) < (self.width as int) * (self.height as int)) by (nonlinear_arith)
                requires
                    0 <= (x as int) < (self.width as int),
                    0 <= (y as int) < (self.height as int),
            ;
        }
        let idx: usize = (y as usize) * (self.width as usize) + (x as usize);
        self.pixels[idx]
    }
}

} // verus!
