//! Pixels and rasters.

use vstd::prelude::*;
use crate::error::BhiError;

verus! {

/// One pixel: its red, green and blue channel.
pub type Pixel = (u8, u8, u8);

/// A grid of pixels, stored row by row: row 0 from left to right, then row 1.
/// A raster always holds exactly one pixel for each position of its grid.
#[derive(Debug, PartialEq, Eq)]
pub struct Raster {
    width: u32,
    height: u32,
    pixels: Vec<Pixel>,
}

/// The mathematical value of a [`Raster`].
pub struct RasterView {
    pub width: u32,
    pub height: u32,
    pub pixels: Seq<Pixel>,
}

impl RasterView {
    /// There is exactly one pixel for each position of the grid.
    pub open spec fn well_formed(self) -> bool {
        self.pixels.len() == self.width * self.height
    }

    /// The place of a position in the row-by-row storage.
    pub open spec fn place(self, column: int, row: int) -> int {
        row * self.width + column
    }

    /// The pixel stored for `column`, `row`.
    pub open spec fn at(self, column: int, row: int) -> Pixel {
        self.pixels[self.place(column, row)]
    }
}

impl View for Raster {
    type V = RasterView;

    closed spec fn view(&self) -> RasterView {
        RasterView { width: self.width, height: self.height, pixels: self.pixels@ }
    }
}

/// The product of two 32-bit numbers fits in 64 bits.
pub proof fn lemma_area_bounds(a: u32, b: u32)
    ensures
        0 <= a * b <= 0xffff_ffff * 0xffff_ffff,
{
    assert(0 <= a * b <= 0xffff_ffff * 0xffff_ffff) by (nonlinear_arith)
        requires
            0 <= a <= 0xffff_ffff,
            0 <= b <= 0xffff_ffff,
    ;
}

/// In a well-formed raster every position of the grid has a place of its own
/// among the stored pixels.
pub proof fn lemma_place_in_range(raster: RasterView, column: int, row: int)
    requires
        raster.well_formed(),
        0 <= column < raster.width,
        0 <= row < raster.height,
    ensures
        0 <= raster.place(column, row) < raster.pixels.len(),
{
    let w = raster.width as int;
    let h = raster.height as int;
    assert(0 <= row * w && row * w + w <= w * h) by (nonlinear_arith)
        requires
            0 <= row < h,
            0 <= w,
    ;
}

impl Raster {
    #[verifier::type_invariant]
    spec fn one_pixel_per_position(self) -> bool {
        self.pixels@.len() == self.width * self.height
    }

    /// Makes a raster from pixels that are known to fill the grid.
    pub(crate) fn assemble(width: u32, height: u32, pixels: Vec<Pixel>) -> (out: Raster)
        requires
            pixels@.len() == width * height,
        ensures
            out@ == (RasterView { width, height, pixels: pixels@ }),
    {
        Raster { width, height, pixels }
    }

    /// Makes a raster of the given size from its pixels, row by row. There
    /// must be width times height of them.
    pub fn new(width: u32, height: u32, pixels: Vec<Pixel>) -> (out: Result<Raster, BhiError>)
        ensures
            pixels@.len() == width * height ==> out is Ok && out->Ok_0@ == (RasterView {
                width,
                height,
                pixels: pixels@,
            }),
            pixels@.len() != width * height ==> out == Err::<Raster, BhiError>(
                BhiError::SizeMismatch,
            ),
    {
        proof {
            lemma_area_bounds(width, height);
        }
        if pixels.len() as u64 == (width as u64) * (height as u64) {
            Ok(Raster { width, height, pixels })
        } else {
            Err(BhiError::SizeMismatch)
        }
    }

    /// The number of columns.
    pub fn width(&self) -> (out: u32)
        ensures
            out == self@.width,
            self@.well_formed(),
    {
        proof {
            use_type_invariant(self);
        }
        self.width
    }

    /// The number of rows.
    pub fn height(&self) -> (out: u32)
        ensures
            out == self@.height,
            self@.well_formed(),
    {
        proof {
            use_type_invariant(self);
        }
        self.height
    }

    /// The pixels, row by row.
    pub fn pixels(&self) -> (out: &[Pixel])
        ensures
            out@ == self@.pixels,
            self@.well_formed(),
    {
        proof {
            use_type_invariant(self);
        }
        self.pixels.as_slice()
    }

    /// The pixel stored for `column`, `row`; `None` outside the grid.
    pub fn pixel(&self, column: u32, row: u32) -> (out: Option<Pixel>)
        ensures
            self@.well_formed(),
            out == if column < self@.width && row < self@.height {
                Some(self@.at(column as int, row as int))
            } else {
                None
            },
    {
        proof {
            use_type_invariant(self);
        }
        if column >= self.width || row >= self.height {
            return None;
        }
        proof {
            lemma_area_bounds(row, self.width);
            lemma_place_in_range(self@, column as int, row as int);
        }
        let place = (row as u64) * (self.width as u64) + (column as u64);
        assert(place == self@.place(column as int, row as int));
        assert(place < self.pixels.len());
        Some(self.pixels[place as usize])
    }
}

} // verus!
