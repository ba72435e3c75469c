//! Grid addressing: which element of the stored pixel sequence is shown at a
//! given column and row.
//!
//! The scheme is the one existing BHI files were written for, and this crate
//! keeps it exactly, for the sake of those files. It is not the plain
//! row-major inverse `row * width + column`: every position of row 0 shows the
//! first stored pixel, and row `r > 0` shows the stored pixels of row `r - 1`,
//! so the last stored row is never shown. Exporting to a file and drawing on
//! screen both go through this one module.

use vstd::arithmetic::div_mod::lemma_fundamental_div_mod_converse;
use vstd::prelude::*;
use crate::error::BhiError;
use crate::raster::{lemma_place_in_range, Pixel, Raster, RasterView};

verus! {

/// The index into the pixel sequence for `column` and `row` of a grid that is
/// `width` columns wide.
pub open spec fn index_of(column: int, row: int, width: int) -> int {
    if row == 0 {
        0
    } else {
        (row - 1) * width + column
    }
}

/// What a lookup at `column`, `row` yields from `pixels`.
pub open spec fn fetched(pixels: Seq<Pixel>, width: u32, column: u32, row: u32) -> Result<
    Pixel,
    BhiError,
> {
    let index = index_of(column as int, row as int, width as int);
    if index < pixels.len() {
        Ok(pixels[index])
    } else {
        Err(BhiError::IndexOutOfRange { column, row, index: index as u64 })
    }
}

/// Every position of a `width` by `height` grid finds its pixel among `len`
/// stored ones.
pub open spec fn covers(width: u32, height: u32, len: nat) -> bool {
    forall|column: int, row: int|
        0 <= column < width && 0 <= row < height ==> #[trigger] index_of(
            column,
            row,
            width as int,
        ) < len
}

/// `column`, `row` is the first position of the grid, going row by row, whose
/// pixel is not among `len` stored ones.
pub open spec fn first_missing(width: u32, height: u32, len: nat, column: int, row: int) -> bool {
    &&& 0 <= column < width
    &&& 0 <= row < height
    &&& index_of(column, row, width as int) >= len
    &&& forall|c: int, r: int|
        0 <= c < width && (0 <= r < row || (r == row && c < column)) ==> #[trigger] index_of(
            c,
            r,
            width as int,
        ) < len
}

/// The pixels as the grid shows them, row by row: at each place the stored
/// pixel that its column and row address.
pub open spec fn shown(width: u32, height: u32, pixels: Seq<Pixel>) -> Seq<Pixel> {
    Seq::new(
        (width * height) as nat,
        |place: int|
            pixels[index_of(place % (width as int), place / (width as int), width as int)],
    )
}

/// The raster that a grid of the given size shows of `pixels`.
pub open spec fn displayed(width: u32, height: u32, pixels: Seq<Pixel>) -> RasterView {
    RasterView { width, height, pixels: shown(width, height, pixels) }
}

/// The largest index that two 32-bit coordinates can give fits in 64 bits.
pub proof fn lemma_index_bounds(column: u32, row: u32, width: u32)
    ensures
        0 <= index_of(column as int, row as int, width as int) <= u64::MAX,
{
    if row > 0 {
        assert(0 <= (row - 1) * width <= 0xffff_fffe * 0xffff_ffff) by (nonlinear_arith)
            requires
                1 <= row <= 0xffff_ffff,
                0 <= width <= 0xffff_ffff,
        ;
    }
}

/// The two ways of writing the index of a row below the first agree.
pub proof fn lemma_index_forms(column: int, row: int, width: int)
    requires
        row != 0,
    ensures
        index_of(column, row, width) == row * width - (width - column),
{
    assert((row - 1) * width == row * width - width) by (nonlinear_arith);
}

/// Computes the index into the pixel sequence for a grid position.
pub fn grid_index(column: u32, row: u32, width: u32) -> (index: u64)
    ensures
        index == index_of(column as int, row as int, width as int),
{
    proof {
        lemma_index_bounds(column, row, width);
    }
    if row == 0 {
        0
    } else {
        (row as u64 - 1) * (width as u64) + (column as u64)
    }
}

/// Looks up the pixel shown at `column`, `row`, or reports the position and
/// the index it computed when the sequence is too short to hold it.
pub fn fetch_pixel(pixels: &[Pixel], width: u32, column: u32, row: u32) -> (out: Result<
    Pixel,
    BhiError,
>)
    ensures
        out == fetched(pixels@, width, column, row),
{
    let index = grid_index(column, row, width);
    if index < pixels.len() as u64 {
        Ok(pixels[index as usize])
    } else {
        Err(BhiError::IndexOutOfRange { column, row, index })
    }
}

/// A sequence with one pixel for each position of the grid is long enough
/// for every position: no lookup in it goes out of range.
pub proof fn lemma_full_sequence_covers(width: u32, height: u32)
    ensures
        covers(width, height, (width * height) as nat),
{
    assert forall|column: int, row: int| 0 <= column < width && 0 <= row < height implies index_of(
        column,
        row,
        width as int,
    ) < width * height by {
        let w = width as int;
        let h = height as int;
        assert(row * w + w <= w * h && 0 < w * h && (row - 1) * w == row * w - w)
            by (nonlinear_arith)
            requires
                0 <= row < h,
                0 < w,
        ;
    }
}

/// The raster that a grid shows is well formed, and holds at each position the
/// stored pixel that the position addresses.
pub proof fn lemma_displayed_at(
    width: u32,
    height: u32,
    pixels: Seq<Pixel>,
    column: int,
    row: int,
)
    requires
        0 <= column < width,
        0 <= row < height,
    ensures
        displayed(width, height, pixels).well_formed(),
        displayed(width, height, pixels).at(column, row) == pixels[index_of(
            column,
            row,
            width as int,
        )],
{
    let raster = displayed(width, height, pixels);
    lemma_place_in_range(raster, column, row);
    lemma_fundamental_div_mod_converse(raster.place(column, row), width as int, row, column);
}

/// Builds the raster that the grid shows: for every position, row by row, the
/// stored pixel that the position addresses. Stops at the first position whose
/// pixel the sequence does not hold.
pub fn reindex(width: u32, height: u32, pixels: &[Pixel]) -> (out: Result<Raster, BhiError>)
    ensures
        covers(width, height, pixels@.len()) ==> out is Ok && out->Ok_0@ == displayed(
            width,
            height,
            pixels@,
        ),
        !covers(width, height, pixels@.len()) ==> (out matches Err(
            BhiError::IndexOutOfRange { column, row, index },
        ) && first_missing(width, height, pixels@.len(), column as int, row as int) && index
            == index_of(column as int, row as int, width as int)),
{
    let mut grid: Vec<Pixel> = Vec::new();
    let mut row: u32 = 0;
    while row < height
        invariant
            row <= height,
            grid@.len() == row * width,
            forall|c: int, r: int|
                0 <= c < width && 0 <= r < row ==> #[trigger] index_of(c, r, width as int)
                    < pixels@.len(),
            forall|place: int|
                0 <= place < grid@.len() ==> #[trigger] grid@[place] == pixels@[index_of(
                    place % (width as int),
                    place / (width as int),
                    width as int,
                )],
        decreases height - row,
    {
        let mut column: u32 = 0;
        while column < width
            invariant
                row < height,
                column <= width,
                grid@.len() == row * width + column,
                forall|c: int, r: int|
                    0 <= c < width && 0 <= r < row ==> #[trigger] index_of(c, r, width as int)
                        < pixels@.len(),
                forall|c: int|
                    0 <= c < column ==> #[trigger] index_of(c, row as int, width as int)
                        < pixels@.len(),
                forall|place: int|
                    0 <= place < grid@.len() ==> #[trigger] grid@[place] == pixels@[index_of(
                        place % (width as int),
                        place / (width as int),
                        width as int,
                    )],
            decreases width - column,
        {
            match fetch_pixel(pixels, width, column, row) {
                Ok(pixel) => {
                    proof {
                        lemma_fundamental_div_mod_converse(
                            grid@.len() as int,
                            width as int,
                            row as int,
                            column as int,
                        );
                    }
                    grid.push(pixel);
                },
                Err(e) => {
                    proof {
                        lemma_index_bounds(column, row, width);
                        assert(first_missing(
                            width,
                            height,
                            pixels@.len(),
                            column as int,
                            row as int,
                        ));
                    }
                    return Err(e);
                },
            }
            column += 1;
        }
        assert(row * width + width == (row + 1) * width) by (nonlinear_arith);
        row += 1;
    }
    assert(height * width == width * height) by (nonlinear_arith);
    assert(grid@ == shown(width, height, pixels@));
    Ok(Raster::assemble(width, height, grid))
}

} // verus!
