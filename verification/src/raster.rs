//! Layout of RGBA pixel buffers and the shape checks shared by the image kernels.
use vstd::arithmetic::div_mod::{
    lemma_div_pos_is_pos, lemma_fundamental_div_mod, lemma_mod_pos_bound, lemma_multiply_divide_lt,
};
use vstd::prelude::*;
use vstd::string::StringExecFns;

verus! {

/// Why a pixel buffer was turned away.
#[derive(Clone, Copy, Debug, PartialEq, Eq)]
pub enum ShapeError {
    /// The buffer length is not a whole number of four-byte pixels.
    PartialPixel,
    /// The buffer length differs from `width * height * 4`.
    DimensionMismatch,
}

impl ShapeError {
    /// What went wrong, in words.
    pub open spec fn message_text(&self) -> Seq<char> {
        match self {
            ShapeError::PartialPixel => "buffer length is not a multiple of 4"@,
            ShapeError::DimensionMismatch => "buffer length differs from width * height * 4"@,
        }
    }

    /// What went wrong, in words.
    pub fn message(&self) -> (text: String)
        ensures
            text@ == self.message_text(),
    {
        match self {
            ShapeError::PartialPixel => String::from_str("buffer length is not a multiple of 4"),
            ShapeError::DimensionMismatch => String::from_str(
                "buffer length differs from width * height * 4",
            ),
        }
    }
}

/// A buffer of `len` bytes holds exactly `width * height` RGBA pixels.
pub open spec fn well_shaped(len: nat, width: u32, height: u32) -> bool {
    len == width * height * 4
}

/// Offset of the red byte of pixel `(x, y)` in a row-major buffer.
pub open spec fn pixel_start(width: int, x: int, y: int) -> int {
    (y * width + x) * 4
}

/// Column of the pixel that byte `i` belongs to.
pub open spec fn column_of(width: int, i: int) -> int {
    (i / 4) % width
}

/// Row of the pixel that byte `i` belongs to.
pub open spec fn row_of(width: int, i: int) -> int {
    (i / 4) / width
}

/// Pixel `(x, y)` lies at least `border` pixels away from every edge.
pub open spec fn interior(width: int, height: int, border: int, x: int, y: int) -> bool {
    border <= x && x + border < width && border <= y && y + border < height
}

/// Byte `i` is an alpha byte.
pub open spec fn is_alpha(i: int) -> bool {
    i % 4 == 3
}

/// Two buffers of equal length agree on every alpha byte.
pub open spec fn same_alpha(a: Seq<u8>, b: Seq<u8>) -> bool {
    a.len() == b.len() && forall|i: int| 0 <= i < a.len() && is_alpha(i) ==> a[i] == b[i]
}

/// Every pixel of the grid starts inside the buffer and leaves room for its four bytes.
pub proof fn lemma_pixel_in_bounds(width: int, height: int, x: int, y: int)
    requires
        0 <= x < width,
        0 <= y < height,
    ensures
        0 <= pixel_start(width, x, y),
        pixel_start(width, x, y) + 4 <= width * height * 4,
{
    assert(y * width + x >= 0 && y * width + x + 1 <= height * width) by (nonlinear_arith)
        requires
            0 <= x < width,
            0 <= y < height,
    ;
    assert(height * width == width * height) by (nonlinear_arith);
}

/// The pixel with index `p` sits in column `p % width` of row `p / width`.
pub proof fn lemma_pixel_coordinates(width: int, height: int, p: int)
    requires
        0 <= width,
        0 <= p < width * height,
    ensures
        0 < width,
        0 <= p % width < width,
        0 <= p / width < height,
        (p / width) * width + p % width == p,
{
    assert(0 < width) by (nonlinear_arith)
        requires
            0 <= width,
            0 < width * height,
    ;
    lemma_fundamental_div_mod(p, width);
    lemma_mod_pos_bound(p, width);
    lemma_div_pos_is_pos(p, width);
    lemma_multiply_divide_lt(p, width, height);
    assert(width * (p / width) == (p / width) * width) by (nonlinear_arith);
}

/// Tests a buffer length against the declared dimensions.
pub fn check_shape(len: usize, width: u32, height: u32) -> (result: Result<(), ShapeError>)
    ensures
        well_shaped(len as nat, width, height) ==> result == Ok::<(), ShapeError>(()),
        !well_shaped(len as nat, width, height) ==> result == Err::<(), ShapeError>(
            ShapeError::DimensionMismatch,
        ),
{
    let wide: u128 = width as u128;
    let high: u128 = height as u128;
    assert(wide * high <= 0xffff_ffff * 0xffff_ffff) by (nonlinear_arith)
        requires
            wide <= 0xffff_ffff,
            high <= 0xffff_ffff,
    ;
    let expected: u128 = wide * high * 4;
    if len as u128 == expected {
        Ok(())
    } else {
        Err(ShapeError::DimensionMismatch)
    }
}

/// Byte offset of pixel `(x, y)`, for a pixel inside the grid.
pub fn pixel_offset(width: usize, height: usize, x: usize, y: usize) -> (offset: usize)
    requires
        x < width,
        y < height,
        width * height * 4 <= usize::MAX,
    ensures
        offset == pixel_start(width as int, x as int, y as int),
        offset + 4 <= width * height * 4,
{
    proof {
        lemma_pixel_in_bounds(width as int, height as int, x as int, y as int);
        assert(0 <= y * width <= y * width + x) by (nonlinear_arith)
            requires
                0 <= y,
                0 <= width,
                0 <= x,
        ;
    }
    (y * width + x) * 4
}

} // verus!
