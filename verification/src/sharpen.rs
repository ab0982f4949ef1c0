//! Unsharp-mask sharpening with a fixed 5×5 kernel, in integer arithmetic.
use vstd::prelude::*;
use crate::raster::{
    check_shape, column_of, interior, is_alpha, lemma_pixel_coordinates, pixel_offset, pixel_start,
    row_of, well_shaped, ShapeError,
};

verus! {

/// Sum of the 25 kernel weights, by which a convolution sum is divided.
pub const KERNEL_DIVISOR: i64 = 8;

/// A strength of `STRENGTH_SCALE` adds the normalised convolution sum once.
pub const STRENGTH_SCALE: i64 = 100;

/// Weight of the kernel cell in row `ky`, column `kx`: 8 in the centre, 2 on
/// the ring around it, -1 on the outer ring.
pub open spec fn kernel_weight(ky: int, kx: int) -> int {
    if ky == 2 && kx == 2 {
        8
    } else if 1 <= ky <= 3 && 1 <= kx <= 3 {
        2
    } else {
        -1
    }
}

/// Sum of the first `taps` kernel products around pixel `(x, y)` for channel
/// `c`, the 25 cells taken row by row.
pub open spec fn convolution(s: Seq<u8>, width: int, x: int, y: int, c: int, taps: nat) -> int
    decreases taps,
{
    if taps == 0 {
        0
    } else {
        let t = taps - 1;
        convolution(s, width, x, y, c, t as nat) + s[pixel_start(
            width,
            x + t % 5 - 2,
            y + t / 5 - 2,
        ) + c] * kernel_weight(t / 5, t % 5)
    }
}

/// Quotient rounded toward zero, for a positive divisor.
pub open spec fn toward_zero(a: int, b: int) -> int {
    if a >= 0 {
        a / b
    } else {
        -((-a) / b)
    }
}

/// The nearest value in `0..=255`.
pub open spec fn clamp_byte(v: int) -> u8 {
    if v < 0 {
        0
    } else if v > 255 {
        255
    } else {
        v as u8
    }
}

/// Colour byte `c` of an interior pixel after sharpening: the source value
/// plus `strength / STRENGTH_SCALE` times the normalised convolution sum,
/// the product divided once, at the end, and rounded toward zero.
pub open spec fn sharpened_value(
    s: Seq<u8>,
    width: int,
    strength: int,
    x: int,
    y: int,
    c: int,
) -> u8 {
    clamp_byte(
        s[pixel_start(width, x, y) + c] + toward_zero(
            convolution(s, width, x, y, c, 25) * strength,
            KERNEL_DIVISOR * STRENGTH_SCALE,
        ),
    )
}

/// Byte `i` of the sharpened image: zero within two pixels of an edge,
/// elsewhere the source alpha or the sharpened colour.
pub open spec fn sharpened_byte(s: Seq<u8>, width: int, height: int, strength: int, i: int) -> u8 {
    let x = column_of(width, i);
    let y = row_of(width, i);
    if !interior(width, height, 2, x, y) {
        0
    } else if is_alpha(i) {
        s[i]
    } else {
        sharpened_value(s, width, strength, x, y, i % 4)
    }
}

/// The sharpened image as a whole.
pub open spec fn sharpened(s: Seq<u8>, width: int, height: int, strength: int) -> Seq<u8> {
    Seq::new(s.len(), |i: int| sharpened_byte(s, width, height, strength, i))
}

/// Sharpening leaves every byte of the two-pixel border zero.
pub proof fn lemma_sharpen_border_zero(
    s: Seq<u8>,
    width: int,
    height: int,
    strength: int,
    i: int,
)
    requires
        0 <= i < s.len(),
        !interior(width, height, 2, column_of(width, i), row_of(width, i)),
    ensures
        sharpened(s, width, height, strength)[i] == 0,
{
}

fn weight_at(ky: usize, kx: usize) -> (weight: i64)
    requires
        ky < 5,
        kx < 5,
    ensures
        weight == kernel_weight(ky as int, kx as int),
{
    if ky == 2 && kx == 2 {
        8
    } else if 1 <= ky && ky <= 3 && 1 <= kx && kx <= 3 {
        2
    } else {
        -1
    }
}

/// Convolves one channel of one interior pixel and applies the strength.
fn sharpen_channel(
    src: &Vec<u8>,
    width: usize,
    height: usize,
    strength: u32,
    x: usize,
    y: usize,
    c: usize,
) -> (value: u8)
    requires
        src.len() == width * height * 4,
        interior(width as int, height as int, 2, x as int, y as int),
        c < 3,
    ensures
        value == sharpened_value(src@, width as int, strength as int, x as int, y as int, c as int),
{
    let mut sum: i64 = 0;
    let mut t: usize = 0;
    while t < 25
        invariant
            src.len() == width * height * 4,
            interior(width as int, height as int, 2, x as int, y as int),
            c < 3,
            t <= 25,
            sum == convolution(src@, width as int, x as int, y as int, c as int, t as nat),
            -2040 * t <= sum <= 2040 * t,
        decreases 25 - t,
    {
        let ky = t / 5;
        let kx = t % 5;
        let start = pixel_offset(width, height, x - 2 + kx, y - 2 + ky);
        sum = sum + src[start + c] as i64 * weight_at(ky, kx);
        t += 1;
    }
    assert(-51000 * 0xffff_ffff <= sum * strength <= 51000 * 0xffff_ffff) by (nonlinear_arith)
        requires
            -51000 <= sum <= 51000,
            0 <= strength <= 0xffff_ffff,
    ;
    let scaled: i64 = sum * strength as i64;
    let divisor: i64 = KERNEL_DIVISOR * STRENGTH_SCALE;
    let change: i64 = if scaled >= 0 {
        scaled / divisor
    } else {
        -((-scaled) / divisor)
    };
    let start = pixel_offset(width, height, x, y);
    let raised: i64 = src[start + c] as i64 + change;
    if raised < 0 {
        0
    } else if raised > 255 {
        255
    } else {
        raised as u8
    }
}

/// Sharpens the colour channels of an RGBA image. Pixels closer than two
/// pixels to an edge come out as four zero bytes; every other pixel keeps its
/// alpha and has each colour byte changed by its 5×5 kernel sum times
/// `strength`, divided by `KERNEL_DIVISOR * STRENGTH_SCALE`; the quotient is
/// rounded toward zero and the result clamped to a byte.
pub fn apply_sharpen(
    image_data: Vec<u8>,
    width: u32,
    height: u32,
    strength: u32,
) -> (result: Result<Vec<u8>, ShapeError>)
    ensures
        !well_shaped(image_data.len() as nat, width, height) ==> result == Err::<
            Vec<u8>,
            ShapeError,
        >(ShapeError::DimensionMismatch),
        well_shaped(image_data.len() as nat, width, height) ==> (result matches Ok(out) && out@
            == sharpened(image_data@, width as int, height as int, strength as int)),
        result matches Ok(out) ==> out.len() == image_data.len(),
        result matches Ok(out) ==> forall|i: int|
            0 <= i < out.len() && !interior(
                width as int,
                height as int,
                2,
                column_of(width as int, i),
                row_of(width as int, i),
            ) ==> #[trigger] out[i] == 0,
{
    if let Err(e) = check_shape(image_data.len(), width, height) {
        return Err(e);
    }
    let count = image_data.len() / 4;
    let wide = width as usize;
    let high = height as usize;
    let mut out: Vec<u8> = Vec::new();
    let mut p: usize = 0;
    while p < count
        invariant
            well_shaped(image_data.len() as nat, width, height),
            count == image_data.len() / 4,
            wide == width,
            high == height,
            p <= count,
            out.len() == 4 * p,
            forall|i: int|
                0 <= i < 4 * p ==> #[trigger] out[i] == sharpened_byte(
                    image_data@,
                    width as int,
                    height as int,
                    strength as int,
                    i,
                ),
        decreases count - p,
    {
        proof {
            lemma_pixel_coordinates(width as int, height as int, p as int);
        }
        let x = p % wide;
        let y = p / wide;
        if 2 <= x && x + 2 < wide && 2 <= y && y + 2 < high {
            let r = sharpen_channel(&image_data, wide, high, strength, x, y, 0);
            let g = sharpen_channel(&image_data, wide, high, strength, x, y, 1);
            let b = sharpen_channel(&image_data, wide, high, strength, x, y, 2);
            out.push(r);
            out.push(g);
            out.push(b);
            out.push(image_data[4 * p + 3]);
        } else {
            out.push(0);
            out.push(0);
            out.push(0);
            out.push(0);
        }
        p += 1;
    }
    Ok(out)
}

} // verus!
