//! Edge detection on the 3×3 neighbourhood of every interior pixel.
//!
//! The gradient is real-valued arithmetic and comes in as three functions
//! over a gradient value of the caller's choosing: `flat` gives the zero
//! gradient, `accumulate` adds one neighbour, weighted by the two Sobel
//! kernels, `magnitude` reads the edge strength off the sum. This module
//! holds the kernels, walks the neighbourhoods, keeps the one-pixel border
//! black and copies the alpha channel.
use vstd::prelude::*;
use crate::raster::{
    check_shape, column_of, interior, is_alpha, lemma_pixel_coordinates, pixel_offset, pixel_start,
    row_of, well_shaped, ShapeError,
};

verus! {

/// Weight of the horizontal Sobel kernel in row `ky`, column `kx`:
/// the rows are `-1 0 1`, `-2 0 2`, `-1 0 1`. Outside the kernel it is 0.
pub open spec fn sobel_x_weight(ky: int, kx: int) -> int {
    if 0 <= ky < 3 && 0 <= kx < 3 {
        if ky == 1 {
            2 * (kx - 1)
        } else {
            kx - 1
        }
    } else {
        0
    }
}

/// Weight of the vertical Sobel kernel, the horizontal one transposed:
/// the rows are `-1 -2 -1`, `0 0 0`, `1 2 1`.
pub open spec fn sobel_y_weight(ky: int, kx: int) -> int {
    sobel_x_weight(kx, ky)
}

/// The horizontal Sobel kernel.
pub fn sobel_x(ky: usize, kx: usize) -> (weight: i32)
    ensures
        weight == sobel_x_weight(ky as int, kx as int),
{
    if ky >= 3 || kx >= 3 {
        0
    } else if ky == 1 {
        2 * (kx as i32 - 1)
    } else {
        kx as i32 - 1
    }
}

/// The vertical Sobel kernel.
pub fn sobel_y(ky: usize, kx: usize) -> (weight: i32)
    ensures
        weight == sobel_y_weight(ky as int, kx as int),
{
    sobel_x(kx, ky)
}

/// Colour byte `c` of neighbour `t` of pixel `(x, y)`, the nine neighbours
/// (the pixel itself among them) counted row by row from the upper left.
pub open spec fn neighbour_byte(s: Seq<u8>, width: int, x: int, y: int, t: int, c: int) -> u8 {
    s[pixel_start(width, x - 1 + t % 3, y - 1 + t / 3) + c]
}

/// `sums` is the run of gradient sums over the neighbourhood of `(x, y)`:
/// the first one comes from `flat`, and each next one from `accumulate`,
/// given the sum so far, the red, green and blue byte of the next neighbour
/// and its weights in the horizontal and the vertical kernel.
pub open spec fn is_gradient<G, E: Fn() -> G, A: Fn(G, u8, u8, u8, i32, i32) -> G>(
    flat: E,
    accumulate: A,
    s: Seq<u8>,
    width: int,
    x: int,
    y: int,
    sums: Seq<G>,
) -> bool {
    &&& sums.len() == 10
    &&& flat.ensures((), sums[0])
    &&& forall|t: int|
        0 <= t < 9 ==> accumulate.ensures(
            (
                #[trigger] sums[t],
                neighbour_byte(s, width, x, y, t, 0),
                neighbour_byte(s, width, x, y, t, 1),
                neighbour_byte(s, width, x, y, t, 2),
                sobel_x_weight(t / 3, t % 3) as i32,
                sobel_y_weight(t / 3, t % 3) as i32,
            ),
            sums[t + 1],
        )
}

/// `value` is what `magnitude` may return for the gradient at `(x, y)`.
pub open spec fn measures<
    G,
    E: Fn() -> G,
    A: Fn(G, u8, u8, u8, i32, i32) -> G,
    M: Fn(&G) -> u8,
>(
    flat: E,
    accumulate: A,
    magnitude: M,
    s: Seq<u8>,
    width: int,
    x: int,
    y: int,
    value: u8,
) -> bool {
    exists|sums: Seq<G>|
        #[trigger] is_gradient(flat, accumulate, s, width, x, y, sums) && magnitude.ensures(
            (&sums[9],),
            value,
        )
}

/// Byte `i` of `out` is right: zero on the border, elsewhere the source
/// alpha, or the gradient magnitude of the pixel, the same in all three
/// colour channels.
pub open spec fn edge_byte<
    G,
    E: Fn() -> G,
    A: Fn(G, u8, u8, u8, i32, i32) -> G,
    M: Fn(&G) -> u8,
>(
    flat: E,
    accumulate: A,
    magnitude: M,
    src: Seq<u8>,
    out: Seq<u8>,
    width: int,
    height: int,
    i: int,
) -> bool {
    let x = column_of(width, i);
    let y = row_of(width, i);
    if !interior(width, height, 1, x, y) {
        out[i] == 0
    } else if is_alpha(i) {
        out[i] == src[i]
    } else {
        out[i] == out[i - i % 4] && measures(flat, accumulate, magnitude, src, width, x, y, out[i])
    }
}

/// `out` is the edge image of `src`.
pub open spec fn edges_of<
    G,
    E: Fn() -> G,
    A: Fn(G, u8, u8, u8, i32, i32) -> G,
    M: Fn(&G) -> u8,
>(
    flat: E,
    accumulate: A,
    magnitude: M,
    src: Seq<u8>,
    out: Seq<u8>,
    width: int,
    height: int,
) -> bool {
    &&& out.len() == src.len()
    &&& forall|i: int|
        0 <= i < src.len() ==> #[trigger] edge_byte(
            flat,
            accumulate,
            magnitude,
            src,
            out,
            width,
            height,
            i,
        )
}

/// Edge detection leaves every byte of the one-pixel border zero.
pub proof fn lemma_edges_border_zero<
    G,
    E: Fn() -> G,
    A: Fn(G, u8, u8, u8, i32, i32) -> G,
    M: Fn(&G) -> u8,
>(
    flat: E,
    accumulate: A,
    magnitude: M,
    src: Seq<u8>,
    out: Seq<u8>,
    width: int,
    height: int,
    i: int,
)
    requires
        edges_of(flat, accumulate, magnitude, src, out, width, height),
        0 <= i < src.len(),
        !interior(width, height, 1, column_of(width, i), row_of(width, i)),
    ensures
        out[i] == 0,
{
    assert(edge_byte(flat, accumulate, magnitude, src, out, width, height, i));
}

/// Edge strength at an interior pixel: sums the gradient over the nine
/// neighbours, row by row, and reads the magnitude off the sum.
fn edge_value<G, E: Fn() -> G, A: Fn(G, u8, u8, u8, i32, i32) -> G, M: Fn(&G) -> u8>(
    src: &Vec<u8>,
    width: usize,
    height: usize,
    x: usize,
    y: usize,
    flat: &E,
    accumulate: &A,
    magnitude: &M,
) -> (value: u8)
    requires
        src.len() == width * height * 4,
        interior(width as int, height as int, 1, x as int, y as int),
        flat.requires(()),
        forall|sum: G, r: u8, g: u8, b: u8, across: i32, down: i32|
            accumulate.requires((sum, r, g, b, across, down)),
        forall|sum: G| magnitude.requires((&sum,)),
    ensures
        measures(*flat, *accumulate, *magnitude, src@, width as int, x as int, y as int, value),
{
    let mut sum = flat();
    let ghost mut sums: Seq<G> = seq![sum];
    let mut t: usize = 0;
    while t < 9
        invariant
            src.len() == width * height * 4,
            interior(width as int, height as int, 1, x as int, y as int),
            forall|sum: G, r: u8, g: u8, b: u8, across: i32, down: i32|
                accumulate.requires((sum, r, g, b, across, down)),
            t <= 9,
            sums.len() == t + 1,
            sums[t as int] == sum,
            flat.ensures((), sums[0]),
            forall|j: int|
                0 <= j < t ==> accumulate.ensures(
                    (
                        #[trigger] sums[j],
                        neighbour_byte(src@, width as int, x as int, y as int, j, 0),
                        neighbour_byte(src@, width as int, x as int, y as int, j, 1),
                        neighbour_byte(src@, width as int, x as int, y as int, j, 2),
                        sobel_x_weight(j / 3, j % 3) as i32,
                        sobel_y_weight(j / 3, j % 3) as i32,
                    ),
                    sums[j + 1],
                ),
        decreases 9 - t,
    {
        let ky = t / 3;
        let kx = t % 3;
        let at = pixel_offset(width, height, x - 1 + kx, y - 1 + ky);
        sum = accumulate(sum, src[at], src[at + 1], src[at + 2], sobel_x(ky, kx), sobel_y(ky, kx));
        proof {
            let longer = sums.push(sum);
            assert forall|j: int| 0 <= j < t + 1 implies accumulate.ensures(
                (
                    #[trigger] longer[j],
                    neighbour_byte(src@, width as int, x as int, y as int, j, 0),
                    neighbour_byte(src@, width as int, x as int, y as int, j, 1),
                    neighbour_byte(src@, width as int, x as int, y as int, j, 2),
                    sobel_x_weight(j / 3, j % 3) as i32,
                    sobel_y_weight(j / 3, j % 3) as i32,
                ),
                longer[j + 1],
            ) by {}
            sums = longer;
        }
        t += 1;
    }
    let value = magnitude(&sum);
    assert(is_gradient(*flat, *accumulate, src@, width as int, x as int, y as int, sums));
    value
}

/// Detects edges in an RGBA image. The outermost ring of pixels comes out as
/// four zero bytes; every other pixel keeps its alpha and gets, in all three
/// colour channels, the magnitude of the gradient summed over its 3×3
/// neighbourhood with the Sobel kernels.
pub fn apply_edge_detection<
    G,
    E: Fn() -> G,
    A: Fn(G, u8, u8, u8, i32, i32) -> G,
    M: Fn(&G) -> u8,
>(
    image_data: Vec<u8>,
    width: u32,
    height: u32,
    flat: E,
    accumulate: A,
    magnitude: M,
) -> (result: Result<Vec<u8>, ShapeError>)
    requires
        flat.requires(()),
        forall|sum: G, r: u8, g: u8, b: u8, across: i32, down: i32|
            accumulate.requires((sum, r, g, b, across, down)),
        forall|sum: G| magnitude.requires((&sum,)),
    ensures
        !well_shaped(image_data.len() as nat, width, height) ==> result == Err::<
            Vec<u8>,
            ShapeError,
        >(ShapeError::DimensionMismatch),
        well_shaped(image_data.len() as nat, width, height) ==> (result matches Ok(out) && edges_of(
            flat,
            accumulate,
            magnitude,
            image_data@,
            out@,
            width as int,
            height as int,
        )),
        result matches Ok(out) ==> forall|i: int|
            0 <= i < out.len() && !interior(
                width as int,
                height as int,
                1,
                column_of(width as int, i),
                row_of(width as int, i),
            ) ==> #[trigger] out[i] == 0,
{
    if let Err(e) = check_shape(image_data.len(), width, height) {
        return Err(e);
    }
    let count = image_data.len() / 4;
    let wide = width as usize;
    let high = height as usize;
    let mut out: Vec<u8> = Vec::new();
    let mut p: usize = 0;
    while p < count
        invariant
            flat.requires(()),
            forall|sum: G, r: u8, g: u8, b: u8, across: i32, down: i32|
                accumulate.requires((sum, r, g, b, across, down)),
            forall|sum: G| magnitude.requires((&sum,)),
            well_shaped(image_data.len() as nat, width, height),
            count == image_data.len() / 4,
            wide == width,
            high == height,
            p <= count,
            out.len() == 4 * p,
            forall|i: int|
                0 <= i < 4 * p ==> #[trigger] edge_byte(
                    flat,
                    accumulate,
                    magnitude,
                    image_data@,
                    out@,
                    width as int,
                    height as int,
                    i,
                ),
        decreases count - p,
    {
        proof {
            lemma_pixel_coordinates(width as int, height as int, p as int);
        }
        let x = p % wide;
        let y = p / wide;
        let ghost before = out@;
        if 1 <= x && x + 1 < wide && 1 <= y && y + 1 < high {
            let value = edge_value(&image_data, wide, high, x, y, &flat, &accumulate, &magnitude);
            out.push(value);
            out.push(value);
            out.push(value);
            out.push(image_data[4 * p + 3]);
        } else {
            out.push(0);
            out.push(0);
            out.push(0);
            out.push(0);
        }
        assert forall|i: int| 0 <= i < 4 * p + 4 implies #[trigger] edge_byte(
            flat,
            accumulate,
            magnitude,
            image_data@,
            out@,
            width as int,
            height as int,
            i,
        ) by {
            if i < 4 * p {
                assert(edge_byte(
                    flat,
                    accumulate,
                    magnitude,
                    image_data@,
                    before,
                    width as int,
                    height as int,
                    i,
                ));
                assert(out[i] == before[i]);
                assert(out[i - i % 4] == before[i - i % 4]);
            } else {
                assert(column_of(width as int, i) == x && row_of(width as int, i) == y);
            }
        }
        p += 1;
    }
    assert forall|i: int|
        0 <= i < out.len() && !interior(
            width as int,
            height as int,
            1,
            column_of(width as int, i),
            row_of(width as int, i),
        ) implies #[trigger] out[i] == 0 by {
        assert(edge_byte(
            flat,
            accumulate,
            magnitude,
            image_data@,
            out@,
            width as int,
            height as int,
            i,
        ));
    }
    Ok(out)
}

} // verus!
