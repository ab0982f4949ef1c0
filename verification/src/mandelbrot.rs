//! Escape-time rendering of the Mandelbrot set into an RGBA buffer.
//!
//! The arithmetic on points of the plane and the colour ramp are real-valued
//! and come in as functions: `locate` maps a pixel to the state its orbit
//! starts in, `bounded` tests a state, `advance` makes one step, `shade`
//! colours a step count. This module runs the orbits up to the step limit,
//! decides which pixels are black, lays the bytes out and sets the alpha
//! channel.
use vstd::prelude::*;
use crate::raster::lemma_pixel_coordinates;

verus! {

/// `orbit` is a run of states in which every state but the last was found
/// bounded and was advanced to the next one.
pub open spec fn is_orbit<Z, B: Fn(&Z) -> bool, A: Fn(Z) -> Z>(
    bounded: B,
    advance: A,
    orbit: Seq<Z>,
) -> bool {
    forall|k: int|
        0 <= k < orbit.len() - 1 ==> bounded.ensures((&#[trigger] orbit[k],), true)
            && advance.ensures((orbit[k],), orbit[k + 1])
}

/// The orbit from `start` took `count` steps: it was advanced `count` times,
/// and then either the limit was reached or the state was found unbounded.
pub open spec fn escapes_after<Z, B: Fn(&Z) -> bool, A: Fn(Z) -> Z>(
    bounded: B,
    advance: A,
    start: Z,
    max_iterations: u32,
    count: u32,
) -> bool {
    exists|orbit: Seq<Z>|
        #[trigger] is_orbit(bounded, advance, orbit) && orbit.len() == count + 1 && orbit[0]
            == start && count <= max_iterations && (count == max_iterations || bounded.ensures(
            (&orbit[count as int],),
            false,
        ))
}

/// Advances a state until it is found unbounded, at most `max_iterations`
/// times, and returns the number of steps made.
pub fn escape_count<Z, B: Fn(&Z) -> bool, A: Fn(Z) -> Z>(
    start: Z,
    max_iterations: u32,
    bounded: &B,
    advance: &A,
) -> (count: u32)
    requires
        forall|z: Z| bounded.requires((&z,)),
        forall|z: Z| advance.requires((z,)),
    ensures
        count <= max_iterations,
        escapes_after(*bounded, *advance, start, max_iterations, count),
{
    let mut state = start;
    let mut count: u32 = 0;
    let ghost mut orbit: Seq<Z> = seq![start];
    while count < max_iterations
        invariant
            forall|z: Z| bounded.requires((&z,)),
            forall|z: Z| advance.requires((z,)),
            count <= max_iterations,
            orbit.len() == count + 1,
            orbit[0] == start,
            orbit[count as int] == state,
            is_orbit(*bounded, *advance, orbit),
        decreases max_iterations - count,
    {
        let stays = bounded(&state);
        if !stays {
            return count;
        }
        state = advance(state);
        proof {
            let longer = orbit.push(state);
            assert forall|k: int| 0 <= k < longer.len() - 1 implies bounded.ensures(
                (&#[trigger] longer[k],),
                true,
            ) && advance.ensures((longer[k],), longer[k + 1]) by {}
            orbit = longer;
        }
        count += 1;
    }
    count
}

/// The four bytes `(r, g, b, a)` are a correct rendering of a pixel whose
/// orbit took `iteration` steps: opaque black if the orbit used up the limit
/// of `max_iterations` steps without leaving, otherwise an opaque colour that
/// `shade` may return.
pub open spec fn shaded<S: Fn(u32, u32) -> (u8, u8, u8)>(
    shade: S,
    iteration: u32,
    max_iterations: u32,
    rgba: (u8, u8, u8, u8),
) -> bool {
    &&& rgba.3 == 255
    &&& if iteration >= max_iterations {
        rgba.0 == 0 && rgba.1 == 0 && rgba.2 == 0
    } else {
        shade.ensures((iteration, max_iterations), (rgba.0, rgba.1, rgba.2))
    }
}

/// Byte `i` of an image that is opaque black throughout.
pub open spec fn black_byte(i: int) -> u8 {
    if i % 4 == 3 {
        255
    } else {
        0
    }
}

/// The four bytes are a correct rendering of pixel number `p`: of some state
/// that `locate` may return for the pixel, and of some number of steps that
/// its orbit may take.
pub open spec fn pixel_rendered<
    Z,
    L: Fn(u32, u32, u32, u32) -> Z,
    B: Fn(&Z) -> bool,
    A: Fn(Z) -> Z,
    S: Fn(u32, u32) -> (u8, u8, u8),
>(
    locate: L,
    bounded: B,
    advance: A,
    shade: S,
    width: u32,
    height: u32,
    max_iterations: u32,
    p: int,
    rgba: (u8, u8, u8, u8),
) -> bool {
    let px = (p % (width as int)) as u32;
    let py = (p / (width as int)) as u32;
    exists|start: Z, count: u32|
        locate.ensures((px, py, width, height), start) && #[trigger] escapes_after(
            bounded,
            advance,
            start,
            max_iterations,
            count,
        ) && shaded(shade, count, max_iterations, rgba)
}

/// `out` is a rendering of the whole `width` by `height` grid.
pub open spec fn rendered<
    Z,
    L: Fn(u32, u32, u32, u32) -> Z,
    B: Fn(&Z) -> bool,
    A: Fn(Z) -> Z,
    S: Fn(u32, u32) -> (u8, u8, u8),
>(
    locate: L,
    bounded: B,
    advance: A,
    shade: S,
    width: u32,
    height: u32,
    max_iterations: u32,
    out: Seq<u8>,
) -> bool {
    &&& out.len() == width * height * 4
    &&& forall|p: int|
        0 <= p < width * height ==> #[trigger] pixel_rendered(
            locate,
            bounded,
            advance,
            shade,
            width,
            height,
            max_iterations,
            p,
            (out[4 * p], out[4 * p + 1], out[4 * p + 2], out[4 * p + 3]),
        )
}

/// Colours one pixel from the number of steps its orbit took.
pub fn shade_pixel<S: Fn(u32, u32) -> (u8, u8, u8)>(
    iteration: u32,
    max_iterations: u32,
    shade: &S,
) -> (rgba: (u8, u8, u8, u8))
    requires
        iteration < max_iterations ==> shade.requires((iteration, max_iterations)),
    ensures
        shaded(*shade, iteration, max_iterations, rgba),
{
    if iteration >= max_iterations {
        (0, 0, 0, 255)
    } else {
        let (r, g, b) = shade(iteration, max_iterations);
        (r, g, b, 255)
    }
}

/// Renders the set on a `width` by `height` grid. For each pixel, `locate`
/// gives the state its orbit starts in, from the pixel's column and row and
/// the grid size; the state is advanced while it is bounded, at most
/// `max_iterations` times. A pixel whose orbit used up the limit is black,
/// any other is coloured by `shade` from the number of steps and the limit.
/// Every pixel is fully opaque, and with a limit of zero every pixel is
/// black.
pub fn generate_mandelbrot<
    Z,
    L: Fn(u32, u32, u32, u32) -> Z,
    B: Fn(&Z) -> bool,
    A: Fn(Z) -> Z,
    S: Fn(u32, u32) -> (u8, u8, u8),
>(
    width: u32,
    height: u32,
    max_iterations: u32,
    locate: L,
    bounded: B,
    advance: A,
    shade: S,
) -> (out: Vec<u8>)
    requires
        width * height * 4 <= usize::MAX,
        forall|px: u32, py: u32|
            px < width && py < height ==> #[trigger] locate.requires((px, py, width, height)),
        forall|z: Z| bounded.requires((&z,)),
        forall|z: Z| advance.requires((z,)),
        forall|iteration: u32|
            iteration < max_iterations ==> #[trigger] shade.requires((iteration, max_iterations)),
    ensures
        rendered(locate, bounded, advance, shade, width, height, max_iterations, out@),
        max_iterations == 0 ==> forall|i: int|
            0 <= i < out.len() ==> #[trigger] out[i] == black_byte(i),
{
    let wide = width as usize;
    let high = height as usize;
    assert(0 <= wide * high <= wide * high * 4) by (nonlinear_arith)
        requires
            0 <= wide,
            0 <= high,
    ;
    let count = wide * high;
    let mut out: Vec<u8> = Vec::new();
    let mut p: usize = 0;
    while p < count
        invariant
            forall|px: u32, py: u32|
                px < width && py < height ==> #[trigger] locate.requires((px, py, width, height)),
            forall|z: Z| bounded.requires((&z,)),
            forall|z: Z| advance.requires((z,)),
            forall|iteration: u32|
                iteration < max_iterations ==> #[trigger] shade.requires(
                    (iteration, max_iterations),
                ),
            wide == width,
            high == height,
            count == width * height,
            p <= count,
            out.len() == 4 * p,
            max_iterations == 0 ==> forall|i: int|
                0 <= i < out.len() ==> #[trigger] out[i] == black_byte(i),
            forall|q: int|
                0 <= q < p ==> #[trigger] pixel_rendered(
                    locate,
                    bounded,
                    advance,
                    shade,
                    width,
                    height,
                    max_iterations,
                    q,
                    (out[4 * q], out[4 * q + 1], out[4 * q + 2], out[4 * q + 3]),
                ),
        decreases count - p,
    {
        proof {
            lemma_pixel_coordinates(width as int, height as int, p as int);
        }
        let px = (p % wide) as u32;
        let py = (p / wide) as u32;
        let start = locate(px, py, width, height);
        let steps = escape_count(start, max_iterations, &bounded, &advance);
        let (r, g, b, a) = shade_pixel(steps, max_iterations, &shade);
        out.push(r);
        out.push(g);
        out.push(b);
        out.push(a);
        assert(pixel_rendered(
            locate,
            bounded,
            advance,
            shade,
            width,
            height,
            max_iterations,
            p as int,
            (out[4 * p], out[4 * p + 1], out[4 * p + 2], out[4 * p + 3]),
        ));
        p += 1;
    }
    out
}

} // verus!
