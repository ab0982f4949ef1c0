//! Separable blur: a pass along the rows, then a pass along the columns.
//!
//! The weighting of the samples is real-valued arithmetic and comes in as
//! three functions over a running tally of the caller's choosing: `start`
//! gives the empty tally, `weigh` adds one sample to it, `finish` reads the
//! blurred value off it. This module owns the windows, the edge clamping,
//! the order of the samples and the channel layout.
use vstd::prelude::*;
use crate::raster::{
    check_shape, column_of, is_alpha, lemma_pixel_coordinates, pixel_offset, pixel_start, row_of,
    same_alpha, well_shaped, ShapeError,
};

verus! {

/// Clamp-to-edge: positions left of the grid read the first cell, positions
/// right of it the last.
pub open spec fn clamp_to_edge(pos: int, extent: int) -> int {
    if pos < 0 {
        0
    } else if pos >= extent {
        extent - 1
    } else {
        pos
    }
}

/// Sample `k` (of `2 * radius + 1`) of the window centred on pixel `(x, y)`,
/// channel `c`, running along the row, or along the column for `vertical`.
/// Sample `k` lies `k - radius` pixels from the centre.
pub open spec fn window_sample(
    s: Seq<u8>,
    width: int,
    height: int,
    radius: int,
    vertical: bool,
    x: int,
    y: int,
    c: int,
    k: int,
) -> u8 {
    let nx = if vertical {
        x
    } else {
        clamp_to_edge(x + k - radius, width)
    };
    let ny = if vertical {
        clamp_to_edge(y + k - radius, height)
    } else {
        y
    };
    s[pixel_start(width, nx, ny) + c]
}

/// The whole window of channel `c` of pixel `(x, y)`.
pub open spec fn window_at(
    s: Seq<u8>,
    width: int,
    height: int,
    radius: int,
    vertical: bool,
    x: int,
    y: int,
    c: int,
) -> Seq<u8> {
    Seq::new(
        (2 * radius + 1) as nat,
        |k: int| window_sample(s, width, height, radius, vertical, x, y, c, k),
    )
}

/// The whole window of byte `i`.
pub open spec fn window_of(
    s: Seq<u8>,
    width: int,
    height: int,
    radius: int,
    vertical: bool,
    i: int,
) -> Seq<u8> {
    window_at(s, width, height, radius, vertical, column_of(width, i), row_of(width, i), i % 4)
}

/// `tallies` is the run of tallies over a window: the first one comes from
/// `start`, and each next one from `weigh`, given the tally so far, the next
/// sample, its distance from the centre and the radius.
pub open spec fn is_tally<W, E: Fn() -> W, S: Fn(W, u8, i64, u32) -> W>(
    start: E,
    weigh: S,
    samples: Seq<u8>,
    radius: int,
    tallies: Seq<W>,
) -> bool {
    &&& tallies.len() == samples.len() + 1
    &&& start.ensures((), tallies[0])
    &&& forall|k: int|
        0 <= k < samples.len() ==> weigh.ensures(
            (#[trigger] tallies[k], samples[k], (k - radius) as i64, radius as u32),
            tallies[k + 1],
        )
}

/// `value` is what `finish` may return for the tally of all of `samples`.
pub open spec fn averages_to<
    W,
    E: Fn() -> W,
    S: Fn(W, u8, i64, u32) -> W,
    M: Fn(&W) -> u8,
>(start: E, weigh: S, finish: M, samples: Seq<u8>, radius: int, value: u8) -> bool {
    exists|tallies: Seq<W>|
        #[trigger] is_tally(start, weigh, samples, radius, tallies) && finish.ensures(
            (&tallies[samples.len() as int],),
            value,
        )
}

/// Byte `i` of `dst` is right after one pass over `src`: an alpha byte is
/// copied, a colour byte is the weighted mean of its window.
pub open spec fn pass_byte<W, E: Fn() -> W, S: Fn(W, u8, i64, u32) -> W, M: Fn(&W) -> u8>(
    start: E,
    weigh: S,
    finish: M,
    src: Seq<u8>,
    dst: Seq<u8>,
    width: int,
    height: int,
    radius: int,
    vertical: bool,
    i: int,
) -> bool {
    if is_alpha(i) {
        dst[i] == src[i]
    } else {
        averages_to(
            start,
            weigh,
            finish,
            window_of(src, width, height, radius, vertical, i),
            radius,
            dst[i],
        )
    }
}

/// `dst` is `src` after one pass.
pub open spec fn pass_result<W, E: Fn() -> W, S: Fn(W, u8, i64, u32) -> W, M: Fn(&W) -> u8>(
    start: E,
    weigh: S,
    finish: M,
    src: Seq<u8>,
    dst: Seq<u8>,
    width: int,
    height: int,
    radius: int,
    vertical: bool,
) -> bool {
    &&& dst.len() == src.len()
    &&& forall|i: int|
        0 <= i < src.len() ==> #[trigger] pass_byte(
            start,
            weigh,
            finish,
            src,
            dst,
            width,
            height,
            radius,
            vertical,
            i,
        )
}

/// What `apply_blur` returns for a well-shaped buffer: the input itself
/// for radius zero, otherwise the column pass of the row pass.
pub open spec fn blurred<W, E: Fn() -> W, S: Fn(W, u8, i64, u32) -> W, M: Fn(&W) -> u8>(
    start: E,
    weigh: S,
    finish: M,
    src: Seq<u8>,
    out: Seq<u8>,
    width: int,
    height: int,
    radius: int,
) -> bool {
    if radius == 0 {
        out == src
    } else {
        exists|mid: Seq<u8>|
            #[trigger] pass_result(start, weigh, finish, src, mid, width, height, radius, false)
                && pass_result(start, weigh, finish, mid, out, width, height, radius, true)
    }
}

/// Blurring leaves the alpha channel as it was.
pub proof fn lemma_blur_keeps_alpha<
    W,
    E: Fn() -> W,
    S: Fn(W, u8, i64, u32) -> W,
    M: Fn(&W) -> u8,
>(start: E, weigh: S, finish: M, src: Seq<u8>, out: Seq<u8>, width: int, height: int, radius: int)
    requires
        blurred(start, weigh, finish, src, out, width, height, radius),
    ensures
        same_alpha(src, out),
{
    if radius != 0 {
        let mid = choose|mid: Seq<u8>|
            #[trigger] pass_result(start, weigh, finish, src, mid, width, height, radius, false)
                && pass_result(start, weigh, finish, mid, out, width, height, radius, true);
        assert forall|i: int| 0 <= i < src.len() && is_alpha(i) implies src[i] == out[i] by {
            assert(pass_byte(start, weigh, finish, src, mid, width, height, radius, false, i));
            assert(pass_byte(start, weigh, finish, mid, out, width, height, radius, true, i));
        }
    }
}

/// With radius zero, blurring changes nothing.
pub proof fn lemma_blur_radius_zero<
    W,
    E: Fn() -> W,
    S: Fn(W, u8, i64, u32) -> W,
    M: Fn(&W) -> u8,
>(start: E, weigh: S, finish: M, src: Seq<u8>, out: Seq<u8>, width: int, height: int)
    requires
        blurred(start, weigh, finish, src, out, width, height, 0),
    ensures
        out == src,
{
}

/// Position `pos + k - radius`, clamped into `0..extent`.
fn clamped(pos: usize, k: u64, radius: u32, extent: usize) -> (at: usize)
    requires
        pos < extent,
        k <= 2 * radius,
    ensures
        at == clamp_to_edge(pos + k - radius, extent as int),
        at < extent,
{
    let shifted: u128 = pos as u128 + k as u128;
    if shifted < radius as u128 {
        0
    } else if shifted - radius as u128 >= extent as u128 {
        extent - 1
    } else {
        (shifted - radius as u128) as usize
    }
}

/// Blurs one colour byte: tallies the `2 * radius + 1` samples of its
/// window, from the one farthest left (or up) to the one farthest right (or
/// down), and reads the result off the tally.
fn blur_sample<W, E: Fn() -> W, S: Fn(W, u8, i64, u32) -> W, M: Fn(&W) -> u8>(
    src: &Vec<u8>,
    width: usize,
    height: usize,
    radius: u32,
    vertical: bool,
    x: usize,
    y: usize,
    c: usize,
    start: &E,
    weigh: &S,
    finish: &M,
) -> (value: u8)
    requires
        src.len() == width * height * 4,
        x < width,
        y < height,
        c < 3,
        start.requires(()),
        forall|tally: W, sample: u8, offset: i64, reach: u32|
            weigh.requires((tally, sample, offset, reach)),
        forall|tally: W| finish.requires((&tally,)),
    ensures
        averages_to(
            *start,
            *weigh,
            *finish,
            window_at(
                src@,
                width as int,
                height as int,
                radius as int,
                vertical,
                x as int,
                y as int,
                c as int,
            ),
            radius as int,
            value,
        ),
{
    let ghost samples = window_at(
        src@,
        width as int,
        height as int,
        radius as int,
        vertical,
        x as int,
        y as int,
        c as int,
    );
    let mut tally = start();
    let ghost mut tallies: Seq<W> = seq![tally];
    let last: u64 = 2 * (radius as u64);
    let mut k: u64 = 0;
    while k <= last
        invariant
            src.len() == width * height * 4,
            x < width,
            y < height,
            c < 3,
            forall|tally: W, sample: u8, offset: i64, reach: u32|
                weigh.requires((tally, sample, offset, reach)),
            last == 2 * radius,
            k <= last + 1,
            samples == window_at(
                src@,
                width as int,
                height as int,
                radius as int,
                vertical,
                x as int,
                y as int,
                c as int,
            ),
            tallies.len() == k + 1,
            tallies[k as int] == tally,
            start.ensures((), tallies[0]),
            forall|j: int|
                0 <= j < k ==> weigh.ensures(
                    (#[trigger] tallies[j], samples[j], (j - radius) as i64, radius),
                    tallies[j + 1],
                ),
        decreases last + 1 - k,
    {
        let nx = if vertical {
            x
        } else {
            clamped(x, k, radius, width)
        };
        let ny = if vertical {
            clamped(y, k, radius, height)
        } else {
            y
        };
        let at = pixel_offset(width, height, nx, ny);
        let offset: i64 = k as i64 - radius as i64;
        tally = weigh(tally, src[at + c], offset, radius);
        proof {
            let longer = tallies.push(tally);
            assert forall|j: int| 0 <= j < k + 1 implies weigh.ensures(
                (#[trigger] longer[j], samples[j], (j - radius) as i64, radius),
                longer[j + 1],
            ) by {
                if j < k {
                    assert(longer[j] == tallies[j]);
                }
            }
            tallies = longer;
        }
        k += 1;
    }
    let value = finish(&tally);
    assert(is_tally(*start, *weigh, samples, radius as int, tallies));
    value
}

/// One blur pass over a well-shaped buffer.
pub fn blur_pass<W, E: Fn() -> W, S: Fn(W, u8, i64, u32) -> W, M: Fn(&W) -> u8>(
    src: &Vec<u8>,
    width: u32,
    height: u32,
    radius: u32,
    vertical: bool,
    start: &E,
    weigh: &S,
    finish: &M,
) -> (dst: Vec<u8>)
    requires
        well_shaped(src.len() as nat, width, height),
        start.requires(()),
        forall|tally: W, sample: u8, offset: i64, reach: u32|
            weigh.requires((tally, sample, offset, reach)),
        forall|tally: W| finish.requires((&tally,)),
    ensures
        pass_result(
            *start,
            *weigh,
            *finish,
            src@,
            dst@,
            width as int,
            height as int,
            radius as int,
            vertical,
        ),
{
    let count = src.len() / 4;
    let wide = width as usize;
    let high = height as usize;
    let mut dst: Vec<u8> = Vec::new();
    let mut p: usize = 0;
    while p < count
        invariant
            well_shaped(src.len() as nat, width, height),
            start.requires(()),
            forall|tally: W, sample: u8, offset: i64, reach: u32|
                weigh.requires((tally, sample, offset, reach)),
            forall|tally: W| finish.requires((&tally,)),
            count == src.len() / 4,
            wide == width,
            high == height,
            p <= count,
            dst.len() == 4 * p,
            forall|i: int|
                0 <= i < 4 * p ==> #[trigger] pass_byte(
                    *start,
                    *weigh,
                    *finish,
                    src@,
                    dst@,
                    width as int,
                    height as int,
                    radius as int,
                    vertical,
                    i,
                ),
        decreases count - p,
    {
        proof {
            lemma_pixel_coordinates(width as int, height as int, p as int);
        }
        let x = p % wide;
        let y = p / wide;
        let ghost before = dst@;
        let r = blur_sample(src, wide, high, radius, vertical, x, y, 0, start, weigh, finish);
        let g = blur_sample(src, wide, high, radius, vertical, x, y, 1, start, weigh, finish);
        let b = blur_sample(src, wide, high, radius, vertical, x, y, 2, start, weigh, finish);
        dst.push(r);
        dst.push(g);
        dst.push(b);
        dst.push(src[4 * p + 3]);
        assert forall|i: int| 0 <= i < 4 * p + 4 implies #[trigger] pass_byte(
            *start,
            *weigh,
            *finish,
            src@,
            dst@,
            width as int,
            height as int,
            radius as int,
            vertical,
            i,
        ) by {
            if i < 4 * p {
                assert(pass_byte(
                    *start,
                    *weigh,
                    *finish,
                    src@,
                    before,
                    width as int,
                    height as int,
                    radius as int,
                    vertical,
                    i,
                ));
                assert(dst[i] == before[i]);
            } else {
                assert(column_of(width as int, i) == x && row_of(width as int, i) == y);
            }
        }
        p += 1;
    }
    dst
}

/// Blurs the colour channels of an RGBA image with a window of
/// `2 * radius + 1` samples, first along the rows, then along the columns.
/// Samples beyond an edge repeat the edge pixel. The alpha channel is left as
/// it is, and radius zero returns the image unchanged without weighing
/// anything.
pub fn apply_blur<W, E: Fn() -> W, S: Fn(W, u8, i64, u32) -> W, M: Fn(&W) -> u8>(
    image_data: Vec<u8>,
    width: u32,
    height: u32,
    radius: u32,
    start: E,
    weigh: S,
    finish: M,
) -> (result: Result<Vec<u8>, ShapeError>)
    requires
        start.requires(()),
        forall|tally: W, sample: u8, offset: i64, reach: u32|
            weigh.requires((tally, sample, offset, reach)),
        forall|tally: W| finish.requires((&tally,)),
    ensures
        !well_shaped(image_data.len() as nat, width, height) ==> result == Err::<
            Vec<u8>,
            ShapeError,
        >(ShapeError::DimensionMismatch),
        well_shaped(image_data.len() as nat, width, height) ==> (result matches Ok(out) && blurred(
            start,
            weigh,
            finish,
            image_data@,
            out@,
            width as int,
            height as int,
            radius as int,
        ) && same_alpha(image_data@, out@)),
        radius == 0 && well_shaped(image_data.len() as nat, width, height) ==> (result matches Ok(
            out,
        ) && out@ == image_data@),
{
    match check_shape(image_data.len(), width, height) {
        Err(e) => Err(e),
        Ok(_) => {
            if radius == 0 {
                Ok(image_data)
            } else {
                let rows = blur_pass(
                    &image_data,
                    width,
                    height,
                    radius,
                    false,
                    &start,
                    &weigh,
                    &finish,
                );
                let out = blur_pass(&rows, width, height, radius, true, &start, &weigh, &finish);
                proof {
                    lemma_blur_keeps_alpha(
                        start,
                        weigh,
                        finish,
                        image_data@,
                        out@,
                        width as int,
                        height as int,
                        radius as int,
                    );
                }
                Ok(out)
            }
        },
    }
}

} // verus!
