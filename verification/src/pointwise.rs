//! Filters that change each pixel on its own: grayscale and inversion.
use vstd::prelude::*;
use crate::raster::{is_alpha, same_alpha, ShapeError};

verus! {

/// Brightness of a colour: the channels weighted 299 : 587 : 114, divided by
/// 1000 and rounded down.
pub open spec fn luminance(r: u8, g: u8, b: u8) -> u8 {
    ((r * 299 + g * 587 + b * 114) / 1000) as u8
}

/// Byte `i` of the grayscale image: the alpha byte as it was, a colour byte
/// replaced by the luminance of its pixel.
pub open spec fn gray_byte(s: Seq<u8>, i: int) -> u8 {
    if is_alpha(i) {
        s[i]
    } else {
        let p = i - i % 4;
        luminance(s[p], s[p + 1], s[p + 2])
    }
}

/// The grayscale image as a whole.
pub open spec fn grayscale(s: Seq<u8>) -> Seq<u8> {
    Seq::new(s.len(), |i: int| gray_byte(s, i))
}

/// Byte `i` of the inverted image: the alpha byte as it was, a colour byte
/// `v` replaced by `255 - v`.
pub open spec fn inverted_byte(s: Seq<u8>, i: int) -> u8 {
    if is_alpha(i) {
        s[i]
    } else {
        (255 - s[i]) as u8
    }
}

/// The inverted image as a whole.
pub open spec fn inverted(s: Seq<u8>) -> Seq<u8> {
    Seq::new(s.len(), |i: int| inverted_byte(s, i))
}

/// Grayscale is idempotent: a gray image is its own grayscale image.
pub proof fn lemma_grayscale_idempotent(s: Seq<u8>)
    requires
        s.len() % 4 == 0,
    ensures
        grayscale(grayscale(s)) == grayscale(s),
{
    let once = grayscale(s);
    assert forall|i: int| 0 <= i < s.len() implies gray_byte(once, i) == once[i] by {
        if !is_alpha(i) {
            let p = i - i % 4;
            let gray = luminance(s[p], s[p + 1], s[p + 2]);
            assert(once[p] == gray && once[p + 1] == gray && once[p + 2] == gray);
            assert(luminance(gray, gray, gray) == gray);
        }
    }
}

/// Inversion is an involution: inverting twice gives the image back.
pub proof fn lemma_invert_involution(s: Seq<u8>)
    ensures
        inverted(inverted(s)) == s,
{
}

/// Neither filter touches the alpha channel.
pub proof fn lemma_alpha_untouched(s: Seq<u8>)
    ensures
        same_alpha(s, grayscale(s)),
        same_alpha(s, inverted(s)),
{
}

/// Brightness of one colour.
pub fn luma(r: u8, g: u8, b: u8) -> (gray: u8)
    ensures
        gray == luminance(r, g, b),
{
    let sum: u32 = r as u32 * 299 + g as u32 * 587 + b as u32 * 114;
    (sum / 1000) as u8
}

/// Replaces the three colour bytes of every pixel by the pixel's luminance.
/// A buffer that does not consist of whole pixels is turned away.
pub fn apply_grayscale(image_data: Vec<u8>) -> (result: Result<Vec<u8>, ShapeError>)
    ensures
        image_data.len() % 4 != 0 ==> result == Err::<Vec<u8>, ShapeError>(
            ShapeError::PartialPixel,
        ),
        image_data.len() % 4 == 0 ==> (result matches Ok(out) && out@ == grayscale(image_data@)
            && same_alpha(image_data@, out@)),
{
    if image_data.len() % 4 != 0 {
        return Err(ShapeError::PartialPixel);
    }
    let ghost source = image_data@;
    let mut pixels = image_data;
    let count = pixels.len() / 4;
    let mut p: usize = 0;
    while p < count
        invariant
            source.len() % 4 == 0,
            pixels.len() == source.len(),
            count == source.len() / 4,
            p <= count,
            forall|i: int| 0 <= i < 4 * p ==> #[trigger] pixels[i] == gray_byte(source, i),
            forall|i: int| 4 * p <= i < pixels.len() ==> #[trigger] pixels[i] == source[i],
        decreases count - p,
    {
        let gray = luma(pixels[4 * p], pixels[4 * p + 1], pixels[4 * p + 2]);
        pixels.set(4 * p, gray);
        pixels.set(4 * p + 1, gray);
        pixels.set(4 * p + 2, gray);
        p += 1;
    }
    Ok(pixels)
}

/// Replaces every colour byte `v` by `255 - v`. A buffer that does not
/// consist of whole pixels is turned away.
pub fn apply_invert(image_data: Vec<u8>) -> (result: Result<Vec<u8>, ShapeError>)
    ensures
        image_data.len() % 4 != 0 ==> result == Err::<Vec<u8>, ShapeError>(
            ShapeError::PartialPixel,
        ),
        image_data.len() % 4 == 0 ==> (result matches Ok(out) && out@ == inverted(image_data@)
            && same_alpha(image_data@, out@)),
{
    if image_data.len() % 4 != 0 {
        return Err(ShapeError::PartialPixel);
    }
    let ghost source = image_data@;
    let mut pixels = image_data;
    let count = pixels.len() / 4;
    let mut p: usize = 0;
    while p < count
        invariant
            source.len() % 4 == 0,
            pixels.len() == source.len(),
            count == source.len() / 4,
            p <= count,
            forall|i: int| 0 <= i < 4 * p ==> #[trigger] pixels[i] == inverted_byte(source, i),
            forall|i: int| 4 * p <= i < pixels.len() ==> #[trigger] pixels[i] == source[i],
        decreases count - p,
    {
        let r = 255 - pixels[4 * p];
        let g = 255 - pixels[4 * p + 1];
        let b = 255 - pixels[4 * p + 2];
        pixels.set(4 * p, r);
        pixels.set(4 * p + 1, g);
        pixels.set(4 * p + 2, b);
        p += 1;
    }
    Ok(pixels)
}

} // verus!
