use wasm_lib::{apply_grayscale, apply_invert, luma, ShapeError};

fn sample_image() -> Vec<u8> {
    vec![
        255, 0, 0, 255, // red
        0, 255, 0, 128, // green, half transparent
        0, 0, 255, 0, // blue, transparent
        10, 20, 30, 40,
        255, 255, 255, 7, // white
        0, 0, 0, 200, // black
    ]
}

#[test]
fn luma_weighs_the_channels() {
    assert_eq!(luma(255, 0, 0), 76);
    assert_eq!(luma(0, 255, 0), 149);
    assert_eq!(luma(0, 0, 255), 29);
    assert_eq!(luma(10, 20, 30), 18);
    assert_eq!(luma(255, 255, 255), 255);
    assert_eq!(luma(0, 0, 0), 0);
    assert_eq!(luma(1, 1, 1), 1);
    assert_eq!(luma(3, 0, 0), 0);
}

#[test]
fn grayscale_replaces_colour_by_luminance() {
    let out = apply_grayscale(sample_image()).unwrap();
    assert_eq!(
        out,
        vec![
            76, 76, 76, 255, 149, 149, 149, 128, 29, 29, 29, 0, 18, 18, 18, 40, 255, 255, 255, 7,
            0, 0, 0, 200,
        ]
    );
}

#[test]
fn grayscale_twice_equals_grayscale_once() {
    let once = apply_grayscale(sample_image()).unwrap();
    let twice = apply_grayscale(once.clone()).unwrap();
    assert_eq!(twice, once);
}

#[test]
fn grayscale_of_empty_buffer_is_empty() {
    assert_eq!(apply_grayscale(Vec::new()), Ok(Vec::new()));
}

#[test]
fn grayscale_rejects_partial_pixel() {
    assert_eq!(apply_grayscale(vec![1, 2, 3]), Err(ShapeError::PartialPixel));
    assert_eq!(apply_grayscale(vec![1, 2, 3, 4, 5]), Err(ShapeError::PartialPixel));
    assert_eq!(apply_grayscale(vec![9]), Err(ShapeError::PartialPixel));
}

#[test]
fn invert_flips_colour_bytes() {
    let out = apply_invert(sample_image()).unwrap();
    assert_eq!(
        out,
        vec![
            0, 255, 255, 255, 255, 0, 255, 128, 255, 255, 0, 0, 245, 235, 225, 40, 0, 0, 0, 7,
            255, 255, 255, 200,
        ]
    );
}

#[test]
fn invert_twice_returns_the_input() {
    let input = sample_image();
    let once = apply_invert(input.clone()).unwrap();
    assert_ne!(once, input);
    let twice = apply_invert(once).unwrap();
    assert_eq!(twice, input);
}

#[test]
fn invert_of_empty_buffer_is_empty() {
    assert_eq!(apply_invert(Vec::new()), Ok(Vec::new()));
}

#[test]
fn invert_rejects_partial_pixel() {
    assert_eq!(apply_invert(vec![1, 2]), Err(ShapeError::PartialPixel));
    assert_eq!(apply_invert(vec![0; 7]), Err(ShapeError::PartialPixel));
}

#[test]
fn pointwise_filters_keep_alpha() {
    let input = sample_image();
    let gray = apply_grayscale(input.clone()).unwrap();
    let inverse = apply_invert(input.clone()).unwrap();
    assert_eq!(gray.len(), input.len());
    assert_eq!(inverse.len(), input.len());
    for i in (3..input.len()).step_by(4) {
        assert_eq!(gray[i], input[i]);
        assert_eq!(inverse[i], input[i]);
    }
}
