use wasm_lib::{escape_count, generate_mandelbrot, shade_pixel};

/// A point c of the plane, `x0 + y0 i`, and the current z of its orbit, `x + y i`.
#[derive(Clone, Copy, Debug)]
struct Orbit {
    x: f64,
    y: f64,
    x0: f64,
    y0: f64,
}

fn locate(px: u32, py: u32, width: u32, height: u32) -> Orbit {
    let x_scale = (1.0 - (-2.5)) / width as f64;
    let y_scale = (1.0 - (-1.0)) / height as f64;
    Orbit { x: 0.0, y: 0.0, x0: -2.5 + px as f64 * x_scale, y0: -1.0 + py as f64 * y_scale }
}

fn bounded(orbit: &Orbit) -> bool {
    orbit.x * orbit.x + orbit.y * orbit.y <= 4.0
}

fn advance(orbit: Orbit) -> Orbit {
    Orbit {
        x: orbit.x * orbit.x - orbit.y * orbit.y + orbit.x0,
        y: 2.0 * orbit.x * orbit.y + orbit.y0,
        ..orbit
    }
}

/// Red falls with the share of the step limit used, green follows its
/// square root, blue rises with it.
fn ramp(iteration: u32, max_iterations: u32) -> (u8, u8, u8) {
    let ratio = iteration as f32 / max_iterations as f32;
    (
        (255.0 * (1.0 - ratio)) as u8,
        (255.0 * ratio.sqrt()) as u8,
        (255.0 * ratio) as u8,
    )
}

#[test]
fn escape_count_stops_at_the_first_unbounded_state() {
    let below_five = |z: &u32| *z < 5;
    let next = |z: u32| z + 1;
    assert_eq!(escape_count(0u32, 10, &below_five, &next), 5);
    assert_eq!(escape_count(3u32, 10, &below_five, &next), 2);
    assert_eq!(escape_count(5u32, 10, &below_five, &next), 0);
    assert_eq!(escape_count(9u32, 10, &below_five, &next), 0);
}

#[test]
fn escape_count_stops_at_the_limit() {
    let below_five = |z: &u32| *z < 5;
    let next = |z: u32| z + 1;
    assert_eq!(escape_count(0u32, 5, &below_five, &next), 5);
    assert_eq!(escape_count(0u32, 4, &below_five, &next), 4);
    assert_eq!(escape_count(0u32, 1, &below_five, &next), 1);
    assert_eq!(escape_count(0u32, 0, &below_five, &next), 0);
    let stay = |z: u32| z;
    assert_eq!(escape_count(0u32, 1000, &below_five, &stay), 1000);
    let never_asked = |_z: &u32| -> bool { panic!("not to be asked") };
    assert_eq!(escape_count(0u32, 0, &never_asked, &next), 0);
}

#[test]
fn escape_count_of_points_of_the_plane() {
    // c = 0 never leaves; c = -2.5 - i leaves after one step; c = 1 after three
    let from = |x0: f64, y0: f64| Orbit { x: 0.0, y: 0.0, x0, y0 };
    assert_eq!(escape_count(from(0.0, 0.0), 500, &bounded, &advance), 500);
    assert_eq!(escape_count(from(-2.5, -1.0), 500, &bounded, &advance), 1);
    assert_eq!(escape_count(from(1.0, 0.0), 500, &bounded, &advance), 3);
    assert_eq!(escape_count(from(-1.0, 0.0), 500, &bounded, &advance), 500);
}

#[test]
fn shade_pixel_paints_the_set_black() {
    assert_eq!(shade_pixel(50, 50, &ramp), (0, 0, 0, 255));
    assert_eq!(shade_pixel(0, 0, &ramp), (0, 0, 0, 255));
    let never = |_iteration: u32, _limit: u32| -> (u8, u8, u8) { panic!("not to be asked") };
    assert_eq!(shade_pixel(7, 7, &never), (0, 0, 0, 255));
    assert_eq!(shade_pixel(8, 7, &never), (0, 0, 0, 255));
    assert_eq!(shade_pixel(u32::MAX, 0, &never), (0, 0, 0, 255));
}

#[test]
fn shade_pixel_colours_escaped_points() {
    assert_eq!(shade_pixel(1, 4, &ramp), (191, 127, 63, 255));
    assert_eq!(shade_pixel(2, 4, &ramp), (127, 180, 127, 255));
    assert_eq!(shade_pixel(3, 4, &ramp), (63, 220, 191, 255));
    assert_eq!(shade_pixel(0, 4, &ramp), (255, 0, 0, 255));
    let fixed = |_iteration: u32, _limit: u32| (1u8, 2u8, 3u8);
    assert_eq!(shade_pixel(3, 4, &fixed), (1, 2, 3, 255));
}

#[test]
fn mandelbrot_origin_is_black() {
    // on a 7 by 2 grid, pixel (5, 1) is the point 0 + 0i
    for limit in [1u32, 4, 100, 1000] {
        let out = generate_mandelbrot(7, 2, limit, locate, bounded, advance, ramp);
        assert_eq!(escape_count(locate(5, 1, 7, 2), limit, &bounded, &advance), limit);
        let at = (7 + 5) * 4;
        assert_eq!(&out[at..at + 4], &[0, 0, 0, 255]);
    }
}

#[test]
fn mandelbrot_seven_by_two() {
    assert_eq!(
        generate_mandelbrot(7, 2, 4, locate, bounded, advance, ramp),
        vec![
            191, 127, 63, 255, 191, 127, 63, 255, 127, 180, 127, 255, 63, 220, 191, 255, 0, 0, 0,
            255, 0, 0, 0, 255, 127, 180, 127, 255, 191, 127, 63, 255, 0, 0, 0, 255, 0, 0, 0, 255,
            0, 0, 0, 255, 0, 0, 0, 255, 0, 0, 0, 255, 0, 0, 0, 255,
        ]
    );
}

#[test]
fn mandelbrot_with_no_iterations_is_black() {
    let out = generate_mandelbrot(7, 2, 0, locate, bounded, advance, ramp);
    assert_eq!(out.len(), 56);
    for pixel in out.chunks(4) {
        assert_eq!(pixel, &[0, 0, 0, 255]);
    }
}

#[test]
fn mandelbrot_with_no_iterations_asks_nothing_of_the_orbit() {
    let never_asked = |_z: &Orbit| -> bool { panic!("not to be asked") };
    let never_made = |_z: Orbit| -> Orbit { panic!("not to be made") };
    let never_shaded = |_iteration: u32, _limit: u32| -> (u8, u8, u8) { panic!("not to be asked") };
    let out = generate_mandelbrot(3, 2, 0, locate, never_asked, never_made, never_shaded);
    assert_eq!(out.len(), 24);
    for pixel in out.chunks(4) {
        assert_eq!(pixel, &[0, 0, 0, 255]);
    }
}

#[test]
fn mandelbrot_of_empty_grid_is_empty() {
    assert_eq!(generate_mandelbrot(0, 0, 10, locate, bounded, advance, ramp), Vec::<u8>::new());
    assert_eq!(generate_mandelbrot(0, 3, 10, locate, bounded, advance, ramp), Vec::<u8>::new());
    assert_eq!(generate_mandelbrot(3, 0, 10, locate, bounded, advance, ramp), Vec::<u8>::new());
}

#[test]
fn mandelbrot_runs_each_pixel_in_row_major_order() {
    // the state is the number of steps still to go
    let steps_to_go = |px: u32, py: u32, width: u32, height: u32| {
        assert_eq!((width, height), (3, 2));
        py * 10 + px
    };
    let some_left = |z: &u32| *z > 0;
    let one_less = |z: u32| z - 1;
    let echo = |iteration: u32, limit: u32| {
        assert_eq!(limit, 11);
        (iteration as u8, 100, 200)
    };
    assert_eq!(
        generate_mandelbrot(3, 2, 11, steps_to_go, some_left, one_less, echo),
        vec![
            0, 100, 200, 255, 1, 100, 200, 255, 2, 100, 200, 255, 10, 100, 200, 255, 0, 0, 0,
            255, 0, 0, 0, 255,
        ]
    );
}

#[test]
fn mandelbrot_is_opaque_everywhere() {
    let out = generate_mandelbrot(16, 9, 30, locate, bounded, advance, ramp);
    assert_eq!(out.len(), 16 * 9 * 4);
    for pixel in out.chunks(4) {
        assert_eq!(pixel[3], 255);
    }
}
