//! Stateless pixel and number kernels with machine-checked contracts.
//!
//! Image kernels work on flat RGBA buffers (four bytes per pixel, row-major).
//! Every buffer is tested against its declared shape before it is touched,
//! and a buffer of the wrong shape is turned away with a [`ShapeError`].
//!
//! Kernels whose arithmetic is real-valued take that arithmetic as function
//! arguments, each a single step on a value of the caller's choosing. All
//! that surrounds the steps (the loops, the indexing, borders, clamping, step
//! limits, channel layout) is proved here for whatever numeric routines the
//! caller plugs in, and the contracts say which steps were applied to what.
//!
//! - [`raster`]: buffer layout and shape checks
//! - [`pointwise`]: grayscale and inversion
//! - [`blur`]: separable blur
//! - [`edges`]: Sobel edge detection
//! - [`sharpen`]: unsharp-mask sharpening
//! - [`mandelbrot`]: escape-time rendering
//! - [`primes`], [`matrix`], [`fibonacci`], [`hashing`], [`monte_carlo`],
//!   [`sorting`], [`text`]: number and text kernels
//! - [`lcg`]: the pseudo-random generator behind `monte_carlo` and `sorting`
pub mod raster;
pub mod pointwise;
pub mod blur;
pub mod edges;
pub mod sharpen;
pub mod mandelbrot;
pub mod primes;
pub mod matrix;
pub mod fibonacci;
pub mod hashing;
pub mod lcg;
pub mod monte_carlo;
pub mod sorting;
pub mod text;

pub use crate::blur::{apply_blur, blur_pass};
pub use crate::edges::apply_edge_detection;
pub use crate::fibonacci::fibonacci_sequence;
pub use crate::hashing::{compute_hashes, mix_round};
pub use crate::lcg::lcg_step;
pub use crate::mandelbrot::{escape_count, generate_mandelbrot, shade_pixel};
pub use crate::matrix::{matrix_multiply, multiply_square};
pub use crate::monte_carlo::{estimate_pi, PiEstimate};
pub use crate::pointwise::{apply_grayscale, apply_invert, luma};
pub use crate::primes::{calculate_primes, is_prime};
pub use crate::raster::ShapeError;
pub use crate::sharpen::apply_sharpen;
pub use crate::sorting::{draw_values, sort_array};
pub use crate::text::{process_text, swap_case};
