use wasm_lib::monte_carlo::SAMPLE_SEED;
use wasm_lib::{
    calculate_primes, compute_hashes, draw_values, estimate_pi, fibonacci_sequence, is_prime,
    lcg_step, matrix_multiply, mix_round, multiply_square, process_text, sort_array, swap_case,
    PiEstimate,
};

/// The two generator states, spread over -1..=1, lie in the unit circle.
fn inside_unit_circle(sx: u32, sy: u32) -> bool {
    let x = (sx as f64 / u32::MAX as f64) * 2.0 - 1.0;
    let y = (sy as f64 / u32::MAX as f64) * 2.0 - 1.0;
    x * x + y * y <= 1.0
}

fn as_float(estimate: PiEstimate) -> f64 {
    estimate.numerator as f64 / estimate.denominator as f64
}

#[test]
fn primes_up_to_ten() {
    assert_eq!(calculate_primes(10), vec![2, 3, 5, 7]);
}

#[test]
fn primes_of_small_limits() {
    assert_eq!(calculate_primes(0), Vec::<u32>::new());
    assert_eq!(calculate_primes(1), Vec::<u32>::new());
    assert_eq!(calculate_primes(2), vec![2]);
    assert_eq!(calculate_primes(3), vec![2, 3]);
    assert_eq!(calculate_primes(4), vec![2, 3]);
    assert_eq!(calculate_primes(30), vec![2, 3, 5, 7, 11, 13, 17, 19, 23, 29]);
}

#[test]
fn primes_are_counted_right() {
    assert_eq!(calculate_primes(100).len(), 25);
    let many = calculate_primes(10_000);
    assert_eq!(many.len(), 1229);
    assert_eq!(many[1228], 9973);
    assert!(many.windows(2).all(|pair| pair[0] < pair[1]));
}

#[test]
fn is_prime_tests_single_numbers() {
    assert!(!is_prime(0));
    assert!(!is_prime(1));
    assert!(is_prime(2));
    assert!(is_prime(3));
    assert!(!is_prime(4));
    assert!(!is_prime(9));
    assert!(!is_prime(25));
    assert!(is_prime(97));
    assert!(is_prime(65_521));
    assert!(!is_prime(4_294_836_225)); // 65535 squared
    assert!(is_prime(4_294_967_291)); // the largest prime below 2^32
    assert!(!is_prime(u32::MAX));
}

#[test]
fn matrix_product_of_size_two() {
    // left factor [[0, 1], [1, 2]], right factor [[0, 0], [0, 1]]
    assert_eq!(matrix_multiply(2), vec![0, 1, 0, 2]);
}

#[test]
fn product_of_two_given_matrices() {
    // [[0, 1], [1, 2]] times [[0, 1], [0, 1]]
    assert_eq!(multiply_square(&vec![0, 1, 1, 2], &vec![0, 1, 0, 1], 2), vec![0, 1, 0, 3]);
    // [[1, 2], [3, 4]] times [[5, 6], [7, 8]], and the other way round
    assert_eq!(multiply_square(&vec![1, 2, 3, 4], &vec![5, 6, 7, 8], 2), vec![19, 22, 43, 50]);
    assert_eq!(multiply_square(&vec![5, 6, 7, 8], &vec![1, 2, 3, 4], 2), vec![23, 34, 31, 46]);
    let identity = vec![1, 0, 0, 0, 1, 0, 0, 0, 1];
    let some = vec![9, 8, 7, 6, 5, 4, 3, 2, 1];
    assert_eq!(multiply_square(&identity, &some, 3), vec![9, 8, 7, 6, 5, 4, 3, 2, 1]);
    assert_eq!(multiply_square(&some, &identity, 3), vec![9, 8, 7, 6, 5, 4, 3, 2, 1]);
    assert_eq!(multiply_square(&vec![255], &vec![255], 1), vec![65025]);
    assert_eq!(multiply_square(&Vec::new(), &Vec::new(), 0), Vec::<u64>::new());
}

#[test]
fn matrix_product_of_other_sizes() {
    assert_eq!(matrix_multiply(0), Vec::<u64>::new());
    assert_eq!(matrix_multiply(1), vec![0]);
    assert_eq!(matrix_multiply(3), vec![0, 5, 10, 0, 8, 16, 0, 11, 22]);
    assert_eq!(
        matrix_multiply(4),
        vec![0, 14, 28, 42, 0, 20, 40, 60, 0, 26, 52, 78, 0, 32, 64, 96]
    );
    let twelve = matrix_multiply(12);
    assert_eq!(twelve.len(), 144);
    assert_eq!(twelve[143], 242);
}

#[test]
fn fibonacci_first_ten() {
    assert_eq!(fibonacci_sequence(10), vec![0, 1, 1, 2, 3, 5, 8, 13, 21, 34]);
}

#[test]
fn fibonacci_of_small_counts() {
    assert_eq!(fibonacci_sequence(0), Vec::<u64>::new());
    assert_eq!(fibonacci_sequence(1), vec![0]);
    assert_eq!(fibonacci_sequence(2), vec![0, 1]);
    assert_eq!(fibonacci_sequence(3), vec![0, 1, 1]);
}

#[test]
fn fibonacci_wraps_after_the_94th_term() {
    let terms = fibonacci_sequence(96);
    assert_eq!(terms.len(), 96);
    assert_eq!(terms[92], 7_540_113_804_746_346_429);
    assert_eq!(terms[93], 12_200_160_415_121_876_738);
    assert_eq!(terms[94], 1_293_530_146_158_671_551);
    assert_eq!(terms[95], 13_493_690_561_280_548_289);
}

#[test]
fn lcg_step_multiplies_and_adds_modulo_two_to_the_32() {
    assert_eq!(lcg_step(0), 12345);
    assert_eq!(lcg_step(42), 3_397_979_675);
    assert_eq!(lcg_step(u32::MAX), 3_191_464_396);
    assert_eq!(lcg_step(SAMPLE_SEED), 231_794_730);
    assert_eq!(lcg_step(231_794_730), 3_274_429_979);
}

#[test]
fn hash_of_no_rounds_is_the_seed() {
    assert_eq!(compute_hashes(0), 0x12345678);
}

#[test]
fn hash_after_some_rounds() {
    assert_eq!(compute_hashes(1), 1_406_422_013);
    assert_eq!(compute_hashes(2), 1_923_450_729);
    assert_eq!(compute_hashes(3), 2_712_698_909);
    assert_eq!(compute_hashes(10), 2_967_051_106);
    assert_eq!(compute_hashes(1000), 994_698_801);
}

#[test]
fn mix_round_wraps_around() {
    assert_eq!(mix_round(0, 0), 1_011_272_156);
    assert_eq!(mix_round(u32::MAX, u32::MAX), 1_008_026_760);
    assert_eq!(mix_round(0x12345678, 0), 1_406_422_013);
}

#[test]
fn pi_estimate_of_no_samples_is_zero_over_one() {
    let estimate = estimate_pi(0, inside_unit_circle);
    assert_eq!(estimate, PiEstimate { numerator: 0, denominator: 1 });
    assert_eq!(as_float(estimate), 0.0);
}

#[test]
fn pi_estimate_counts_the_hits() {
    assert_eq!(estimate_pi(1, inside_unit_circle), PiEstimate { numerator: 0, denominator: 1 });
    assert_eq!(estimate_pi(2, inside_unit_circle), PiEstimate { numerator: 0, denominator: 2 });
    assert_eq!(estimate_pi(10, inside_unit_circle), PiEstimate { numerator: 28, denominator: 10 });
    assert_eq!(
        estimate_pi(1000, inside_unit_circle),
        PiEstimate { numerator: 3128, denominator: 1000 }
    );
    assert_eq!(as_float(estimate_pi(1000, inside_unit_circle)), 3.128);
}

#[test]
fn pi_estimate_approaches_pi() {
    let estimate = estimate_pi(100_000, inside_unit_circle);
    assert_eq!(estimate, PiEstimate { numerator: 313_988, denominator: 100_000 });
    assert!((as_float(estimate) - std::f64::consts::PI).abs() < 0.01);
}

#[test]
fn pi_estimate_stays_between_zero_and_four() {
    for samples in [1u32, 2, 3, 10, 77, 1000] {
        let estimate = estimate_pi(samples, inside_unit_circle);
        assert_eq!(estimate.denominator, samples);
        assert!(estimate.numerator <= 4 * samples as u64);
        let all = estimate_pi(samples, |_x: u32, _y: u32| true);
        assert_eq!(all.numerator, 4 * samples as u64);
        assert_eq!(as_float(all), 4.0);
        let none = estimate_pi(samples, |_x: u32, _y: u32| false);
        assert_eq!(none.numerator, 0);
    }
}

#[test]
fn pi_estimate_draws_consecutive_generator_states() {
    let first_point = |x: u32, y: u32| x == 231_794_730 && y == 3_274_429_979;
    assert_eq!(estimate_pi(1, first_point).numerator, 4);
    assert_eq!(estimate_pi(50, first_point).numerator, 4);
    let follows = |x: u32, y: u32| y == lcg_step(x);
    assert_eq!(estimate_pi(50, follows).numerator, 200);
}

#[test]
fn from_counts_forms_the_fraction() {
    assert_eq!(PiEstimate::from_counts(0, 0), PiEstimate { numerator: 0, denominator: 1 });
    assert_eq!(PiEstimate::from_counts(3, 4), PiEstimate { numerator: 12, denominator: 4 });
    assert_eq!(
        PiEstimate::from_counts(u32::MAX, u32::MAX),
        PiEstimate { numerator: 17_179_869_180, denominator: u32::MAX }
    );
}

#[test]
fn draw_values_follow_the_generator() {
    assert_eq!(draw_values(0), Vec::<i32>::new());
    assert_eq!(
        draw_values(10),
        vec![9675, 5912, 401, 8454, 9383, 180, 9981, 4914, 9459, 4752]
    );
}

#[test]
fn sort_array_of_ten() {
    assert_eq!(
        sort_array(10),
        vec![180, 401, 4752, 4914, 5912, 8454, 9383, 9459, 9675, 9981]
    );
}

#[test]
fn sort_array_of_small_sizes() {
    assert_eq!(sort_array(0), Vec::<i32>::new());
    assert_eq!(sort_array(1), vec![9675]);
    assert_eq!(sort_array(2), vec![5912, 9675]);
}

#[test]
fn sort_array_is_an_ascending_permutation_of_the_drawn_values() {
    for size in [3u32, 100, 5000] {
        let sorted = sort_array(size);
        assert_eq!(sorted.len(), size as usize);
        assert!(sorted.windows(2).all(|pair| pair[0] <= pair[1]));
        assert!(sorted.iter().all(|v| 0 <= *v && *v < 10_000));
        let mut counts = vec![0i64; 10_000];
        for v in draw_values(size) {
            counts[v as usize] += 1;
        }
        for v in &sorted {
            counts[*v as usize] -= 1;
        }
        assert!(counts.iter().all(|c| *c == 0));
    }
}

#[test]
fn text_of_one_iteration_is_the_case_swapped_sentence() {
    assert_eq!(process_text(1), "tHE QUICK BROWN FOX JUMPS OVER THE LAZY DOG");
}

#[test]
fn text_of_no_iteration_is_empty() {
    assert_eq!(process_text(0), "");
}

#[test]
fn text_is_cut_after_a_hundred_characters() {
    let twice = process_text(2);
    assert_eq!(
        twice,
        "tHE QUICK BROWN FOX JUMPS OVER THE LAZY DOGtHE QUICK BROWN FOX JUMPS OVER THE LAZY DOG"
    );
    let expected = "tHE QUICK BROWN FOX JUMPS OVER THE LAZY DOGtHE QUICK BROWN FOX JUMPS OVER THE \
                    LAZY DOGtHE QUICK BROW";
    assert_eq!(expected.chars().count(), 100);
    assert_eq!(process_text(3), expected);
    assert_eq!(process_text(4), expected);
    assert_eq!(process_text(u32::MAX), expected);
}

#[test]
fn swap_case_inverts_letters_only() {
    assert_eq!(swap_case('a'), 'A');
    assert_eq!(swap_case('z'), 'Z');
    assert_eq!(swap_case('A'), 'a');
    assert_eq!(swap_case('Z'), 'z');
    assert_eq!(swap_case('m'), 'M');
    assert_eq!(swap_case(' '), ' ');
    assert_eq!(swap_case('0'), '0');
    assert_eq!(swap_case('@'), '@');
    assert_eq!(swap_case('['), '[');
    assert_eq!(swap_case('`'), '`');
    assert_eq!(swap_case('{'), '{');
    assert_eq!(swap_case('\u{e9}'), '\u{e9}');
}
