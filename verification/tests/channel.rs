use svd_lib::reconstruct_channel;
use svd_lib::sample::ZERO;

fn times(a: u32, b: u32) -> u32 {
    (f32::from_bits(a) * f32::from_bits(b)).to_bits()
}

fn plus(a: u32, b: u32) -> u32 {
    (f32::from_bits(a) + f32::from_bits(b)).to_bits()
}

fn words(samples: &[f32]) -> Vec<u32> {
    samples.iter().map(|x| x.to_bits()).collect()
}

fn samples(words: &[u32]) -> Vec<f32> {
    words.iter().map(|w| f32::from_bits(*w)).collect()
}

fn rebuild(u: &[f32], s: &[f32], vt: &[f32], width: u32, height: u32, rank: u32) -> Vec<f32> {
    samples(&reconstruct_channel(&words(u), &words(s), &words(vt), width, height, rank, times, plus))
}

fn max_abs_error(a: &[f32], b: &[f32]) -> f32 {
    assert_eq!(a.len(), b.len());
    let mut worst = 0.0f32;
    for k in 0..a.len() {
        let e = (a[k] - b[k]).abs();
        if e > worst {
            worst = e;
        }
    }
    worst
}

// Operations on plain integers that neither commute nor associate, so that
// any other order of evaluation gives another word.
fn int_times(a: u32, b: u32) -> u32 {
    a.wrapping_mul(31).wrapping_add(b)
}

fn int_plus(a: u32, b: u32) -> u32 {
    a.wrapping_mul(7).wrapping_add(b)
}

#[test]
fn one_row_rank_one_plane() {
    let plane = rebuild(&[1.0, 1.0], &[2.0], &[3.0, 4.0], 2, 1, 1);
    assert_eq!(plane, vec![6.0, 8.0]);
}

#[test]
fn zero_rank_gives_zero_plane() {
    let u = words(&[0.5, -1.5, 2.0, 7.0, 1.0, 3.0]);
    let s = words(&[9.0, 4.0]);
    let vt = words(&[1.0, 2.0, 3.0, 4.0]);
    let plane = reconstruct_channel(&u, &s, &vt, 2, 3, 0, times, plus);
    assert_eq!(plane, vec![ZERO; 6]);
    assert_eq!(samples(&plane), vec![0.0f32; 6]);
    assert!(samples(&plane).iter().all(|x| x.is_sign_positive()));
}

#[test]
fn zero_rank_reads_no_factor() {
    let none: Vec<u32> = Vec::new();
    let plane = reconstruct_channel(&none, &none, &none, 0, 5, 0, times, plus);
    assert!(plane.is_empty());
    let u = words(&[1.0, 2.0, 3.0, 4.0]);
    let plane = reconstruct_channel(&u, &none, &none, 3, 2, 0, times, plus);
    assert_eq!(plane, vec![0u32; 6]);
}

#[test]
fn plane_length_is_width_times_height() {
    for (width, height) in [(1u32, 1u32), (1, 4), (4, 1), (3, 2), (2, 3), (5, 5)] {
        let full = width.min(height) as usize;
        let u = vec![1.0f32; height as usize * full];
        let s = vec![1.0f32; full];
        let vt = vec![1.0f32; full * width as usize];
        for rank in 0..=full as u32 {
            let plane = rebuild(&u, &s, &vt, width, height, rank);
            assert_eq!(plane.len(), (width * height) as usize);
            assert!(plane.iter().all(|x| *x == rank as f32));
        }
    }
}

#[test]
fn empty_image_gives_empty_plane() {
    let none: Vec<u32> = Vec::new();
    assert!(reconstruct_channel(&none, &none, &none, 0, 0, 0, times, plus).is_empty());
    assert!(reconstruct_channel(&none, &none, &none, 7, 0, 0, times, plus).is_empty());
}

#[test]
fn full_rank_reproduces_square_channel() {
    // A = U * diag(5, 1) * Vt with two plane rotations.
    let (su, cu) = (0.6f32, 0.8f32);
    let (sv, cv) = (0.28f32, 0.96f32);
    let u = [cu, -su, su, cu];
    let s = [5.0f32, 1.0];
    let vt = [cv, sv, -sv, cv];
    let original = [
        cu * 5.0 * cv + su * sv,
        cu * 5.0 * sv - su * cv,
        su * 5.0 * cv - cu * sv,
        su * 5.0 * sv + cu * cv,
    ];
    let plane = rebuild(&u, &s, &vt, 2, 2, 2);
    assert!(max_abs_error(&plane, &original) < 1e-3);
}

#[test]
fn full_rank_reproduces_tall_channel() {
    // width 2, height 3: U is 3 by 2, Vt is 2 by 2.
    let u = [1.0f32, 0.0, 0.0, 1.0, 0.0, 0.0];
    let s = [4.0f32, 3.0];
    let vt = [0.6f32, 0.8, -0.8, 0.6];
    let original = [2.4f32, 3.2, -2.4, 1.8, 0.0, 0.0];
    let plane = rebuild(&u, &s, &vt, 2, 3, 2);
    assert_eq!(plane.len(), 6);
    assert!(max_abs_error(&plane, &original) < 1e-3);
}

#[test]
fn full_rank_reproduces_wide_channel() {
    // width 3, height 2: U is 2 by 2, Vt is 2 by 3.
    let u = [0.0f32, 1.0, 1.0, 0.0];
    let s = [10.0f32, 2.0];
    let vt = [1.0f32, 0.0, 0.0, 0.0, 0.6, 0.8];
    let original = [0.0f32, 1.2, 1.6, 10.0, 0.0, 0.0];
    let plane = rebuild(&u, &s, &vt, 3, 2, 2);
    assert!(max_abs_error(&plane, &original) < 1e-3);
}

#[test]
fn lower_rank_keeps_leading_terms_only() {
    let u = [0.0f32, 1.0, 1.0, 0.0];
    let s = [10.0f32, 2.0];
    let vt = [1.0f32, 0.0, 0.0, 0.0, 0.6, 0.8];
    let plane = rebuild(&u, &s, &vt, 3, 2, 1);
    assert_eq!(plane, vec![0.0, 0.0, 0.0, 10.0, 0.0, 0.0]);
}

#[test]
fn rows_of_u_are_full_rank_apart() {
    // Rank 1 of a 2 by 2 channel: the second column of U is skipped, not
    // read as the next row.
    let u = [2.0f32, 100.0, 3.0, 100.0];
    let s = [1.0f32, 100.0];
    let vt = [5.0f32, 7.0, 100.0, 100.0];
    let plane = rebuild(&u, &s, &vt, 2, 2, 1);
    assert_eq!(plane, vec![10.0, 14.0, 15.0, 21.0]);
}

#[test]
fn rows_of_vt_are_width_apart() {
    // width 3, height 1: one term, three columns.
    let plane = rebuild(&[2.0], &[0.5], &[4.0, 6.0, 8.0], 3, 1, 1);
    assert_eq!(plane, vec![4.0, 6.0, 8.0]);
    // width 1, height 3: one term, three rows.
    let plane = rebuild(&[4.0, 6.0, 8.0], &[0.5], &[2.0], 1, 3, 1);
    assert_eq!(plane, vec![4.0, 6.0, 8.0]);
}

#[test]
fn samples_past_the_factors_are_ignored() {
    let u = [1.0f32, 1.0, 50.0, 60.0];
    let s = [2.0f32, 70.0];
    let vt = [3.0f32, 4.0, 80.0];
    let plane = rebuild(&u, &s, &vt, 2, 1, 1);
    assert_eq!(plane, vec![6.0, 8.0]);
}

#[test]
fn scaling_singular_values_scales_plane() {
    let u = [0.8f32, -0.6, 0.6, 0.8, 0.25, 0.5];
    let s = [5.0f32, 1.5];
    let vt = [0.96f32, 0.28, -0.28, 0.96];
    let plane = rebuild(&u, &s, &vt, 2, 3, 2);
    // A power of two scales without rounding.
    let doubled = rebuild(&u, &[10.0, 3.0], &vt, 2, 3, 2);
    let expected: Vec<f32> = plane.iter().map(|x| 2.0 * x).collect();
    assert_eq!(doubled, expected);
    // Any other constant scales up to rounding.
    let tripled = rebuild(&u, &[15.0, 4.5], &vt, 2, 3, 2);
    let expected: Vec<f32> = plane.iter().map(|x| 3.0 * x).collect();
    assert!(max_abs_error(&tripled, &expected) < 1e-3);
}

#[test]
fn terms_multiply_left_to_right_and_sum_in_order() {
    // width 2, height 2, rank 2 with integer operations.
    let u = [2u32, 3, 5, 7];
    let s = [11u32, 13];
    let vt = [17u32, 19, 23, 29];
    let plane = reconstruct_channel(&u, &s, &vt, 2, 2, 2, int_times, int_plus);
    let term = |a: u32, b: u32, c: u32| int_times(int_times(a, b), c);
    let entry = |i: usize, j: usize| {
        let first = int_plus(0, term(u[i * 2], s[0], vt[j]));
        int_plus(first, term(u[i * 2 + 1], s[1], vt[2 + j]))
    };
    assert_eq!(plane, vec![entry(0, 0), entry(0, 1), entry(1, 0), entry(1, 1)]);
    // (2*31 + 11)*31 + 17 = 2280; (3*31 + 13)*31 + 23 = 3309;
    // (0*7 + 2280)*7 + 3309 = 19269.
    assert_eq!(plane[0], 19269);
}

#[test]
fn sum_starts_from_zero() {
    let first_operand = |a: u32, _b: u32| a;
    let plane = reconstruct_channel(&[9], &[9], &[9], 1, 1, 1, int_times, first_operand);
    assert_eq!(plane, vec![ZERO]);
}

#[test]
fn not_a_number_stays_in_its_row() {
    let u = [f32::NAN, 0.0, 1.0, 0.0];
    let s = [1.0f32, 1.0];
    let vt = [1.0f32, 2.0, 0.0, 0.0];
    let plane = rebuild(&u, &s, &vt, 2, 2, 1);
    assert!(plane[0].is_nan());
    assert!(plane[1].is_nan());
    assert_eq!(plane[2], 1.0);
    assert_eq!(plane[3], 2.0);
}

#[test]
fn scaling_is_exact_in_modular_arithmetic() {
    // Arithmetic modulo 2^32 is a ring: scaling passes through it exactly.
    let times = |a: u32, b: u32| a.wrapping_mul(b);
    let plus = |a: u32, b: u32| a.wrapping_add(b);
    let u = [2u32, 3, 5, 7, 4_000_000_000, 13];
    let s = [17u32, 4_100_000_000];
    let vt = [23u32, 29, 31, 3_999_999_999];
    let c = 3_000_000_001u32;
    let scaled = [times(c, s[0]), times(c, s[1])];
    let plane = reconstruct_channel(&u, &s, &vt, 2, 3, 2, times, plus);
    let scaled_plane = reconstruct_channel(&u, &scaled, &vt, 2, 3, 2, times, plus);
    assert_eq!(scaled_plane.len(), plane.len());
    for k in 0..plane.len() {
        assert_eq!(scaled_plane[k], times(c, plane[k]));
    }
    // 2*17*23 + 3*4_100_000_000*31 modulo 2^32.
    assert_eq!(plane[0], 3_342_878_734);
}

#[test]
fn same_factors_give_same_plane() {
    let u = words(&[0.8, -0.6, 0.6, 0.8]);
    let s = words(&[5.0, 1.5]);
    let vt = words(&[0.96, 0.28, -0.28, 0.96]);
    let first = reconstruct_channel(&u, &s, &vt, 2, 2, 2, times, plus);
    let second = reconstruct_channel(&u, &s, &vt, 2, 2, 2, times, plus);
    assert_eq!(first, second);
    assert_eq!(u, words(&[0.8, -0.6, 0.6, 0.8]));
    assert_eq!(s, words(&[5.0, 1.5]));
    assert_eq!(vt, words(&[0.96, 0.28, -0.28, 0.96]));
}
