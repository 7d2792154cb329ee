use tracker::normalized_vo::motion::{
    check_correspondences, check_inlier_count, first_max, random_sample_8, SimpleRng,
};
use tracker::normalized_vo::types::VoError;

#[test]
fn generator_steps_by_the_lcg() {
    let mut rng = SimpleRng::new(7);
    assert_eq!(rng.next_u64(), 9098160460397411210);
    assert_eq!(rng.next_u64(), 17628806926561717905);
    let mut zero = SimpleRng::new(0);
    assert_eq!(zero.next_u64(), 1442695040888963407);
}

#[test]
fn draw_below_zero_does_not_advance() {
    let mut rng = SimpleRng::new(7);
    assert_eq!(rng.next_usize(0), 0);
    assert_eq!(rng.next_u64(), 9098160460397411210);
}

#[test]
fn draw_is_state_modulo_max() {
    let mut rng = SimpleRng::new(7);
    assert_eq!(rng.next_usize(1000), (9098160460397411210u64 % 1000) as usize);
    for max in 1..50usize {
        assert!(rng.next_usize(max) < max);
    }
}

#[test]
fn sample_matches_known_draws() {
    assert_eq!(random_sample_8(10, 0), vec![2, 5, 6, 1, 9, 3, 8, 7]);
    assert_eq!(random_sample_8(8, 5), vec![5, 3, 1, 4, 7, 0, 6, 2]);
    assert_eq!(random_sample_8(100, 42), vec![98, 27, 0, 77, 50, 99, 36, 2]);
}

#[test]
fn sample_is_eight_distinct_indices_in_range() {
    for n in 8..40usize {
        for seed in 0..30u64 {
            let s = random_sample_8(n, seed);
            assert_eq!(s.len(), 8);
            for (a, &x) in s.iter().enumerate() {
                assert!(x < n);
                for &y in &s[a + 1..] {
                    assert_ne!(x, y);
                }
            }
        }
    }
    // wrapping seed
    let s = random_sample_8(8, u64::MAX);
    let mut sorted = s.clone();
    sorted.sort();
    assert_eq!(sorted, (0..8).collect::<Vec<_>>());
}

fn too_few(r: Result<(), VoError<f64>>) -> Option<usize> {
    match r {
        Ok(()) => None,
        Err(VoError::InsufficientMatches(n)) => Some(n),
        Err(e) => panic!("unexpected error {:?}", e),
    }
}

#[test]
fn correspondences_need_eight_equal_lists() {
    assert_eq!(too_few(check_correspondences(8, 8)), None);
    assert_eq!(too_few(check_correspondences(120, 120)), None);
    assert_eq!(too_few(check_correspondences(7, 20)), Some(7));
    assert_eq!(too_few(check_correspondences(20, 5)), Some(5));
    assert_eq!(too_few(check_correspondences(12, 10)), Some(10));
    assert_eq!(too_few(check_correspondences(0, 0)), Some(0));
}

#[test]
fn consensus_needs_eight_inliers() {
    assert_eq!(too_few(check_inlier_count(7)), Some(7));
    assert_eq!(too_few(check_inlier_count(0)), Some(0));
    assert_eq!(too_few(check_inlier_count(8)), None);
}

#[test]
fn first_largest_count_wins() {
    assert_eq!(first_max(&[3, 9, 9, 2]), Some(1));
    assert_eq!(first_max(&[0, 0, 5, 4]), Some(2));
    assert_eq!(first_max(&[1, 0, 0, 0]), Some(0));
    assert_eq!(first_max(&[0, 0, 0, 0]), None);
    assert_eq!(first_max(&[]), None);
}
