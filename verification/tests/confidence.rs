use booklid_rust::confidence::ConfidenceEstimator;

#[test]
fn reports_the_initial_score_until_the_first_value() {
    let estimator = ConfidenceEstimator::new(50_000, 200_000);
    assert_eq!(estimator.confidence(), 200_000);
}

#[test]
fn a_single_value_has_no_variance() {
    let mut estimator = ConfidenceEstimator::new(20_000_000, 200_000);
    assert_eq!(estimator.observe(123_456_789), 1_000_000);
    assert_eq!(estimator.confidence(), 1_000_000);
}

#[test]
fn score_is_one_over_one_plus_k_times_variance() {
    // Values 0 and 2: variance 1. With k = 1 the score is 1/2.
    let mut estimator = ConfidenceEstimator::new(1_000_000, 0);
    estimator.observe(0);
    assert_eq!(estimator.observe(2_000_000), 500_000);
    // Values 0 and 1: variance 1/4. With k = 20 the score is 1/6, rounded down.
    let mut estimator = ConfidenceEstimator::new(20_000_000, 0);
    estimator.observe(0);
    assert_eq!(estimator.observe(1_000_000), 166_666);
    // Values 0 and 1000: variance 250000. With k = 0.000001 the score is 0.8.
    let mut estimator = ConfidenceEstimator::new(1, 0);
    estimator.observe(0);
    assert_eq!(estimator.observe(1_000_000_000), 800_000);
    // Values 1, 2, 3: variance 2/3. With k = 3 the score is 1/3, rounded down.
    let mut estimator = ConfidenceEstimator::new(3_000_000, 0);
    estimator.observe(1_000_000);
    estimator.observe(2_000_000);
    assert_eq!(estimator.observe(3_000_000), 333_333);
}

#[test]
fn variance_does_not_depend_on_where_the_values_lie() {
    for base in [0, 90_000_000, -5_000_000_000_000, i64::MAX - 2_000_000, i64::MIN] {
        let mut estimator = ConfidenceEstimator::new(1_000_000, 0);
        estimator.observe(base);
        assert_eq!(estimator.observe(base + 2_000_000), 500_000);
    }
}

#[test]
fn constant_input_scores_one_for_low_and_high_k() {
    for k in [20_000, 50_000, 20_000_000] {
        let mut estimator = ConfidenceEstimator::new(k, 200_000);
        for _ in 0..64 {
            assert_eq!(estimator.observe(95_000_000), 1_000_000);
        }
        for _ in 0..200 {
            assert_eq!(estimator.observe(95_000_000), 1_000_000);
        }
    }
}

#[test]
fn sixty_four_equal_values_push_everything_older_out() {
    let mut estimator = ConfidenceEstimator::new(20_000_000, 200_000);
    for i in 0..100 {
        estimator.observe(i * 7_000_000);
    }
    let mut score = 0;
    for _ in 0..63 {
        score = estimator.observe(500_000);
    }
    assert!(score < 1_000_000);
    assert_eq!(estimator.observe(500_000), 1_000_000);
}

#[test]
fn alternating_degrees_score_near_zero_with_low_k() {
    // 0 and 180 degrees in turn: variance 8100.
    let mut estimator = ConfidenceEstimator::new(50_000, 200_000);
    let mut score = 0;
    for i in 0..128 {
        score = estimator.observe(if i % 2 == 0 { 0 } else { 180_000_000 });
    }
    assert_eq!(score, 2_463);
    let mut estimator = ConfidenceEstimator::new(20_000, 200_000);
    for i in 0..128 {
        score = estimator.observe(if i % 2 == 0 { 0 } else { 180_000_000 });
    }
    assert_eq!(score, 6_134);
}

#[test]
fn alternating_normalized_values_score_low_with_high_k() {
    // 0 and 1 in turn: variance 1/4, the most that values in the unit interval reach.
    let mut estimator = ConfidenceEstimator::new(20_000_000, 200_000);
    let mut score = 0;
    for i in 0..128 {
        score = estimator.observe(if i % 2 == 0 { 0 } else { 1_000_000 });
    }
    assert_eq!(score, 166_666);
}

#[test]
fn tiny_noise_lowers_the_score_only_with_high_k() {
    let feed = |k: u64| {
        let mut estimator = ConfidenceEstimator::new(k, 0);
        let mut score = 0;
        for i in 0..64 {
            score = estimator.observe(if i % 2 == 0 { 450_000 } else { 550_000 });
        }
        score
    };
    // Variance 0.0025: 1 / 1.05 with k = 20, 1 / 1.000125 with k = 0.05.
    assert_eq!(feed(20_000_000), 952_380);
    assert_eq!(feed(50_000), 999_875);
}

#[test]
fn early_scores_rest_on_fewer_values() {
    let mut estimator = ConfidenceEstimator::new(1_000_000, 0);
    assert_eq!(estimator.observe(0), 1_000_000);
    assert_eq!(estimator.observe(3_000_000), 307_692);
    assert_eq!(estimator.observe(0), 333_333);
}

#[test]
fn k_zero_always_scores_one() {
    let mut estimator = ConfidenceEstimator::new(0, 1_000_000);
    assert_eq!(estimator.observe(i64::MIN), 1_000_000);
    assert_eq!(estimator.observe(i64::MAX), 1_000_000);
    assert_eq!(estimator.observe(0), 1_000_000);
}

#[test]
fn values_far_apart_score_zero_without_overflow() {
    let mut estimator = ConfidenceEstimator::new(1, 0);
    estimator.observe(i64::MIN);
    assert_eq!(estimator.observe(i64::MAX), 0);
    let mut estimator = ConfidenceEstimator::new(u64::MAX, 0);
    estimator.observe(0);
    assert_eq!(estimator.observe(1 << 46), 0);
    let mut estimator = ConfidenceEstimator::new(1, 0);
    estimator.observe(0);
    assert_eq!(estimator.observe((1 << 46) - 1), 0);
}

#[test]
fn the_largest_k_is_computed_exactly() {
    // Values 5 and 6 millionths: variance 1/4 in units of millionths squared.
    // 4 * 10^24 / (4 * 10^18 + (2^64 - 1)) rounds down to 178199.
    let mut estimator = ConfidenceEstimator::new(u64::MAX, 0);
    estimator.observe(5);
    assert_eq!(estimator.observe(6), 178_199);
}

#[test]
fn score_stays_in_the_unit_interval() {
    let mut state: u64 = 99;
    for k in [1, 20_000, 20_000_000, u64::MAX] {
        let mut estimator = ConfidenceEstimator::new(k, 0);
        for _ in 0..300 {
            state = state.wrapping_mul(6364136223846793005).wrapping_add(1442695040888963407);
            let score = estimator.observe((state >> 20) as i64 - (1 << 42));
            assert!((0..=1_000_000).contains(&score));
        }
    }
}

#[test]
fn fixed_point_follows_the_real_valued_score() {
    // mean and population variance over the window, then 1 / (1 + k * variance).
    let mut state: u64 = 7;
    for (k, scale) in [(50_000u64, 180_000_000u64), (20_000, 90_000_000), (20_000_000, 1_000_000)] {
        let mut estimator = ConfidenceEstimator::new(k, 0);
        let mut window: Vec<f64> = Vec::new();
        for _ in 0..200 {
            state = state.wrapping_mul(6364136223846793005).wrapping_add(1442695040888963407);
            let value = ((state >> 24) % scale) as i64;
            let score = estimator.observe(value);
            if window.len() == 64 {
                window.remove(0);
            }
            window.push(value as f64 / 1_000_000.0);
            let n = window.len() as f64;
            let mean = window.iter().sum::<f64>() / n;
            let variance = window.iter().map(|v| (v - mean) * (v - mean)).sum::<f64>() / n;
            let reference = 1.0 / (1.0 + (k as f64 / 1_000_000.0) * variance);
            assert!((score as f64 / 1_000_000.0 - reference).abs() < 0.000_002);
        }
    }
}
