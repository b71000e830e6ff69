use booklid_rust::filter::SmoothingFilter;

fn variance(values: &[i64]) -> f64 {
    let n = values.len() as f64;
    let mean = values.iter().map(|v| *v as f64).sum::<f64>() / n;
    values.iter().map(|v| (*v as f64 - mean) * (*v as f64 - mean)).sum::<f64>() / n
}

/// A deterministic jittery input: a slow ramp with a sawtooth on it.
fn noisy(len: usize) -> Vec<i64> {
    let mut state: u64 = 12345;
    let mut out = Vec::new();
    for i in 0..len {
        state = state.wrapping_mul(6364136223846793005).wrapping_add(1442695040888963407);
        let jitter = ((state >> 33) % 10_000_000) as i64 - 5_000_000;
        out.push(90_000_000 + (i as i64) * 1_000 + jitter);
    }
    out
}

fn smooth(alpha: i64, input: &[i64]) -> Vec<i64> {
    let mut filter = SmoothingFilter::new(alpha);
    input.iter().map(|v| filter.update(*v)).collect()
}

#[test]
fn first_value_passes_unchanged() {
    let mut filter = SmoothingFilter::new(250_000);
    assert_eq!(filter.estimate(), None);
    assert_eq!(filter.update(-42_000_000), -42_000_000);
    assert_eq!(filter.estimate(), Some(-42_000_000));
}

#[test]
fn estimate_moves_by_the_factor_times_the_distance() {
    let mut filter = SmoothingFilter::new(250_000);
    filter.update(100_000_000);
    assert_eq!(filter.update(104_000_000), 101_000_000);
    assert_eq!(filter.update(101_000_000), 101_000_000);
    assert_eq!(filter.update(97_000_000), 100_000_000);
}

#[test]
fn the_step_is_rounded_toward_the_estimate() {
    let mut filter = SmoothingFilter::new(250_000);
    filter.update(100_000_000);
    assert_eq!(filter.update(96_000_003), 99_000_001);
    let mut filter = SmoothingFilter::new(250_000);
    filter.update(100_000_000);
    assert_eq!(filter.update(103_999_997), 100_999_999);
    let mut filter = SmoothingFilter::new(250_000);
    filter.update(0);
    assert_eq!(filter.update(3), 0);
    assert_eq!(filter.update(-3), 0);
    assert_eq!(filter.update(4), 1);
}

#[test]
fn factor_zero_freezes_the_estimate() {
    let mut filter = SmoothingFilter::new(0);
    assert_eq!(filter.update(7_000_000), 7_000_000);
    assert_eq!(filter.update(900_000_000), 7_000_000);
    assert_eq!(filter.update(-900_000_000), 7_000_000);
}

#[test]
fn factor_one_passes_raw_values_through() {
    let mut filter = SmoothingFilter::new(1_000_000);
    for raw in [5, -17_000_000, i64::MAX, i64::MIN, 0] {
        assert_eq!(filter.update(raw), raw);
    }
}

#[test]
fn factor_is_limited_to_the_unit_interval_when_applied() {
    let mut filter = SmoothingFilter::new(7_000_000);
    filter.update(10_000_000);
    assert_eq!(filter.update(20_000_000), 20_000_000);
    assert_eq!(filter.alpha(), 7_000_000);
    let mut filter = SmoothingFilter::new(-7_000_000);
    filter.update(10_000_000);
    assert_eq!(filter.update(20_000_000), 10_000_000);
}

#[test]
fn factor_can_change_at_any_time() {
    let mut filter = SmoothingFilter::new(1_000_000);
    filter.update(10_000_000);
    filter.set_alpha(500_000);
    assert_eq!(filter.alpha(), 500_000);
    assert_eq!(filter.estimate(), Some(10_000_000));
    assert_eq!(filter.update(20_000_000), 15_000_000);
}

#[test]
fn extreme_values_do_not_overflow() {
    let mut filter = SmoothingFilter::new(500_000);
    assert_eq!(filter.update(i64::MIN), i64::MIN);
    assert_eq!(filter.update(i64::MAX), -1);
    let mut filter = SmoothingFilter::new(500_000);
    assert_eq!(filter.update(i64::MAX), i64::MAX);
    assert_eq!(filter.update(i64::MIN), 0);
}

#[test]
fn outputs_stay_within_the_range_of_the_inputs() {
    let input = noisy(500);
    let lo = *input.iter().min().expect("not empty");
    let hi = *input.iter().max().expect("not empty");
    for alpha in [0, 1, 50_000, 250_000, 999_999, 1_000_000] {
        for out in smooth(alpha, &input) {
            assert!(lo <= out && out <= hi);
        }
    }
}

#[test]
fn smoothing_lowers_the_variance_of_a_noisy_input() {
    let input = noisy(2000);
    let raw = variance(&input);
    for alpha in [50_000, 250_000, 500_000, 900_000] {
        let smoothed = variance(&smooth(alpha, &input));
        assert!(smoothed < raw, "factor {alpha}: {smoothed} is not below {raw}");
    }
}

#[test]
fn a_smaller_factor_smooths_more() {
    let input = noisy(2000);
    let mut last = variance(&input);
    for alpha in [900_000, 700_000, 500_000, 300_000, 100_000] {
        let smoothed = variance(&smooth(alpha, &input));
        assert!(smoothed <= last, "factor {alpha}: {smoothed} is above {last}");
        last = smoothed;
    }
}

#[test]
fn fixed_point_follows_the_real_valued_average() {
    // estimate' = estimate + alpha * (raw - estimate), computed in floating point.
    let input = noisy(1000);
    for alpha in [50_000i64, 250_000, 800_000] {
        let a = alpha as f64 / 1_000_000.0;
        let mut reference = input[0] as f64;
        let mut filter = SmoothingFilter::new(alpha);
        for raw in &input {
            let out = filter.update(*raw);
            reference += a * (*raw as f64 - reference);
            // Each step rounds by less than one millionth; the error does not build up
            // beyond 1 / alpha millionths.
            assert!((out as f64 - reference).abs() <= 1.0 / a + 1.0);
        }
    }
}

fn alternating(a: i64, b: i64, len: usize) -> Vec<i64> {
    (0..len).map(|i| if i % 2 == 0 { a } else { b }).collect()
}

#[test]
fn smoothing_lowers_the_variance_of_an_alternating_input() {
    let raw = alternating(0, 10_000_000, 4);
    assert_eq!(smooth(500_000, &raw), vec![0, 5_000_000, 2_500_000, 6_250_000]);
    // In squared millionths: 25 for the input, 5.76171875 and 1.969909... for the outputs.
    assert_eq!(variance(&raw), 25.0e12);
    assert_eq!(variance(&smooth(500_000, &raw)), 5.76171875e12);
    assert!((variance(&smooth(250_000, &raw)) - 1.96990966796875e12).abs() < 1.0);
    assert_eq!(variance(&smooth(0, &raw)), 0.0);
    assert_eq!(smooth(1_000_000, &raw), raw);
}

#[test]
fn every_factor_below_one_lowers_the_variance_of_two_alternating_values() {
    let mut state: u64 = 4242;
    let mut next = |span: u64| {
        state = state.wrapping_mul(6364136223846793005).wrapping_add(1442695040888963407);
        ((state >> 16) % span) as i64
    };
    for _ in 0..2000 {
        let a = next(2_000_000_000) - 1_000_000_000;
        let b = next(2_000_000_000) - 1_000_000_000;
        if a == b {
            continue;
        }
        let raw = alternating(a, b, 2 * (1 + next(40) as usize));
        let alpha = next(1_000_000);
        let smoothed = smooth(alpha, &raw);
        assert!(variance(&smoothed) < variance(&raw));
    }
    // A step too small to show still lowers the variance: the outputs do not move at all.
    let raw = alternating(7, 9, 6);
    assert_eq!(smooth(499_999, &raw), vec![7, 7, 7, 7, 7, 7]);
    assert_eq!(smooth(500_000, &raw), vec![7, 8, 8, 8, 8, 8]);
}

#[test]
fn outputs_vary_no_more_than_a_quarter_of_the_squared_range() {
    let input = noisy(300);
    let lo = *input.iter().min().expect("not empty") as f64;
    let hi = *input.iter().max().expect("not empty") as f64;
    for alpha in [0, 1, 300_000, 999_999, 1_000_000, 5_000_000] {
        assert!(variance(&smooth(alpha, &input)) <= (hi - lo) * (hi - lo) / 4.0);
    }
}

#[test]
fn variance_need_not_fall_with_the_factor() {
    // With a small factor the outputs drift from the first value toward the middle for
    // the whole window; with a larger one they settle early and vary less.
    let raw = alternating(0, 10_000_000, 64);
    let slow = variance(&smooth(50_000, &raw));
    let quick = variance(&smooth(200_000, &raw));
    assert!(slow > quick);
    assert!(quick < variance(&raw) && slow < variance(&raw));
    // An input that jumps once: smoothing spreads the jump and raises the variance.
    let mut step = vec![0i64; 10];
    step[0] = 1_000_000;
    assert!(variance(&smooth(500_000, &step)) > variance(&step));
}
