use apt_decoder::firfilter::FIRFilter;

/// One output of the filter: the weighted sum of its taps.
fn output(filter: &FIRFilter<f32>, coeffs: &[f32]) -> f32 {
    let mut result = 0.0;
    for i in 0..coeffs.len() {
        result += filter.tap(i).unwrap() * coeffs[i];
    }
    result
}

fn filtered(input: &[f32], coeffs: &[f32]) -> Vec<f32> {
    let mut filter = FIRFilter::from(coeffs.len(), 0.0f32);
    input
        .iter()
        .map(|&x| {
            filter.push(x);
            output(&filter, coeffs)
        })
        .collect()
}

#[test]
fn new_filter_holds_zeros() {
    let filter = FIRFilter::from(4, 0u32);
    assert_eq!(filter.len(), 4);
    for age in 0..4 {
        assert_eq!(filter.tap(age), Some(0));
    }
    assert_eq!(filter.tap(4), None);
}

#[test]
fn taps_are_ordered_by_age() {
    let mut filter = FIRFilter::from(3, 0u32);
    filter.push(1);
    assert_eq!([filter.tap(0), filter.tap(1), filter.tap(2)], [Some(1), Some(0), Some(0)]);
    filter.push(2);
    assert_eq!([filter.tap(0), filter.tap(1), filter.tap(2)], [Some(2), Some(1), Some(0)]);
    filter.push(3);
    assert_eq!([filter.tap(0), filter.tap(1), filter.tap(2)], [Some(3), Some(2), Some(1)]);
    filter.push(4);
    assert_eq!([filter.tap(0), filter.tap(1), filter.tap(2)], [Some(4), Some(3), Some(2)]);
    assert_eq!(filter.len(), 3);
}

#[test]
fn filter_holds_the_latest_samples_after_many_pushes() {
    let mut filter = FIRFilter::from(63, 0u32);
    for x in 1..=1000u32 {
        filter.push(x);
    }
    for age in 0..63usize {
        assert_eq!(filter.tap(age), Some(1000 - age as u32));
    }
}

#[test]
fn filter_without_taps_stays_empty() {
    let mut filter = FIRFilter::from(0, 0u32);
    filter.push(5);
    assert_eq!(filter.len(), 0);
    assert_eq!(filter.tap(0), None);
}

#[test]
fn single_tap_holds_the_newest_sample() {
    let mut filter = FIRFilter::from(1, 0u32);
    filter.push(5);
    filter.push(6);
    assert_eq!(filter.tap(0), Some(6));
    assert_eq!(filter.tap(1), None);
}

#[test]
fn impulse_response_is_the_coefficients() {
    let coeffs = [0.5f32, -0.25, 0.125];
    assert_eq!(
        filtered(&[1.0, 0.0, 0.0, 0.0], &coeffs),
        vec![0.5, -0.25, 0.125, 0.0]
    );
}

#[test]
fn convolution_of_a_short_signal() {
    let coeffs = [1.0f32, 2.0, 3.0];
    assert_eq!(
        filtered(&[1.0, 1.0, 1.0, 2.0], &coeffs),
        vec![1.0, 3.0, 6.0, 7.0]
    );
}

#[test]
fn filtering_is_linear() {
    let coeffs = [0.2f32, -0.1, 0.4, 0.3, -0.05];
    let a: Vec<f32> = (0..50).map(|i| ((i * 7 % 11) as f32) / 11.0 - 0.5).collect();
    let b: Vec<f32> = (0..50).map(|i| ((i * 5 % 13) as f32) / 13.0 - 0.5).collect();
    let k = 1.75f32;
    let mix: Vec<f32> = a.iter().zip(&b).map(|(x, y)| x + k * y).collect();
    let out_a = filtered(&a, &coeffs);
    let out_b = filtered(&b, &coeffs);
    let out_mix = filtered(&mix, &coeffs);
    for i in 0..50 {
        let expected = out_a[i] + k * out_b[i];
        assert!((out_mix[i] - expected).abs() < 1e-5, "output {}", i);
    }
}

#[test]
fn next_takes_the_sample_in_and_hands_out_the_taps() {
    let mut filter = FIRFilter::from(3, 0u32);
    assert_eq!(filter.next(1), vec![1, 0, 0]);
    assert_eq!(filter.next(2), vec![2, 1, 0]);
    assert_eq!(filter.next(3), vec![3, 2, 1]);
    assert_eq!(filter.next(4), vec![4, 3, 2]);
    assert_eq!(filter.tap(0), Some(4));
    assert_eq!(filter.tap(2), Some(2));
    let mut none = FIRFilter::from(0, 0u32);
    assert!(none.next(9).is_empty());
}

#[test]
fn taps_of_a_mixed_input_are_the_mixed_taps() {
    let a = [3u32, 1, 4, 1, 5, 9, 2, 6];
    let b = [2u32, 7, 1, 8, 2, 8, 1, 8];
    let mix = |x: u32, y: u32| x + 10 * y;
    let mut filter_a = FIRFilter::from(5, 0u32);
    let mut filter_b = FIRFilter::from(5, 0u32);
    let mut filter_c = FIRFilter::from(5, 0u32);
    for j in 0..a.len() {
        let taps_a = filter_a.next(a[j]);
        let taps_b = filter_b.next(b[j]);
        let taps_c = filter_c.next(mix(a[j], b[j]));
        for age in 0..5 {
            assert_eq!(taps_c[age], mix(taps_a[age], taps_b[age]));
        }
    }
}

#[test]
fn outputs_formed_from_next_are_linear() {
    let coeffs = [0.5f32, 0.25, -0.125, 0.0625];
    let a: Vec<f32> = (0..40).map(|i| ((i * 3 % 8) as f32) / 8.0).collect();
    let b: Vec<f32> = (0..40).map(|i| ((i * 5 % 16) as f32) / 16.0).collect();
    let k = -2.0f32;
    let run = |input: Vec<f32>| -> Vec<f32> {
        let mut filter = FIRFilter::from(coeffs.len(), 0.0f32);
        input
            .into_iter()
            .map(|x| filter.next(x).iter().zip(&coeffs).map(|(s, c)| s * c).sum())
            .collect()
    };
    let mixed: Vec<f32> = a.iter().zip(&b).map(|(x, y)| x + k * y).collect();
    let out_a = run(a);
    let out_b = run(b);
    let out_c = run(mixed);
    for j in 0..40 {
        assert!((out_c[j] - (out_a[j] + k * out_b[j])).abs() < 1e-5, "output {}", j);
    }
}
