use readsb::demod::noise_floor::{compute_histogram, estimate_noise_floor, histogram_percentile};

#[test]
fn test_histogram_exact_percentile() {
    let mag: Vec<u16> = vec![vec![0u16; 30], vec![1u16; 30], vec![2u16; 40]]
        .into_iter()
        .flatten()
        .collect();

    let (_, _) = compute_histogram(&mag);
    let floor = estimate_noise_floor(&mag);

    assert_eq!(floor.median, 1);
    assert_eq!(floor.p75, 2);
}

#[test]
fn test_estimate_noise_floor_empty() {
    let mag: Vec<u16> = vec![];
    let floor = estimate_noise_floor(&mag);
    assert_eq!(floor.floor, 20);
    assert_eq!(floor.median, 15);
}

#[test]
fn test_estimate_noise_floor_high_values() {
    let mut mag = vec![5u16; 100];
    mag.extend(vec![300u16; 50]);
    let floor = estimate_noise_floor(&mag);
    assert!(floor.p75 >= 100, "High signal values should not be silently skipped");
}

#[test]
fn histogram_caps_high_samples_in_top_bin() {
    let mag = vec![3u16, 3, 700, 255, 0];
    let (hist, max) = compute_histogram(&mag);
    assert_eq!(hist[3], 2);
    assert_eq!(hist[255], 2);
    assert_eq!(hist[0], 1);
    assert_eq!(max, 255);
}

#[test]
fn percentile_of_empty_histogram_is_zero() {
    let hist = [0u32; 256];
    assert_eq!(histogram_percentile(&hist, 50), 0);
}

#[test]
fn median_never_above_p75() {
    let mag: Vec<u16> = (0..500u16).map(|i| (i * 7) % 300).collect();
    let nf = estimate_noise_floor(&mag);
    assert!(nf.median <= nf.p75);
    assert_eq!(nf.floor, nf.p75);
}
