use apt_decoder::aptsyncer::{
    is_marker, APTSyncer, Marker, SyncedSample, MATCH_THRESHOLD, PATTERN_A, PATTERN_B,
    SYNC_LENGTH,
};
use apt_decoder::errors::DecoderError;

/// The adaptive level after the priming samples: an exponential moving
/// average seeded at mid scale.
fn primed_level(samples: &[f32]) -> f32 {
    let mut level = 0.5;
    for x in samples {
        level = 0.25 * x + level * 0.75;
    }
    level
}

/// The window as bits: a sample is high when it lies above the level.
fn threshold(window: &[f32], level: f32) -> [bool; 40] {
    let mut bits = [false; 40];
    for i in 0..40 {
        bits[i] = window[i] / (level * 2.0) > 0.5;
    }
    bits
}

fn levels(pattern: &[bool; 40]) -> Vec<f32> {
    pattern.iter().map(|&high| if high { 1.0 } else { 0.0 }).collect()
}

fn flipped(pattern: &[bool; 40], positions: &[usize]) -> [bool; 40] {
    let mut bits = *pattern;
    for &p in positions {
        bits[p] = !bits[p];
    }
    bits
}

fn first_marker(samples: Vec<f32>) -> Marker {
    let level = primed_level(&samples);
    let mut syncer = APTSyncer::from(samples).unwrap();
    let bits = threshold(&syncer.window(), level);
    syncer.next(&bits, Some(0.0)).unwrap().marker()
}

#[test]
fn constants_have_the_protocol_values() {
    assert_eq!(SYNC_LENGTH, 40);
    assert_eq!(MATCH_THRESHOLD, 35);
    assert_eq!(PATTERN_A.iter().filter(|&&b| b).count(), 14);
    assert_eq!(PATTERN_B.iter().filter(|&&b| b).count(), 21);
    assert_eq!(PATTERN_A.iter().zip(PATTERN_B.iter()).filter(|(a, b)| a != b).count(), 17);
}

#[test]
fn pattern_a_has_seven_pulses_of_two() {
    for i in 0..40 {
        let expected = i >= 4 && i < 32 && (i - 4) % 4 < 2;
        assert_eq!(PATTERN_A[i], expected, "position {}", i);
    }
}

#[test]
fn pattern_b_has_seven_pulses_of_three() {
    for i in 0..40 {
        let expected = i >= 4 && i < 39 && (i - 4) % 5 < 3;
        assert_eq!(PATTERN_B[i], expected, "position {}", i);
    }
}

#[test]
fn is_marker_accepts_each_pattern_for_itself_only() {
    assert_eq!(is_marker(&PATTERN_A), (true, false));
    assert_eq!(is_marker(&PATTERN_B), (false, true));
    assert_eq!(is_marker(&[false; 40]), (false, false));
    assert_eq!(is_marker(&[true; 40]), (false, false));
}

#[test]
fn is_marker_tolerates_four_flipped_bits() {
    let bits = flipped(&PATTERN_A, &[0, 5, 17, 39]);
    assert_eq!(is_marker(&bits), (true, false));
    let bits = flipped(&PATTERN_B, &[1, 4, 20, 38]);
    assert_eq!(is_marker(&bits), (false, true));
}

#[test]
fn is_marker_rejects_five_flipped_bits() {
    let bits = flipped(&PATTERN_A, &[0, 5, 17, 30, 39]);
    assert_eq!(is_marker(&bits), (false, false));
    let bits = flipped(&PATTERN_B, &[1, 4, 20, 21, 38]);
    assert_eq!(is_marker(&bits), (false, false));
}

#[test]
fn is_marker_rejects_six_flipped_bits() {
    let bits = flipped(&PATTERN_A, &[0, 5, 6, 17, 30, 39]);
    assert_eq!(is_marker(&bits), (false, false));
}

#[test]
fn exact_pattern_a_is_detected_on_the_first_sample() {
    assert_eq!(first_marker(levels(&PATTERN_A)), Marker::SyncA);
}

#[test]
fn exact_pattern_b_is_detected_on_the_first_sample() {
    assert_eq!(first_marker(levels(&PATTERN_B)), Marker::SyncB);
}

#[test]
fn four_corrupted_samples_still_match() {
    let samples = levels(&flipped(&PATTERN_A, &[2, 9, 21, 33]));
    assert_eq!(first_marker(samples), Marker::SyncA);
}

#[test]
fn six_corrupted_samples_do_not_match() {
    let samples = levels(&flipped(&PATTERN_A, &[2, 9, 10, 21, 33, 36]));
    assert_eq!(first_marker(samples), Marker::Data);
}

#[test]
fn flat_signal_is_data() {
    assert_eq!(first_marker(vec![0.3; 40]), Marker::Data);
}

#[test]
fn priming_needs_forty_samples() {
    for n in [0usize, 1, 39] {
        let res = APTSyncer::from(vec![0.5f32; n]);
        assert!(matches!(res, Err(DecoderError::InsufficientPrimingData)), "{} samples", n);
    }
    assert!(APTSyncer::from(vec![0.5f32; 40]).is_ok());
}

#[test]
fn priming_takes_the_first_forty_samples() {
    let samples: Vec<u32> = (0..50).collect();
    let syncer = APTSyncer::from(samples).unwrap();
    assert_eq!(syncer.window(), (0..40).collect::<Vec<u32>>());
    assert!(!syncer.ended());
}

#[test]
fn drains_exactly_forty_samples_without_further_input() {
    let samples: Vec<u32> = (100..140).collect();
    let mut syncer = APTSyncer::from(samples.clone()).unwrap();
    let mut emitted = Vec::new();
    while let Some(out) = syncer.next(&[false; 40], None) {
        emitted.push(out.value());
        assert!(emitted.len() <= 40);
    }
    assert_eq!(emitted, samples);
    assert!(syncer.ended());
    assert!(syncer.next(&[false; 40], None).is_none());
    assert!(syncer.next(&PATTERN_A, Some(7)).is_none());
    assert!(syncer.ended());
}

#[test]
fn every_sample_comes_out_once_and_in_order() {
    let primer: Vec<u32> = (0..40).collect();
    let mut syncer = APTSyncer::from(primer).unwrap();
    let mut emitted = Vec::new();
    for x in 40..1000u32 {
        emitted.push(syncer.next(&[false; 40], Some(x)).unwrap().value());
    }
    assert_eq!(syncer.window(), (960..1000).collect::<Vec<u32>>());
    while let Some(out) = syncer.next(&[false; 40], None) {
        emitted.push(out.value());
    }
    assert_eq!(emitted, (0..1000).collect::<Vec<u32>>());
}

#[test]
fn window_slides_by_one_sample_per_step() {
    let mut syncer = APTSyncer::from((0..40).collect::<Vec<u32>>()).unwrap();
    syncer.next(&[false; 40], Some(40));
    syncer.next(&[false; 40], Some(41));
    assert_eq!(syncer.window(), (2..42).collect::<Vec<u32>>());
}

#[test]
fn missing_read_keeps_the_old_sample_in_its_slot() {
    let mut syncer = APTSyncer::from((0..40).collect::<Vec<u32>>()).unwrap();
    syncer.next(&[false; 40], None);
    let mut expected: Vec<u32> = (1..40).collect();
    expected.push(0);
    assert_eq!(syncer.window(), expected);
}

#[test]
fn a_sample_after_missing_reads_restarts_the_count() {
    let mut syncer = APTSyncer::from((0..40).collect::<Vec<u32>>()).unwrap();
    for _ in 0..39 {
        assert!(syncer.next(&[false; 40], None).is_some());
    }
    assert!(syncer.next(&[false; 40], Some(99)).is_some());
    for _ in 0..40 {
        assert!(!syncer.ended());
        assert!(syncer.next(&[false; 40], None).is_some());
    }
    assert!(syncer.ended());
    assert!(syncer.next(&[false; 40], None).is_none());
}

#[test]
fn classification_follows_the_bits_and_tags_the_oldest_sample() {
    let mut syncer = APTSyncer::from((0..40).collect::<Vec<u32>>()).unwrap();
    let a = syncer.next(&PATTERN_A, Some(40)).unwrap();
    assert!(matches!(a, SyncedSample::SyncA(0)));
    let b = syncer.next(&PATTERN_B, Some(41)).unwrap();
    assert!(matches!(b, SyncedSample::SyncB(1)));
    let d = syncer.next(&[true; 40], Some(42)).unwrap();
    assert!(matches!(d, SyncedSample::Sample(2)));
    assert_eq!(a.marker(), Marker::SyncA);
    assert_eq!(b.marker(), Marker::SyncB);
    assert_eq!(d.marker(), Marker::Data);
    assert_eq!(d.value(), 2);
}

#[test]
fn sync_is_found_inside_a_stream() {
    // Twenty samples of noise floor, then the pattern: the marker is reported
    // for the sample at which the pattern starts. Between silence the pulse
    // train also fits one pulse early and one pulse late, with four bits off
    // each time, so those two samples are reported as well.
    let mut signal = vec![0.0f32; 20];
    signal.extend(levels(&PATTERN_A));
    signal.extend(vec![0.0f32; 40]);
    let primer: Vec<f32> = signal[..40].to_vec();
    let mut level = primed_level(&primer);
    let mut syncer = APTSyncer::from(primer).unwrap();
    let mut markers = Vec::new();
    let mut rest = signal[40..].iter().copied();
    loop {
        let bits = threshold(&syncer.window(), level);
        let incoming = rest.next();
        match syncer.next(&bits, incoming) {
            Some(out) => markers.push(out.marker()),
            None => break,
        }
        if let Some(x) = incoming {
            level = 0.25 * x + level * 0.75;
        }
    }
    assert_eq!(markers.len(), signal.len());
    assert_eq!(markers[20], Marker::SyncA);
    let found: Vec<usize> = (0..markers.len()).filter(|&i| markers[i] != Marker::Data).collect();
    assert_eq!(found, vec![16, 20, 24]);
    assert!(found.iter().all(|&i| markers[i] == Marker::SyncA));
}
