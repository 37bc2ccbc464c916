use sd2_telem::binner::bin;
use sd2_telem::strokes::{analyze_strokes, StrokeKind};
use sd2_telem::turning::{detect_turning_points, detector_window, Direction};
use sd2_telem::TelemetryError;

#[test]
fn bin_places_each_value_by_rounded_position() {
    // round((v / 100) * 9): 0 -> 0, 50 -> 5, 100 -> 9.
    let h = bin(&vec![0, 50, 100], 10, 100, false).unwrap();
    assert_eq!(h, vec![1, 0, 0, 0, 0, 1, 0, 0, 0, 1]);
}

#[test]
fn bin_reverse_mirrors_the_index() {
    let h = bin(&vec![0, 50, 100], 10, 100, true).unwrap();
    assert_eq!(h, vec![1, 0, 0, 0, 1, 0, 0, 0, 0, 1]);
}

#[test]
fn bin_clamps_out_of_range_values_to_the_edges() {
    let h = bin(&vec![-5, 1000], 4, 100, false).unwrap();
    assert_eq!(h, vec![1, 0, 0, 1]);
}

#[test]
fn bin_conserves_the_sample_count() {
    let values = vec![-3, 0, 13, 49, 50, 51, 99, 100, 250, 7];
    let h = bin(&values, 7, 100, false).unwrap();
    let total: u64 = h.iter().map(|c| *c as u64).sum();
    assert_eq!(total, values.len() as u64);
}

#[test]
fn bin_rejects_a_degenerate_range() {
    assert_eq!(bin(&vec![1, 2], 4, 0, false), Err(TelemetryError::InvalidBinningRange));
    assert_eq!(bin(&vec![1, 2], 4, -10, false), Err(TelemetryError::InvalidBinningRange));
}

#[test]
fn detector_finds_the_reversals_of_a_triangle_wave() {
    // One compression and rebound cycle and a half, sampled at 1 Hz.
    let samples: Vec<i64> = vec![0, 100, 500, 1000, 500, 100, 0, 100, 500, 1000];
    let tps = detect_turning_points(&samples, 1, 15, 50).unwrap();
    let indices: Vec<usize> = tps.iter().map(|t| t.index).collect();
    let values: Vec<i64> = tps.iter().map(|t| t.value).collect();
    assert_eq!(indices, vec![0, 3, 6, 9]);
    assert_eq!(values, vec![0, 1000, 0, 1000]);
    assert_eq!(tps[0].direction, Direction::Rising);
}

#[test]
fn detector_output_alternates_and_is_time_ordered() {
    let samples: Vec<i64> = vec![0, 100, 500, 1000, 500, 100, 0, 100, 500, 1000];
    let tps = detect_turning_points(&samples, 1, 15, 50).unwrap();
    for w in tps.windows(2) {
        assert!(w[0].index < w[1].index);
        assert_ne!(w[0].direction, w[1].direction);
    }
}

#[test]
fn detector_needs_two_window_widths_of_samples() {
    assert_eq!(
        detect_turning_points(&vec![1, 2], 2, 15, 50),
        Err(TelemetryError::InsufficientSamples)
    );
    assert_eq!(detect_turning_points(&vec![7], 0, 15, 50), Err(TelemetryError::InsufficientSamples));
    assert_eq!(detect_turning_points(&vec![], 1, 15, 50), Err(TelemetryError::InsufficientSamples));
}

#[test]
fn detector_window_is_half_the_minimum_period() {
    // 250 Hz and a 100 ms minimum period give a 12-sample window.
    assert_eq!(detector_window(250, 100), 12);
    assert_eq!(detector_window(1, 100), 0);
}

#[test]
fn strokes_split_by_direction_and_skip_the_closing_pair() {
    let samples: Vec<i64> = vec![0, 100, 500, 1000, 500, 100, 0, 100, 500, 1000];
    let tps = detect_turning_points(&samples, 1, 15, 50).unwrap();
    let (comps, rebs) = analyze_strokes(&tps, &samples, 1, 0);
    assert_eq!(comps.len(), 1);
    assert_eq!(rebs.len(), 1);
    assert_eq!(rebs[0].displacement, 1000);
    assert_eq!(rebs[0].kind, StrokeKind::Rebound);
    assert_eq!(comps[0].displacement, 1000);
    assert_eq!(comps[0].kind, StrokeKind::Compression);
}

#[test]
fn stroke_peak_velocity_is_the_largest_subsample_step() {
    let samples: Vec<i64> = vec![0, 100, 500, 1000, 500, 100, 0, 100, 500, 1000];
    let tps = detect_turning_points(&samples, 1, 15, 50).unwrap();
    // At 1 Hz the sub-sample stride is one, so the peak is the steepest
    // consecutive difference: 500 on both strokes.
    let (comps, rebs) = analyze_strokes(&tps, &samples, 1, 0);
    assert_eq!(rebs[0].peak_velocity, 500);
    assert_eq!(comps[0].peak_velocity, 500);
}

#[test]
fn strokes_below_the_noise_floor_are_dropped() {
    let samples: Vec<i64> = vec![0, 100, 500, 1000, 500, 100, 0, 100, 500, 1000];
    let tps = detect_turning_points(&samples, 1, 15, 50).unwrap();
    let (comps, rebs) = analyze_strokes(&tps, &samples, 1, 2000);
    assert_eq!(comps.len(), 0);
    assert_eq!(rebs.len(), 0);
}
