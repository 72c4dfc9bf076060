use waveform::crossing::gather_zero_crossings;
use waveform::data_types::{Crossing, NormalizedFrame, NormalizedSeries, WaveError};
use waveform::load_csv_text;
use waveform::normalize::{compute_amp_range, normalise_values};

fn amplitudes(series: &NormalizedSeries) -> Vec<f64> {
    series
        .frames
        .iter()
        .map(|f| f.amplitude as f64 / series.scale as f64)
        .collect()
}

fn close(a: f64, b: f64) -> bool {
    (a - b).abs() < 1e-9
}

#[test]
fn sample_series_normalises() {
    let text = "1554451200000,10\n1554454800000,25\n1554458400000,25\n1554462000000,22\n";
    let series = load_csv_text(text).unwrap();
    let times: Vec<i128> = series.frames.iter().map(|f| f.time).collect();
    assert_eq!(times, vec![0, 3600000, 7200000, 10800000]);
    assert_eq!(series.scale, 30);
    let amps = amplitudes(&series);
    assert!(close(amps[0], -0.5));
    assert!(close(amps[1], 0.5));
    assert!(close(amps[2], 0.5));
    assert!(close(amps[3], 0.3));
}

#[test]
fn amplitudes_stay_in_range() {
    let raw = vec![(0, 7), (5, 1000), (9, 3), (12, 500), (20, 3)];
    let series = normalise_values(&raw).unwrap();
    assert_eq!(series.frames.len(), raw.len());
    for a in amplitudes(&series) {
        assert!((-0.5..=0.5).contains(&a));
    }
}

#[test]
fn flat_series_normalises_to_zero() {
    let series = normalise_values(&vec![(1, 5), (2, 5), (3, 5)]).unwrap();
    assert_eq!(series.scale, 1);
    for f in &series.frames {
        assert_eq!(f.amplitude, 0);
    }
    for a in amplitudes(&series) {
        assert!(a.is_finite());
    }
}

#[test]
fn widest_amplitude_range() {
    let series = normalise_values(&vec![(0, 0), (1, u64::MAX)]).unwrap();
    assert_eq!(series.scale, 2 * (u64::MAX as i128));
    assert_eq!(series.frames[0].amplitude, -(u64::MAX as i128));
    assert_eq!(series.frames[1].amplitude, u64::MAX as i128);
}

#[test]
fn times_are_offsets_from_first_sample() {
    let series = normalise_values(&vec![(100, 1), (50, 2), (u64::MAX, 3)]).unwrap();
    let times: Vec<i128> = series.frames.iter().map(|f| f.time).collect();
    assert_eq!(times, vec![0, -50, u64::MAX as i128 - 100]);
}

#[test]
fn empty_input_is_rejected() {
    assert!(matches!(normalise_values(&vec![]), Err(WaveError::EmptyInput)));
    assert!(matches!(load_csv_text("\n \n"), Err(WaveError::EmptyInput)));
}

#[test]
fn load_reports_ingestion_errors() {
    assert!(matches!(load_csv_text("1,2\n3"), Err(WaveError::MalformedLine)));
    assert!(matches!(load_csv_text("1,2\n3,q"), Err(WaveError::MalformedValue)));
}

#[test]
fn amp_range_of_series() {
    assert_eq!(compute_amp_range(&vec![(0, 10), (1, 25), (2, 25), (3, 22)]), (10, 25));
    assert_eq!(compute_amp_range(&vec![(0, 4)]), (4, 4));
}

fn series_of(frames: &[(i128, i128)], scale: i128) -> NormalizedSeries {
    NormalizedSeries {
        frames: frames
            .iter()
            .map(|&(time, amplitude)| NormalizedFrame { time, amplitude })
            .collect(),
        scale,
    }
}

fn crossing_time(c: &Crossing) -> f64 {
    c.before as f64 + (c.after - c.before) as f64 * c.offset as f64 / c.span as f64
}

#[test]
fn crossing_is_interpolated() {
    let series = series_of(&[(0, -2), (1, 3)], 10);
    let found = gather_zero_crossings(&series);
    assert_eq!(found.len(), 1);
    assert_eq!(found[0].before, 0);
    assert_eq!(found[0].after, 1);
    assert!(close(crossing_time(&found[0]), 0.4));
}

#[test]
fn crossing_at_sampled_zero() {
    let series = series_of(&[(10, 0), (20, 3)], 10);
    let found = gather_zero_crossings(&series);
    assert_eq!(found, vec![Crossing { before: 10, after: 10, offset: 0, span: 1 }]);
}

#[test]
fn crossing_reaching_zero() {
    let series = series_of(&[(10, 4), (20, 0), (30, 0)], 10);
    let found = gather_zero_crossings(&series);
    assert_eq!(found.len(), 2);
    assert!(close(crossing_time(&found[0]), 20.0));
    assert_eq!(found[1], Crossing { before: 20, after: 20, offset: 0, span: 1 });
}

#[test]
fn no_crossing_without_sign_change() {
    let series = series_of(&[(0, 1), (1, 2), (2, 5), (3, 1)], 10);
    assert!(gather_zero_crossings(&series).is_empty());
    let series = series_of(&[(0, 1)], 10);
    assert!(gather_zero_crossings(&series).is_empty());
}

#[test]
fn crossings_of_loaded_series() {
    let series = load_csv_text("0,0\n10,20\n20,0\n").unwrap();
    let found = gather_zero_crossings(&series);
    assert_eq!(found.len(), 2);
    assert!(close(crossing_time(&found[0]), 5.0));
    assert!(close(crossing_time(&found[1]), 15.0));
}
