use five33clip::audio::{merge_close_samples, parse_rms_samples, pick_peaks, sort_samples, Sample};

fn s(t_ms: i64, db: i64) -> Sample {
    Sample { time_us: t_ms * 1000, level_udb: db * 1_000_000 }
}

#[test]
fn rms_lines_paired_with_frame_times() {
    let raw = "frame:0    pts:0       pts_time:0\n\
               lavfi.astats.Overall.RMS_level=-20.5\n\
               frame:1    pts:11025   pts_time:0.25\n\
               lavfi.astats.Overall.RMS_level=-inf\n\
               frame:2 pts:22050 pts_time:0.5\n\
               lavfi.astats.Overall.RMS_level=garbage\n\
               lavfi.astats.Overall.RMS_level=-3\n";
    let v = parse_rms_samples(raw);
    assert_eq!(
        v,
        vec![
            Sample { time_us: 0, level_udb: -20_500_000 },
            Sample { time_us: 250_000, level_udb: -100_000_000 },
            Sample { time_us: 500_000, level_udb: -100_000_000 },
        ]
    );
}

#[test]
fn rms_level_without_frame_is_dropped() {
    assert!(parse_rms_samples("lavfi.astats.Overall.RMS_level=-3\n").is_empty());
}

#[test]
fn too_few_readings_give_no_peaks() {
    let v: Vec<Sample> = (0..5).map(|i| s(i * 250, if i == 2 { 0 } else { -30 })).collect();
    assert!(pick_peaks(&v).is_empty());
}

#[test]
fn close_peaks_merge_far_ones_stay() {
    let v: Vec<Sample> = (0..24)
        .map(|i| {
            let db = match i {
                2 => -5,
                4 => -4,
                20 => -10,
                _ => -30,
            };
            s(i * 250, db)
        })
        .collect();
    assert_eq!(pick_peaks(&v), vec![1_000_000, 5_000_000]);
}

#[test]
fn uniformly_loud_clip_has_no_peaks() {
    let v: Vec<Sample> = (0..40).map(|i| s(i * 250, -10)).collect();
    assert!(pick_peaks(&v).is_empty());
}

#[test]
fn at_most_ten_loudest_in_time_order() {
    // twelve spikes, 5 s apart, of rising loudness
    let v: Vec<Sample> = (0..250)
        .map(|i| {
            let db = if i % 20 == 10 { -20 + (i / 20) } else { -40 };
            s(i * 250, db)
        })
        .collect();
    let peaks = pick_peaks(&v);
    assert_eq!(peaks.len(), 10);
    assert_eq!(peaks[0], 12_500_000);
    assert!(peaks.windows(2).all(|w| w[0] < w[1]));
}

#[test]
fn sorting_is_stable() {
    let v = vec![s(3, -1), s(1, -2), s(2, -1), s(1, -5)];
    assert_eq!(sort_samples(&v, true), vec![s(1, -2), s(1, -5), s(2, -1), s(3, -1)]);
    assert_eq!(sort_samples(&v, false), vec![s(3, -1), s(2, -1), s(1, -2), s(1, -5)]);
}

#[test]
fn merge_keeps_loudest_of_close_run() {
    let v = vec![s(0, -5), s(1000, -3), s(3999, -4), s(8000, -9)];
    assert_eq!(merge_close_samples(&v), vec![s(1000, -3), s(8000, -9)]);
}
