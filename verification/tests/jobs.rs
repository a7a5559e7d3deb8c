use five33clip::clip::{Clip, ClipStatus};
use five33clip::jobs::{
    after_failure, apply_audio_analysis, apply_probe, apply_thumbnail, finish_trim, handle_job_failure,
    mark_ready_if_complete, maybe_mark_ready, needs_audio_peaks, resolution_string, trim_range,
    trimmed_output_name, trimmed_title, wants_audio_peaks, AfterFailure, FailureEffect, Job, JobKind,
};
use five33clip::store::ClipStore;

fn clip(id: &str) -> Clip {
    Clip {
        id: id.to_string(),
        file_path: format!("/c/{id}.mp4"),
        file_name: format!("{id}.mp4"),
        display_name: None,
        game_name: None,
        created_at: "2024-05-01T10:00:00+00:00".to_string(),
        duration_us: None,
        resolution: None,
        thumbnail_path: None,
        is_favorite: false,
        tags: Vec::new(),
        status: ClipStatus::Processing,
        share_url: None,
        share_key: None,
        shared_at: None,
        audio_peaks_us: None,
        waveform_bits: None,
    }
}

fn probe(id: &str) -> JobKind {
    JobKind::Probe { clip_id: id.to_string(), path: format!("/c/{id}.mp4") }
}

#[test]
fn failed_job_retried_twice_then_given_up() {
    let job = Job::new(7, probe("a"));
    assert_eq!(job.attempt, 0);
    let job = match after_failure(job) {
        AfterFailure::Retry(j) => j,
        AfterFailure::GiveUp(_) => panic!("first failure retries"),
    };
    assert_eq!(job.attempt, 1);
    let job = match after_failure(job) {
        AfterFailure::Retry(j) => j,
        AfterFailure::GiveUp(_) => panic!("second failure retries"),
    };
    assert_eq!(job.attempt, 2);
    assert!(matches!(after_failure(job), AfterFailure::GiveUp(j) if j.id == 7 && j.attempt == 2));
}

#[test]
fn audio_peaks_wanted_from_25_seconds() {
    assert!(!wants_audio_peaks(24_999_999));
    assert!(wants_audio_peaks(25_000_000));
    let mut c = clip("a");
    assert!(!needs_audio_peaks(&c));
    c.duration_us = Some(30_000_000);
    assert!(needs_audio_peaks(&c));
    c.audio_peaks_us = Some(vec![1]);
    assert!(!needs_audio_peaks(&c));
}

#[test]
fn resolution_is_width_x_height() {
    assert_eq!(resolution_string(1920, 1080), "1920x1080");
}

#[test]
fn probe_then_thumbnail_makes_ready() {
    let mut store = ClipStore::from_clips(vec![clip("a")]);
    let c = apply_probe(&mut store, "a", 1280, 720, 42_500_000).unwrap();
    assert_eq!(c.duration_us, Some(42_500_000));
    assert_eq!(c.resolution.as_deref(), Some("1280x720"));
    assert_eq!(maybe_mark_ready(&mut store, "a").unwrap().status, ClipStatus::Processing);
    let c = apply_thumbnail(&mut store, "a", "/t/a.jpg").unwrap();
    assert_eq!(c.thumbnail_path.as_deref(), Some("/t/a.jpg"));
    assert_eq!(maybe_mark_ready(&mut store, "a").unwrap().status, ClipStatus::Ready);
    assert_eq!(apply_probe(&mut store, "zz", 1, 1, 1).err().unwrap(), "clip not found");
}

#[test]
fn ready_only_when_complete() {
    let mut c = clip("a");
    c.duration_us = Some(1);
    assert_eq!(mark_ready_if_complete(c.copy()).status, ClipStatus::Processing);
    c.thumbnail_path = Some("t".to_string());
    assert_eq!(mark_ready_if_complete(c).status, ClipStatus::Ready);
}

#[test]
fn failure_of_probe_marks_clip_failed() {
    let mut store = ClipStore::from_clips(vec![clip("a")]);
    let job = Job::new(1, probe("a"));
    match handle_job_failure(&mut store, &job, "boom") {
        FailureEffect::ClipFailed(c) => assert_eq!(c.status, ClipStatus::Failed),
        _ => panic!("expected the clip to fail"),
    }
    assert_eq!(store.get("a").unwrap().status, ClipStatus::Failed);
}

#[test]
fn failure_of_trim_reports_error() {
    let mut store = ClipStore::from_clips(vec![clip("a")]);
    let job = Job::new(
        2,
        JobKind::Trim {
            source_clip_id: "a".to_string(),
            input: "/c/a.mp4".to_string(),
            output: "/c/a_trim.mp4".to_string(),
            start_us: 0,
            end_us: 1_000_000,
            delete_original: false,
        },
    );
    match handle_job_failure(&mut store, &job, "ffmpeg died") {
        FailureEffect::TrimFailed(p) => {
            assert_eq!(p.source_clip_id, "a");
            assert_eq!(p.output_path, "/c/a_trim.mp4");
            assert_eq!(p.error.as_deref(), Some("ffmpeg died"));
        }
        _ => panic!("expected a trim failure"),
    }
    assert_eq!(store.get("a").unwrap().status, ClipStatus::Processing);
}

#[test]
fn failure_of_audio_analysis_changes_nothing() {
    let mut store = ClipStore::from_clips(vec![clip("a")]);
    let job = Job::new(3, JobKind::AudioPeaks { clip_id: "a".to_string(), path: "/c/a.mp4".to_string() });
    assert!(matches!(handle_job_failure(&mut store, &job, "x"), FailureEffect::Nothing));
    assert_eq!(store.get("a").unwrap().status, ClipStatus::Processing);
}

#[test]
fn trim_range_checks() {
    assert_eq!(
        trim_range(None, 0, 1_000_000).err().unwrap(),
        "clip duration unknown — wait for processing to finish"
    );
    assert_eq!(trim_range(Some(10_000_000), -1, 5_000_000).err().unwrap(), "invalid trim range");
    let r = trim_range(Some(10_000_000), 1_000_000, 12_000_000).unwrap();
    assert_eq!((r.start_us, r.end_us), (1_000_000, 10_000_000));
    assert_eq!(trim_range(Some(10_000_000), 1_000_000, 13_000_001).err().unwrap(), "invalid trim range");
    assert_eq!(trim_range(Some(10_000_000), 1_000_000, 1_100_000).err().unwrap(), "invalid trim range");
    let r = trim_range(Some(10_000_000), 1_000_000, 1_100_001).unwrap();
    assert_eq!(r.end_us, 1_100_001);
}

#[test]
fn trimmed_names_and_titles() {
    assert_eq!(trimmed_output_name(Some("Replay 1"), "20240501-100000"), "Replay 1_trim_20240501-100000.mp4");
    assert_eq!(trimmed_output_name(None, "x"), "clip_trim_x.mp4");
    assert_eq!(
        trimmed_title(&Some("Valorant".to_string()), "01 May 10:00", &Some("old".to_string())),
        Some("Valorant 01 May 10:00".to_string())
    );
    assert_eq!(trimmed_title(&None, "s", &Some("old".to_string())), Some("old".to_string()));
    assert_eq!(trimmed_title(&None, "s", &None), None);
}

#[test]
fn finish_trim_adopts_source_and_may_remove_it() {
    let mut src = clip("src");
    src.game_name = Some("Hades".to_string());
    src.created_at = "2024-01-01T00:00:00+00:00".to_string();
    src.display_name = Some("Clutch ace".to_string());
    let mut out = clip("out");
    out.file_path = "/c/src_trim.mp4".to_string();
    let mut store = ClipStore::from_clips(vec![src.copy(), out]);
    let outcome = finish_trim(&mut store, "/c/src_trim.mp4", &src, true);
    let t = outcome.trimmed.unwrap();
    assert_eq!(t.id, "out");
    assert_eq!(t.created_at, "2024-01-01T00:00:00+00:00");
    assert_eq!(t.game_name.as_deref(), Some("Hades"));
    assert_eq!(t.display_name.as_deref(), Some("Clutch ace"));
    assert_eq!(outcome.removed_original.unwrap().id, "src");
    assert!(store.get("src").is_none());
}

#[test]
fn finish_trim_without_output_record_does_nothing() {
    let src = clip("src");
    let mut store = ClipStore::from_clips(vec![src.copy()]);
    let outcome = finish_trim(&mut store, "/nowhere.mp4", &src, true);
    assert!(outcome.trimmed.is_none() && outcome.removed_original.is_none());
    assert!(store.get("src").is_some());
}

#[test]
fn audio_analysis_stored_on_clip() {
    let mut store = ClipStore::from_clips(vec![clip("a")]);
    let c = apply_audio_analysis(&mut store, "a", vec![1_000_000, 5_000_000], vec![7, 9]).unwrap();
    assert_eq!(c.audio_peaks_us, Some(vec![1_000_000, 5_000_000]));
    assert_eq!(c.waveform_bits, Some(vec![7, 9]));
    assert!(apply_audio_analysis(&mut store, "nope", vec![], vec![]).is_none());
}
