use five33clip::clip::{Clip, ClipStatus, FileTime};
use five33clip::jobs::JobKind;
use five33clip::pipeline::{
    audio_backfill, on_clip_ready_with_overlay, plan_jobs, repair_clips, repair_step, FileCheck, IngestContext,
    IngestOutcome, RepairStep,
};
use five33clip::store::ClipStore;

fn clip(id: &str, status: ClipStatus) -> Clip {
    Clip {
        id: id.to_string(),
        file_path: format!("/c/{id}.mp4"),
        file_name: format!("{id}.mp4"),
        display_name: None,
        game_name: None,
        created_at: "2024-05-01T10:00:00+00:00".to_string(),
        duration_us: None,
        resolution: None,
        thumbnail_path: None,
        is_favorite: false,
        tags: Vec::new(),
        status,
        share_url: None,
        share_key: None,
        shared_at: None,
        audio_peaks_us: None,
        waveform_bits: None,
    }
}

fn ctx(remembered: Option<&str>, detected: Option<&str>) -> IngestContext {
    IngestContext {
        remembered_game: remembered.map(|s| s.to_string()),
        detected_game: detected.map(|s| s.to_string()),
        stamp: "01 May 10:00".to_string(),
    }
}

const T: FileTime = FileTime { secs: 1_714_557_600, nanos: 0 };

#[test]
fn new_file_is_filed_under_remembered_game() {
    let mut store = ClipStore::new();
    let out = on_clip_ready_with_overlay(
        &mut store,
        "/c/Replay 1.mp4",
        Some("Replay 1.mp4".to_string()),
        T,
        true,
        false,
        true,
        true,
        &ctx(Some("Apex"), Some("Hades")),
    );
    let q = match out {
        Ok(IngestOutcome::Queued(q)) => q,
        _ => panic!("expected the clip to be queued"),
    };
    assert_eq!(q.clip.game_name.as_deref(), Some("Apex"));
    assert_eq!(q.clip.display_name.as_deref(), Some("Apex 01 May 10:00"));
    assert_eq!(q.clip.status, ClipStatus::Processing);
    assert_eq!(q.clip.created_at, "2024-05-01T10:00:00+00:00");
    assert!(q.show_overlay && q.probe && q.thumbnail && q.marked_ready.is_none());
    assert_eq!(q.detected.unwrap().game_name.as_deref(), Some("Apex"));
    assert_eq!(store.by_file_path("/c/Replay 1.mp4").unwrap().id, q.clip.id);
}

#[test]
fn detected_game_used_when_none_remembered_and_not_when_quiet() {
    let mut store = ClipStore::new();
    let out = on_clip_ready_with_overlay(&mut store, "/c/a.mp4", None, T, true, false, true, false, &ctx(None, Some("Hades")));
    match out {
        Ok(IngestOutcome::Queued(q)) => {
            assert_eq!(q.clip.game_name.as_deref(), Some("Hades"));
            assert!(!q.show_overlay);
        }
        _ => panic!("expected the clip to be queued"),
    }
    let out = on_clip_ready_with_overlay(&mut store, "/c/b.mp4", None, T, true, false, false, true, &ctx(Some("Apex"), None));
    match out {
        Ok(IngestOutcome::Queued(q)) => {
            assert!(q.clip.game_name.is_none() && q.clip.display_name.is_none());
            assert!(q.detected.is_none() && !q.show_overlay);
        }
        _ => panic!("expected the clip to be queued"),
    }
}

#[test]
fn missing_file_and_ready_duplicate() {
    let mut store = ClipStore::from_clips(vec![clip("a", ClipStatus::Ready)]);
    let out = on_clip_ready_with_overlay(&mut store, "/c/x.mp4", None, T, false, false, true, true, &ctx(None, None));
    assert_eq!(out.err().unwrap(), "file does not exist");
    let out = on_clip_ready_with_overlay(&mut store, "/c/a.mp4", None, T, true, false, true, true, &ctx(None, None));
    assert!(matches!(out, Ok(IngestOutcome::AlreadyTracked)));
    assert_eq!(store.list().len(), 1);
}

#[test]
fn stuck_clip_with_everything_is_marked_ready() {
    let mut c = clip("a", ClipStatus::Processing);
    c.duration_us = Some(3_000_000);
    c.thumbnail_path = Some("/t/a.jpg".to_string());
    let mut store = ClipStore::from_clips(vec![c]);
    let out = on_clip_ready_with_overlay(&mut store, "/c/a.mp4", None, T, true, true, false, false, &ctx(None, None));
    match out {
        Ok(IngestOutcome::Queued(q)) => {
            assert_eq!(q.clip.id, "a");
            assert_eq!(q.marked_ready.unwrap().status, ClipStatus::Ready);
            assert!(!q.probe && !q.thumbnail);
        }
        _ => panic!("expected the clip to be resumed"),
    }
    assert_eq!(store.get("a").unwrap().status, ClipStatus::Ready);
}

#[test]
fn job_plan_cases() {
    let mut c = clip("a", ClipStatus::Processing);
    let p = plan_jobs(&c, false, false);
    assert!(!p.mark_ready && p.probe && p.thumbnail);
    c.duration_us = Some(1);
    c.thumbnail_path = Some("t".to_string());
    let p = plan_jobs(&c, false, true);
    assert!(!p.mark_ready && !p.probe && !p.thumbnail);
    let p = plan_jobs(&c, true, true);
    assert!(p.mark_ready);
    let p = plan_jobs(&c, true, false);
    assert!(!p.mark_ready && !p.probe && p.thumbnail);
}

#[test]
fn repair_step_cases() {
    let here = FileCheck { file_exists: true, thumbnail_exists: false };
    let gone = FileCheck { file_exists: false, thumbnail_exists: false };
    assert_eq!(repair_step(&clip("a", ClipStatus::Ready), &here, true), RepairStep::Skip);
    assert_eq!(repair_step(&clip("a", ClipStatus::Failed), &here, false), RepairStep::Skip);
    assert_eq!(repair_step(&clip("a", ClipStatus::Processing), &gone, false), RepairStep::MarkFailed);
    assert_eq!(repair_step(&clip("a", ClipStatus::Failed), &gone, true), RepairStep::Skip);
    assert_eq!(
        repair_step(&clip("a", ClipStatus::Failed), &here, true),
        RepairStep::Requeue { reset: true, probe: true, thumbnail: true }
    );
    let mut done = clip("a", ClipStatus::Processing);
    done.duration_us = Some(1);
    done.thumbnail_path = Some("t".to_string());
    assert_eq!(
        repair_step(&done, &FileCheck { file_exists: true, thumbnail_exists: true }, false),
        RepairStep::MarkReady
    );
}

#[test]
fn repair_pass_over_library() {
    let stuck = clip("stuck", ClipStatus::Processing);
    let lost = clip("lost", ClipStatus::Processing);
    let failed = clip("failed", ClipStatus::Failed);
    let mut store = ClipStore::from_clips(vec![stuck.copy(), lost.copy(), failed.copy()]);
    let listed = vec![stuck, lost, failed];
    let checks = vec![
        FileCheck { file_exists: true, thumbnail_exists: false },
        FileCheck { file_exists: false, thumbnail_exists: false },
        FileCheck { file_exists: true, thumbnail_exists: false },
    ];
    let out = repair_clips(&mut store, &listed, &checks, true);
    assert_eq!(out.repaired, 3);
    assert_eq!(out.requeued_names, vec!["stuck.mp4", "failed.mp4"]);
    assert_eq!(out.jobs.len(), 4);
    assert!(matches!(&out.jobs[0], JobKind::Probe { clip_id, .. } if clip_id == "stuck"));
    assert!(matches!(&out.jobs[3], JobKind::Thumbnail { clip_id, .. } if clip_id == "failed"));
    assert_eq!(out.updated.len(), 2);
    assert_eq!(store.get("lost").unwrap().status, ClipStatus::Failed);
    assert_eq!(store.get("failed").unwrap().status, ClipStatus::Processing);
    assert_eq!(store.get("stuck").unwrap().status, ClipStatus::Processing);
}

#[test]
fn audio_backfill_for_long_clips_on_disk() {
    let mut long = clip("long", ClipStatus::Ready);
    long.duration_us = Some(60_000_000);
    let mut gone = clip("gone", ClipStatus::Ready);
    gone.duration_us = Some(60_000_000);
    let mut short = clip("short", ClipStatus::Ready);
    short.duration_us = Some(10_000_000);
    let jobs = audio_backfill(&vec![long, gone, short], &vec![true, false, true]);
    assert_eq!(jobs.len(), 1);
    assert!(matches!(&jobs[0], JobKind::AudioPeaks { clip_id, path } if clip_id == "long" && path == "/c/long.mp4"));
}
