use five33clip::cleanup::{freed_bytes, orphan_thumbnails, plan_cleanup};
use five33clip::clip::{Clip, ClipStatus};
use five33clip::instant::Instant;

fn clip(id: &str, created: &str, fav: bool) -> Clip {
    Clip {
        id: id.to_string(),
        file_path: format!("/c/{id}.mp4"),
        file_name: format!("{id}.mp4"),
        display_name: None,
        game_name: None,
        created_at: created.to_string(),
        duration_us: None,
        resolution: None,
        thumbnail_path: None,
        is_favorite: fav,
        tags: Vec::new(),
        status: ClipStatus::Ready,
        share_url: None,
        share_key: None,
        shared_at: None,
        audio_peaks_us: None,
        waveform_bits: None,
    }
}

fn library() -> (Vec<Clip>, Vec<u64>) {
    (
        vec![
            clip("new", "2024-05-15T00:00:00Z", false),
            clip("fav", "2024-01-01T00:00:00Z", true),
            clip("old", "2024-04-01T00:00:00Z", false),
            clip("mid", "2024-05-10T00:00:00Z", false),
            clip("bad", "not a time", false),
        ],
        vec![3, 1, 2, 4, 5],
    )
}

// 2024-05-16T00:00:00Z
const NOW: Instant = Instant { secs: 1_715_817_600, nanos: 0 };

#[test]
fn old_clips_go_favourites_stay() {
    let (clips, sizes) = library();
    let plan = plan_cleanup(&clips, &sizes, NOW, 30, None);
    assert_eq!(plan.ids, vec!["old"]);
    assert_eq!(plan.kept_favorites, 1);
    assert_eq!(plan.total_bytes, 15);
}

#[test]
fn size_limit_removes_oldest_first() {
    let (clips, sizes) = library();
    assert_eq!(plan_cleanup(&clips, &sizes, NOW, 30, Some(7)).ids, vec!["old", "mid", "new"]);
    assert_eq!(plan_cleanup(&clips, &sizes, NOW, 30, Some(10)).ids, vec!["old", "mid"]);
    assert_eq!(plan_cleanup(&clips, &sizes, NOW, 30, Some(100)).ids, vec!["old"]);
}

#[test]
fn zero_days_counts_as_one() {
    let (clips, sizes) = library();
    assert_eq!(plan_cleanup(&clips, &sizes, NOW, 0, None).ids, vec!["old", "mid"]);
}

#[test]
fn freed_bytes_of_removed() {
    let (clips, sizes) = library();
    assert_eq!(freed_bytes(&clips, &sizes, &vec!["old".to_string(), "mid".to_string()]), 6);
    assert_eq!(freed_bytes(&clips, &sizes, &vec![]), 0);
}

#[test]
fn orphan_thumbnails_are_unknown_files() {
    let files = vec!["/t/a.jpg".to_string(), "/t/b.jpg".to_string(), "/t/c.jpg".to_string()];
    let known = vec!["/t/b.jpg".to_string()];
    assert_eq!(orphan_thumbnails(&files, &known), vec!["/t/a.jpg", "/t/c.jpg"]);
}
