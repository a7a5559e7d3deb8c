use five33clip::clip::{Clip, ClipStatus};
use five33clip::merge::{finish_merge, merged_output_name, plan_merge, union_tag_list};
use five33clip::store::ClipStore;

fn clip(id: &str, ended: &str, duration_us: Option<u64>) -> Clip {
    Clip {
        id: id.to_string(),
        file_path: format!("/c/{id}.mp4"),
        file_name: format!("{id}.mp4"),
        display_name: None,
        game_name: None,
        created_at: ended.to_string(),
        duration_us,
        resolution: None,
        thumbnail_path: None,
        is_favorite: false,
        tags: Vec::new(),
        status: ClipStatus::Ready,
        share_url: None,
        share_key: None,
        shared_at: None,
        audio_peaks_us: None,
        waveform_bits: None,
    }
}

fn library(cur: &Clip) -> Vec<Clip> {
    vec![
        clip("later", "2024-05-01T10:01:00Z", Some(5_000_000)),
        cur.copy(),
        clip("prev", "2024-05-01T10:00:10Z", Some(30_000_000)),
        clip("older", "2024-05-01T10:00:00Z", Some(20_000_000)),
        clip("nolength", "2024-05-01T10:00:20Z", None),
    ]
}

#[test]
fn overlapping_saves_are_merged() {
    let cur = clip("cur", "2024-05-01T10:00:30Z", Some(30_000_000));
    let plan = plan_merge(&cur, &library(&cur)).unwrap();
    assert_eq!(plan.prev_index, 2);
    assert_eq!(plan.trim_start_us, 10_000_000);
}

#[test]
fn trim_start_capped_by_earlier_length() {
    let cur = clip("cur", "2024-05-01T10:00:30Z", Some(30_000_000));
    let cands = vec![clip("short", "2024-05-01T10:00:10Z", Some(4_000_000))];
    assert_eq!(plan_merge(&cur, &cands).unwrap().trim_start_us, 4_000_000);
}

#[test]
fn no_merge_without_enough_overlap_or_new_content() {
    let cur = clip("cur", "2024-05-01T10:00:30Z", Some(30_000_000));
    let barely = vec![clip("p", "2024-05-01T10:00:00.500Z", Some(30_000_000))];
    assert!(plan_merge(&cur, &barely).is_none());
    let almost_all = vec![clip("p", "2024-05-01T10:00:29.500Z", Some(30_000_000))];
    assert!(plan_merge(&cur, &almost_all).is_none());
    let enough = vec![clip("p", "2024-05-01T10:00:00.750Z", Some(30_000_000))];
    assert_eq!(plan_merge(&cur, &enough).unwrap().trim_start_us, 750_000);
}

#[test]
fn trimmed_or_unprobed_clips_never_start_a_merge() {
    let mut cur = clip("cur", "2024-05-01T10:00:30Z", Some(30_000_000));
    cur.file_name = "cur_trim_20240501.mp4".to_string();
    assert!(plan_merge(&cur, &library(&cur)).is_none());
    let unprobed = clip("cur", "2024-05-01T10:00:30Z", None);
    assert!(plan_merge(&unprobed, &library(&unprobed)).is_none());
    let unreadable = clip("cur", "yesterday", Some(30_000_000));
    assert!(plan_merge(&unreadable, &library(&unreadable)).is_none());
}

#[test]
fn tag_union_keeps_order() {
    let prev = vec!["a".to_string(), "b".to_string()];
    let cur = vec!["b".to_string(), "c".to_string()];
    assert_eq!(union_tag_list(&prev, &cur), vec!["a", "b", "c"]);
}

#[test]
fn finish_merge_moves_metadata_and_drops_halves() {
    let mut prev = clip("prev", "2024-05-01T10:00:10Z", Some(30_000_000));
    prev.tags = vec!["a".to_string()];
    prev.display_name = Some("First".to_string());
    let mut cur = clip("cur", "2024-05-01T10:00:30Z", Some(30_000_000));
    cur.game_name = Some("Hades".to_string());
    cur.is_favorite = true;
    cur.tags = vec!["b".to_string()];
    let mut merged = clip("merged", "2024-05-01T10:05:00Z", None);
    merged.file_path = "/c/merged.mp4".to_string();
    let mut store = ClipStore::from_clips(vec![prev.copy(), cur.copy(), merged]);
    let out = finish_merge(&mut store, "/c/merged.mp4", &prev, &cur).unwrap();
    assert_eq!(out.merged.created_at, "2024-05-01T10:00:30Z");
    assert_eq!(out.merged.game_name.as_deref(), Some("Hades"));
    assert_eq!(out.merged.display_name.as_deref(), Some("First"));
    assert_eq!(out.merged.tags, vec!["a", "b"]);
    assert!(out.merged.is_favorite);
    assert_eq!(out.removed.len(), 2);
    assert!(store.get("prev").is_none() && store.get("cur").is_none());
    assert_eq!(store.get("merged").unwrap().tags, vec!["a", "b"]);
}

#[test]
fn finish_merge_without_output_changes_nothing() {
    let prev = clip("prev", "2024-05-01T10:00:10Z", Some(1));
    let cur = clip("cur", "2024-05-01T10:00:30Z", Some(1));
    let mut store = ClipStore::from_clips(vec![prev.copy(), cur.copy()]);
    assert!(finish_merge(&mut store, "/c/none.mp4", &prev, &cur).is_none());
    assert!(store.get("prev").is_some() && store.get("cur").is_some());
}

#[test]
fn merged_file_name() {
    assert_eq!(merged_output_name(Some("Replay 1"), "20240501-120000"), "Replay 1_merged_20240501-120000.mp4");
    assert_eq!(merged_output_name(None, "s"), "clip_merged_s.mp4");
}
