use five33clip::clip::{Clip, ClipStatus};
use five33clip::store::ClipStore;

fn clip(id: &str, created_at: &str) -> Clip {
    Clip {
        id: id.to_string(),
        file_path: format!("C:\\clips\\{id}.mp4"),
        file_name: format!("{id}.mp4"),
        display_name: None,
        game_name: None,
        created_at: created_at.to_string(),
        duration_us: None,
        resolution: None,
        thumbnail_path: None,
        is_favorite: false,
        tags: Vec::new(),
        status: ClipStatus::Processing,
        share_url: None,
        share_key: None,
        shared_at: None,
        audio_peaks_us: None,
        waveform_bits: None,
    }
}

fn ids(v: &[Clip]) -> Vec<String> {
    v.iter().map(|c| c.id.clone()).collect()
}

#[test]
fn upsert_then_get_reads_back() {
    let mut store = ClipStore::new();
    let saved = store.upsert(clip("a", "2024-01-01T00:00:00Z"));
    assert_eq!(saved.id, "a");
    assert_eq!(store.get("a").unwrap().created_at, "2024-01-01T00:00:00Z");
    assert!(store.get("b").is_none());
}

#[test]
fn upsert_replaces_same_id() {
    let mut store = ClipStore::new();
    store.upsert(clip("a", "2024-01-01T00:00:00Z"));
    let mut newer = clip("a", "2024-01-01T00:00:00Z");
    newer.display_name = Some("Ace".to_string());
    store.upsert(newer);
    assert_eq!(store.list().len(), 1);
    assert_eq!(store.get("a").unwrap().display_name.as_deref(), Some("Ace"));
}

#[test]
fn list_is_newest_first() {
    let mut store = ClipStore::new();
    store.upsert(clip("old", "2024-01-01T00:00:00Z"));
    store.upsert(clip("new", "2024-03-01T00:00:00Z"));
    store.upsert(clip("mid", "2024-02-01T00:00:00Z"));
    assert_eq!(ids(&store.list()), vec!["new", "mid", "old"]);
}

#[test]
fn remove_gives_back_record_once() {
    let mut store = ClipStore::new();
    store.upsert(clip("a", "1"));
    assert_eq!(store.remove("a").unwrap().id, "a");
    assert!(store.remove("a").is_none());
    assert!(store.get("a").is_none());
}

#[test]
fn remove_many_in_request_order() {
    let mut store = ClipStore::from_clips(vec![clip("a", "1"), clip("b", "2"), clip("c", "3")]);
    let gone = store.remove_many(&["c".to_string(), "x".to_string(), "a".to_string()]);
    assert_eq!(ids(&gone), vec!["c", "a"]);
    assert_eq!(ids(&store.list()), vec!["b"]);
}

#[test]
fn remove_missing_files_drops_listed() {
    let mut store = ClipStore::from_clips(vec![clip("a", "1"), clip("b", "2")]);
    let gone = store.remove_missing_files(&["b".to_string()]);
    assert_eq!(ids(&gone), vec!["b"]);
    assert!(store.get("b").is_none());
    assert!(store.get("a").is_some());
}

#[test]
fn from_clips_keeps_last_duplicate() {
    let mut first = clip("a", "1");
    first.display_name = Some("first".to_string());
    let mut second = clip("a", "1");
    second.display_name = Some("second".to_string());
    let store = ClipStore::from_clips(vec![first, second]);
    assert_eq!(store.list().len(), 1);
    assert_eq!(store.get("a").unwrap().display_name.as_deref(), Some("second"));
}

#[test]
fn by_file_path_finds_record() {
    let store = ClipStore::from_clips(vec![clip("a", "1"), clip("b", "2")]);
    assert_eq!(store.by_file_path("C:\\clips\\b.mp4").unwrap().id, "b");
    assert!(store.by_file_path("C:\\clips\\z.mp4").is_none());
}

#[test]
fn thumbnail_paths_lists_present_ones() {
    let mut a = clip("a", "1");
    a.thumbnail_path = Some("t/a.jpg".to_string());
    let store = ClipStore::from_clips(vec![a, clip("b", "2")]);
    assert_eq!(store.thumbnail_paths(), vec!["t/a.jpg".to_string()]);
}

#[test]
fn update_edits_one_record() {
    let mut store = ClipStore::from_clips(vec![clip("a", "1"), clip("b", "2")]);
    let out = store.update("a", |mut c: Clip| {
        c.is_favorite = true;
        c
    });
    assert!(out.unwrap().is_favorite);
    assert!(store.get("a").unwrap().is_favorite);
    assert!(!store.get("b").unwrap().is_favorite);
    assert!(store.update("zz", |c: Clip| c).is_none());
}

#[test]
fn update_many_returns_found_in_order() {
    let mut store = ClipStore::from_clips(vec![clip("a", "1"), clip("b", "2")]);
    let out = store.update_many(&["b".to_string(), "q".to_string(), "a".to_string()], |mut c: Clip| {
        c.status = ClipStatus::Ready;
        c
    });
    assert_eq!(ids(&out), vec!["b", "a"]);
    assert_eq!(store.get("a").unwrap().status, ClipStatus::Ready);
}

#[test]
fn remove_tag_from_all_clips_reports_changed() {
    let mut a = clip("a", "1");
    a.tags = vec!["fun".to_string(), "win".to_string()];
    let mut b = clip("b", "2");
    b.tags = vec!["win".to_string()];
    let mut store = ClipStore::from_clips(vec![a, b]);
    let changed = store.remove_tag_from_all_clips("fun");
    assert_eq!(ids(&changed), vec!["a"]);
    assert_eq!(store.get("a").unwrap().tags, vec!["win".to_string()]);
    assert_eq!(store.get("b").unwrap().tags, vec!["win".to_string()]);
}
