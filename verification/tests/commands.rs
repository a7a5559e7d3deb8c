use five33clip::clip::{Clip, ClipStatus};
use five33clip::commands::{
    add_clip_tag, add_tag_to_clips, all_tags, check_external_url, create_tag, delete_clip, delete_clips, delete_tag,
    remove_clip_tag, remove_tag_from_clips, rename_clip, set_clip_game, set_clips_game, set_locked_game,
    thumbnail_data_url, toggle_favorite,
};
use five33clip::store::ClipStore;
use five33clip::tags::TagRegistryStore;

fn clip(id: &str, tags: &[&str]) -> Clip {
    Clip {
        id: id.to_string(),
        file_path: format!("/c/{id}.mp4"),
        file_name: format!("{id}.mp4"),
        display_name: None,
        game_name: None,
        created_at: format!("2024-05-0{}T00:00:00Z", id.len()),
        duration_us: None,
        resolution: None,
        thumbnail_path: None,
        is_favorite: false,
        tags: tags.iter().map(|t| t.to_string()).collect(),
        status: ClipStatus::Ready,
        share_url: None,
        share_key: None,
        shared_at: None,
        audio_peaks_us: None,
        waveform_bits: None,
    }
}

fn strings(v: &[&str]) -> Vec<String> {
    v.iter().map(|s| s.to_string()).collect()
}

#[test]
fn rename_trims_and_rejects_empty() {
    let mut store = ClipStore::from_clips(vec![clip("a", &[])]);
    assert_eq!(rename_clip(&mut store, "a", "  Ace  ").unwrap().display_name.as_deref(), Some("Ace"));
    assert_eq!(rename_clip(&mut store, "a", "   ").err().unwrap(), "name cannot be empty");
    assert_eq!(rename_clip(&mut store, "zz", "x").err().unwrap(), "clip not found");
}

#[test]
fn game_names_set_one_or_many() {
    let mut store = ClipStore::from_clips(vec![clip("a", &[]), clip("bb", &[])]);
    assert_eq!(set_clip_game(&mut store, "a", " Hades ").unwrap().game_name.as_deref(), Some("Hades"));
    assert_eq!(set_clip_game(&mut store, "a", "").err().unwrap(), "game name cannot be empty");
    let many = set_clips_game(&mut store, &strings(&["bb", "q", "a"]), "Apex").unwrap();
    assert_eq!(many.len(), 2);
    assert_eq!(store.get("bb").unwrap().game_name.as_deref(), Some("Apex"));
    assert_eq!(set_clips_game(&mut store, &strings(&["a"]), " ").err().unwrap(), "game name is required");
}

#[test]
fn favorite_toggles_back_and_forth() {
    let mut store = ClipStore::from_clips(vec![clip("a", &[])]);
    assert!(toggle_favorite(&mut store, "a").unwrap().is_favorite);
    assert!(!toggle_favorite(&mut store, "a").unwrap().is_favorite);
    assert_eq!(toggle_favorite(&mut store, "x").err().unwrap(), "clip not found");
}

#[test]
fn delete_one_or_many() {
    let mut store = ClipStore::from_clips(vec![clip("a", &[]), clip("bb", &[]), clip("ccc", &[])]);
    assert_eq!(delete_clip(&mut store, "a").unwrap().id, "a");
    assert_eq!(delete_clip(&mut store, "a").err().unwrap(), "clip not found");
    let gone = delete_clips(&mut store, &strings(&["ccc", "bb"]));
    assert_eq!(gone.len(), 2);
    assert!(store.list().is_empty());
}

#[test]
fn external_urls_must_be_http() {
    assert!(check_external_url("https://example.com").is_ok());
    assert!(check_external_url("http://x").is_ok());
    assert_eq!(check_external_url("file:///etc/passwd").err().unwrap(), "only http/https URLs are supported");
}

#[test]
fn locked_game_trimmed() {
    let mut slot = None;
    assert_eq!(set_locked_game(&mut slot, "  Apex ").unwrap(), "Apex");
    assert_eq!(slot.as_deref(), Some("Apex"));
    assert_eq!(set_locked_game(&mut slot, "  ").err().unwrap(), "game name is required");
    assert_eq!(slot.as_deref(), Some("Apex"));
}

#[test]
fn clip_tags_added_sorted_and_removed() {
    let mut store = ClipStore::from_clips(vec![clip("a", &["zeta"])]);
    let mut reg = TagRegistryStore::new();
    let c = add_clip_tag(&mut store, &mut reg, "a", " Alpha ").unwrap();
    assert_eq!(c.tags, strings(&["alpha", "zeta"]));
    let c = add_clip_tag(&mut store, &mut reg, "a", "alpha").unwrap();
    assert_eq!(c.tags, strings(&["alpha", "zeta"]));
    assert_eq!(reg.list(), strings(&["alpha"]));
    assert_eq!(add_clip_tag(&mut store, &mut reg, "a", " ").err().unwrap(), "tag cannot be empty");
    let c = remove_clip_tag(&mut store, "a", "ZETA").unwrap();
    assert_eq!(c.tags, strings(&["alpha"]));
    assert_eq!(remove_clip_tag(&mut store, "q", "alpha").err().unwrap(), "clip not found");
}

#[test]
fn bulk_tagging() {
    let mut store = ClipStore::from_clips(vec![clip("a", &[]), clip("bb", &["win"])]);
    let mut reg = TagRegistryStore::new();
    let out = add_tag_to_clips(&mut store, &mut reg, &strings(&["a", "bb"]), "Win").unwrap();
    assert_eq!(out.len(), 2);
    assert_eq!(store.get("a").unwrap().tags, strings(&["win"]));
    assert_eq!(store.get("bb").unwrap().tags, strings(&["win"]));
    let out = remove_tag_from_clips(&mut store, &strings(&["bb"]), "win").unwrap();
    assert_eq!(out.len(), 1);
    assert!(store.get("bb").unwrap().tags.is_empty());
    assert_eq!(store.get("a").unwrap().tags, strings(&["win"]));
}

#[test]
fn tag_listing_create_and_delete() {
    let mut store = ClipStore::from_clips(vec![clip("a", &["Fun", "clutch"]), clip("bb", &["clutch"])]);
    let mut reg = TagRegistryStore::from_tags(strings(&["ace"]));
    assert_eq!(all_tags(&store, &reg), strings(&["ace", "clutch", "fun"]));
    assert_eq!(create_tag(&store, &mut reg, "Boom").unwrap(), strings(&["ace", "boom", "clutch", "fun"]));
    let (changed, tags) = delete_tag(&mut store, &mut reg, "clutch").unwrap();
    assert_eq!(changed.len(), 2);
    assert_eq!(tags, strings(&["ace", "boom", "fun"]));
    assert_eq!(delete_tag(&mut store, &mut reg, "").err().unwrap(), "tag cannot be empty");
}

#[test]
fn thumbnail_data_url_in_standard_base64() {
    assert_eq!(thumbnail_data_url(b"hello").unwrap(), "data:image/jpeg;base64,aGVsbG8=");
    assert_eq!(thumbnail_data_url(b"ab").unwrap(), "data:image/jpeg;base64,YWI=");
    assert_eq!(thumbnail_data_url(b"").unwrap_err(), "thumbnail file is empty");
}
