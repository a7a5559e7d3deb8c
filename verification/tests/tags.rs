use five33clip::tags::{merge_tags_from_clips, normalize_tag, TagRegistryStore};

fn strings(v: &[&str]) -> Vec<String> {
    v.iter().map(|s| s.to_string()).collect()
}

#[test]
fn normalize_tag_trims_and_lowercases() {
    assert_eq!(normalize_tag("  Clutch ").unwrap(), "clutch");
    assert_eq!(normalize_tag("ÄRGER").unwrap(), "ärger");
}

#[test]
fn normalize_tag_rejects_empty() {
    assert_eq!(normalize_tag("   ").unwrap_err(), "tag cannot be empty");
}

#[test]
fn normalize_tag_counts_bytes_for_length() {
    let ok = "a".repeat(32);
    assert_eq!(normalize_tag(&ok).unwrap(), ok);
    assert_eq!(normalize_tag(&"a".repeat(33)).unwrap_err(), "tag too long (max 32)");
    // 17 two-byte letters are 34 bytes
    assert_eq!(normalize_tag(&"é".repeat(17)).unwrap_err(), "tag too long (max 32)");
}

#[test]
fn merge_tags_sorts_and_dedupes() {
    let known = strings(&["Zed", "alpha"]);
    let from_clips = strings(&[" beta ", "ALPHA", "", "zed"]);
    assert_eq!(merge_tags_from_clips(known, from_clips), strings(&["alpha", "beta", "zed"]));
}

#[test]
fn registry_ensure_tag_adds_sorted_once() {
    let mut reg = TagRegistryStore::from_tags(strings(&["b", "d"]));
    assert!(reg.ensure_tag(" C "));
    assert_eq!(reg.list(), strings(&["b", "c", "d"]));
    assert!(!reg.ensure_tag("c"));
    assert!(!reg.ensure_tag("   "));
    assert_eq!(reg.list(), strings(&["b", "c", "d"]));
}

#[test]
fn registry_remove_tag_reports_change() {
    let mut reg = TagRegistryStore::from_tags(strings(&["a", "b", "a"]));
    assert!(reg.remove_tag("a"));
    assert_eq!(reg.list(), strings(&["b"]));
    assert!(!reg.remove_tag("zzz"));
    assert_eq!(reg.into_tags(), strings(&["b"]));
}

#[test]
fn registry_starts_empty() {
    assert!(TagRegistryStore::new().list().is_empty());
}

#[test]
fn ensure_then_remove_restores_registry() {
    let mut r = TagRegistryStore::from_tags(strings(&["ace", "clutch"]));
    assert!(r.ensure_tag("  Boom "));
    assert_eq!(r.list(), strings(&["ace", "boom", "clutch"]));
    assert!(r.remove_tag("boom"));
    assert_eq!(r.list(), strings(&["ace", "clutch"]));
}
