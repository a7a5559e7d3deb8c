use five33clip::clip::{clip_detected_payload, clip_from_path, hex_string, stable_clip_id, ClipStatus, FileTime};

#[test]
fn hex_string_is_lower_case_two_digits() {
    assert_eq!(hex_string(&[0x00, 0x0f, 0xab, 0xff]), "000fabff");
}

#[test]
fn stable_clip_id_hashes_path_and_millis() {
    assert_eq!(
        stable_clip_id("C:\\clips\\a.mp4", 1_700_000_000_123),
        "2ea1d64d99b77b684c98276eed57c5fd392da76fae9e14711690f64d17591978"
    );
}

#[test]
fn stable_clip_id_is_stable() {
    assert_eq!(stable_clip_id("x.mp4", 5), stable_clip_id("x.mp4", 5));
    assert_ne!(stable_clip_id("x.mp4", 5), stable_clip_id("x.mp4", 6));
}

#[test]
fn clip_from_path_builds_fresh_record() {
    let t = FileTime { secs: 1_700_000_000, nanos: 123_456_789 };
    let c = clip_from_path("C:\\clips\\a.mp4", Some("a.mp4".to_string()), t, ClipStatus::Processing).unwrap();
    assert_eq!(c.id, "2ea1d64d99b77b684c98276eed57c5fd392da76fae9e14711690f64d17591978");
    assert_eq!(c.file_path, "C:\\clips\\a.mp4");
    assert_eq!(c.file_name, "a.mp4");
    assert_eq!(c.created_at, "2023-11-14T22:13:20.123456789+00:00");
    assert_eq!(c.status, ClipStatus::Processing);
    assert!(c.display_name.is_none() && c.game_name.is_none() && c.duration_us.is_none());
    assert!(c.tags.is_empty() && !c.is_favorite && c.thumbnail_path.is_none());
}

#[test]
fn clip_from_path_without_name_is_unknown() {
    let t = FileTime { secs: 0, nanos: 0 };
    let c = clip_from_path("/", None, t, ClipStatus::Ready).unwrap();
    assert_eq!(c.file_name, "unknown");
    assert_eq!(c.created_at, "1970-01-01T00:00:00+00:00");
}

#[test]
fn clip_detected_payload_copies_fields() {
    let t = FileTime { secs: 1_700_000_000, nanos: 0 };
    let mut c = clip_from_path("D:/v/b.mkv", Some("b.mkv".to_string()), t, ClipStatus::Processing).unwrap();
    c.game_name = Some("Valorant".to_string());
    let p = clip_detected_payload(&c);
    assert_eq!(p.id, c.id);
    assert_eq!(p.file_path, "D:/v/b.mkv");
    assert_eq!(p.file_name, "b.mkv");
    assert_eq!(p.created_at, "2023-11-14T22:13:20+00:00");
    assert_eq!(p.game_name.as_deref(), Some("Valorant"));
}

#[test]
fn stable_clip_id_is_64_lower_hex() {
    let id = stable_clip_id("/v/b.mp4", -5);
    assert_eq!(id.len(), 64);
    assert!(id.chars().all(|c| c.is_ascii_digit() || ('a'..='f').contains(&c)));
}
