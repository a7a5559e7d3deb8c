use five33clip::clip::{Clip, ClipStatus};
use five33clip::instant::Instant;
use five33clip::settings::R2Settings;
use five33clip::sharing::{
    clear_share, expired_shares, export_checks, export_friend_config, import_friend_config, r2_client_config,
    record_share, share_key, share_link, upload_checks, ShareLink,
};
use five33clip::store::ClipStore;

fn r2() -> R2Settings {
    R2Settings {
        enabled: true,
        provider: "r2".to_string(),
        account_id: "acct".to_string(),
        endpoint_url: String::new(),
        region: String::new(),
        access_key_id: "AK".to_string(),
        secret_access_key: "SK".to_string(),
        bucket: "clips".to_string(),
        public_base_url: String::new(),
        delete_after_days: 15,
    }
}

fn clip(id: &str) -> Clip {
    Clip {
        id: id.to_string(),
        file_path: format!("/c/{id}.mp4"),
        file_name: format!("{id}.mp4"),
        display_name: None,
        game_name: None,
        created_at: "2024-05-01T00:00:00Z".to_string(),
        duration_us: Some(12_000_000),
        resolution: None,
        thumbnail_path: None,
        is_favorite: false,
        tags: Vec::new(),
        status: ClipStatus::Ready,
        share_url: None,
        share_key: None,
        shared_at: None,
        audio_peaks_us: None,
        waveform_bits: None,
    }
}

#[test]
fn r2_endpoint_from_account() {
    let c = r2_client_config(&r2()).unwrap();
    assert_eq!(c.endpoint, "https://acct.r2.cloudflarestorage.com");
    assert_eq!(c.region, "auto");
    assert_eq!(c.provider_name, "r2");
}

#[test]
fn b2_endpoint_trimmed_and_default_region() {
    let mut s = r2();
    s.provider = " B2 ".to_string();
    s.endpoint_url = " https://s3.eu-central-003.backblazeb2.com// ".to_string();
    let c = r2_client_config(&s).unwrap();
    assert_eq!(c.endpoint, "https://s3.eu-central-003.backblazeb2.com");
    assert_eq!(c.region, "us-west-004");
    assert_eq!(c.provider_name, "b2");
    s.region = " eu-central-003 ".to_string();
    assert_eq!(r2_client_config(&s).unwrap().region, "eu-central-003");
}

#[test]
fn client_config_errors() {
    let mut s = r2();
    s.bucket = String::new();
    assert_eq!(r2_client_config(&s).err().unwrap(), "sharing settings incomplete");
    let mut s = r2();
    s.account_id = "  ".to_string();
    assert_eq!(r2_client_config(&s).err().unwrap(), "R2 account ID missing");
    let mut s = r2();
    s.provider = "b2".to_string();
    assert_eq!(r2_client_config(&s).err().unwrap(), "Backblaze B2 endpoint missing");
}

#[test]
fn share_links() {
    let mut s = r2();
    assert!(matches!(share_link(&s, "c/x.mp4"), ShareLink::Presigned(604_800)));
    s.delete_after_days = 0;
    assert!(matches!(share_link(&s, "c/x.mp4"), ShareLink::Presigned(86_400)));
    s.public_base_url = "https://cdn.example.com//".to_string();
    match share_link(&s, "c/x.mp4") {
        ShareLink::Public(u) => assert_eq!(u, "https://cdn.example.com/c/x.mp4"),
        _ => panic!("expected a public link"),
    }
}

#[test]
fn share_key_keeps_ten_alphanumerics() {
    assert_eq!(share_key("ab-cd_ef0123456789"), "c/abcdef0123.mp4");
    assert_eq!(share_key("--"), "c/.mp4");
}

#[test]
fn upload_and_export_checks() {
    let c = clip("a");
    assert_eq!(upload_checks(Some(&c), true).unwrap(), 12_000_000);
    assert_eq!(upload_checks(Some(&c), false).err().unwrap(), "cloud sharing is disabled");
    assert_eq!(upload_checks(None, true).err().unwrap(), "clip not found");
    let mut d = clip("b");
    d.duration_us = None;
    assert_eq!(export_checks(Some(&d)).err().unwrap(), "clip duration unknown — wait for processing to finish");
    assert_eq!(export_checks(Some(&c)).unwrap(), 12_000_000);
}

#[test]
fn record_and_clear_share() {
    let mut store = ClipStore::from_clips(vec![clip("a")]);
    let c = record_share(&mut store, "a", "c/a.mp4", "https://x/c/a.mp4", "2024-05-02T00:00:00+00:00").unwrap();
    assert_eq!(c.share_key.as_deref(), Some("c/a.mp4"));
    assert_eq!(c.share_url.as_deref(), Some("https://x/c/a.mp4"));
    assert_eq!(record_share(&mut store, "zz", "k", "u", "t").err().unwrap(), "clip not found after upload");
    let c = clear_share(&mut store, "a").unwrap();
    assert!(c.share_key.is_none() && c.share_url.is_none() && c.shared_at.is_none());
}

#[test]
fn expired_shares_by_cutoff() {
    let mut old = clip("old");
    old.share_key = Some("c/old.mp4".to_string());
    old.shared_at = Some("2024-05-01T00:00:00+00:00".to_string());
    let mut fresh = clip("fresh");
    fresh.share_key = Some("c/fresh.mp4".to_string());
    fresh.shared_at = Some("2024-05-20T00:00:00+00:00".to_string());
    let mut keyless = clip("keyless");
    keyless.shared_at = Some("2024-05-01T00:00:00+00:00".to_string());
    let clips = vec![old, fresh, keyless];
    // 2024-05-16T00:00:00Z
    let now = Instant { secs: 1_715_817_600, nanos: 0 };
    let out = expired_shares(&clips, true, now, 15);
    assert_eq!(out.len(), 1);
    assert_eq!((out[0].id.as_str(), out[0].key.as_str()), ("old", "c/old.mp4"));
    assert!(expired_shares(&clips, false, now, 15).is_empty());
    // exactly at the cutoff still counts
    let at_cutoff = Instant { secs: 1_714_521_600 + 15 * 86_400, nanos: 0 };
    assert_eq!(expired_shares(&clips, true, at_cutoff, 15).len(), 1);
}

#[test]
fn friend_config_round_trip() {
    let exported = export_friend_config(&r2());
    assert_eq!(exported.app, "533clip");
    assert_eq!(exported.version, 1);
    let mut mine = r2();
    mine.access_key_id = "MINE".to_string();
    let mut cfg = exported;
    cfg.access_key_id = "  ".to_string();
    cfg.secret_access_key = String::new();
    let update = import_friend_config(cfg, &mine).unwrap();
    assert!(update.enabled);
    assert_eq!(update.access_key_id, "MINE");
    assert!(update.secret_access_key.is_none());
    assert_eq!(update.bucket, "clips");
    let mut bad = export_friend_config(&r2());
    bad.app = "other".to_string();
    assert_eq!(import_friend_config(bad, &mine).err().unwrap(), "Not a 533clip sharing config");
}

#[test]
fn share_times_read_with_offset_and_fraction() {
    // 2024-05-01T12:00:00.250+02:00 is 1_714_557_600 s and 250 ms after the epoch.
    let mut c = clip("c");
    c.share_key = Some("c/c.mp4".to_string());
    c.shared_at = Some("2024-05-01T12:00:00.250+02:00".to_string());
    let mut bad = clip("bad");
    bad.share_key = Some("c/bad.mp4".to_string());
    bad.shared_at = Some("yesterday".to_string());
    let clips = vec![c, bad];
    let at = Instant { secs: 1_714_557_600 + 86_400, nanos: 250_000_000 };
    let out = expired_shares(&clips, true, at, 1);
    assert_eq!(out.len(), 1);
    assert_eq!(out[0].id, "c");
    let just_before = Instant { secs: 1_714_557_600 + 86_400, nanos: 249_999_999 };
    assert!(expired_shares(&clips, true, just_before, 1).is_empty());
}
