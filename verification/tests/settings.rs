use five33clip::settings::{
    default_delete_days, default_obs_integration_mode, default_obs_websocket_url, default_share_provider,
    default_share_region, obs_settings_with_detected_url, trim_end_slashes_exec, ObsSettingsUpdate,
    R2SettingsUpdate, SettingsStore,
};

fn r2_update() -> R2SettingsUpdate {
    R2SettingsUpdate {
        enabled: true,
        provider: " B2 ".to_string(),
        account_id: " acct ".to_string(),
        endpoint_url: " s3.us-west-004.backblazeb2.com/ ".to_string(),
        region: " us-west-004 ".to_string(),
        access_key_id: " AK ".to_string(),
        secret_access_key: Some(" SK ".to_string()),
        bucket: " clips ".to_string(),
        public_base_url: "https://cdn.example.com//".to_string(),
        delete_after_days: 0,
    }
}

#[test]
fn defaults() {
    assert_eq!(default_delete_days(), 15);
    assert_eq!(default_share_provider(), "r2");
    assert_eq!(default_share_region(), "auto");
    assert_eq!(default_obs_integration_mode(), "manual");
    assert_eq!(default_obs_websocket_url(), "ws://127.0.0.1:4455");
    let s = SettingsStore::new();
    assert!(s.watch_path().is_none());
    assert_eq!(s.obs().integration_mode, "manual");
    let r = s.r2_response();
    assert_eq!(r.provider, "r2");
    assert_eq!(r.region, "auto");
    assert!(!r.secret_set && !r.enabled);
    let r2 = s.r2();
    assert!(r2.account_id.is_empty() && r2.endpoint_url.is_empty() && r2.access_key_id.is_empty());
    assert!(r2.bucket.is_empty() && r2.public_base_url.is_empty() && r2.delete_after_days == 0);
    let o = s.obs();
    assert!(o.password.is_empty() && !o.auto_launch && !o.start_replay_on_launch);
}

#[test]
fn watch_path_round_trip() {
    let mut s = SettingsStore::new();
    s.set_watch_path(Some("C:\\Videos"));
    assert_eq!(s.watch_path().as_deref(), Some("C:\\Videos"));
    s.set_watch_path(None);
    assert!(s.watch_path().is_none());
}

#[test]
fn r2_update_normalized() {
    let mut s = SettingsStore::new();
    s.set_r2(r2_update());
    let r = s.r2();
    assert_eq!(r.provider, "b2");
    assert_eq!(r.account_id, "acct");
    assert_eq!(r.endpoint_url, "https://s3.us-west-004.backblazeb2.com");
    assert_eq!(r.region, "us-west-004");
    assert_eq!(r.access_key_id, "AK");
    assert_eq!(r.secret_access_key, "SK");
    assert_eq!(r.bucket, "clips");
    assert_eq!(r.public_base_url, "https://cdn.example.com");
    assert_eq!(r.delete_after_days, 1);
    let mut keep = r2_update();
    keep.secret_access_key = Some("   ".to_string());
    keep.provider = "r2".to_string();
    keep.endpoint_url = "s3.example.com".to_string();
    s.set_r2(keep);
    let r = s.r2();
    assert_eq!(r.secret_access_key, "SK");
    assert_eq!(r.endpoint_url, "s3.example.com");
    assert!(s.r2_response().secret_set);
}

#[test]
fn obs_update_normalized() {
    let mut s = SettingsStore::new();
    s.set_obs(ObsSettingsUpdate {
        integration_mode: " MANAGED ".to_string(),
        websocket_url: "   ".to_string(),
        password: Some(" pw ".to_string()),
        auto_launch: true,
        start_replay_on_launch: true,
    });
    let o = s.obs();
    assert_eq!(o.integration_mode, "managed");
    assert_eq!(o.websocket_url, "ws://127.0.0.1:4455");
    assert_eq!(o.password, "pw");
    assert!(o.auto_launch && o.start_replay_on_launch);
    s.set_obs(ObsSettingsUpdate {
        integration_mode: "sometimes".to_string(),
        websocket_url: " ws://10.0.0.2:4455 ".to_string(),
        password: None,
        auto_launch: false,
        start_replay_on_launch: false,
    });
    let o = s.obs();
    assert_eq!(o.integration_mode, "manual");
    assert_eq!(o.websocket_url, "ws://10.0.0.2:4455");
    assert_eq!(o.password, "pw");
    let resp = s.obs_response();
    assert!(resp.password_set);
}

#[test]
fn detected_url_shown_for_managed_default() {
    let mut s = SettingsStore::new();
    s.set_obs(ObsSettingsUpdate {
        integration_mode: "managed".to_string(),
        websocket_url: String::new(),
        password: None,
        auto_launch: false,
        start_replay_on_launch: false,
    });
    let r = obs_settings_with_detected_url(s.obs_response(), Some("ws://127.0.0.1:4460".to_string()));
    assert_eq!(r.websocket_url, "ws://127.0.0.1:4460");
    let r = obs_settings_with_detected_url(s.obs_response(), None);
    assert_eq!(r.websocket_url, "ws://127.0.0.1:4455");
}

#[test]
fn trailing_slashes_trimmed() {
    assert_eq!(trim_end_slashes_exec("a//"), "a");
    assert_eq!(trim_end_slashes_exec("/"), "");
    assert_eq!(trim_end_slashes_exec("a/b"), "a/b");
}
