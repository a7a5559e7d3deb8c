use five33clip::json::{get_bool, get_field, get_str, jnum, jobject, jstr, member, Json};
use five33clip::obs::{
    collect_recording_paths, connection_error_message, enable_websocket_config, extension, is_audio_input, is_obs_clip_file, launch_args,
    normalize_obs_path, password_from_config, recording_path_candidates, remux_target, resolve_obs_clip_path,
    resolve_websocket_url, runtime_status, updated_or, websocket_url_from_config,
};
use five33clip::settings::ObsSettings;

fn obs_settings(url: &str) -> ObsSettings {
    ObsSettings {
        integration_mode: "managed".to_string(),
        websocket_url: url.to_string(),
        password: String::new(),
        auto_launch: false,
        start_replay_on_launch: false,
    }
}

#[test]
fn extensions_like_path() {
    assert_eq!(extension("a.b.mp4").as_deref(), Some("mp4"));
    assert_eq!(extension(".hidden"), None);
    assert_eq!(extension("noext"), None);
    assert_eq!(extension("trailing."), Some(String::new()));
}

#[test]
fn clip_files_and_remux() {
    assert!(is_obs_clip_file("Replay.MP4"));
    assert!(!is_obs_clip_file("Replay.webm"));
    assert_eq!(remux_target("C:\\v\\Replay.MKV", "Replay.MKV").as_deref(), Some("C:\\v\\Replay.mp4"));
    assert_eq!(remux_target("C:\\v\\Replay.mp4", "Replay.mp4"), None);
    assert_eq!(resolve_obs_clip_path("/v/a.mkv", "a.mkv", true), "/v/a.mp4");
    assert_eq!(resolve_obs_clip_path("/v/a.mkv", "a.mkv", false), "/v/a.mkv");
    assert_eq!(resolve_obs_clip_path("/v/a.mov", "a.mov", true), "/v/a.mov");
}

#[test]
fn profile_paths() {
    assert_eq!(normalize_obs_path("  \"C:\\\\Users\\\\me\\\\Videos\"  "), "C:\\Users\\me\\Videos");
    let ini = "[SimpleOutput]\nFilePath=C:\\\\Clips\n[AdvOut]\n  RecFilePath=\"D:\\\\Rec\"\nFFFilePath=E:\\\\FF\nOther=1\n";
    assert_eq!(recording_path_candidates(ini), vec!["C:\\Clips", "D:\\Rec", "E:\\FF"]);
}

#[test]
fn refused_connections_explained() {
    assert_eq!(
        connection_error_message("os error 10061"),
        "OBS WebSocket refused connection. 533clip enabled it in config; restart OBS, then Check again."
    );
    assert_eq!(
        connection_error_message("target machine Actively Refused it"),
        "OBS WebSocket refused connection. 533clip enabled it in config; restart OBS, then Check again."
    );
    assert_eq!(connection_error_message("timeout"), "timeout");
}

#[test]
fn websocket_url_from_obs_config() {
    let cfg = jobject(vec![member("server_port", jnum("4460"))]);
    assert_eq!(websocket_url_from_config(Some(&cfg)).as_deref(), Some("ws://127.0.0.1:4460"));
    let zero = jobject(vec![member("server_port", jnum("0"))]);
    assert_eq!(websocket_url_from_config(Some(&zero)).as_deref(), Some("ws://127.0.0.1:4455"));
    let huge = jobject(vec![member("server_port", jnum("70000"))]);
    assert_eq!(websocket_url_from_config(Some(&huge)).as_deref(), Some("ws://127.0.0.1:4455"));
    assert_eq!(websocket_url_from_config(None), None);
}

#[test]
fn configured_url_wins_unless_default() {
    assert_eq!(resolve_websocket_url(&obs_settings(" ws://10.0.0.2:4455 "), Some("ws://x".to_string())), "ws://10.0.0.2:4455");
    assert_eq!(resolve_websocket_url(&obs_settings("ws://127.0.0.1:4455"), Some("ws://127.0.0.1:4460".to_string())), "ws://127.0.0.1:4460");
    assert_eq!(resolve_websocket_url(&obs_settings(""), None), "ws://127.0.0.1:4455");
}

#[test]
fn password_read_from_config() {
    let cfg = jobject(vec![member("server_password", jstr("  s3cret "))]);
    assert_eq!(password_from_config(Some(&cfg)).as_deref(), Some("s3cret"));
    let blank = jobject(vec![member("server_password", jstr("   "))]);
    assert_eq!(password_from_config(Some(&blank)), None);
}

#[test]
fn websocket_config_switched_on_with_defaults() {
    let (cfg, changed) = enable_websocket_config(jobject(vec![member("server_port", jnum("4460"))]));
    assert!(changed);
    assert_eq!(get_bool(&cfg, "server_enabled"), Some(true));
    assert_eq!(get_bool(&cfg, "auth_required"), Some(false));
    assert_eq!(get_bool(&cfg, "alerts_enabled"), Some(false));
    assert!(matches!(get_field(&cfg, "server_port"), Some(Json::Number(n)) if n == "4460"));
    let (_, changed) = enable_websocket_config(jobject(vec![member("server_enabled", Json::Bool(true))]));
    assert!(!changed);
    let (cfg, _) = enable_websocket_config(jobject(vec![]));
    assert!(matches!(get_field(&cfg, "server_port"), Some(Json::Number(n)) if n == "4455"));
    assert!(get_str(&cfg, "server_password").is_none());
}

#[test]
fn runtime_status_cases() {
    let reply = jobject(vec![member("outputActive", Json::Bool(true))]);
    let s = runtime_status(Some("C:\\obs64.exe".to_string()), true, false, Some(Ok(reply)));
    assert!(s.installed && s.running && s.websocket_connected && s.replay_buffer_active && s.error.is_none());
    let s = runtime_status(None, false, true, None);
    assert!(!s.installed && !s.websocket_connected);
    assert_eq!(s.error.as_deref(), Some("OBS WebSocket was off. 533clip enabled it; restart OBS."));
    let s = runtime_status(None, true, true, Some(Err("os error 10061".to_string())));
    assert!(!s.websocket_connected);
    assert_eq!(
        s.error.as_deref(),
        Some("OBS WebSocket refused connection. 533clip enabled it in config; restart OBS, then Check again.")
    );
}

#[test]
fn audio_inputs_by_name_or_kind() {
    assert!(is_audio_input("Mic/Aux", "wasapi_input_capture"));
    assert!(is_audio_input("Desktop Audio", "x"));
    assert!(is_audio_input("Headset", "wasapi_output_capture"));
    assert!(!is_audio_input("Game Capture", "game_capture"));
    assert!(!is_audio_input("", "wasapi_input_capture"));
}

#[test]
fn profile_writers_report_nothing_changed() {
    assert_eq!(updated_or(vec![], "No OBS profile basic.ini updated").err().unwrap(), "No OBS profile basic.ini updated");
    assert_eq!(updated_or(vec!["a".to_string()], "x").unwrap(), vec!["a"]);
}

#[test]
fn obs_launch_arguments() {
    assert_eq!(launch_args(true), vec!["--disable-shutdown-check", "--minimize-to-tray", "--startreplaybuffer"]);
    assert_eq!(launch_args(false), vec!["--disable-shutdown-check", "--minimize-to-tray"]);
}

#[test]
fn recording_paths_sorted_once() {
    let found = vec!["D:\\b".to_string(), "C:\\a".to_string(), "D:\\b".to_string()];
    assert_eq!(collect_recording_paths(found), vec!["C:\\a".to_string(), "D:\\b".to_string()]);
    assert!(collect_recording_paths(Vec::new()).is_empty());
}

#[test]
fn resolving_twice_is_resolving_once() {
    let once = resolve_obs_clip_path("/v/a.MKV", "a.MKV", true);
    assert_eq!(once, "/v/a.mp4");
    assert_eq!(resolve_obs_clip_path(&once, "a.mp4", true), once);
    let kept = resolve_obs_clip_path("/v/b.mkv", "b.mkv", false);
    assert_eq!(resolve_obs_clip_path(&kept, "b.mkv", false), kept);
}
