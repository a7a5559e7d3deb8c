use five33clip::capture::{capture_mode_named, capture_source, new_obs_uuid, prune_legacy_scripts, update_capture_source, CaptureMode};
use five33clip::json::{get_bool, get_field, get_str, jobject, jstr, member, Json};

fn arr(j: &Json) -> &Vec<Json> {
    match j {
        Json::Array(v) => v,
        _ => panic!("expected an array"),
    }
}

fn collection(with_capture: bool) -> Json {
    let item = jobject(vec![member("name", jstr("Display Capture")), member("source_uuid", jstr("old"))]);
    let scene = jobject(vec![
        member("id", jstr("scene")),
        member("name", jstr("Scene")),
        member("settings", jobject(vec![member("items", Json::Array(vec![item]))])),
    ]);
    let mut sources = vec![scene];
    if with_capture {
        sources.push(jobject(vec![
            member("id", jstr("monitor_capture")),
            member("uuid", jstr("u-1")),
            member("settings", jobject(vec![member("monitor_id", jstr("DISPLAY1"))])),
        ]));
    }
    jobject(vec![member("name", jstr("Untitled")), member("sources", Json::Array(sources))])
}

#[test]
fn capture_mode_names() {
    assert_eq!(capture_mode_named(" Game ").unwrap(), CaptureMode::Game);
    assert_eq!(capture_mode_named("DISPLAY").unwrap(), CaptureMode::Display);
    assert_eq!(capture_mode_named("window").err().unwrap(), "capture mode must be display or game");
}

#[test]
fn obs_uuid_from_digest() {
    assert_eq!(new_obs_uuid(b"abc"), "ba7816bf-8f01-cfea-4141-40de5dae2223");
}

#[test]
fn game_capture_source_settings() {
    let s = capture_source(CaptureMode::Game, "u", "");
    assert_eq!(get_str(&s, "id").unwrap(), "game_capture");
    assert_eq!(get_str(&s, "name").unwrap(), "Game Capture");
    assert_eq!(get_str(&s, "uuid").unwrap(), "u");
    let settings = get_field(&s, "settings").unwrap();
    assert_eq!(get_str(settings, "capture_mode").unwrap(), "any_fullscreen");
    assert_eq!(get_bool(settings, "anti_cheat_hook"), Some(true));
    let d = capture_source(CaptureMode::Display, "u", "M1");
    assert_eq!(get_str(&d, "versioned_id").unwrap(), "monitor_capture");
    assert_eq!(get_str(get_field(&d, "settings").unwrap(), "monitor_id").unwrap(), "M1");
}

#[test]
fn switching_to_game_keeps_uuid_and_renames_item() {
    let out = update_capture_source(collection(true), CaptureMode::Game, "fresh").unwrap();
    let sources = arr(get_field(&out, "sources").unwrap());
    assert_eq!(sources.len(), 2);
    assert_eq!(get_str(&sources[1], "id").unwrap(), "game_capture");
    assert_eq!(get_str(&sources[1], "uuid").unwrap(), "u-1");
    let items = arr(get_field(get_field(&sources[0], "settings").unwrap(), "items").unwrap());
    assert_eq!(get_str(&items[0], "name").unwrap(), "Game Capture");
    assert_eq!(get_str(&items[0], "source_uuid").unwrap(), "u-1");
    assert_eq!(get_str(&items[0], "bounds_type").unwrap(), "OBS_BOUNDS_SCALE_INNER");
    assert_eq!(get_bool(&items[0], "visible"), Some(true));
    assert_eq!(get_str(&out, "name").unwrap(), "Untitled");
}

#[test]
fn display_mode_keeps_monitor_and_adds_missing_source() {
    let out = update_capture_source(collection(true), CaptureMode::Display, "fresh").unwrap();
    let sources = arr(get_field(&out, "sources").unwrap());
    assert_eq!(get_str(get_field(&sources[1], "settings").unwrap(), "monitor_id").unwrap(), "DISPLAY1");
    let out = update_capture_source(collection(false), CaptureMode::Display, "fresh").unwrap();
    let sources = arr(get_field(&out, "sources").unwrap());
    assert_eq!(sources.len(), 2);
    assert_eq!(get_str(&sources[1], "uuid").unwrap(), "fresh");
    assert_eq!(get_str(get_field(&sources[1], "settings").unwrap(), "monitor_id").unwrap(), "");
}

#[test]
fn collection_without_sources_refused() {
    let bad = jobject(vec![member("name", jstr("x"))]);
    assert_eq!(
        update_capture_source(bad, CaptureMode::Game, "u").err().unwrap(),
        "OBS scene collection missing sources"
    );
}

#[test]
fn legacy_scripts_pruned() {
    let scripts = Json::Array(vec![
        jobject(vec![member("path", jstr("C:/x/Silent_Notifier.py"))]),
        jobject(vec![member("path", jstr("C:/x/keep.lua"))]),
        jobject(vec![member("path", jstr("C:/x/MKV_Remover.py"))]),
    ]);
    let root = jobject(vec![member("modules", jobject(vec![member("scripts-tool", scripts)]))]);
    let out = prune_legacy_scripts(root).unwrap();
    let kept = arr(get_field(get_field(&out, "modules").unwrap(), "scripts-tool").unwrap());
    assert_eq!(kept.len(), 1);
    assert_eq!(get_str(&kept[0], "path").unwrap(), "C:/x/keep.lua");
    let clean = jobject(vec![member(
        "modules",
        jobject(vec![member("scripts-tool", Json::Array(vec![jobject(vec![member("path", jstr("a.lua"))])]))]),
    )]);
    assert!(prune_legacy_scripts(clean).is_none());
    assert!(prune_legacy_scripts(jobject(vec![])).is_none());
}
