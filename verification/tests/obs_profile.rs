use five33clip::obs_profile::{
    apply_ini_edits, disable_auto_remux_edits, ini_edit, obs_hotkey_entry, obs_key_name, preset_edits,
    quality_preset_edits, quality_preset_named, recording_hotkey_edits, replay_duration_edits, replay_hotkey_edits,
    is_json_plain, recording_hotkey_value, replay_hotkey_value, QualityPreset,
};

fn triples(v: &[five33clip::obs_profile::IniEdit]) -> Vec<(String, String, String)> {
    v.iter().map(|e| (e.section.clone(), e.key.clone(), e.value.clone())).collect()
}

fn t(s: &str, k: &str, v: &str) -> (String, String, String) {
    (s.to_string(), k.to_string(), v.to_string())
}

#[test]
fn key_names() {
    assert_eq!(obs_key_name("F8").unwrap(), "OBS_KEY_F8");
    assert_eq!(obs_key_name("F08").unwrap(), "OBS_KEY_F8");
    assert_eq!(obs_key_name("F24").unwrap(), "OBS_KEY_F24");
    assert_eq!(obs_key_name("F25").err().unwrap(), "Unsupported hotkey key: F25");
    assert_eq!(obs_key_name("X").unwrap(), "OBS_KEY_X");
    assert_eq!(obs_key_name("7").unwrap(), "OBS_KEY_7");
    assert_eq!(obs_key_name("ENTER").unwrap(), "OBS_KEY_RETURN");
    assert_eq!(obs_key_name("ESC").unwrap(), "OBS_KEY_ESCAPE");
    assert_eq!(obs_key_name("HOME").err().unwrap(), "Unsupported hotkey key: HOME");
}

#[test]
fn hotkey_entries() {
    let e = obs_hotkey_entry(" ctrl + Shift + f8 ").unwrap();
    assert!(e.control && e.shift && !e.alt && !e.command);
    assert_eq!(e.key, "OBS_KEY_F8");
    let e = obs_hotkey_entry("win+a+b").unwrap();
    assert!(e.command);
    assert_eq!(e.key, "OBS_KEY_B");
    assert_eq!(obs_hotkey_entry("ctrl+alt").err().unwrap(), "Hotkey needs a key, example F8");
    assert_eq!(obs_hotkey_entry("ctrl+home").err().unwrap(), "Unsupported hotkey key: HOME");
}

#[test]
fn replay_duration_clamped() {
    assert_eq!(
        triples(&replay_duration_edits(1000)),
        vec![t("SimpleOutput", "RecRBTime", "600"), t("AdvOut", "RecRBTime", "600")]
    );
    assert_eq!(triples(&replay_duration_edits(1))[0].2, "5");
    assert_eq!(triples(&replay_duration_edits(45))[1].2, "45");
}

#[test]
fn hotkey_and_remux_edits() {
    assert_eq!(triples(&replay_hotkey_edits("{}")), vec![t("Hotkeys", "ReplayBuffer", "{}")]);
    assert_eq!(
        triples(&recording_hotkey_edits("[a]", "[b]")),
        vec![t("Hotkeys", "OBSBasic.StartRecording", "[a]"), t("Hotkeys", "OBSBasic.StopRecording", "[b]")]
    );
    assert_eq!(
        triples(&disable_auto_remux_edits()),
        vec![t("Video", "AutoRemux", "false"), t("SimpleOutput", "RecFormat2", "mkv"), t("AdvOut", "RecFormat2", "mkv")]
    );
}

#[test]
fn preset_names() {
    assert_eq!(quality_preset_named(" HIGH "), Some(QualityPreset::High));
    assert_eq!(quality_preset_named("533"), Some(QualityPreset::Tiny));
    assert_eq!(quality_preset_named("ultra"), None);
    assert_eq!(
        quality_preset_edits("ultra").err().unwrap(),
        "Unknown OBS preset. Use high, medium, low, potato, or 533."
    );
}

#[test]
fn preset_edit_lists() {
    let high = triples(&preset_edits(QualityPreset::High));
    assert_eq!(high.len(), 47);
    assert_eq!(high[0], t("SimpleOutput", "VBitrate", "8000"));
    assert!(high.contains(&t("SimpleOutput", "NVENCTuning", "hq")));
    assert!(high.contains(&t("Video", "OutputCX", "1536")));
    assert_eq!(high.last().unwrap(), &t("Video", "AutoRemux", "false"));
    let tiny = triples(&quality_preset_edits("533").unwrap());
    assert!(tiny.contains(&t("AdvOut", "Encoder", "obs_x264")));
    assert!(tiny.contains(&t("Video", "ColorRange", "Full")));
    assert!(tiny.contains(&t("SimpleOutput", "RecRBTime", "12")));
}

#[test]
fn edits_applied_in_order() {
    let edits = vec![ini_edit("Video", "FPSCommon", "30"), ini_edit("Video", "FPSCommon", "60")];
    assert_eq!(apply_ini_edits("", &edits), "[Video]\nFPSCommon=60\n");
    let out = apply_ini_edits("[Video]\nBaseCX=1\n", &preset_edits(QualityPreset::Low));
    assert!(out.contains("BaseCX=1920\n"));
    assert!(out.contains("[SimpleOutput]\nVBitrate=1400\n"));
    assert!(out.contains("StreamEncoder=nvenc\n"));
}

#[test]
fn hotkey_values_as_obs_stores_them() {
    let e = obs_hotkey_entry("Shift+Ctrl+F9").unwrap();
    assert_eq!(
        replay_hotkey_value(&e),
        r#"{"ReplayBuffer.Save":[{"control":true,"key":"OBS_KEY_F9","shift":true}]}"#
    );
    let all = obs_hotkey_entry("alt+win+ctrl+shift+a").unwrap();
    assert_eq!(
        recording_hotkey_value(&all),
        r#"[{"alt":true,"command":true,"control":true,"key":"OBS_KEY_A","shift":true}]"#
    );
    let plain = obs_hotkey_entry("F8").unwrap();
    assert_eq!(recording_hotkey_value(&plain), r#"[{"key":"OBS_KEY_F8"}]"#);
}

#[test]
fn hotkey_keys_need_no_json_escaping() {
    for h in ["F1", "Ctrl+F24", "a", "9", "Space", "tab", "Enter", "Esc"] {
        assert!(is_json_plain(&obs_hotkey_entry(h).unwrap().key), "{h}");
    }
    assert!(!is_json_plain("a\"b"));
    assert!(!is_json_plain("a\\b"));
    assert!(!is_json_plain("a\nb"));
}
