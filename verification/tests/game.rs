use five33clip::game::{
    clean_name, clean_title, clear_game_name, detect_game_name, infer_game_name, is_generic_process,
    is_ignored_process, last_game_name, remember_game_name, strip_exe, title_or, ActiveWindowInfo,
};

fn info(title: &str, process: &str) -> ActiveWindowInfo {
    ActiveWindowInfo { title: title.to_string(), process_name: process.to_string() }
}

#[test]
fn roblox_player_uses_cleaned_title() {
    assert_eq!(infer_game_name(&info("Roblox - Obby", "RobloxPlayerBeta.exe")), "Obby");
    assert_eq!(infer_game_name(&info("Roblox", "RobloxPlayerBeta.exe")), "Roblox");
}

#[test]
fn roblox_studio_by_process_or_title() {
    assert_eq!(infer_game_name(&info("x", "RobloxStudioBeta.exe")), "Roblox Studio");
    assert_eq!(infer_game_name(&info("Roblox Studio - Place", "Studio.exe")), "Roblox Studio");
}

#[test]
fn special_cased_names() {
    assert_eq!(infer_game_name(&info("", "blender-launcher.exe")), "Blender");
    assert_eq!(infer_game_name(&info("", "Kletka-Win64.exe")), "Kletka");
    assert_eq!(infer_game_name(&info("", "tModLoader.exe")), "tModLoader");
    assert_eq!(infer_game_name(&info("", "Terraria.exe")), "Terraria");
}

#[test]
fn generic_process_prefers_title() {
    assert_eq!(infer_game_name(&info("Minecraft 1.20.1", "javaw.exe")), "Minecraft 1.20.1");
    assert_eq!(infer_game_name(&info("  ", "javaw.exe")), "javaw");
}

#[test]
fn plain_process_name_is_cleaned() {
    assert_eq!(infer_game_name(&info("whatever", "Hollow_Knight.exe")), "Hollow Knight");
    assert_eq!(infer_game_name(&info("", "Some-Game--Here.EXE")), "Some Game Here");
    assert_eq!(infer_game_name(&info("", "Game.Exe")), "Game.Exe");
}

#[test]
fn strip_exe_only_exact_cases() {
    assert_eq!(strip_exe("a.exe"), "a");
    assert_eq!(strip_exe("a.EXE"), "a");
    assert_eq!(strip_exe("a.Exe"), "a.Exe");
}

#[test]
fn clean_title_drops_store_suffixes() {
    assert_eq!(clean_title("Forza - Microsoft Store"), "Forza");
    assert_eq!(clean_title("terraria"), "");
    assert_eq!(title_or("Fallback", "ROBLOX"), "Fallback");
}

#[test]
fn clean_name_collapses_separators() {
    assert_eq!(clean_name("  a__b - c  "), "a b c");
    assert_eq!(clean_name("MyBlenderThing"), "Blender");
}

#[test]
fn process_lists() {
    assert!(is_generic_process("unityplayer"));
    assert!(!is_generic_process("valorant"));
    assert!(is_ignored_process("obs64"));
    assert!(is_ignored_process("winstore.app"));
    assert!(!is_ignored_process("valorant"));
}

#[test]
fn detect_skips_ignored_and_missing() {
    assert_eq!(detect_game_name(None), None);
    assert_eq!(detect_game_name(Some(&info("File Explorer", "explorer.exe"))), None);
    assert_eq!(detect_game_name(Some(&info("x", "EXPLORER.EXE"))), None);
    assert_eq!(detect_game_name(Some(&info("x", "Hades.exe"))), Some("Hades".to_string()));
}

#[test]
fn remembered_game_is_trimmed() {
    let mut slot: Option<String> = None;
    remember_game_name(&mut slot, "  Apex  ");
    assert_eq!(last_game_name(&slot), Some("Apex".to_string()));
    remember_game_name(&mut slot, "   ");
    assert_eq!(last_game_name(&slot), Some("Apex".to_string()));
    clear_game_name(&mut slot);
    assert_eq!(last_game_name(&slot), None);
}
