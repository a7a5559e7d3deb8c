use five33clip::monitors::{
    game_monitor_step, integration_off, recording_monitor_step, GameMonitor, GamePoll, RecordingMonitor, RecordingPoll,
};

fn seen(m: &mut GameMonitor, g: &str) -> Option<String> {
    game_monitor_step(m, GamePoll::Detected(Some(g.to_string()))).lock
}

#[test]
fn game_locked_after_two_polls_once() {
    let mut m = GameMonitor::new();
    assert_eq!(seen(&mut m, "Hades"), None);
    assert_eq!(seen(&mut m, "Hades"), Some("Hades".to_string()));
    assert_eq!(seen(&mut m, "Hades"), None);
    assert_eq!(seen(&mut m, "Apex"), None);
    assert_eq!(seen(&mut m, "Apex"), Some("Apex".to_string()));
}

#[test]
fn losing_the_game_starts_over() {
    let mut m = GameMonitor::new();
    seen(&mut m, "Hades");
    seen(&mut m, "Hades");
    let a = game_monitor_step(&mut m, GamePoll::Detected(None));
    assert!(a.lock.is_none());
    assert_eq!(a.sleep_secs, 2);
    assert_eq!(seen(&mut m, "Hades"), None);
    assert_eq!(seen(&mut m, "Hades"), Some("Hades".to_string()));
    let off = game_monitor_step(&mut m, GamePoll::Off);
    assert_eq!(off.sleep_secs, 3);
    assert!(m.active_game.is_none() && m.candidate.is_none() && m.candidate_count == 0);
    game_monitor_step(&mut m, GamePoll::ObsStopped);
    assert_eq!(seen(&mut m, "Hades"), None);
}

#[test]
fn integration_mode_off() {
    assert!(integration_off(&Some("off".to_string())));
    assert!(!integration_off(&Some("managed".to_string())));
    assert!(!integration_off(&None));
}

#[test]
fn recording_overlay_on_flips_only() {
    let mut m = RecordingMonitor::new();
    let a = recording_monitor_step(&mut m, RecordingPoll::Active(true));
    assert!(a.show_overlay.is_none());
    assert_eq!(a.sleep_ms, 2500);
    assert!(recording_monitor_step(&mut m, RecordingPoll::Active(true)).show_overlay.is_none());
    assert_eq!(recording_monitor_step(&mut m, RecordingPoll::Active(false)).show_overlay, Some(false));
    assert_eq!(recording_monitor_step(&mut m, RecordingPoll::ObsStopped).sleep_ms, 2000);
    assert_eq!(m.last, Some(false));
    assert_eq!(recording_monitor_step(&mut m, RecordingPoll::Active(true)).show_overlay, Some(true));
    assert_eq!(recording_monitor_step(&mut m, RecordingPoll::NotManaged).sleep_ms, 3000);
    assert!(recording_monitor_step(&mut m, RecordingPoll::Active(false)).show_overlay.is_none());
}

#[test]
fn recording_errors_reported_once_each() {
    let mut m = RecordingMonitor::new();
    let a = recording_monitor_step(&mut m, RecordingPoll::CheckFailed("auth".to_string()));
    assert_eq!(a.report.as_deref(), Some("OBS recording check failed: auth"));
    assert!(recording_monitor_step(&mut m, RecordingPoll::CheckFailed("auth".to_string())).report.is_none());
    assert!(recording_monitor_step(&mut m, RecordingPoll::CheckFailed("timeout".to_string())).report.is_some());
    let s = recording_monitor_step(&mut m, RecordingPoll::SettingsUnreadable);
    assert_eq!(s.sleep_ms, 2000);
    assert_eq!(m.last_error.as_deref(), Some("timeout"));
    recording_monitor_step(&mut m, RecordingPoll::Active(true));
    assert!(recording_monitor_step(&mut m, RecordingPoll::CheckFailed("timeout".to_string())).report.is_some());
}
