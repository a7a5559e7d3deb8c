use five33clip::clip::FileTime;
use five33clip::watcher::{
    begin_new_clip, dedupe_clip_key, event_kind_label, find_newest_clip, has_ext, is_clip_candidate, is_new_clip_event,
    pick_final_path, route_event, scan_order, stability_step, within_root, DirClip, EventPath, FinalPick, InFlight,
    NewClipStart, PathRoute, ScanFile, SizeSample, StabilityState, WatchEventKind, WatcherError,
};

#[test]
fn watcher_error_messages() {
    assert_eq!(WatcherError::NotConfigured.message(), "watch path not set");
    assert_eq!(WatcherError::Notify("boom".to_string()).message(), "watcher error: boom");
}

#[test]
fn event_kinds() {
    assert_eq!(event_kind_label(WatchEventKind::Create), "create");
    assert_eq!(event_kind_label(WatchEventKind::Other), "other");
    assert!(is_new_clip_event(WatchEventKind::Modify));
    assert!(is_new_clip_event(WatchEventKind::Any));
    assert!(!is_new_clip_event(WatchEventKind::Remove));
    assert!(!is_new_clip_event(WatchEventKind::Access));
}

#[test]
fn clip_candidates_and_extensions() {
    assert!(is_clip_candidate("Replay 2024.MKV"));
    assert!(is_clip_candidate("a.mov"));
    assert!(!is_clip_candidate("a.txt"));
    assert!(!is_clip_candidate(".mp4"));
    assert!(has_ext("x.MkV", "mkv"));
    assert!(!has_ext("x.mp4", "mkv"));
}

#[test]
fn dedupe_key_drops_extension() {
    assert_eq!(dedupe_clip_key("C:\\v\\Replay.mkv", "Replay.mkv"), "C:\\v\\Replay");
    assert_eq!(dedupe_clip_key("C:\\v\\Replay.mp4", "Replay.mp4"), "C:\\v\\Replay");
    assert_eq!(dedupe_clip_key("/v/a.b.mp4", "a.b.mp4"), "/v/a.b");
    assert_eq!(dedupe_clip_key("/v/noext", "noext"), "/v/noext");
}

#[test]
fn within_root_respects_components() {
    assert!(within_root("C:\\videos\\a.mp4", "C:\\videos"));
    assert!(within_root("C:\\videos\\a.mp4", "C:\\videos\\"));
    assert!(!within_root("C:\\videos2\\a.mp4", "C:\\videos"));
    assert!(within_root("/v/sub/a.mp4", "/v"));
    assert!(!within_root("/w/a.mp4", "/v"));
}

#[test]
fn routing_of_event_paths() {
    let paths = vec![
        EventPath { path: "/v/a.mp4".to_string(), file_name: "a.mp4".to_string() },
        EventPath { path: "/v/a.txt".to_string(), file_name: "a.txt".to_string() },
        EventPath { path: "/elsewhere/b.mp4".to_string(), file_name: "b.mp4".to_string() },
    ];
    assert_eq!(
        route_event(WatchEventKind::Create, &paths, "/v"),
        vec![PathRoute::Queue, PathRoute::NotClip, PathRoute::Ignored]
    );
    assert_eq!(route_event(WatchEventKind::Remove, &paths, "/v"), vec![PathRoute::Deleted; 3]);
    assert_eq!(route_event(WatchEventKind::Access, &paths, "/v"), vec![PathRoute::Ignored; 3]);
}

fn run(samples: &[SizeSample]) -> Option<usize> {
    let mut st = StabilityState::new();
    for (i, s) in samples.iter().enumerate() {
        let (next, stable) = stability_step(st, *s);
        if stable {
            return Some(i);
        }
        st = next;
    }
    None
}

#[test]
fn stable_after_eight_repeats() {
    let same = vec![SizeSample::Size(100); 9];
    assert_eq!(run(&same), Some(8));
    assert_eq!(run(&same[..8]), None);
}

#[test]
fn growth_zero_and_missing_reset_the_count() {
    let mut s = vec![SizeSample::Size(100); 5];
    s.push(SizeSample::Size(200));
    s.extend(vec![SizeSample::Size(200); 8]);
    assert_eq!(run(&s), Some(13));
    let zeros = vec![SizeSample::Size(0); 20];
    assert_eq!(run(&zeros), None);
    let mut m = vec![SizeSample::Size(5); 7];
    m.push(SizeSample::Missing);
    m.extend(vec![SizeSample::Size(5); 8]);
    assert_eq!(run(&m), None);
    m.push(SizeSample::Size(5));
    assert_eq!(run(&m), Some(16));
}

#[test]
fn in_flight_claims_once() {
    let mut f = InFlight::new();
    assert!(f.claim("/v/a".to_string()));
    assert!(!f.claim("/v/a".to_string()));
    assert!(f.contains("/v/a"));
    f.release("/v/a");
    assert!(!f.contains("/v/a"));
    assert!(f.claim("/v/a".to_string()));
    f.clear();
    assert!(!f.contains("/v/a"));
}

#[test]
fn new_clip_start_decisions() {
    let mut f = InFlight::new();
    assert!(matches!(begin_new_clip(&mut f, "/v/a.mp4", "a.mp4", false), NewClipStart::Vanished));
    assert!(!f.contains("/v/a"));
    match begin_new_clip(&mut f, "/v/a.mkv", "a.mkv", true) {
        NewClipStart::Remux { key } => assert_eq!(key, "/v/a"),
        _ => panic!("a .mkv waits for its remux"),
    }
    assert!(matches!(begin_new_clip(&mut f, "/v/a.mp4", "a.mp4", true), NewClipStart::Duplicate));
    match begin_new_clip(&mut f, "/v/b.mp4", "b.mp4", true) {
        NewClipStart::Direct { key } => assert_eq!(key, "/v/b"),
        _ => panic!("an .mp4 is waited for directly"),
    }
}

#[test]
fn final_path_choice() {
    assert!(matches!(pick_final_path("/v/a.mp4".to_string(), true, true, None), FinalPick::Use(p) if p == "/v/a.mp4"));
    assert!(matches!(
        pick_final_path("/v/a.mp4".to_string(), false, true, Some("/v/b.mp4".to_string())),
        FinalPick::Fallback(p) if p == "/v/b.mp4"
    ));
    assert!(matches!(pick_final_path("/v/a.mp4".to_string(), true, false, None), FinalPick::GiveUp));
}

fn entry(name: &str, secs: i64, is_file: bool, mp4_exists: bool) -> DirClip {
    DirClip {
        path: format!("/v/{name}"),
        file_name: name.to_string(),
        is_file,
        mp4_exists,
        modified: Some(FileTime { secs, nanos: 0 }),
    }
}

#[test]
fn newest_clip_in_folder() {
    let entries = vec![
        entry("a.mp4", 10, true, false),
        entry("notes.txt", 99, true, false),
        entry("b.mkv", 20, true, true),
        entry("dir.mp4", 50, false, false),
        entry("c.mp4", 20, true, false),
    ];
    assert_eq!(find_newest_clip(&entries), Some("/v/b.mp4".to_string()));
    assert_eq!(find_newest_clip(&vec![]), None);
    let mut unreadable = entries;
    unreadable[2].modified = None;
    assert_eq!(find_newest_clip(&unreadable), Some("/v/c.mp4".to_string()));
    let mut only = vec![entry("a.mp4", 10, true, false)];
    only[0].modified = None;
    assert_eq!(find_newest_clip(&only), None);
}

#[test]
fn scan_order_oldest_first_stable() {
    let f = |p: &str, secs: i64, nanos: u32| ScanFile { modified: FileTime { secs, nanos }, path: p.to_string() };
    let files = vec![f("c", 30, 0), f("a", 10, 5), f("b", 10, 5), f("z", 10, 0)];
    assert_eq!(scan_order(&files), vec!["z", "a", "b", "c"]);
}
