use five33clip::ini::upsert_ini_key;

#[test]
fn upsert_replaces_existing_key() {
    let raw = "[Output]\nMode=Simple\n\n[SimpleOutput]\nRecRB=false\n";
    assert_eq!(
        upsert_ini_key(raw, "SimpleOutput", "RecRB", "true"),
        "[Output]\nMode=Simple\n\n[SimpleOutput]\nRecRB=true\n"
    );
}

#[test]
fn upsert_inserts_at_section_end() {
    assert_eq!(upsert_ini_key("[A]\nx=1\n[B]\ny=2\n", "A", "z", "3"), "[A]\nx=1\nz=3\n[B]\ny=2\n");
}

#[test]
fn upsert_appends_missing_section_after_blank_line() {
    assert_eq!(upsert_ini_key("[A]\nx=1", "B", "k", "v"), "[A]\nx=1\n\n[B]\nk=v\n");
    assert_eq!(upsert_ini_key("", "B", "k", "v"), "[B]\nk=v\n");
    assert_eq!(upsert_ini_key("[A]\n\n", "B", "k", "v"), "[A]\n\n[B]\nk=v\n");
}

#[test]
fn upsert_keeps_crlf() {
    assert_eq!(upsert_ini_key("[A]\r\nx=1\r\n", "A", "x", "2"), "[A]\r\nx=2\r\n");
}

#[test]
fn upsert_matches_header_loosely_and_key_after_indent() {
    assert_eq!(
        upsert_ini_key("  [simpleoutput]  \nRecRB=false", "SimpleOutput", "RecRB", "true"),
        "  [simpleoutput]  \nRecRB=true\n"
    );
    assert_eq!(upsert_ini_key("[A]\n  x=1\n", "A", "x", "2"), "[A]\nx=2\n");
}

#[test]
fn upsert_twice_is_upsert_once() {
    let raw = "[Hotkeys]\nReplayBuffer={}\n[Other]\n";
    let once = upsert_ini_key(raw, "Hotkeys", "ReplayBuffer", "{\"k\":1}");
    assert_eq!(upsert_ini_key(&once, "Hotkeys", "ReplayBuffer", "{\"k\":1}"), once);
    let added = upsert_ini_key(raw, "Video", "FPS", "60");
    assert_eq!(upsert_ini_key(&added, "Video", "FPS", "60"), added);
}
