//! Switching an OBS scene collection between display capture and game
//! capture (`set_capture_source_mode`): the collection's capture source is
//! replaced (or added) with a fresh display- or game-capture source that
//! keeps the old source's UUID, and in every scene the first item showing a
//! capture source is pointed at it and made to fill a 1920x1080 canvas.
use vstd::prelude::*;

use crate::json::{
    get_field, get_str, jclone, jfield, jfield_str, jnum, jobject, Json, JsonView, jset, jstr, jv,
    jv_members, jv_seq, lemma_jv_seq, lemma_jv_seq_ext, member, Member, set_field,
};
use crate::clip::{hex_lower, hex_string, sha256, sha256_digest};
use crate::text::{
    append_str, ascii_lower_chars, ascii_lower_seq, chars_of, contains_chars, contains_seq, owned,
    str_eq, trim_chars, trim_seq,
};

verus! {

#[derive(Clone, Copy, PartialEq, Eq, Debug, Structural)]
pub enum CaptureMode {
    Display,
    Game,
}

/// The capture mode a user's text names (trimmed, any ASCII case).
pub open spec fn capture_mode_spec(mode: Seq<char>) -> Option<CaptureMode> {
    let m = ascii_lower_seq(trim_seq(mode));
    if m == "display"@ {
        Some(CaptureMode::Display)
    } else if m == "game"@ {
        Some(CaptureMode::Game)
    } else {
        None
    }
}

pub fn capture_mode_named(mode: &str) -> (r: Result<CaptureMode, String>)
    ensures
        match (r, capture_mode_spec(mode@)) {
            (Ok(a), Some(b)) => a == b,
            (Err(e), None) => e@ == "capture mode must be display or game"@,
            _ => false,
        },
{
    let v = chars_of(mode);
    let t = trim_chars(v.as_slice());
    let m = ascii_lower_chars(t.as_slice());
    let ms = crate::text::string_of(m.as_slice());
    if str_eq(ms.as_str(), "display") {
        return Ok(CaptureMode::Display);
    }
    if str_eq(ms.as_str(), "game") {
        return Ok(CaptureMode::Game);
    }
    Err(owned("capture mode must be display or game"))
}

pub open spec fn capture_name(m: CaptureMode) -> Seq<char> {
    match m {
        CaptureMode::Game => "Game Capture"@,
        CaptureMode::Display => "Display Capture"@,
    }
}

pub open spec fn capture_id(m: CaptureMode) -> Seq<char> {
    match m {
        CaptureMode::Game => "game_capture"@,
        CaptureMode::Display => "monitor_capture"@,
    }
}

/// The capture source written for the mode.
pub open spec fn capture_source_view(m: CaptureMode, uuid: Seq<char>, monitor: Seq<char>) -> JsonView {
    let settings = match m {
        CaptureMode::Game => JsonView::Object(
            seq![
                ("capture_mode"@, JsonView::Str("any_fullscreen"@)),
                ("capture_cursor"@, JsonView::Bool(true)),
                ("allow_transparency"@, JsonView::Bool(false)),
                ("limit_framerate"@, JsonView::Bool(false)),
                ("capture_overlays"@, JsonView::Bool(true)),
                ("anti_cheat_hook"@, JsonView::Bool(true)),
            ],
        ),
        CaptureMode::Display => JsonView::Object(seq![("monitor_id"@, JsonView::Str(monitor))]),
    };
    JsonView::Object(
        seq![
            ("balance"@, JsonView::Number("0.5"@)),
            ("deinterlace_field_order"@, JsonView::Number("0"@)),
            ("deinterlace_mode"@, JsonView::Number("0"@)),
            ("enabled"@, JsonView::Bool(true)),
            ("flags"@, JsonView::Number("0"@)),
            ("hotkeys"@, JsonView::Object(Seq::empty())),
            ("id"@, JsonView::Str(capture_id(m))),
            ("mixers"@, JsonView::Number("0"@)),
            ("monitoring_type"@, JsonView::Number("0"@)),
            ("muted"@, JsonView::Bool(false)),
            ("name"@, JsonView::Str(capture_name(m))),
            ("private_settings"@, JsonView::Object(Seq::empty())),
            ("push-to-mute"@, JsonView::Bool(false)),
            ("push-to-mute-delay"@, JsonView::Number("0"@)),
            ("push-to-talk"@, JsonView::Bool(false)),
            ("push-to-talk-delay"@, JsonView::Number("0"@)),
            ("settings"@, settings),
            ("sync"@, JsonView::Number("0"@)),
            ("uuid"@, JsonView::Str(uuid)),
            ("versioned_id"@, JsonView::Str(capture_id(m))),
            ("volume"@, JsonView::Number("1.0"@)),
        ],
    )
}

fn push_member(ms: &mut Vec<Member>, k: &str, v: Json)
    ensures
        jv_members(final(ms)@) == jv_members(old(ms)@).push((k@, v@)),
{
    let ghost before = ms@;
    ms.push(member(k, v));
    assert(ms@.drop_last() =~= before);
}

fn empty_object() -> (r: Json)
    ensures
        r@ == JsonView::Object(Seq::empty()),
{
    let ms: Vec<Member> = Vec::new();
    assert(jv_members(ms@) =~= Seq::<(Seq<char>, JsonView)>::empty());
    jobject(ms)
}

pub fn capture_source(m: CaptureMode, uuid: &str, monitor: &str) -> (r: Json)
    ensures
        r@ == capture_source_view(m, uuid@, monitor@),
{
    let mut st: Vec<Member> = Vec::new();
    match m {
        CaptureMode::Game => {
            push_member(&mut st, "capture_mode", jstr("any_fullscreen"));
            push_member(&mut st, "capture_cursor", Json::Bool(true));
            push_member(&mut st, "allow_transparency", Json::Bool(false));
            push_member(&mut st, "limit_framerate", Json::Bool(false));
            push_member(&mut st, "capture_overlays", Json::Bool(true));
            push_member(&mut st, "anti_cheat_hook", Json::Bool(true));
            assert(jv_members(st@) =~= seq![
                ("capture_mode"@, JsonView::Str("any_fullscreen"@)),
                ("capture_cursor"@, JsonView::Bool(true)),
                ("allow_transparency"@, JsonView::Bool(false)),
                ("limit_framerate"@, JsonView::Bool(false)),
                ("capture_overlays"@, JsonView::Bool(true)),
                ("anti_cheat_hook"@, JsonView::Bool(true)),
            ]);
        },
        CaptureMode::Display => {
            push_member(&mut st, "monitor_id", jstr(monitor));
            assert(jv_members(st@) =~= seq![("monitor_id"@, JsonView::Str(monitor@))]);
        },
    }
    let settings = jobject(st);
    let ghost sv = settings@;
    let id = match m {
        CaptureMode::Game => "game_capture",
        CaptureMode::Display => "monitor_capture",
    };
    let name = match m {
        CaptureMode::Game => "Game Capture",
        CaptureMode::Display => "Display Capture",
    };
    assert(id@ == capture_id(m));
    assert(name@ == capture_name(m));
    let mut ms: Vec<Member> = Vec::new();
    push_member(&mut ms, "balance", jnum("0.5"));
    push_member(&mut ms, "deinterlace_field_order", jnum("0"));
    push_member(&mut ms, "deinterlace_mode", jnum("0"));
    push_member(&mut ms, "enabled", Json::Bool(true));
    push_member(&mut ms, "flags", jnum("0"));
    push_member(&mut ms, "hotkeys", empty_object());
    push_member(&mut ms, "id", jstr(id));
    push_member(&mut ms, "mixers", jnum("0"));
    push_member(&mut ms, "monitoring_type", jnum("0"));
    push_member(&mut ms, "muted", Json::Bool(false));
    push_member(&mut ms, "name", jstr(name));
    push_member(&mut ms, "private_settings", empty_object());
    push_member(&mut ms, "push-to-mute", Json::Bool(false));
    push_member(&mut ms, "push-to-mute-delay", jnum("0"));
    push_member(&mut ms, "push-to-talk", Json::Bool(false));
    push_member(&mut ms, "push-to-talk-delay", jnum("0"));
    push_member(&mut ms, "settings", settings);
    push_member(&mut ms, "sync", jnum("0"));
    push_member(&mut ms, "uuid", jstr(uuid));
    push_member(&mut ms, "versioned_id", jstr(id));
    push_member(&mut ms, "volume", jnum("1.0"));
    let r = jobject(ms);
    assert(jv_members(ms@) =~= seq![
        ("balance"@, JsonView::Number("0.5"@)),
        ("deinterlace_field_order"@, JsonView::Number("0"@)),
        ("deinterlace_mode"@, JsonView::Number("0"@)),
        ("enabled"@, JsonView::Bool(true)),
        ("flags"@, JsonView::Number("0"@)),
        ("hotkeys"@, JsonView::Object(Seq::empty())),
        ("id"@, JsonView::Str(capture_id(m))),
        ("mixers"@, JsonView::Number("0"@)),
        ("monitoring_type"@, JsonView::Number("0"@)),
        ("muted"@, JsonView::Bool(false)),
        ("name"@, JsonView::Str(capture_name(m))),
        ("private_settings"@, JsonView::Object(Seq::empty())),
        ("push-to-mute"@, JsonView::Bool(false)),
        ("push-to-mute-delay"@, JsonView::Number("0"@)),
        ("push-to-talk"@, JsonView::Bool(false)),
        ("push-to-talk-delay"@, JsonView::Number("0"@)),
        ("settings"@, sv),
        ("sync"@, JsonView::Number("0"@)),
        ("uuid"@, JsonView::Str(uuid@)),
        ("versioned_id"@, JsonView::Str(capture_id(m))),
        ("volume"@, JsonView::Number("1.0"@)),
    ]);
    r
}

// ------------------------------------------------------------ scene items

pub open spec fn xy(x: Seq<char>, y: Seq<char>) -> JsonView {
    JsonView::Object(seq![("x"@, JsonView::Number(x)), ("y"@, JsonView::Number(y))])
}

/// A scene item pointed at the capture source and made to fill the canvas.
pub open spec fn fixed_item(item: JsonView, name: Seq<char>, uuid: Seq<char>) -> JsonView {
    let a = jset(item, "name"@, JsonView::Str(name));
    let b = jset(a, "source_uuid"@, JsonView::Str(uuid));
    let c = jset(b, "pos"@, xy("0.0"@, "0.0"@));
    let d = jset(c, "scale"@, xy("1.0"@, "1.0"@));
    let e = jset(d, "bounds"@, xy("1920.0"@, "1080.0"@));
    let f = jset(e, "bounds_type"@, JsonView::Str("OBS_BOUNDS_SCALE_INNER"@));
    let g = jset(f, "scale_filter"@, JsonView::Str("area"@));
    jset(g, "visible"@, JsonView::Bool(true))
}

fn xy_json(x: &str, y: &str) -> (r: Json)
    ensures
        r@ == xy(x@, y@),
{
    let mut ms: Vec<Member> = Vec::new();
    push_member(&mut ms, "x", jnum(x));
    push_member(&mut ms, "y", jnum(y));
    assert(jv_members(ms@) =~= seq![("x"@, JsonView::Number(x@)), ("y"@, JsonView::Number(y@))]);
    jobject(ms)
}

pub fn fix_item(item: Json, name: &str, uuid: &str) -> (r: Json)
    requires
        item@ is Object,
    ensures
        r@ == fixed_item(item@, name@, uuid@),
{
    let a = set_field(item, "name", jstr(name));
    let b = set_field(a, "source_uuid", jstr(uuid));
    let c = set_field(b, "pos", xy_json("0.0", "0.0"));
    let d = set_field(c, "scale", xy_json("1.0", "1.0"));
    let e = set_field(d, "bounds", xy_json("1920.0", "1080.0"));
    let f = set_field(e, "bounds_type", jstr("OBS_BOUNDS_SCALE_INNER"));
    let g = set_field(f, "scale_filter", jstr("area"));
    set_field(g, "visible", Json::Bool(true))
}

/// A scene item showing a capture source.
pub open spec fn is_capture_item(item: JsonView) -> bool {
    jfield_str(item, "name"@) == Some("Display Capture"@) || jfield_str(item, "name"@) == Some(
        "Game Capture"@,
    )
}

/// The first of the given items that shows a capture source, or -1.
pub open spec fn first_capture_item(items: Seq<JsonView>) -> int
    decreases items.len(),
{
    if items.len() == 0 {
        -1
    } else if first_capture_item(items.drop_last()) >= 0 {
        first_capture_item(items.drop_last())
    } else if is_capture_item(items.last()) {
        items.len() - 1
    } else {
        -1
    }
}

pub proof fn lemma_first_capture_item(items: Seq<JsonView>)
    ensures
        -1 <= first_capture_item(items) < items.len(),
        first_capture_item(items) >= 0 ==> is_capture_item(items[first_capture_item(items)]),
        forall|j: int|
            0 <= j < items.len() && (first_capture_item(items) == -1 || j < first_capture_item(
                items,
            )) ==> !is_capture_item(#[trigger] items[j]),
    decreases items.len(),
{
    if items.len() > 0 {
        lemma_first_capture_item(items.drop_last());
        assert forall|j: int|
            0 <= j < items.len() && (first_capture_item(items) == -1 || j < first_capture_item(
                items,
            )) implies !is_capture_item(#[trigger] items[j]) by {
            if j < items.len() - 1 {
                assert(items.drop_last()[j] == items[j]);
            }
        }
    }
}

/// A scene source with its first capture item fixed; anything else as it is.
pub open spec fn fixed_scene(s: JsonView, name: Seq<char>, uuid: Seq<char>) -> JsonView {
    if jfield_str(s, "id"@) == Some("scene"@) {
        match jfield(s, "settings"@) {
            Some(st) => match jfield(st, "items"@) {
                Some(JsonView::Array(items)) => {
                    let k = first_capture_item(items);
                    if k >= 0 {
                        jset(
                            s,
                            "settings"@,
                            jset(
                                st,
                                "items"@,
                                JsonView::Array(items.update(k, fixed_item(items[k], name, uuid))),
                            ),
                        )
                    } else {
                        s
                    }
                },
                _ => s,
            },
            None => s,
        }
    } else {
        s
    }
}

pub fn fix_scene(s: Json, name: &str, uuid: &str) -> (r: Json)
    ensures
        r@ == fixed_scene(s@, name@, uuid@),
{
    let is_scene = match get_str(&s, "id") {
        Some(id) => str_eq(id.as_str(), "scene"),
        None => false,
    };
    if !is_scene {
        return s;
    }
    let st = match get_field(&s, "settings") {
        Some(st) => jclone(st),
        None => {
            return s;
        },
    };
    let items: Vec<Json> = match get_field(&st, "items") {
        Some(Json::Array(v)) => {
            let mut out: Vec<Json> = Vec::new();
            let mut i: usize = 0;
            while i < v.len()
                invariant
                    i <= v@.len(),
                    out@.len() == i,
                    forall|q: int| 0 <= q < i ==> #[trigger] jv(out@[q]) == jv(v@[q]),
                decreases v.len() - i,
            {
                out.push(jclone(&v[i]));
                i += 1;
            }
            proof {
                lemma_jv_seq(v@);
                lemma_jv_seq_ext(out@, jv_seq(v@));
            }
            out
        },
        _ => {
            return s;
        },
    };
    let ghost iv = jv_seq(items@);
    proof {
        lemma_jv_seq(items@);
        lemma_first_capture_item(iv);
    }
    let mut k: usize = 0;
    while k < items.len() && !capture_item(&items[k])
        invariant
            iv == jv_seq(items@),
            iv.len() == items@.len(),
            forall|q: int| 0 <= q < iv.len() ==> #[trigger] iv[q] == jv(items@[q]),
            k <= items@.len(),
            forall|q: int| 0 <= q < k ==> !is_capture_item(#[trigger] iv[q]),
            -1 <= first_capture_item(iv) < iv.len(),
            first_capture_item(iv) >= 0 ==> is_capture_item(iv[first_capture_item(iv)]),
            forall|j: int|
                0 <= j < iv.len() && (first_capture_item(iv) == -1 || j < first_capture_item(iv))
                    ==> !is_capture_item(#[trigger] iv[j]),
        decreases items.len() - k,
    {
        k += 1;
    }
    if k == items.len() {
        proof {
            if first_capture_item(iv) >= 0 {
                assert(!is_capture_item(iv[first_capture_item(iv)]));
            }
        }
        return s;
    }
    assert(is_capture_item(iv[k as int]));
    assert(first_capture_item(iv) == k);
    let mut items = items;
    let item = items.remove(k);
    let fixed = fix_item(item, name, uuid);
    let ghost fv = fixed@;
    items.insert(k, fixed);
    proof {
        lemma_jv_seq(items@);
        lemma_jv_seq_ext(items@, iv.update(k as int, fv));
    }
    let st2 = set_field(st, "items", Json::Array(items));
    set_field(s, "settings", st2)
}

fn capture_item(item: &Json) -> (r: bool)
    ensures
        r == is_capture_item(item@),
{
    match get_str(item, "name") {
        Some(n) => str_eq(n.as_str(), "Display Capture") || str_eq(n.as_str(), "Game Capture"),
        None => false,
    }
}

// ------------------------------------------------------------ collection

/// A source that captures the display or a game.
pub open spec fn is_capture_source(s: JsonView) -> bool {
    jfield_str(s, "id"@) == Some("monitor_capture"@) || jfield_str(s, "id"@) == Some(
        "game_capture"@,
    )
}

/// The first capture source, or -1.
pub open spec fn first_capture_source(srcs: Seq<JsonView>) -> int
    decreases srcs.len(),
{
    if srcs.len() == 0 {
        -1
    } else if first_capture_source(srcs.drop_last()) >= 0 {
        first_capture_source(srcs.drop_last())
    } else if is_capture_source(srcs.last()) {
        srcs.len() - 1
    } else {
        -1
    }
}

pub proof fn lemma_first_capture_source(srcs: Seq<JsonView>)
    ensures
        -1 <= first_capture_source(srcs) < srcs.len(),
        first_capture_source(srcs) >= 0 ==> is_capture_source(srcs[first_capture_source(srcs)]),
        forall|j: int|
            0 <= j < srcs.len() && (first_capture_source(srcs) == -1 || j < first_capture_source(
                srcs,
            )) ==> !is_capture_source(#[trigger] srcs[j]),
    decreases srcs.len(),
{
    if srcs.len() > 0 {
        lemma_first_capture_source(srcs.drop_last());
        assert forall|j: int|
            0 <= j < srcs.len() && (first_capture_source(srcs) == -1 || j < first_capture_source(
                srcs,
            )) implies !is_capture_source(#[trigger] srcs[j]) by {
            if j < srcs.len() - 1 {
                assert(srcs.drop_last()[j] == srcs[j]);
            }
        }
    }
}

/// The UUID the capture source keeps: the old capture source's, else the
/// fresh one.
pub open spec fn kept_uuid(srcs: Seq<JsonView>, ci: int, fresh: Seq<char>) -> Seq<char> {
    if ci >= 0 && jfield_str(srcs[ci], "uuid"@) is Some {
        jfield_str(srcs[ci], "uuid"@).unwrap()
    } else {
        fresh
    }
}

/// The monitor the old capture source showed, or empty.
pub open spec fn kept_monitor(srcs: Seq<JsonView>, ci: int) -> Seq<char> {
    if ci >= 0 {
        match jfield(srcs[ci], "settings"@) {
            Some(st) => match jfield_str(st, "monitor_id"@) {
                Some(x) => x,
                None => Seq::empty(),
            },
            None => Seq::empty(),
        }
    } else {
        Seq::empty()
    }
}

/// A scene collection switched to the capture mode.
pub open spec fn capture_update_spec(root: JsonView, m: CaptureMode, fresh_uuid: Seq<char>) -> Result<
    JsonView,
    Seq<char>,
> {
    match jfield(root, "sources"@) {
        Some(JsonView::Array(srcs)) => {
            let ci = first_capture_source(srcs);
            let uuid = kept_uuid(srcs, ci, fresh_uuid);
            let ns = capture_source_view(m, uuid, kept_monitor(srcs, ci));
            let placed = if ci >= 0 {
                srcs.update(ci, ns)
            } else {
                srcs.push(ns)
            };
            let fixed = placed.map_values(|s: JsonView| fixed_scene(s, capture_name(m), uuid));
            Ok(jset(root, "sources"@, JsonView::Array(fixed)))
        },
        _ => Err("OBS scene collection missing sources"@),
    }
}

fn capture_source_here(s: &Json) -> (r: bool)
    ensures
        r == is_capture_source(s@),
{
    match get_str(s, "id") {
        Some(id) => str_eq(id.as_str(), "monitor_capture") || str_eq(id.as_str(), "game_capture"),
        None => false,
    }
}

/// One scene collection switched to the capture mode (the body of
/// `set_capture_source_mode`'s loop); `fresh_uuid` is used where there was no
/// capture source to take a UUID from.
pub fn update_capture_source(root: Json, m: CaptureMode, fresh_uuid: &str) -> (r: Result<Json, String>)
    ensures
        match (r, capture_update_spec(root@, m, fresh_uuid@)) {
            (Ok(j), Ok(v)) => j@ == v,
            (Err(e), Err(msg)) => e@ == msg,
            _ => false,
        },
{
    let mut srcs: Vec<Json> = match get_field(&root, "sources") {
        Some(Json::Array(v)) => {
            let mut out: Vec<Json> = Vec::new();
            let mut i: usize = 0;
            while i < v.len()
                invariant
                    i <= v@.len(),
                    out@.len() == i,
                    forall|q: int| 0 <= q < i ==> #[trigger] jv(out@[q]) == jv(v@[q]),
                decreases v.len() - i,
            {
                out.push(jclone(&v[i]));
                i += 1;
            }
            proof {
                lemma_jv_seq(v@);
                lemma_jv_seq_ext(out@, jv_seq(v@));
            }
            out
        },
        _ => {
            return Err(owned("OBS scene collection missing sources"));
        },
    };
    let ghost sv = jv_seq(srcs@);
    proof {
        lemma_jv_seq(srcs@);
        lemma_first_capture_source(sv);
    }
    let mut ci: usize = 0;
    while ci < srcs.len() && !capture_source_here(&srcs[ci])
        invariant
            sv == jv_seq(srcs@),
            sv.len() == srcs@.len(),
            forall|q: int| 0 <= q < sv.len() ==> #[trigger] sv[q] == jv(srcs@[q]),
            ci <= srcs@.len(),
            forall|q: int| 0 <= q < ci ==> !is_capture_source(#[trigger] sv[q]),
            -1 <= first_capture_source(sv) < sv.len(),
            first_capture_source(sv) >= 0 ==> is_capture_source(sv[first_capture_source(sv)]),
            forall|j: int|
                0 <= j < sv.len() && (first_capture_source(sv) == -1 || j < first_capture_source(
                    sv,
                )) ==> !is_capture_source(#[trigger] sv[j]),
        decreases srcs.len() - ci,
    {
        ci += 1;
    }
    let found = ci < srcs.len();
    let ghost cix: int = if found {
        ci as int
    } else {
        -1
    };
    proof {
        if found {
            assert(is_capture_source(sv[ci as int]));
        } else if first_capture_source(sv) >= 0 {
            assert(!is_capture_source(sv[first_capture_source(sv)]));
        }
    }
    assert(first_capture_source(sv) == cix);
    let uuid: String = if found {
        match get_str(&srcs[ci], "uuid") {
            Some(u) => u.clone(),
            None => owned(fresh_uuid),
        }
    } else {
        owned(fresh_uuid)
    };
    assert(uuid@ == kept_uuid(sv, cix, fresh_uuid@));
    let monitor: String = if found {
        match get_field(&srcs[ci], "settings") {
            Some(st) => match get_str(st, "monitor_id") {
                Some(x) => x.clone(),
                None => String::new(),
            },
            None => String::new(),
        }
    } else {
        String::new()
    };
    assert(monitor@ == kept_monitor(sv, cix));
    let ns = capture_source(m, uuid.as_str(), monitor.as_str());
    let ghost nsv = ns@;
    if found {
        let _ = srcs.remove(ci);
        srcs.insert(ci, ns);
    } else {
        srcs.push(ns);
    }
    let ghost placed = if found {
        sv.update(ci as int, nsv)
    } else {
        sv.push(nsv)
    };
    proof {
        lemma_jv_seq(srcs@);
        assert(jv_seq(srcs@) =~= placed);
    }
    let name = match m {
        CaptureMode::Game => "Game Capture",
        CaptureMode::Display => "Display Capture",
    };
    assert(name@ == capture_name(m));
    let mut i: usize = 0;
    while i < srcs.len()
        invariant
            i <= srcs@.len(),
            srcs@.len() == placed.len(),
            name@ == capture_name(m),
            forall|q: int|
                0 <= q < i ==> #[trigger] jv(srcs@[q]) == fixed_scene(placed[q], name@, uuid@),
            forall|q: int| i <= q < srcs@.len() ==> #[trigger] jv(srcs@[q]) == placed[q],
        decreases srcs.len() - i,
    {
        let s = srcs.remove(i);
        let f = fix_scene(s, name, uuid.as_str());
        srcs.insert(i, f);
        i += 1;
    }
    let ghost fixed = placed.map_values(|s: JsonView| fixed_scene(s, capture_name(m), uuid@));
    proof {
        lemma_jv_seq_ext(srcs@, fixed);
    }
    Ok(set_field(root, "sources", Json::Array(srcs)))
}

// ------------------------------------------------------------ uuids

/// A UUID-shaped text from the SHA-256 of `seed`: the first sixteen digest
/// bytes in lower-case hex, grouped 8-4-4-4-12.
pub open spec fn uuid_spec(seed: Seq<u8>) -> Seq<char> {
    let d = sha256_digest(seed);
    hex_lower(d.subrange(0, 4)) + seq!['-'] + hex_lower(d.subrange(4, 6)) + seq!['-'] + hex_lower(
        d.subrange(6, 8),
    ) + seq!['-'] + hex_lower(d.subrange(8, 10)) + seq!['-'] + hex_lower(d.subrange(10, 16))
}

fn hex_of_range(d: &Vec<u8>, from: usize, to: usize) -> (r: String)
    requires
        from <= to <= d@.len(),
    ensures
        r@ == hex_lower(d@.subrange(from as int, to as int)),
{
    let mut part: Vec<u8> = Vec::new();
    let mut k: usize = from;
    while k < to
        invariant
            from <= k <= to <= d@.len(),
            part@ == d@.subrange(from as int, k as int),
        decreases to - k,
    {
        part.push(d[k]);
        assert(d@.subrange(from as int, k + 1) =~= d@.subrange(from as int, k as int).push(
            d@[k as int],
        ));
        k += 1;
    }
    hex_string(part.as_slice())
}

/// `new_obs_uuid`, given the bytes it hashes (the caller's clock and process
/// id).
pub fn new_obs_uuid(seed: &[u8]) -> (r: String)
    ensures
        r@ == uuid_spec(seed@),
{
    let d = sha256(seed);
    let mut r = hex_of_range(&d, 0, 4);
    crate::text::push_char(&mut r, '-');
    let b = hex_of_range(&d, 4, 6);
    append_str(&mut r, b.as_str());
    crate::text::push_char(&mut r, '-');
    let c = hex_of_range(&d, 6, 8);
    append_str(&mut r, c.as_str());
    crate::text::push_char(&mut r, '-');
    let e = hex_of_range(&d, 8, 10);
    append_str(&mut r, e.as_str());
    crate::text::push_char(&mut r, '-');
    let f = hex_of_range(&d, 10, 16);
    append_str(&mut r, f.as_str());
    assert(r@ =~= uuid_spec(seed@));
    r
}

// ------------------------------------------------------------ legacy scripts

/// A script entry the app once installed (a silent notifier, or a remover
/// of remux sources), by its path in any ASCII case.
pub open spec fn is_legacy_script(s: JsonView) -> bool {
    let p = ascii_lower_seq(
        match jfield_str(s, "path"@) {
            Some(x) => x,
            None => Seq::empty(),
        },
    );
    contains_seq(p, "silent_notifier.py"@) || (contains_seq(p, "mkv"@) && contains_seq(p, "remov"@))
}

/// The script entries that are not legacy ones, in order.
pub open spec fn kept_scripts(sc: Seq<JsonView>) -> Seq<JsonView>
    decreases sc.len(),
{
    if sc.len() == 0 {
        Seq::empty()
    } else if is_legacy_script(sc.last()) {
        kept_scripts(sc.drop_last())
    } else {
        kept_scripts(sc.drop_last()).push(sc.last())
    }
}

/// `remove_legacy_533clip_scripts` on one scene collection: the collection
/// without the legacy script entries of `modules.scripts-tool`, where there
/// were any to remove.
pub open spec fn pruned_scripts_spec(root: JsonView) -> Option<JsonView> {
    match jfield(root, "modules"@) {
        Some(m) => match jfield(m, "scripts-tool"@) {
            Some(JsonView::Array(sc)) => {
                let k = kept_scripts(sc);
                if k.len() != sc.len() {
                    Some(jset(root, "modules"@, jset(m, "scripts-tool"@, JsonView::Array(k))))
                } else {
                    None
                }
            },
            _ => None,
        },
        None => None,
    }
}

fn legacy_script(s: &Json) -> (r: bool)
    ensures
        r == is_legacy_script(s@),
{
    let p: Vec<char> = match get_str(s, "path") {
        Some(x) => chars_of(x.as_str()),
        None => Vec::new(),
    };
    let lower = ascii_lower_chars(p.as_slice());
    let a = chars_of("silent_notifier.py");
    let b = chars_of("mkv");
    let c = chars_of("remov");
    contains_chars(lower.as_slice(), a.as_slice()) || (contains_chars(lower.as_slice(), b.as_slice())
        && contains_chars(lower.as_slice(), c.as_slice()))
}

pub fn prune_legacy_scripts(root: Json) -> (r: Option<Json>)
    ensures
        match (r, pruned_scripts_spec(root@)) {
            (Some(j), Some(v)) => j@ == v,
            (None, None) => true,
            _ => false,
        },
{
    let m = match get_field(&root, "modules") {
        Some(m) => jclone(m),
        None => {
            return None;
        },
    };
    let mut kept: Vec<Json> = Vec::new();
    let mut total: usize = 0;
    match get_field(&m, "scripts-tool") {
        Some(Json::Array(sc)) => {
            let mut i: usize = 0;
            while i < sc.len()
                invariant
                    i <= sc@.len(),
                    jv_seq(kept@) == kept_scripts(jv_seq(sc@).take(i as int)),
                decreases sc.len() - i,
            {
                proof {
                    lemma_jv_seq(sc@);
                    assert(jv_seq(sc@).take(i + 1).drop_last() =~= jv_seq(sc@).take(i as int));
                    assert(jv_seq(sc@).take(i + 1).last() == jv(sc@[i as int]));
                }
                if !legacy_script(&sc[i]) {
                    let ghost before = kept@;
                    kept.push(jclone(&sc[i]));
                    proof {
                        lemma_jv_seq(kept@);
                        lemma_jv_seq(before);
                        assert(kept@.drop_last() =~= before);
                    }
                }
                i += 1;
            }
            proof {
                lemma_jv_seq(sc@);
                assert(jv_seq(sc@).take(i as int) =~= jv_seq(sc@));
            }
            total = sc.len();
        },
        _ => {
            return None;
        },
    }
    proof {
        lemma_jv_seq(kept@);
    }
    if kept.len() == total {
        return None;
    }
    let m2 = set_field(m, "scripts-tool", Json::Array(kept));
    Some(set_field(root, "modules", m2))
}

} // verus!
