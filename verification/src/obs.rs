//! Working alongside OBS Studio: which files in the recording folder are
//! clips, which of a remuxed pair to keep, where the profiles say recordings
//! go, the obs-websocket server config, and the status shown for OBS.
use vstd::prelude::*;

use crate::ini::{deep, lines_of, split_lines};
use crate::json::{
    get_bool, get_field, get_str, jfield, jfield_bool, jfield_str, Json, JsonView, jset, set_field,
};
use crate::numtext::{decimal, decimal_string, json_uint, json_uint_chars};
use crate::text::{
    append_str, ascii_lower_chars, ascii_lower_seq, chars_of, contains_chars, contains_seq, eq_ignore_ascii_case,
    eq_ignore_ascii_case_str, owned, starts_with, starts_with_chars, str_eq, string_of, to_lowercase,
    str_contains, trim, trim_chars, trim_seq, unicode_lowercase,
};
use crate::settings::ObsSettings;

verus! {

// ------------------------------------------------------------ clip files

/// `Path::extension` of a file name: what follows the last dot, unless that
/// dot starts the name (or the name is `..`).
pub open spec fn extension_of(name: Seq<char>) -> Option<Seq<char>> {
    if name == ".."@ {
        None
    } else {
        let i = last_dot(name, name.len() as int);
        if i <= 0 {
            None
        } else {
            Some(name.skip(i + 1))
        }
    }
}

/// The index of the last `.` before position `n`, or -1.
pub open spec fn last_dot(s: Seq<char>, n: int) -> int
    decreases n,
{
    if n <= 0 {
        -1
    } else if s[n - 1] == '.' {
        n - 1
    } else {
        last_dot(s, n - 1)
    }
}

pub proof fn lemma_last_dot(s: Seq<char>, n: int)
    requires
        0 <= n <= s.len(),
    ensures
        -1 <= last_dot(s, n) < n,
        last_dot(s, n) >= 0 ==> s[last_dot(s, n)] == '.',
        forall|j: int| last_dot(s, n) < j < n ==> s[j] != '.',
    decreases n,
{
    if n > 0 {
        lemma_last_dot(s, n - 1);
    }
}

pub fn extension(name: &str) -> (r: Option<String>)
    ensures
        match (r, extension_of(name@)) {
            (Some(a), Some(b)) => a@ == b,
            (None, None) => true,
            _ => false,
        },
{
    if str_eq(name, "..") {
        return None;
    }
    let v = chars_of(name);
    let mut i: usize = v.len();
    proof {
        lemma_last_dot(v@, v@.len() as int);
    }
    while i > 0 && v[i - 1] != '.'
        invariant
            i <= v@.len(),
            v@ == name@,
            last_dot(v@, v@.len() as int) == last_dot(v@, i as int),
        decreases i,
    {
        i -= 1;
    }
    if i <= 1 {
        return None;
    }
    let mut out: Vec<char> = Vec::new();
    let mut k: usize = i;
    while k < v.len()
        invariant
            i <= k <= v@.len(),
            out@ == v@.subrange(i as int, k as int),
        decreases v.len() - k,
    {
        out.push(v[k]);
        assert(v@.subrange(i as int, k + 1) =~= v@.subrange(i as int, k as int).push(v@[k as int]));
        k += 1;
    }
    assert(out@ =~= v@.skip(i as int));
    Some(string_of(out.as_slice()))
}

/// Extensions OBS writes clips with.
pub open spec fn is_clip_extension(e: Seq<char>) -> bool {
    eq_ignore_ascii_case(e, "mp4"@) || eq_ignore_ascii_case(e, "mkv"@) || eq_ignore_ascii_case(
        e,
        "mov"@,
    )
}

/// `is_obs_clip_file`, on the file's name.
pub open spec fn is_obs_clip_spec(file_name: Seq<char>) -> bool {
    match extension_of(file_name) {
        Some(e) => is_clip_extension(e),
        None => false,
    }
}

pub fn is_obs_clip_file(file_name: &str) -> (r: bool)
    ensures
        r == is_obs_clip_spec(file_name@),
{
    match extension(file_name) {
        Some(e) => eq_ignore_ascii_case_str(e.as_str(), "mp4") || eq_ignore_ascii_case_str(
            e.as_str(),
            "mkv",
        ) || eq_ignore_ascii_case_str(e.as_str(), "mov"),
        None => false,
    }
}

/// The path with its file's extension replaced (`with_extension`), where
/// `file_name` is the path's last component and has extension `ext`.
pub open spec fn with_extension(path: Seq<char>, ext_len: int, new_ext: Seq<char>) -> Seq<char> {
    path.take(path.len() - ext_len) + new_ext
}

/// The `.mp4` OBS remuxes a `.mkv` into, for a path whose file has a `.mkv`
/// extension in any ASCII case.
pub open spec fn remux_target_spec(path: Seq<char>, file_name: Seq<char>) -> Option<Seq<char>> {
    match extension_of(file_name) {
        Some(e) => if ascii_lower_seq(e) == "mkv"@ && file_name.len() <= path.len() {
            Some(with_extension(path, e.len() as int, "mp4"@))
        } else {
            None
        },
        None => None,
    }
}

pub fn remux_target(path: &str, file_name: &str) -> (r: Option<String>)
    ensures
        match (r, remux_target_spec(path@, file_name@)) {
            (Some(a), Some(b)) => a@ == b,
            (None, None) => true,
            _ => false,
        },
{
    let e = match extension(file_name) {
        Some(e) => e,
        None => {
            return None;
        },
    };
    let ev = chars_of(e.as_str());
    let lower = ascii_lower_chars(ev.as_slice());
    let ls = string_of(lower.as_slice());
    let pv = chars_of(path);
    let fv = chars_of(file_name);
    if !str_eq(ls.as_str(), "mkv") || fv.len() > pv.len() {
        return None;
    }
    proof {
        lemma_last_dot(file_name@, file_name@.len() as int);
    }
    let keep = pv.len() - ev.len();
    let mut out: Vec<char> = Vec::new();
    let mut k: usize = 0;
    while k < keep
        invariant
            keep <= pv@.len(),
            k <= keep,
            out@ == pv@.take(k as int),
        decreases keep - k,
    {
        out.push(pv[k]);
        assert(pv@.take(k + 1) =~= pv@.take(k as int).push(pv@[k as int]));
        k += 1;
    }
    let mut s = string_of(out.as_slice());
    append_str(&mut s, "mp4");
    Some(s)
}

/// The path `resolve_obs_clip_path` gives: the finished `.mp4` where OBS
/// remuxed the `.mkv` and that `.mp4` is there; the path as given otherwise.
pub open spec fn resolve_spec(path: Seq<char>, file_name: Seq<char>, mp4_exists: bool) -> Seq<char> {
    match remux_target_spec(path, file_name) {
        Some(t) => if mp4_exists {
            t
        } else {
            path
        },
        None => path,
    }
}

/// The file name of the path `resolve_spec` gives.
pub open spec fn resolved_name(path: Seq<char>, file_name: Seq<char>, mp4_exists: bool) -> Seq<char> {
    match remux_target_spec(path, file_name) {
        Some(t) => if mp4_exists {
            with_extension(file_name, extension_of(file_name)->Some_0.len() as int, "mp4"@)
        } else {
            file_name
        },
        None => file_name,
    }
}

/// `resolve_obs_clip_path`: the finished `.mp4` where OBS remuxed the `.mkv`
/// and that `.mp4` is there; the path as given otherwise.
pub fn resolve_obs_clip_path(path: &str, file_name: &str, mp4_exists: bool) -> (r: String)
    ensures
        r@ == resolve_spec(path@, file_name@, mp4_exists),
{
    match remux_target(path, file_name) {
        Some(t) => if mp4_exists {
            t
        } else {
            owned(path)
        },
        None => owned(path),
    }
}

/// Resolving twice is resolving once: while the folder does not change, the
/// path resolved (with its own file name) resolves to itself.
pub proof fn law_resolve_idempotent(path: Seq<char>, file_name: Seq<char>, mp4_exists: bool)
    requires
        file_name.len() <= path.len(),
        path.skip(path.len() - file_name.len()) == file_name,
    ensures
        resolve_spec(
            resolve_spec(path, file_name, mp4_exists),
            resolved_name(path, file_name, mp4_exists),
            mp4_exists,
        ) == resolve_spec(path, file_name, mp4_exists),
{
    if remux_target_spec(path, file_name) is Some && mp4_exists {
        let e = extension_of(file_name)->Some_0;
        let i = last_dot(file_name, file_name.len() as int);
        lemma_last_dot(file_name, file_name.len() as int);
        assert(e == file_name.skip(i + 1));
        let n2 = with_extension(file_name, e.len() as int, "mp4"@);
        reveal_strlit("mp4");
        reveal_strlit("mkv");
        reveal_strlit("..");
        assert(n2 == file_name.take(i + 1) + "mp4"@);
        let l = n2.len() as int;
        assert(n2[l - 1] == '4' && n2[l - 2] == 'p' && n2[l - 3] == 'm' && n2[i] == '.');
        assert(last_dot(n2, l) == last_dot(n2, l - 1));
        assert(last_dot(n2, l - 1) == last_dot(n2, l - 2));
        assert(last_dot(n2, l - 2) == last_dot(n2, i + 1));
        assert(last_dot(n2, i + 1) == i);
        assert(n2 != ".."@) by {
            assert(n2.len() != 2 || n2[1] != '.');
        }
        assert(n2.skip(i + 1) =~= "mp4"@);
        assert(ascii_lower_seq("mp4"@) =~= "mp4"@);
        assert(extension_of(n2) == Some("mp4"@));
        assert(remux_target_spec(resolve_spec(path, file_name, mp4_exists), n2) is None);
    }
}

// ------------------------------------------------------------ profiles

/// `normalize_obs_path`: trimmed, outer double quotes dropped, doubled
/// backslashes made single.
pub open spec fn normalize_obs_path_spec(raw: Seq<char>) -> Seq<char> {
    crate::game::replace_seq(trim_quotes(trim_seq(raw)), seq!['\\', '\\'], seq!['\\'])
}

/// `trim_matches('"')`.
pub open spec fn trim_quotes(s: Seq<char>) -> Seq<char>
    decreases s.len(),
{
    if s.len() > 0 && s[0] == '"' {
        trim_quotes(s.drop_first())
    } else if s.len() > 0 && s.last() == '"' {
        trim_quotes(s.drop_last())
    } else {
        s
    }
}

pub fn normalize_obs_path(raw: &str) -> (r: String)
    ensures
        r@ == normalize_obs_path_spec(raw@),
{
    let v = chars_of(raw);
    let t = trim_chars(v.as_slice());
    // drop leading quotes, then trailing ones
    let mut a: usize = 0;
    let mut b: usize = t.len();
    assert(t@.subrange(0, t@.len() as int) =~= t@);
    while a < b && t[a] == '"'
        invariant
            a <= b <= t@.len(),
            b == t@.len(),
            trim_quotes(t@) == trim_quotes(t@.subrange(a as int, b as int)),
        decreases b - a,
    {
        assert(t@.subrange(a as int, b as int).drop_first() =~= t@.subrange(a + 1, b as int));
        a += 1;
    }
    while b > a && t[b - 1] == '"'
        invariant
            a <= b <= t@.len(),
            a == t@.len() || t@[a as int] != '"' || a == b,
            trim_quotes(t@) == trim_quotes(t@.subrange(a as int, b as int)),
        decreases b - a,
    {
        assert(t@.subrange(a as int, b as int).drop_last() =~= t@.subrange(a as int, b - 1));
        b -= 1;
    }
    let mut inner: Vec<char> = Vec::new();
    let mut k: usize = a;
    while k < b
        invariant
            a <= k <= b <= t@.len(),
            inner@ == t@.subrange(a as int, k as int),
        decreases b - k,
    {
        inner.push(t[k]);
        assert(t@.subrange(a as int, k + 1) =~= t@.subrange(a as int, k as int).push(t@[k as int]));
        k += 1;
    }
    assert(trim_quotes(inner@) == inner@);
    let pat: Vec<char> = vec!['\\', '\\'];
    let rep: Vec<char> = vec!['\\'];
    assert(pat@ =~= seq!['\\', '\\']);
    assert(rep@ =~= seq!['\\']);
    let out = crate::game::replace_chars(inner.as_slice(), pat.as_slice(), rep.as_slice());
    string_of(out.as_slice())
}

/// The recording folder a profile line names, if it is a `FilePath=`,
/// `RecFilePath=` or `FFFilePath=` line.
pub open spec fn recording_path_of_line(line: Seq<char>) -> Option<Seq<char>> {
    let t = trim_seq(line);
    if starts_with(t, "FilePath="@) {
        Some(normalize_obs_path_spec(t.skip("FilePath="@.len() as int)))
    } else if starts_with(t, "RecFilePath="@) {
        Some(normalize_obs_path_spec(t.skip("RecFilePath="@.len() as int)))
    } else if starts_with(t, "FFFilePath="@) {
        Some(normalize_obs_path_spec(t.skip("FFFilePath="@.len() as int)))
    } else {
        None
    }
}

/// The recording folders named in a profile's `basic.ini`, line by line.
pub open spec fn recording_paths_spec(lines: Seq<Seq<char>>) -> Seq<Seq<char>>
    decreases lines.len(),
{
    if lines.len() == 0 {
        Seq::empty()
    } else {
        match recording_path_of_line(lines.last()) {
            Some(p) => recording_paths_spec(lines.drop_last()).push(p),
            None => recording_paths_spec(lines.drop_last()),
        }
    }
}

fn skip_chars(v: &Vec<char>, n: usize) -> (r: String)
    requires
        n <= v@.len(),
    ensures
        r@ == v@.skip(n as int),
{
    let mut out: Vec<char> = Vec::new();
    let mut k: usize = n;
    while k < v.len()
        invariant
            n <= k <= v@.len(),
            out@ == v@.subrange(n as int, k as int),
        decreases v.len() - k,
    {
        out.push(v[k]);
        assert(v@.subrange(n as int, k + 1) =~= v@.subrange(n as int, k as int).push(v@[k as int]));
        k += 1;
    }
    assert(out@ =~= v@.skip(n as int));
    string_of(out.as_slice())
}

pub fn recording_path_in_line(line: &[char]) -> (r: Option<String>)
    ensures
        match (r, recording_path_of_line(line@)) {
            (Some(a), Some(b)) => a@ == b,
            (None, None) => true,
            _ => false,
        },
{
    let t = trim_chars(line);
    let p1 = chars_of("FilePath=");
    if starts_with_chars(t.as_slice(), p1.as_slice()) {
        let rest = skip_chars(&t, p1.len());
        return Some(normalize_obs_path(rest.as_str()));
    }
    let p2 = chars_of("RecFilePath=");
    if starts_with_chars(t.as_slice(), p2.as_slice()) {
        let rest = skip_chars(&t, p2.len());
        return Some(normalize_obs_path(rest.as_str()));
    }
    let p3 = chars_of("FFFilePath=");
    if starts_with_chars(t.as_slice(), p3.as_slice()) {
        let rest = skip_chars(&t, p3.len());
        return Some(normalize_obs_path(rest.as_str()));
    }
    None
}

/// `detect_recording_paths`' answer for the folders found: sorted, each
/// once (a `BTreeSet` collected).
pub fn collect_recording_paths(found: Vec<String>) -> (r: Vec<String>)
    ensures
        crate::sorted::strictly_sorted(crate::sorted::views(r@)),
        crate::sorted::views(r@).to_set() == crate::sorted::views(found@).to_set(),
{
    let mut r: Vec<String> = Vec::new();
    let mut i: usize = 0;
    assert(crate::sorted::views(r@).to_set() =~= crate::sorted::views(found@.take(0)).to_set());
    while i < found.len()
        invariant
            i <= found@.len(),
            crate::sorted::strictly_sorted(crate::sorted::views(r@)),
            crate::sorted::views(r@).to_set() == crate::sorted::views(found@.take(i as int)).to_set(),
        decreases found.len() - i,
    {
        let ghost before = crate::sorted::views(found@.take(i as int));
        let x = found[i].clone();
        crate::sorted::insert_sorted_unique(&mut r, x);
        proof {
            assert(found@.take(i + 1) =~= found@.take(i as int).push(found@[i as int]));
            crate::sorted::lemma_views_push(found@.take(i as int), found@[i as int]);
            before.lemma_push_to_set_commute(found@[i as int]@);
        }
        i += 1;
    }
    assert(found@.take(found@.len() as int) =~= found@);
    r
}

/// The recording folders a profile's `basic.ini` names (the caller keeps
/// those that are folders on disk).
pub fn recording_path_candidates(raw: &str) -> (r: Vec<String>)
    ensures
        crate::sorted::views(r@) == recording_paths_spec(lines_of(raw@)),
{
    let v = chars_of(raw);
    let lines = split_lines(v.as_slice());
    let mut out: Vec<String> = Vec::new();
    let mut i: usize = 0;
    while i < lines.len()
        invariant
            i <= lines@.len(),
            deep(lines@) == lines_of(raw@),
            crate::sorted::views(out@) == recording_paths_spec(deep(lines@).take(i as int)),
        decreases lines.len() - i,
    {
        proof {
            assert(deep(lines@).take(i + 1).drop_last() =~= deep(lines@).take(i as int));
            assert(deep(lines@)[i as int] == lines@[i as int]@);
        }
        match recording_path_in_line(lines[i].as_slice()) {
            Some(p) => {
                out.push(p);
            },
            None => {},
        }
        i += 1;
    }
    assert(deep(lines@).take(i as int) =~= deep(lines@));
    out
}

// ------------------------------------------------------------ obs-websocket

/// The default obs-websocket address.
pub open spec fn default_ws_url() -> Seq<char> {
    "ws://127.0.0.1:4455"@
}

/// `connection_error_message`: a refused connection (Windows error 10061,
/// or "actively refused" in any ASCII case) is explained; any other error is
/// shown as it is.
pub open spec fn connection_error_spec(error: Seq<char>) -> Seq<char> {
    if contains_seq(error, "10061"@) || contains_seq(ascii_lower_seq(error), "actively refused"@) {
        "OBS WebSocket refused connection. 533clip enabled it in config; restart OBS, then Check again."@
    } else {
        error
    }
}

pub fn connection_error_message(error: &str) -> (r: String)
    ensures
        r@ == connection_error_spec(error@),
{
    let v = chars_of(error);
    let lower = ascii_lower_chars(v.as_slice());
    let pat = chars_of("actively refused");
    if str_contains(error, "10061") || contains_chars(lower.as_slice(), pat.as_slice()) {
        owned(
            "OBS WebSocket refused connection. 533clip enabled it in config; restart OBS, then Check again.",
        )
    } else {
        owned(error)
    }
}

/// `server_port` of the obs-websocket config, where it is a port number.
pub open spec fn config_port(config: JsonView) -> Option<nat> {
    match jfield(config, "server_port"@) {
        Some(JsonView::Number(t)) => match json_uint(t) {
            Some(p) => if 0 < p && p <= 65535 {
                Some(p)
            } else {
                None
            },
            None => None,
        },
        _ => None,
    }
}

/// `detect_websocket_url`, given the obs-websocket config if it could be
/// read: `ws://127.0.0.1:{port}`, the port being 4455 unless the config
/// names a valid one.
pub open spec fn config_ws_url(config: Option<JsonView>) -> Option<Seq<char>> {
    match config {
        Some(c) => Some(
            "ws://127.0.0.1:"@ + decimal(
                match config_port(c) {
                    Some(p) => p,
                    None => 4455,
                },
            ),
        ),
        None => None,
    }
}

pub fn websocket_url_from_config(config: Option<&Json>) -> (r: Option<String>)
    ensures
        match (r, config_ws_url(match config {
            Some(c) => Some(c@),
            None => None,
        })) {
            (Some(a), Some(b)) => a@ == b,
            (None, None) => true,
            _ => false,
        },
{
    let c = match config {
        Some(c) => c,
        None => {
            return None;
        },
    };
    let port: u64 = match get_field(c, "server_port") {
        Some(Json::Number(t)) => {
            let tv = chars_of(t.as_str());
            match json_uint_chars(tv.as_slice()) {
                Some(p) => if 0 < p && p <= 65535 {
                    p
                } else {
                    4455
                },
                None => 4455,
            }
        },
        _ => 4455,
    };
    let mut url = owned("ws://127.0.0.1:");
    let digits = decimal_string(port);
    append_str(&mut url, digits.as_str());
    Some(url)
}

/// `resolve_websocket_url`: the configured address, unless it is empty or
/// the default, in which case the one OBS's config names (else the default).
pub open spec fn resolve_ws_url_spec(configured: Seq<char>, detected: Option<Seq<char>>) -> Seq<char> {
    let c = trim_seq(configured);
    if c.len() == 0 || c == default_ws_url() {
        match detected {
            Some(d) => d,
            None => default_ws_url(),
        }
    } else {
        c
    }
}

pub fn resolve_websocket_url(settings: &ObsSettings, detected: Option<String>) -> (r: String)
    ensures
        r@ == resolve_ws_url_spec(settings.websocket_url@, match detected {
            Some(d) => Some(d@),
            None => None,
        }),
{
    let c = trim(settings.websocket_url.as_str());
    if c.as_str().is_empty() || str_eq(c.as_str(), "ws://127.0.0.1:4455") {
        match detected {
            Some(d) => d,
            None => owned("ws://127.0.0.1:4455"),
        }
    } else {
        c
    }
}

/// `read_password_from_obs_config`: the config's `server_password`, trimmed,
/// where that leaves something.
pub open spec fn config_password(config: Option<JsonView>) -> Option<Seq<char>> {
    match config {
        Some(c) => match jfield_str(c, "server_password"@) {
            Some(p) => if trim_seq(p).len() > 0 {
                Some(trim_seq(p))
            } else {
                None
            },
            None => None,
        },
        None => None,
    }
}

pub fn password_from_config(config: Option<&Json>) -> (r: Option<String>)
    ensures
        match (r, config_password(match config {
            Some(c) => Some(c@),
            None => None,
        })) {
            (Some(a), Some(b)) => a@ == b,
            (None, None) => true,
            _ => false,
        },
{
    match config {
        Some(c) => match get_str(c, "server_password") {
            Some(p) => {
                let t = trim(p.as_str());
                if t.as_str().is_empty() {
                    None
                } else {
                    Some(t)
                }
            },
            None => None,
        },
        None => None,
    }
}

/// `ensure_websocket_enabled_config` on the config as read (an empty object
/// where there was none or it did not parse): an enabled server is left as
/// it is (`false`); otherwise the server is enabled, and a port of 4455, no
/// authentication and no alerts filled in where the config does not say
/// (`true`, the config to write).
pub open spec fn enabled_config_spec(config: JsonView) -> (JsonView, bool) {
    if jfield_bool(config, "server_enabled"@) == Some(true) {
        (config, false)
    } else {
        let a = jset(config, "server_enabled"@, JsonView::Bool(true));
        let b = if (match jfield(a, "server_port"@) {
            Some(JsonView::Number(t)) => json_uint(t) is Some,
            _ => false,
        }) {
            a
        } else {
            jset(a, "server_port"@, JsonView::Number("4455"@))
        };
        let c = if jfield_bool(b, "auth_required"@) is Some {
            b
        } else {
            jset(b, "auth_required"@, JsonView::Bool(false))
        };
        let d = if jfield_bool(c, "alerts_enabled"@) is Some {
            c
        } else {
            jset(c, "alerts_enabled"@, JsonView::Bool(false))
        };
        (d, true)
    }
}

pub fn enable_websocket_config(config: Json) -> (r: (Json, bool))
    requires
        config@ is Object,
    ensures
        (r.0@, r.1) == enabled_config_spec(config@),
{
    if get_bool(&config, "server_enabled") == Some(true) {
        return (config, false);
    }
    let a = set_field(config, "server_enabled", Json::Bool(true));
    let has_port = match get_field(&a, "server_port") {
        Some(Json::Number(t)) => {
            let tv = chars_of(t.as_str());
            json_uint_chars(tv.as_slice()).is_some()
        },
        _ => false,
    };
    let b = if has_port {
        a
    } else {
        set_field(a, "server_port", Json::Number(owned("4455")))
    };
    let c = if get_bool(&b, "auth_required").is_some() {
        b
    } else {
        set_field(b, "auth_required", Json::Bool(false))
    };
    let d = if get_bool(&c, "alerts_enabled").is_some() {
        c
    } else {
        set_field(c, "alerts_enabled", Json::Bool(false))
    };
    (d, true)
}

// ------------------------------------------------------------ status

/// What the settings page shows about OBS.
pub struct ObsRuntimeStatus {
    pub installed: bool,
    pub running: bool,
    pub websocket_connected: bool,
    pub replay_buffer_active: bool,
    pub path: Option<String>,
    pub error: Option<String>,
}

/// `runtime_status`, given where OBS is installed, whether it runs, whether
/// its websocket server had to be switched on, and (when it runs) the reply
/// to `GetReplayBufferStatus`.
pub fn runtime_status(
    path: Option<String>,
    running: bool,
    websocket_was_disabled: bool,
    replay_status: Option<Result<Json, String>>,
) -> (r: ObsRuntimeStatus)
    ensures
        r.installed == path is Some,
        r.running == running,
        r.path == path,
        match (running, replay_status) {
            (true, Some(Ok(v))) => {
                &&& r.websocket_connected
                &&& r.replay_buffer_active == (jfield_bool(v@, "outputActive"@) == Some(true))
                &&& r.error == if websocket_was_disabled {
                    Some(r.error->Some_0)
                } else {
                    None
                }
                &&& websocket_was_disabled ==> r.error->Some_0@
                    == "OBS WebSocket was off. 533clip enabled it; restart OBS."@
            },
            (true, Some(Err(e))) => {
                &&& !r.websocket_connected && !r.replay_buffer_active
                &&& r.error matches Some(m) && m@ == connection_error_spec(e@)
            },
            _ => {
                &&& !r.websocket_connected && !r.replay_buffer_active
                &&& websocket_was_disabled == r.error is Some
                &&& websocket_was_disabled ==> r.error->Some_0@
                    == "OBS WebSocket was off. 533clip enabled it; restart OBS."@
            },
        },
{
    let mut status = ObsRuntimeStatus {
        installed: path.is_some(),
        running,
        websocket_connected: false,
        replay_buffer_active: false,
        path,
        error: if websocket_was_disabled {
            Some(owned("OBS WebSocket was off. 533clip enabled it; restart OBS."))
        } else {
            None
        },
    };
    if running {
        match replay_status {
            Some(Ok(v)) => {
                status.websocket_connected = true;
                status.replay_buffer_active = get_bool(&v, "outputActive") == Some(true);
            },
            Some(Err(e)) => {
                status.error = Some(connection_error_message(e.as_str()));
            },
            None => {},
        }
    }
    status
}

/// `audio_inputs` keeps the inputs with a name whose name or kind (in
/// lowercase) mentions audio, a mic, the desktop or WASAPI.
pub open spec fn is_audio_input_spec(name: Seq<char>, kind: Seq<char>) -> bool {
    let lower = unicode_lowercase(name) + seq![' '] + unicode_lowercase(kind);
    &&& name.len() > 0
    &&& contains_seq(lower, "audio"@) || contains_seq(lower, "mic"@) || contains_seq(
        lower,
        "desktop"@,
    ) || contains_seq(lower, "wasapi"@)
}

pub fn is_audio_input(name: &str, kind: &str) -> (r: bool)
    ensures
        r == is_audio_input_spec(name@, kind@),
{
    let mut lower = to_lowercase(name);
    crate::text::push_char(&mut lower, ' ');
    let lk = to_lowercase(kind);
    append_str(&mut lower, lk.as_str());
    assert(lower@ =~= unicode_lowercase(name@) + seq![' '] + unicode_lowercase(kind@));
    !name.is_empty() && (str_contains(lower.as_str(), "audio") || str_contains(lower.as_str(), "mic")
        || str_contains(lower.as_str(), "desktop") || str_contains(lower.as_str(), "wasapi"))
}

/// `obs_status` where OBS is not managed: what is installed and running,
/// never connected, and why.
pub fn unmanaged_status(path: Option<String>, running: bool) -> (r: ObsRuntimeStatus)
    ensures
        r.installed == path is Some,
        r.running == running,
        r.path == path,
        !r.websocket_connected,
        !r.replay_buffer_active,
        r.error matches Some(e) && e@ == "OBS integration is manual/off. 533clip is only watching the folder."@,
{
    ObsRuntimeStatus {
        installed: path.is_some(),
        running,
        websocket_connected: false,
        replay_buffer_active: false,
        path,
        error: Some(owned("OBS integration is manual/off. 533clip is only watching the folder.")),
    }
}

/// The settings writers report an error where no profile file changed.
pub fn updated_or(updated: Vec<String>, none_msg: &str) -> (r: Result<Vec<String>, String>)
    ensures
        match r {
            Ok(v) => updated@.len() > 0 && v@ == updated@,
            Err(e) => updated@.len() == 0 && e@ == none_msg@,
        },
{
    if updated.len() == 0 {
        Err(owned(none_msg))
    } else {
        Ok(updated)
    }
}

/// The arguments OBS is started with: no crash-recovery prompt, minimised
/// to the tray, and the replay buffer running where asked.
pub fn launch_args(start_replay_buffer: bool) -> (r: Vec<String>)
    ensures
        crate::sorted::views(r@) == if start_replay_buffer {
            seq!["--disable-shutdown-check"@, "--minimize-to-tray"@, "--startreplaybuffer"@]
        } else {
            seq!["--disable-shutdown-check"@, "--minimize-to-tray"@]
        },
{
    let mut r: Vec<String> = Vec::new();
    r.push(owned("--disable-shutdown-check"));
    r.push(owned("--minimize-to-tray"));
    if start_replay_buffer {
        r.push(owned("--startreplaybuffer"));
    }
    assert(crate::sorted::views(r@) =~= if start_replay_buffer {
        seq!["--disable-shutdown-check"@, "--minimize-to-tray"@, "--startreplaybuffer"@]
    } else {
        seq!["--disable-shutdown-check"@, "--minimize-to-tray"@]
    });
    r
}

} // verus!
