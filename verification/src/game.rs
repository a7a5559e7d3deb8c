//! Naming the game a clip was recorded in, from the foreground window's title
//! and process name, and remembering the last game seen.
//!
//! Case folding goes through `str::to_lowercase`, whose Unicode mapping is
//! named (`unicode_lowercase`) rather than restated; every function that
//! takes the folded text as an argument states its result exactly.
use vstd::prelude::*;

use crate::text::{
    str_contains,
    chars_of, contains_chars, contains_seq, ends_with, ends_with_chars, eq_ignore_ascii_case,
    eq_ignore_ascii_case_chars, is_ws, is_ws_exec, occurs_at, occurs_at_exec, owned, starts_with,
    str_eq, string_of, to_lowercase, trim_chars, trim_seq, unicode_lowercase,
};

verus! {

/// The foreground window: its title and the file name of its process.
pub struct ActiveWindowInfo {
    pub title: String,
    pub process_name: String,
}

// ------------------------------------------------------------ replacing

/// `str::replace`: each occurrence of `p`, scanning left to right without
/// overlap, replaced by `r`.
pub open spec fn replace_seq(s: Seq<char>, p: Seq<char>, r: Seq<char>) -> Seq<char>
    decreases s.len(),
{
    if s.len() == 0 {
        s
    } else if p.len() > 0 && starts_with(s, p) {
        r + replace_seq(s.skip(p.len() as int), p, r)
    } else {
        seq![s[0]] + replace_seq(s.drop_first(), p, r)
    }
}

pub fn replace_chars(s: &[char], p: &[char], r: &[char]) -> (out: Vec<char>)
    requires
        p@.len() > 0,
    ensures
        out@ == replace_seq(s@, p@, r@),
{
    let mut out: Vec<char> = Vec::new();
    let mut i: usize = 0;
    assert(s@.skip(0) =~= s@);
    while i < s.len()
        invariant
            p@.len() > 0,
            i <= s@.len(),
            out@ + replace_seq(s@.skip(i as int), p@, r@) == replace_seq(s@, p@, r@),
        decreases s.len() - i,
    {
        let ghost rest = s@.skip(i as int);
        assert(rest[0] == s@[i as int]);
        assert(starts_with(rest, p@) == occurs_at(s@, p@, i as int)) by {
            if p@.len() <= rest.len() {
                assert(rest.take(p@.len() as int) =~= s@.subrange(i as int, i + p@.len()));
            }
        }
        if occurs_at_exec(s, p, i) {
            let mut k: usize = 0;
            let ghost before = out@;
            while k < r.len()
                invariant
                    k <= r@.len(),
                    out@ == before + r@.take(k as int),
                decreases r.len() - k,
            {
                out.push(r[k]);
                assert(r@.take(k + 1) =~= r@.take(k as int).push(r@[k as int]));
                k += 1;
            }
            assert(r@.take(k as int) =~= r@);
            assert(rest.skip(p@.len() as int) =~= s@.skip(i + p@.len()));
            assert(out@ + replace_seq(s@.skip(i + p@.len()), p@, r@) =~= before + (r@
                + replace_seq(rest.skip(p@.len() as int), p@, r@)));
            i += p.len();
        } else {
            let ghost before = out@;
            out.push(s[i]);
            assert(rest.drop_first() =~= s@.skip(i + 1));
            assert(out@ + replace_seq(s@.skip(i + 1), p@, r@) =~= before + (seq![s@[i as int]]
                + replace_seq(rest.drop_first(), p@, r@)));
            i += 1;
        }
    }
    assert(s@.skip(i as int).len() == 0);
    assert(out@ + replace_seq(s@.skip(i as int), p@, r@) =~= out@);
    out
}

/// `_` and `-` turned into spaces.
pub open spec fn dashes_to_spaces(s: Seq<char>) -> Seq<char> {
    s.map_values(
        |c: char|
            if c == '_' || c == '-' {
                ' '
            } else {
                c
            },
    )
}

/// Each run of white space as one space.
pub open spec fn squash_ws(s: Seq<char>) -> Seq<char>
    decreases s.len(),
{
    if s.len() == 0 {
        s
    } else if is_ws(s.last()) {
        if s.len() >= 2 && is_ws(s[s.len() - 2]) {
            squash_ws(s.drop_last())
        } else {
            squash_ws(s.drop_last()).push(' ')
        }
    } else {
        squash_ws(s.drop_last()).push(s.last())
    }
}

/// `split_whitespace` then `join(" ")`: the words, one space between each.
pub open spec fn collapse_ws(s: Seq<char>) -> Seq<char> {
    trim_seq(squash_ws(s))
}

pub fn collapse_ws_chars(v: &[char]) -> (r: Vec<char>)
    ensures
        r@ == collapse_ws(v@),
{
    let mut out: Vec<char> = Vec::new();
    let mut i: usize = 0;
    while i < v.len()
        invariant
            i <= v@.len(),
            out@ == squash_ws(v@.take(i as int)),
        decreases v.len() - i,
    {
        proof {
            let t = v@.take(i + 1);
            assert(t.drop_last() =~= v@.take(i as int));
            assert(t.last() == v@[i as int]);
            if i >= 1 {
                assert(t[t.len() - 2] == v@[i - 1]);
            }
        }
        if is_ws_exec(v[i]) {
            if !(i >= 1 && is_ws_exec(v[i - 1])) {
                out.push(' ');
            }
        } else {
            out.push(v[i]);
        }
        i += 1;
    }
    assert(v@.take(i as int) =~= v@);
    trim_chars(out.as_slice())
}

// ------------------------------------------------------------ names

/// `clean_name`, given the name and its lowercase form: a few known tools
/// by their proper names, anything else with `_` and `-` read as spaces and
/// white space collapsed.
pub open spec fn clean_name_spec(name: Seq<char>, lower: Seq<char>) -> Seq<char> {
    if contains_seq(lower, "blender"@) {
        "Blender"@
    } else if contains_seq(lower, "kletka"@) {
        "Kletka"@
    } else if contains_seq(lower, "robloxstudiobeta"@) || contains_seq(lower, "robloxstudio"@) {
        "Roblox Studio"@
    } else {
        collapse_ws(dashes_to_spaces(name))
    }
}

/// A display name from a raw name, given the name's lowercase form.
pub fn clean_name_lowered(name: &str, lower: &str) -> (r: String)
    ensures
        r@ == clean_name_spec(name@, lower@),
{
    if str_contains(lower, "blender") {
        return owned("Blender");
    }
    if str_contains(lower, "kletka") {
        return owned("Kletka");
    }
    if str_contains(lower, "robloxstudiobeta") || str_contains(lower, "robloxstudio") {
        return owned("Roblox Studio");
    }
    let v = chars_of(name);
    let mut spaced: Vec<char> = Vec::new();
    let mut i: usize = 0;
    while i < v.len()
        invariant
            i <= v@.len(),
            spaced@ == dashes_to_spaces(v@.take(i as int)),
        decreases v.len() - i,
    {
        let c = v[i];
        if c == '_' || c == '-' {
            spaced.push(' ');
        } else {
            spaced.push(c);
        }
        assert(dashes_to_spaces(v@.take(i + 1)) =~= dashes_to_spaces(v@.take(i as int)).push(
            spaced@.last(),
        ));
        i += 1;
    }
    assert(v@.take(i as int) =~= v@);
    let collapsed = collapse_ws_chars(spaced.as_slice());
    string_of(collapsed.as_slice())
}

/// A display name from a raw name (`clean_name`).
pub fn clean_name(name: &str) -> (r: String)
    ensures
        r@ == clean_name_spec(name@, unicode_lowercase(name@)),
{
    let lower = to_lowercase(name);
    clean_name_lowered(name, lower.as_str())
}

/// The window title with the store and launcher decorations taken off and
/// trimmed; empty when all that is left is "roblox" or "terraria" in any
/// ASCII case.
pub open spec fn title_core(title: Seq<char>) -> Seq<char> {
    let v = trim_seq(
        replace_seq(
            replace_seq(replace_seq(title, " - Roblox"@, ""@), "Roblox - "@, ""@),
            " - Microsoft Store"@,
            ""@,
        ),
    );
    if eq_ignore_ascii_case(v, "roblox"@) || eq_ignore_ascii_case(v, "terraria"@) {
        Seq::empty()
    } else {
        v
    }
}

pub fn title_core_exec(title: &str) -> (r: String)
    ensures
        r@ == title_core(title@),
{
    proof {
        reveal_strlit(" - Roblox");
        reveal_strlit("Roblox - ");
        reveal_strlit(" - Microsoft Store");
    }
    let t = chars_of(title);
    let empty: Vec<char> = Vec::new();
    assert(empty@ =~= ""@) by {
        reveal_strlit("");
    }
    let p1 = chars_of(" - Roblox");
    let a = replace_chars(t.as_slice(), p1.as_slice(), empty.as_slice());
    let p2 = chars_of("Roblox - ");
    let b = replace_chars(a.as_slice(), p2.as_slice(), empty.as_slice());
    let p3 = chars_of(" - Microsoft Store");
    let c = replace_chars(b.as_slice(), p3.as_slice(), empty.as_slice());
    let v = trim_chars(c.as_slice());
    let roblox = chars_of("roblox");
    let terraria = chars_of("terraria");
    if eq_ignore_ascii_case_chars(v.as_slice(), roblox.as_slice())
        || eq_ignore_ascii_case_chars(v.as_slice(), terraria.as_slice()) {
        String::new()
    } else {
        string_of(v.as_slice())
    }
}

/// `clean_title`: the title's core, cleaned as a name.
pub open spec fn clean_title_spec(title: Seq<char>) -> Seq<char> {
    clean_name_spec(title_core(title), unicode_lowercase(title_core(title)))
}

pub fn clean_title(title: &str) -> (r: String)
    ensures
        r@ == clean_title_spec(title@),
{
    let core = title_core_exec(title);
    clean_name(core.as_str())
}

/// `title_or`: the cleaned title, or the fallback where nothing is left.
pub open spec fn title_or_spec(fallback: Seq<char>, title: Seq<char>) -> Seq<char> {
    if clean_title_spec(title).len() == 0 {
        fallback
    } else {
        clean_title_spec(title)
    }
}

pub fn title_or(fallback: &str, title: &str) -> (r: String)
    ensures
        r@ == title_or_spec(fallback@, title@),
{
    let cleaned = clean_title(title);
    if cleaned.as_str().is_empty() {
        owned(fallback)
    } else {
        cleaned
    }
}

// ------------------------------------------------------------ processes

/// `strip_exe`: the process name without a trailing `.exe` or `.EXE`.
pub open spec fn strip_exe_spec(name: Seq<char>) -> Seq<char> {
    if ends_with(name, ".exe"@) {
        name.take(name.len() - ".exe"@.len())
    } else if ends_with(name, ".EXE"@) {
        name.take(name.len() - ".EXE"@.len())
    } else {
        name
    }
}

pub fn strip_exe(name: &str) -> (r: String)
    ensures
        r@ == strip_exe_spec(name@),
{
    let v = chars_of(name);
    let lower_ext = chars_of(".exe");
    let upper_ext = chars_of(".EXE");
    let cut = if ends_with_chars(v.as_slice(), lower_ext.as_slice()) {
        v.len() - lower_ext.len()
    } else if ends_with_chars(v.as_slice(), upper_ext.as_slice()) {
        v.len() - upper_ext.len()
    } else {
        v.len()
    };
    let mut out: Vec<char> = Vec::new();
    let mut i: usize = 0;
    while i < cut
        invariant
            cut <= v@.len(),
            i <= cut,
            out@ == v@.take(i as int),
        decreases cut - i,
    {
        out.push(v[i]);
        assert(v@.take(i + 1) =~= v@.take(i as int).push(v@[i as int]));
        i += 1;
    }
    assert(v@.take(v@.len() as int) =~= v@);
    string_of(out.as_slice())
}

/// Launchers and runtimes whose process name says nothing of the game.
pub open spec fn is_generic_process_spec(p: Seq<char>) -> bool {
    ||| p == "javaw"@
    ||| p == "java"@
    ||| p == "unityplayer"@
    ||| p == "unrealcefsubprocess"@
    ||| p == "gamelaunchhelper"@
    ||| p == "game"@
    ||| p == "win64shipping"@
}

pub fn is_generic_process(process: &str) -> (r: bool)
    ensures
        r == is_generic_process_spec(process@),
{
    str_eq(process, "javaw") || str_eq(process, "java") || str_eq(process, "unityplayer")
        || str_eq(process, "unrealcefsubprocess") || str_eq(process, "gamelaunchhelper")
        || str_eq(process, "game") || str_eq(process, "win64shipping")
}

/// Desktop, shell and tool processes that are never taken for a game.
pub open spec fn is_ignored_process_spec(p: Seq<char>) -> bool {
    ||| p == "five33clip"@
    ||| p == "codex"@
    ||| p == "explorer"@
    ||| p == "obs64"@
    ||| p == "obs32"@
    ||| p == "screenclippinghost"@
    ||| p == "taskmgr"@
    ||| p == "blender"@
    ||| p == "applicationframehost"@
    ||| p == "search"@
    ||| p == "searchapp"@
    ||| p == "shellexperiencehost"@
    ||| p == "searchhost"@
    ||| p == "runtimebroker"@
    ||| p == "systemsettings"@
    ||| p == "winstore.app"@
    ||| p == "lockapp"@
    ||| p == "securityhealthsystray"@
    ||| p == "widgets"@
    ||| p == "widgetservice"@
    ||| p == "phoneexperiencehost"@
    ||| p == "yourphone"@
    ||| p == "dllhost"@
    ||| p == "conhost"@
    ||| p == "ctfmon"@
    ||| p == "audiodg"@
    ||| p == "msedgewebview2"@
    ||| p == "startmenuexperiencehost"@
    ||| p == "textinputhost"@
    ||| p == "powershell"@
    ||| p == "windowsterminal"@
    ||| p == "code"@
    ||| p == "cursor"@
}

pub fn is_ignored_process(process: &str) -> (r: bool)
    ensures
        r == is_ignored_process_spec(process@),
{
    str_eq(process, "five33clip") || str_eq(process, "codex") || str_eq(process, "explorer")
        || str_eq(process, "obs64") || str_eq(process, "obs32") || str_eq(
        process,
        "screenclippinghost",
    ) || str_eq(process, "taskmgr") || str_eq(process, "blender") || str_eq(
        process,
        "applicationframehost",
    ) || str_eq(process, "search") || str_eq(process, "searchapp") || str_eq(
        process,
        "shellexperiencehost",
    ) || str_eq(process, "searchhost") || str_eq(process, "runtimebroker") || str_eq(
        process,
        "systemsettings",
    ) || str_eq(process, "winstore.app") || str_eq(process, "lockapp") || str_eq(
        process,
        "securityhealthsystray",
    ) || str_eq(process, "widgets") || str_eq(process, "widgetservice") || str_eq(
        process,
        "phoneexperiencehost",
    ) || str_eq(process, "yourphone") || str_eq(process, "dllhost") || str_eq(process, "conhost")
        || str_eq(process, "ctfmon") || str_eq(process, "audiodg") || str_eq(
        process,
        "msedgewebview2",
    ) || str_eq(process, "startmenuexperiencehost") || str_eq(process, "textinputhost")
        || str_eq(process, "powershell") || str_eq(process, "windowsterminal") || str_eq(
        process,
        "code",
    ) || str_eq(process, "cursor")
}

/// The game name for a window, given the process name without `.exe`, its
/// lowercase form, the title and the title's lowercase form.
pub open spec fn game_from(exe: Seq<char>, lower: Seq<char>, title: Seq<char>, title_lower: Seq<
    char,
>) -> Seq<char> {
    if lower == "robloxplayerbeta"@ {
        title_or_spec("Roblox"@, title)
    } else if lower == "robloxstudiobeta"@ || lower == "robloxstudio"@ {
        "Roblox Studio"@
    } else if contains_seq(lower, "blender"@) {
        "Blender"@
    } else if contains_seq(lower, "kletka"@) {
        "Kletka"@
    } else if lower == "studio"@ && contains_seq(title_lower, "roblox"@) {
        "Roblox Studio"@
    } else if lower == "tmodloader"@ {
        "tModLoader"@
    } else if lower == "terraria"@ {
        "Terraria"@
    } else if is_generic_process_spec(lower) {
        title_or_spec(clean_name_spec(exe, lower), title)
    } else {
        clean_name_spec(exe, lower)
    }
}

pub fn game_name_from(exe: &str, lower: &str, title: &str, title_lower: &str) -> (r: String)
    ensures
        r@ == game_from(exe@, lower@, title@, title_lower@),
{
    if str_eq(lower, "robloxplayerbeta") {
        return title_or("Roblox", title);
    }
    if str_eq(lower, "robloxstudiobeta") || str_eq(lower, "robloxstudio") {
        return owned("Roblox Studio");
    }
    if str_contains(lower, "blender") {
        return owned("Blender");
    }
    if str_contains(lower, "kletka") {
        return owned("Kletka");
    }
    if str_eq(lower, "studio") && str_contains(title_lower, "roblox") {
        return owned("Roblox Studio");
    }
    if str_eq(lower, "tmodloader") {
        return owned("tModLoader");
    }
    if str_eq(lower, "terraria") {
        return owned("Terraria");
    }
    let cleaned = clean_name_lowered(exe, lower);
    if is_generic_process(lower) {
        return title_or(cleaned.as_str(), title);
    }
    cleaned
}

/// `infer_game_name`: the game name for a window.
pub open spec fn infer_game_spec(process_name: Seq<char>, title: Seq<char>) -> Seq<char> {
    let exe = strip_exe_spec(process_name);
    game_from(exe, unicode_lowercase(exe), title, unicode_lowercase(title))
}

pub fn infer_game_name(info: &ActiveWindowInfo) -> (r: String)
    ensures
        r@ == infer_game_spec(info.process_name@, info.title@),
{
    let exe = strip_exe(info.process_name.as_str());
    let lower = to_lowercase(exe.as_str());
    let title_lower = to_lowercase(info.title.as_str());
    game_name_from(exe.as_str(), lower.as_str(), info.title.as_str(), title_lower.as_str())
}

/// `detect_game_name`: no game when there is no foreground window or its
/// process is one of the ignored ones.
pub open spec fn detect_game_spec(info: Option<(Seq<char>, Seq<char>)>) -> Option<Seq<char>> {
    match info {
        None => None,
        Some((process_name, title)) => {
            if is_ignored_process_spec(unicode_lowercase(strip_exe_spec(process_name))) {
                None
            } else {
                Some(infer_game_spec(process_name, title))
            }
        },
    }
}

pub fn detect_game_name(info: Option<&ActiveWindowInfo>) -> (r: Option<String>)
    ensures
        match (r, detect_game_spec(
            match info {
                Some(w) => Some((w.process_name@, w.title@)),
                None => None,
            },
        )) {
            (Some(a), Some(b)) => a@ == b,
            (None, None) => true,
            _ => false,
        },
{
    match info {
        None => None,
        Some(w) => {
            let exe = strip_exe(w.process_name.as_str());
            let lower = to_lowercase(exe.as_str());
            if is_ignored_process(lower.as_str()) {
                None
            } else {
                Some(infer_game_name(w))
            }
        },
    }
}

// ------------------------------------------------------------ last game

/// `remember_game_name`: a blank name leaves the slot as it was; any other
/// is kept trimmed.
pub fn remember_game_name(slot: &mut Option<String>, game: &str)
    ensures
        trim_seq(game@).len() == 0 ==> *final(slot) == *old(slot),
        trim_seq(game@).len() > 0 ==> match *final(slot) {
            Some(g) => g@ == trim_seq(game@),
            None => false,
        },
{
    let v = chars_of(game);
    let t = trim_chars(v.as_slice());
    if t.len() == 0 {
        return ;
    }
    *slot = Some(string_of(t.as_slice()));
}

/// `last_game_name`: a copy of the remembered name.
pub fn last_game_name(slot: &Option<String>) -> (r: Option<String>)
    ensures
        r == *slot,
{
    match slot {
        Some(g) => Some(g.clone()),
        None => None,
    }
}

/// `clear_game_name`: forget the remembered name.
pub fn clear_game_name(slot: &mut Option<String>)
    ensures
        *final(slot) is None,
{
    *slot = None;
}


// ------------------------------------------------------------ game laws

/// `p` does not occur in `s` where `s` lacks `p`'s first character.
proof fn lemma_absent_first(s: Seq<char>, p: Seq<char>)
    requires
        p.len() > 0,
        forall|k: int| 0 <= k < s.len() ==> s[k] != p[0],
    ensures
        !contains_seq(s, p),
{
    if contains_seq(s, p) {
        let i = choose|i: int| occurs_at(s, p, i);
        assert(s.subrange(i, i + p.len())[0] == s[i]);
    }
}

/// A launcher or runtime process (Java, Unity, Unreal helpers, RPG Maker's
/// `Game.exe`, ...) says nothing of the game: where the window title cleans
/// to a name, that name is the game.
pub proof fn law_generic_process_takes_title(process_name: Seq<char>, title: Seq<char>)
    ensures
        ({
            let p = unicode_lowercase(strip_exe_spec(process_name));
            (p == "javaw"@ || p == "java"@ || p == "unityplayer"@ || p == "unrealcefsubprocess"@ || p
                == "gamelaunchhelper"@ || p == "game"@ || p == "win64shipping"@) && clean_title_spec(
                title,
            ).len() > 0 ==> infer_game_spec(process_name, title) == clean_title_spec(title)
        }),
{
    let p = unicode_lowercase(strip_exe_spec(process_name));
    reveal_strlit("javaw");
    reveal_strlit("java");
    reveal_strlit("unityplayer");
    reveal_strlit("unrealcefsubprocess");
    reveal_strlit("gamelaunchhelper");
    reveal_strlit("game");
    reveal_strlit("win64shipping");
    reveal_strlit("robloxplayerbeta");
    reveal_strlit("robloxstudiobeta");
    reveal_strlit("robloxstudio");
    reveal_strlit("blender");
    reveal_strlit("kletka");
    reveal_strlit("studio");
    reveal_strlit("tmodloader");
    reveal_strlit("terraria");
    if p == "javaw"@ || p == "java"@ || p == "unityplayer"@ || p == "unrealcefsubprocess"@ || p
        == "gamelaunchhelper"@ || p == "game"@ || p == "win64shipping"@ {
        assert(p.len() > 0 && p[0] != 'r' && p[0] != 's' && p[0] != 't');
        assert(p != "robloxplayerbeta"@ && p != "robloxstudiobeta"@ && p != "robloxstudio"@) by {
            assert("robloxplayerbeta"@[0] == 'r' && "robloxstudiobeta"@[0] == 'r' && "robloxstudio"@[0]
                == 'r');
        }
        assert(p != "studio"@ && p != "tmodloader"@ && p != "terraria"@) by {
            assert("studio"@[0] == 's' && "tmodloader"@[0] == 't' && "terraria"@[0] == 't');
        }
        if p == "unrealcefsubprocess"@ {
            assert(!contains_seq(p, "blender"@)) by {
                if contains_seq(p, "blender"@) {
                    let i = choose|i: int| occurs_at(p, "blender"@, i);
                    let w = p.subrange(i, i + 7);
                    assert(w[0] == p[i] && w[1] == p[i + 1]);
                }
            }
        } else {
            lemma_absent_first(p, "blender"@);
        }
        lemma_absent_first(p, "kletka"@);
        assert(is_generic_process_spec(p));
    }
}
} // verus!
