//! What 533clip writes into OBS profiles (`basic.ini`): hotkeys, replay
//! buffer length, recording format and the quality presets, each as a list of
//! `[section] key=value` edits applied with `upsert_ini_key`.
use vstd::prelude::*;

use crate::ini::{upsert_ini, upsert_ini_key};
use crate::numtext::{decimal, decimal_string, parse_u8, parse_u8_chars};
use crate::text::{
    append_str, ascii_lower_chars, ascii_lower_seq, ascii_upper_chars, ascii_upper_seq, chars_of, string_of,
    trim_chars, trim_seq,
};

verus! {

// ------------------------------------------------------------------ edits

/// One `key=value` to set inside `[section]`.
pub struct IniEdit {
    pub section: String,
    pub key: String,
    pub value: String,
}

pub open spec fn edit_view(e: IniEdit) -> (Seq<char>, Seq<char>, Seq<char>) {
    (e.section@, e.key@, e.value@)
}

pub open spec fn edits_view(v: Seq<IniEdit>) -> Seq<(Seq<char>, Seq<char>, Seq<char>)> {
    v.map_values(|e: IniEdit| edit_view(e))
}

/// The text after applying the edits in order.
pub open spec fn upsert_all(raw: Seq<char>, edits: Seq<(Seq<char>, Seq<char>, Seq<char>)>) -> Seq<char>
    decreases edits.len(),
{
    if edits.len() == 0 {
        raw
    } else {
        let e = edits.last();
        upsert_ini(upsert_all(raw, edits.drop_last()), e.0, e.1, e.2)
    }
}

pub fn ini_edit(section: &str, key: &str, value: &str) -> (e: IniEdit)
    ensures
        edit_view(e) == (section@, key@, value@),
{
    IniEdit { section: section.to_owned(), key: key.to_owned(), value: value.to_owned() }
}

/// Applies the edits to an INI text, in order.
pub fn apply_ini_edits(raw: &str, edits: &[IniEdit]) -> (r: String)
    ensures
        r@ == upsert_all(raw@, edits_view(edits@)),
{
    let mut text = raw.to_owned();
    let mut i: usize = 0;
    assert(edits_view(edits@).take(0) =~= Seq::<(Seq<char>, Seq<char>, Seq<char>)>::empty());
    while i < edits.len()
        invariant
            i <= edits@.len(),
            text@ == upsert_all(raw@, edits_view(edits@).take(i as int)),
        decreases edits.len() - i,
    {
        let e = &edits[i];
        let next = upsert_ini_key(text.as_str(), e.section.as_str(), e.key.as_str(), e.value.as_str());
        proof {
            let ev = edits_view(edits@);
            assert(ev.take(i + 1).drop_last() =~= ev.take(i as int));
            assert(ev.take(i + 1).last() == edit_view(edits@[i as int]));
        }
        text = next;
        i += 1;
    }
    assert(edits_view(edits@).take(edits@.len() as int) =~= edits_view(edits@));
    text
}

// ---------------------------------------------------------------- hotkeys

/// Index of the first `c` at or after `i` (the length if none).
pub open spec fn next_index(s: Seq<char>, c: char, i: int) -> int
    decreases s.len() - i,
{
    if i < 0 || i >= s.len() {
        s.len() as int
    } else if s[i] == c {
        i
    } else {
        next_index(s, c, i + 1)
    }
}

pub proof fn lemma_next_index(s: Seq<char>, c: char, i: int, j: int)
    requires
        0 <= i <= j <= s.len(),
        forall|k: int| i <= k < j ==> s[k] != c,
        j < s.len() ==> s[j] == c,
    ensures
        next_index(s, c, i) == j,
    decreases j - i,
{
    if i < j {
        lemma_next_index(s, c, i + 1, j);
    }
}

pub proof fn lemma_next_index_bounds(s: Seq<char>, c: char, i: int)
    requires
        0 <= i <= s.len(),
    ensures
        i <= next_index(s, c, i) <= s.len(),
    decreases s.len() - i,
{
    if i < s.len() && s[i] != c {
        lemma_next_index_bounds(s, c, i + 1);
    }
}

/// `str::split(c)` from index `i`: the pieces between separators, empty
/// pieces included.
pub open spec fn split_from(s: Seq<char>, c: char, i: int) -> Seq<Seq<char>>
    decreases s.len() - i,
{
    if i < 0 || i > s.len() {
        Seq::empty()
    } else {
        proof {
            lemma_next_index_bounds(s, c, i);
        }
        let j = next_index(s, c, i);
        if j >= s.len() {
            seq![s.subrange(i, s.len() as int)]
        } else {
            seq![s.subrange(i, j)] + split_from(s, c, j + 1)
        }
    }
}

pub fn split_chars(s: &[char], c: char) -> (r: Vec<Vec<char>>)
    ensures
        crate::ini::deep(r@) == split_from(s@, c, 0),
{
    let mut r: Vec<Vec<char>> = Vec::new();
    let mut cur: Vec<char> = Vec::new();
    let mut start: usize = 0;
    let mut i: usize = 0;
    while i < s.len()
        invariant
            start <= i <= s@.len(),
            cur@ == s@.subrange(start as int, i as int),
            forall|k: int| start <= k < i ==> s@[k] != c,
            crate::ini::deep(r@) + split_from(s@, c, start as int) == split_from(s@, c, 0),
        decreases s.len() - i,
    {
        if s[i] == c {
            proof {
                lemma_next_index(s@, c, start as int, i as int);
            }
            let ghost before = r@;
            r.push(cur);
            proof {
                assert(crate::ini::deep(r@) =~= crate::ini::deep(before).push(cur@));
                assert(crate::ini::deep(before).push(cur@) + split_from(s@, c, i + 1) =~= crate::ini::deep(
                    before,
                ) + (seq![cur@] + split_from(s@, c, i + 1)));
            }
            cur = Vec::new();
            start = i + 1;
        } else {
            cur.push(s[i]);
            assert(cur@ =~= s@.subrange(start as int, i + 1));
        }
        i += 1;
    }
    proof {
        lemma_next_index(s@, c, start as int, s@.len() as int);
    }
    let ghost before = r@;
    r.push(cur);
    assert(crate::ini::deep(r@) =~= crate::ini::deep(before) + seq![cur@]);
    r
}

pub open spec fn is_ascii_alnum(c: char) -> bool {
    ('0' <= c && c <= '9') || ('A' <= c && c <= 'Z') || ('a' <= c && c <= 'z')
}

/// The number after `F` in a function-key name, if it names F1 to F24.
pub open spec fn function_key_number(v: Seq<char>) -> Option<nat> {
    if v.len() > 0 && v[0] == 'F' {
        match parse_u8(v.drop_first()) {
            Some(n) => if 1 <= n <= 24 {
                Some(n)
            } else {
                None
            },
            None => None,
        }
    } else {
        None
    }
}

/// OBS's name for a key written in upper case (`F8`, `A`, `SPACE`, ...).
pub open spec fn obs_key_name_spec(v: Seq<char>) -> Result<Seq<char>, Seq<char>> {
    match function_key_number(v) {
        Some(n) => Ok("OBS_KEY_F"@ + decimal(n)),
        None => if v.len() == 1 && is_ascii_alnum(v[0]) {
            Ok("OBS_KEY_"@ + v)
        } else if v == "SPACE"@ {
            Ok("OBS_KEY_SPACE"@)
        } else if v == "TAB"@ {
            Ok("OBS_KEY_TAB"@)
        } else if v == "ENTER"@ {
            Ok("OBS_KEY_RETURN"@)
        } else if v == "ESC"@ || v == "ESCAPE"@ {
            Ok("OBS_KEY_ESCAPE"@)
        } else {
            Err("Unsupported hotkey key: "@ + v)
        },
    }
}

fn lit(s: &str) -> (r: String)
    ensures
        r@ == s@,
{
    s.to_owned()
}

fn concat(a: String, b: &str) -> (r: String)
    ensures
        r@ == a@ + b@,
{
    let mut a = a;
    a.append(b);
    a
}

/// OBS's name for a key (`obs_key_name`).
pub fn obs_key_name(value: &str) -> (r: Result<String, String>)
    ensures
        match (r, obs_key_name_spec(value@)) {
            (Ok(a), Ok(b)) => a@ == b,
            (Err(a), Err(b)) => a@ == b,
            _ => false,
        },
{
    let v = chars_of(value);
    if v.len() > 0 && v[0] == 'F' {
        let mut rest: Vec<char> = Vec::new();
        let mut i: usize = 1;
        while i < v.len()
            invariant
                1 <= i <= v@.len(),
                rest@ == v@.subrange(1, i as int),
            decreases v.len() - i,
        {
            rest.push(v[i]);
            assert(v@.subrange(1, i + 1) =~= v@.subrange(1, i as int).push(v@[i as int]));
            i += 1;
        }
        assert(rest@ =~= v@.drop_first());
        match parse_u8_chars(rest.as_slice()) {
            Some(n) => {
                if 1 <= n && n <= 24 {
                    let digits = decimal_string(n as u64);
                    return Ok(concat(lit("OBS_KEY_F"), digits.as_str()));
                }
            },
            None => {},
        }
    }
    if v.len() == 1 && (('0' <= v[0] && v[0] <= '9') || ('A' <= v[0] && v[0] <= 'Z') || ('a' <= v[0]
        && v[0] <= 'z')) {
        return Ok(concat(lit("OBS_KEY_"), value));
    }
    if crate::text::str_eq(value, "SPACE") {
        return Ok(lit("OBS_KEY_SPACE"));
    }
    if crate::text::str_eq(value, "TAB") {
        return Ok(lit("OBS_KEY_TAB"));
    }
    if crate::text::str_eq(value, "ENTER") {
        return Ok(lit("OBS_KEY_RETURN"));
    }
    if crate::text::str_eq(value, "ESC") || crate::text::str_eq(value, "ESCAPE") {
        return Ok(lit("OBS_KEY_ESCAPE"));
    }
    Err(concat(lit("Unsupported hotkey key: "), value))
}

/// A hotkey as OBS stores it: modifier flags and the key's OBS name.
pub struct HotkeyEntry {
    pub control: bool,
    pub shift: bool,
    pub alt: bool,
    pub command: bool,
    pub key: String,
}

/// The parts of a hotkey text: split at `+`, each trimmed and upper-cased
/// (ASCII), empty parts dropped.
pub open spec fn hotkey_parts(pieces: Seq<Seq<char>>) -> Seq<Seq<char>>
    decreases pieces.len(),
{
    if pieces.len() == 0 {
        Seq::empty()
    } else {
        let t = ascii_upper_seq(trim_seq(pieces[0]));
        if t.len() > 0 {
            seq![t] + hotkey_parts(pieces.drop_first())
        } else {
            hotkey_parts(pieces.drop_first())
        }
    }
}

/// Modifier flags and key read so far: (control, shift, alt, command, key).
pub type HotkeyState = (bool, bool, bool, bool, Option<Seq<char>>);

/// Reads the parts in order: modifiers set their flag, anything else names
/// the key (a later key replaces an earlier one); an unknown key is an error.
pub open spec fn read_hotkey(parts: Seq<Seq<char>>, st: HotkeyState) -> Result<HotkeyState, Seq<char>>
    decreases parts.len(),
{
    if parts.len() == 0 {
        Ok(st)
    } else {
        let p = parts[0];
        let next: Result<HotkeyState, Seq<char>> = if p == "CTRL"@ || p == "CONTROL"@ {
            Ok((true, st.1, st.2, st.3, st.4))
        } else if p == "SHIFT"@ {
            Ok((st.0, true, st.2, st.3, st.4))
        } else if p == "ALT"@ {
            Ok((st.0, st.1, true, st.3, st.4))
        } else if p == "CMD"@ || p == "COMMAND"@ || p == "META"@ || p == "WIN"@ {
            Ok((st.0, st.1, st.2, true, st.4))
        } else {
            match obs_key_name_spec(p) {
                Ok(k) => Ok((st.0, st.1, st.2, st.3, Some(k))),
                Err(e) => Err(e),
            }
        };
        match next {
            Ok(s2) => read_hotkey(parts.drop_first(), s2),
            Err(e) => Err(e),
        }
    }
}

/// The hotkey a text such as `"Ctrl+Shift+F8"` describes.
pub open spec fn hotkey_spec(hotkey: Seq<char>) -> Result<(bool, bool, bool, bool, Seq<char>), Seq<char>> {
    match read_hotkey(
        hotkey_parts(split_from(hotkey, '+', 0)),
        (false, false, false, false, None),
    ) {
        Ok((c, s, a, m, Some(k))) => Ok((c, s, a, m, k)),
        Ok((_, _, _, _, None)) => Err("Hotkey needs a key, example F8"@),
        Err(e) => Err(e),
    }
}

/// Text that JSON writes as it is inside quotes: no `"`, no `\` and no
/// control character.
pub open spec fn json_plain(s: Seq<char>) -> bool {
    forall|i: int| 0 <= i < s.len() ==> #[trigger] s[i] != '"' && s[i] != '\\' && (s[i] as u32) >= 32
}

/// Whether the text needs no escaping in JSON.
pub fn is_json_plain(s: &str) -> (r: bool)
    ensures
        r == json_plain(s@),
{
    let v = chars_of(s);
    let mut i: usize = 0;
    while i < v.len()
        invariant
            i <= v@.len(),
            v@ == s@,
            forall|k: int| 0 <= k < i ==> #[trigger] v@[k] != '"' && v@[k] != '\\' && (v@[k] as u32) >= 32,
        decreases v.len() - i,
    {
        let c = v[i];
        if c == '"' || c == '\\' || (c as u32) < 32 {
            return false;
        }
        i += 1;
    }
    true
}

proof fn lemma_decimal_digits(n: nat)
    ensures
        crate::numtext::all_digits(decimal(n)),
    decreases n,
{
    if n >= 10 {
        lemma_decimal_digits(n / 10);
        let d = decimal(n / 10);
        let r = d.push(crate::numtext::digit_char(n % 10));
        assert forall|i: int| 0 <= i < r.len() implies crate::numtext::is_digit(#[trigger] r[i]) by {
            if i < d.len() {
                assert(r[i] == d[i]);
            }
        }
    }
}

proof fn lemma_plain_concat(a: Seq<char>, b: Seq<char>)
    requires
        json_plain(a),
        json_plain(b),
    ensures
        json_plain(a + b),
{
    assert forall|i: int| 0 <= i < (a + b).len() implies #[trigger] (a + b)[i] != '"' && (a + b)[i] != '\\'
        && ((a + b)[i] as u32) >= 32 by {
        if i < a.len() {
            assert((a + b)[i] == a[i]);
        } else {
            assert((a + b)[i] == b[i - a.len()]);
        }
    }
}

/// Every key name OBS is given needs no escaping in JSON.
proof fn lemma_key_name_plain(v: Seq<char>)
    ensures
        obs_key_name_spec(v) matches Ok(k) ==> json_plain(k),
{
    reveal_strlit("OBS_KEY_F");
    reveal_strlit("OBS_KEY_");
    reveal_strlit("OBS_KEY_SPACE");
    reveal_strlit("OBS_KEY_TAB");
    reveal_strlit("OBS_KEY_RETURN");
    reveal_strlit("OBS_KEY_ESCAPE");
    assert(json_plain("OBS_KEY_F"@));
    assert(json_plain("OBS_KEY_"@));
    match function_key_number(v) {
        Some(n) => {
            lemma_decimal_digits(n);
            let d = decimal(n);
            assert(json_plain(d)) by {
                assert forall|i: int| 0 <= i < d.len() implies #[trigger] d[i] != '"' && d[i] != '\\'
                    && (d[i] as u32) >= 32 by {
                    assert(crate::numtext::is_digit(d[i]));
                }
            }
            lemma_plain_concat("OBS_KEY_F"@, d);
        },
        None => {
            if v.len() == 1 && is_ascii_alnum(v[0]) {
                assert(json_plain(v));
                lemma_plain_concat("OBS_KEY_"@, v);
            } else {
                assert(json_plain("OBS_KEY_SPACE"@));
                assert(json_plain("OBS_KEY_TAB"@));
                assert(json_plain("OBS_KEY_RETURN"@));
                assert(json_plain("OBS_KEY_ESCAPE"@));
            }
        },
    }
}

proof fn lemma_read_hotkey_plain(parts: Seq<Seq<char>>, st: HotkeyState)
    requires
        st.4 matches Some(k) ==> json_plain(k),
    ensures
        read_hotkey(parts, st) matches Ok(s2) ==> (s2.4 matches Some(k) ==> json_plain(k)),
    decreases parts.len(),
{
    if parts.len() > 0 {
        let p = parts[0];
        lemma_key_name_plain(p);
        let next: Result<HotkeyState, Seq<char>> = if p == "CTRL"@ || p == "CONTROL"@ {
            Ok((true, st.1, st.2, st.3, st.4))
        } else if p == "SHIFT"@ {
            Ok((st.0, true, st.2, st.3, st.4))
        } else if p == "ALT"@ {
            Ok((st.0, st.1, true, st.3, st.4))
        } else if p == "CMD"@ || p == "COMMAND"@ || p == "META"@ || p == "WIN"@ {
            Ok((st.0, st.1, st.2, true, st.4))
        } else {
            match obs_key_name_spec(p) {
                Ok(k) => Ok((st.0, st.1, st.2, st.3, Some(k))),
                Err(e) => Err(e),
            }
        };
        match next {
            Ok(s2) => lemma_read_hotkey_plain(parts.drop_first(), s2),
            Err(_) => {},
        }
    }
}

/// Parses a hotkey text such as `"Ctrl+Shift+F8"` (`obs_hotkey_entry`).
pub fn obs_hotkey_entry(hotkey: &str) -> (r: Result<HotkeyEntry, String>)
    ensures
        match (r, hotkey_spec(hotkey@)) {
            (Ok(e), Ok((c, s, a, m, k))) => e.control == c && e.shift == s && e.alt == a
                && e.command == m && e.key@ == k,
            (Err(a), Err(b)) => a@ == b,
            _ => false,
        },
        r matches Ok(e) ==> json_plain(e.key@),
{
    proof {
        lemma_read_hotkey_plain(
            hotkey_parts(split_from(hotkey@, '+', 0)),
            (false, false, false, false, None),
        );
    }
    let hv = chars_of(hotkey);
    let pieces = split_chars(hv.as_slice(), '+');
    let ghost all = crate::ini::deep(pieces@);
    let mut control = false;
    let mut shift = false;
    let mut alt = false;
    let mut command = false;
    let mut key: Option<String> = None;
    let mut i: usize = 0;
    assert(all.skip(0) =~= all);
    while i < pieces.len()
        invariant
            i <= pieces@.len(),
            all == crate::ini::deep(pieces@),
            all == split_from(hotkey@, '+', 0),
            read_hotkey(hotkey_parts(all), (false, false, false, false, None)) == read_hotkey(
                hotkey_parts(all.skip(i as int)),
                (
                    control,
                    shift,
                    alt,
                    command,
                    match key {
                        Some(k) => Some(k@),
                        None => None,
                    },
                ),
            ),
        decreases pieces.len() - i,
    {
        let trimmed = trim_chars(pieces[i].as_slice());
        let upper = ascii_upper_chars(trimmed.as_slice());
        let ghost rest = hotkey_parts(all.skip(i + 1));
        proof {
            assert(all.skip(i as int)[0] == pieces@[i as int]@);
            assert(all.skip(i as int).drop_first() =~= all.skip(i + 1));
            assert(upper@ == ascii_upper_seq(trim_seq(all.skip(i as int)[0])));
            if upper@.len() > 0 {
                assert(hotkey_parts(all.skip(i as int)) == seq![upper@] + rest);
                assert((seq![upper@] + rest)[0] == upper@);
                assert((seq![upper@] + rest).drop_first() =~= rest);
            } else {
                assert(hotkey_parts(all.skip(i as int)) == rest);
            }
        }
        if upper.len() > 0 {
            let part = string_of(upper.as_slice());
            let p = part.as_str();
            if crate::text::str_eq(p, "CTRL") || crate::text::str_eq(p, "CONTROL") {
                control = true;
            } else if crate::text::str_eq(p, "SHIFT") {
                shift = true;
            } else if crate::text::str_eq(p, "ALT") {
                alt = true;
            } else if crate::text::str_eq(p, "CMD") || crate::text::str_eq(p, "COMMAND")
                || crate::text::str_eq(p, "META") || crate::text::str_eq(p, "WIN") {
                command = true;
            } else {
                match obs_key_name(p) {
                    Ok(k) => {
                        key = Some(k);
                    },
                    Err(e) => {
                        return Err(e);
                    },
                }
            }
        }
        i += 1;
    }
    assert(all.skip(i as int) =~= Seq::<Seq<char>>::empty());
    match key {
        Some(k) => Ok(HotkeyEntry { control, shift, alt, command, key: k }),
        None => Err(lit("Hotkey needs a key, example F8")),
    }
}

// ------------------------------------------------- profile edit lists

/// Replay buffer length written to profiles: clamped to 5..=600 seconds.
pub open spec fn replay_seconds(seconds: u32) -> nat {
    if seconds < 5 {
        5
    } else if seconds > 600 {
        600
    } else {
        seconds as nat
    }
}

pub open spec fn replay_duration_edits_spec(seconds: u32) -> Seq<(Seq<char>, Seq<char>, Seq<char>)> {
    let v = decimal(replay_seconds(seconds));
    seq![("SimpleOutput"@, "RecRBTime"@, v), ("AdvOut"@, "RecRBTime"@, v)]
}

/// Edits that set the replay buffer length (`set_replay_duration`).
pub fn replay_duration_edits(seconds: u32) -> (r: Vec<IniEdit>)
    ensures
        edits_view(r@) == replay_duration_edits_spec(seconds),
{
    let s = if seconds < 5 {
        5
    } else if seconds > 600 {
        600
    } else {
        seconds
    };
    let v = decimal_string(s as u64);
    let r = vec![
        ini_edit("SimpleOutput", "RecRBTime", v.as_str()),
        ini_edit("AdvOut", "RecRBTime", v.as_str()),
    ];
    assert(edits_view(r@) =~= replay_duration_edits_spec(seconds));
    r
}

pub open spec fn disable_auto_remux_edits_spec() -> Seq<(Seq<char>, Seq<char>, Seq<char>)> {
    seq![
        ("Video"@, "AutoRemux"@, "false"@),
        ("SimpleOutput"@, "RecFormat2"@, "mkv"@),
        ("AdvOut"@, "RecFormat2"@, "mkv"@),
    ]
}

/// Edits that turn off OBS's automatic remux and record to MKV
/// (`disable_auto_remux_profiles`).
pub fn disable_auto_remux_edits() -> (r: Vec<IniEdit>)
    ensures
        edits_view(r@) == disable_auto_remux_edits_spec(),
{
    let r = vec![
        ini_edit("Video", "AutoRemux", "false"),
        ini_edit("SimpleOutput", "RecFormat2", "mkv"),
        ini_edit("AdvOut", "RecFormat2", "mkv"),
    ];
    assert(edits_view(r@) =~= disable_auto_remux_edits_spec());
    r
}

/// Edits that bind the replay-buffer save hotkey; `value` is the JSON that
/// OBS stores for the binding (`set_replay_save_hotkey`).
pub fn replay_hotkey_edits(value: &str) -> (r: Vec<IniEdit>)
    ensures
        edits_view(r@) == seq![("Hotkeys"@, "ReplayBuffer"@, value@)],
{
    let r = vec![ini_edit("Hotkeys", "ReplayBuffer", value)];
    assert(edits_view(r@) =~= seq![("Hotkeys"@, "ReplayBuffer"@, value@)]);
    r
}

/// Edits that bind start and stop recording to the same hotkey
/// (`set_recording_toggle_hotkey`).
pub fn recording_hotkey_edits(start_value: &str, stop_value: &str) -> (r: Vec<IniEdit>)
    ensures
        edits_view(r@) == seq![
            ("Hotkeys"@, "OBSBasic.StartRecording"@, start_value@),
            ("Hotkeys"@, "OBSBasic.StopRecording"@, stop_value@),
        ],
{
    let r = vec![
        ini_edit("Hotkeys", "OBSBasic.StartRecording", start_value),
        ini_edit("Hotkeys", "OBSBasic.StopRecording", stop_value),
    ];
    assert(edits_view(r@) =~= seq![
        ("Hotkeys"@, "OBSBasic.StartRecording"@, start_value@),
        ("Hotkeys"@, "OBSBasic.StopRecording"@, stop_value@),
    ]);
    r
}

} // verus!

verus! {

// ------------------------------------------------------- quality presets

/// The OBS quality presets 533clip offers.
#[derive(Clone, Copy, PartialEq, Eq, Debug)]
pub enum QualityPreset {
    High,
    Medium,
    Low,
    Potato,
    /// The deliberately tiny "533" preset.
    Tiny,
}

/// The preset a name picks, the name compared after trimming and ASCII
/// lower-casing.
pub open spec fn preset_named(name: Seq<char>) -> Option<QualityPreset> {
    let n = ascii_lower_seq(trim_seq(name));
    if n == "high"@ {
        Some(QualityPreset::High)
    } else if n == "medium"@ {
        Some(QualityPreset::Medium)
    } else if n == "low"@ {
        Some(QualityPreset::Low)
    } else if n == "potato"@ {
        Some(QualityPreset::Potato)
    } else if n == "533"@ {
        Some(QualityPreset::Tiny)
    } else {
        None
    }
}

/// Video bitrate, audio bitrate, NVENC preset, recording quality, replay
/// buffer size (MB) and length (s), output width and height, base width and
/// height, frame rate and scale filter of a preset.
pub open spec fn preset_row(p: QualityPreset) -> (Seq<char>, Seq<char>, Seq<char>, Seq<char>, Seq<char>, Seq<char>, Seq<char>, Seq<char>, Seq<char>, Seq<char>, Seq<char>, Seq<char>) {
    match p {
        QualityPreset::High => ("8000"@, "192"@, "p3"@, "Stream"@, "3072"@, "60"@, "1536"@, "864"@, "1920"@, "1080"@, "60"@, "bicubic"@),
        QualityPreset::Medium => ("3500"@, "160"@, "p2"@, "Stream"@, "1024"@, "45"@, "1280"@, "720"@, "1920"@, "1080"@, "30"@, "bilinear"@),
        QualityPreset::Low => ("1400"@, "128"@, "p1"@, "Small"@, "512"@, "30"@, "960"@, "540"@, "1920"@, "1080"@, "30"@, "bilinear"@),
        QualityPreset::Potato => ("350"@, "64"@, "p1"@, "Small"@, "256"@, "20"@, "426"@, "240"@, "1920"@, "1080"@, "15"@, "bilinear"@),
        QualityPreset::Tiny => ("120"@, "32"@, "p1"@, "Small"@, "64"@, "12"@, "160"@, "90"@, "1920"@, "1080"@, "8"@, "bilinear"@),
    }
}

/// The profile edits a preset makes, in the order they are applied.
pub open spec fn preset_edits_spec(p: QualityPreset) -> Seq<(Seq<char>, Seq<char>, Seq<char>)> {
    let row = preset_row(p);
    let high = p == QualityPreset::High;
    let tiny = p == QualityPreset::Tiny;
    seq![
        ("SimpleOutput"@, "VBitrate"@, row.0),
        ("SimpleOutput"@, "ABitrate"@, row.1),
        ("SimpleOutput"@, "NVENCPreset2"@, row.2),
        ("SimpleOutput"@, "NVENCTuning"@, if high { "hq"@ } else { "ll"@ }),
        ("SimpleOutput"@, "NVENCMultipass"@, if high { "qres"@ } else { "disabled"@ }),
        ("SimpleOutput"@, "NVENCLookAhead"@, "false"@),
        ("SimpleOutput"@, "NVENCPsychoVisualTuning"@, if high { "true"@ } else { "false"@ }),
        ("SimpleOutput"@, "RecQuality"@, row.3),
        ("SimpleOutput"@, "RecRBSize"@, row.4),
        ("SimpleOutput"@, "RecRBTime"@, row.5),
        ("SimpleOutput"@, "StreamEncoder"@, "nvenc"@),
        ("SimpleOutput"@, "RecEncoder"@, "nvenc"@),
        ("SimpleOutput"@, "RecFormat2"@, "mkv"@),
        ("SimpleOutput"@, "x264Preset"@, if tiny { "ultrafast"@ } else { "veryfast"@ }),
        ("SimpleOutput"@, "StreamEncoder"@, if tiny { "x264"@ } else { "nvenc"@ }),
        ("SimpleOutput"@, "RecEncoder"@, if tiny { "x264"@ } else { "nvenc"@ }),
        ("AdvOut"@, "FFVBitrate"@, row.0),
        ("AdvOut"@, "FFABitrate"@, row.1),
        ("AdvOut"@, "Track1Bitrate"@, row.1),
        ("AdvOut"@, "RecBitrate"@, row.0),
        ("AdvOut"@, "Encoder"@, if tiny { "obs_x264"@ } else { "ffmpeg_nvenc"@ }),
        ("AdvOut"@, "RecEncoder"@, if tiny { "obs_x264"@ } else { "ffmpeg_nvenc"@ }),
        ("AdvOut"@, "NVENCPreset2"@, row.2),
        ("AdvOut"@, "NVENCTuning"@, if high { "hq"@ } else { "ll"@ }),
        ("AdvOut"@, "NVENCMultipass"@, if high { "qres"@ } else { "disabled"@ }),
        ("AdvOut"@, "NVENCLookAhead"@, "false"@),
        ("AdvOut"@, "NVENCPsychoVisualTuning"@, if high { "true"@ } else { "false"@ }),
        ("AdvOut"@, "x264Preset"@, if tiny { "ultrafast"@ } else { "veryfast"@ }),
        ("AdvOut"@, "RecProfile"@, if tiny { "baseline"@ } else { "high"@ }),
        ("AdvOut"@, "KeyframeSec"@, if tiny { "8"@ } else { "2"@ }),
        ("AdvOut"@, "x264Settings"@, if tiny { "keyint=64:min-keyint=64:scenecut=0:aq-mode=0:deblock=-6,-6:no-cabac=1:ref=1:subme=0:me=dia"@ } else { ""@ }),
        ("AdvOut"@, "RecRBSize"@, row.4),
        ("AdvOut"@, "RecRBTime"@, row.5),
        ("AdvOut"@, "RecFormat2"@, "mkv"@),
        ("Video"@, "BaseCX"@, row.8),
        ("Video"@, "BaseCY"@, row.9),
        ("Video"@, "OutputCX"@, row.6),
        ("Video"@, "OutputCY"@, row.7),
        ("Video"@, "FPSCommon"@, row.10),
        ("Video"@, "FPSInt"@, row.10),
        ("Video"@, "FPSNum"@, row.10),
        ("Video"@, "FPSDen"@, "1"@),
        ("Video"@, "ScaleType"@, row.11),
        ("Video"@, "ColorFormat"@, if tiny { "I420"@ } else { "NV12"@ }),
        ("Video"@, "ColorSpace"@, if tiny { "601"@ } else { "709"@ }),
        ("Video"@, "ColorRange"@, if tiny { "Full"@ } else { "Partial"@ }),
        ("Video"@, "AutoRemux"@, "false"@),
    ]
}

struct PresetRow {
    v_bitrate: &'static str,
    a_bitrate: &'static str,
    nvenc_preset: &'static str,
    rec_quality: &'static str,
    rb_size: &'static str,
    rb_time: &'static str,
    out_w: &'static str,
    out_h: &'static str,
    base_w: &'static str,
    base_h: &'static str,
    fps: &'static str,
    scale: &'static str,
}

fn preset_row_exec(p: QualityPreset) -> (r: PresetRow)
    ensures
        (r.v_bitrate@, r.a_bitrate@, r.nvenc_preset@, r.rec_quality@, r.rb_size@, r.rb_time@, r.out_w@, r.out_h@, r.base_w@, r.base_h@, r.fps@, r.scale@) == preset_row(p),
{
    match p {
        QualityPreset::High => PresetRow { v_bitrate: "8000", a_bitrate: "192", nvenc_preset: "p3", rec_quality: "Stream", rb_size: "3072", rb_time: "60", out_w: "1536", out_h: "864", base_w: "1920", base_h: "1080", fps: "60", scale: "bicubic" },
        QualityPreset::Medium => PresetRow { v_bitrate: "3500", a_bitrate: "160", nvenc_preset: "p2", rec_quality: "Stream", rb_size: "1024", rb_time: "45", out_w: "1280", out_h: "720", base_w: "1920", base_h: "1080", fps: "30", scale: "bilinear" },
        QualityPreset::Low => PresetRow { v_bitrate: "1400", a_bitrate: "128", nvenc_preset: "p1", rec_quality: "Small", rb_size: "512", rb_time: "30", out_w: "960", out_h: "540", base_w: "1920", base_h: "1080", fps: "30", scale: "bilinear" },
        QualityPreset::Potato => PresetRow { v_bitrate: "350", a_bitrate: "64", nvenc_preset: "p1", rec_quality: "Small", rb_size: "256", rb_time: "20", out_w: "426", out_h: "240", base_w: "1920", base_h: "1080", fps: "15", scale: "bilinear" },
        QualityPreset::Tiny => PresetRow { v_bitrate: "120", a_bitrate: "32", nvenc_preset: "p1", rec_quality: "Small", rb_size: "64", rb_time: "12", out_w: "160", out_h: "90", base_w: "1920", base_h: "1080", fps: "8", scale: "bilinear" },
    }
}

/// The preset a name picks (see `preset_named`).
pub fn quality_preset_named(name: &str) -> (r: Option<QualityPreset>)
    ensures
        r == preset_named(name@),
{
    let v = chars_of(name);
    let t = trim_chars(v.as_slice());
    let l = ascii_lower_chars(t.as_slice());
    let s = string_of(l.as_slice());
    let n = s.as_str();
    if crate::text::str_eq(n, "high") {
        Some(QualityPreset::High)
    } else if crate::text::str_eq(n, "medium") {
        Some(QualityPreset::Medium)
    } else if crate::text::str_eq(n, "low") {
        Some(QualityPreset::Low)
    } else if crate::text::str_eq(n, "potato") {
        Some(QualityPreset::Potato)
    } else if crate::text::str_eq(n, "533") {
        Some(QualityPreset::Tiny)
    } else {
        None
    }
}

/// The profile edits of a preset.
pub fn preset_edits(p: QualityPreset) -> (r: Vec<IniEdit>)
    ensures
        edits_view(r@) == preset_edits_spec(p),
{
    let row = preset_row_exec(p);
    let high = match p {
        QualityPreset::High => true,
        _ => false,
    };
    let tiny = match p {
        QualityPreset::Tiny => true,
        _ => false,
    };
    let r = vec![
        ini_edit("SimpleOutput", "VBitrate", row.v_bitrate),
        ini_edit("SimpleOutput", "ABitrate", row.a_bitrate),
        ini_edit("SimpleOutput", "NVENCPreset2", row.nvenc_preset),
        ini_edit("SimpleOutput", "NVENCTuning", if high { "hq" } else { "ll" }),
        ini_edit("SimpleOutput", "NVENCMultipass", if high { "qres" } else { "disabled" }),
        ini_edit("SimpleOutput", "NVENCLookAhead", "false"),
        ini_edit("SimpleOutput", "NVENCPsychoVisualTuning", if high { "true" } else { "false" }),
        ini_edit("SimpleOutput", "RecQuality", row.rec_quality),
        ini_edit("SimpleOutput", "RecRBSize", row.rb_size),
        ini_edit("SimpleOutput", "RecRBTime", row.rb_time),
        ini_edit("SimpleOutput", "StreamEncoder", "nvenc"),
        ini_edit("SimpleOutput", "RecEncoder", "nvenc"),
        ini_edit("SimpleOutput", "RecFormat2", "mkv"),
        ini_edit("SimpleOutput", "x264Preset", if tiny { "ultrafast" } else { "veryfast" }),
        ini_edit("SimpleOutput", "StreamEncoder", if tiny { "x264" } else { "nvenc" }),
        ini_edit("SimpleOutput", "RecEncoder", if tiny { "x264" } else { "nvenc" }),
        ini_edit("AdvOut", "FFVBitrate", row.v_bitrate),
        ini_edit("AdvOut", "FFABitrate", row.a_bitrate),
        ini_edit("AdvOut", "Track1Bitrate", row.a_bitrate),
        ini_edit("AdvOut", "RecBitrate", row.v_bitrate),
        ini_edit("AdvOut", "Encoder", if tiny { "obs_x264" } else { "ffmpeg_nvenc" }),
        ini_edit("AdvOut", "RecEncoder", if tiny { "obs_x264" } else { "ffmpeg_nvenc" }),
        ini_edit("AdvOut", "NVENCPreset2", row.nvenc_preset),
        ini_edit("AdvOut", "NVENCTuning", if high { "hq" } else { "ll" }),
        ini_edit("AdvOut", "NVENCMultipass", if high { "qres" } else { "disabled" }),
        ini_edit("AdvOut", "NVENCLookAhead", "false"),
        ini_edit("AdvOut", "NVENCPsychoVisualTuning", if high { "true" } else { "false" }),
        ini_edit("AdvOut", "x264Preset", if tiny { "ultrafast" } else { "veryfast" }),
        ini_edit("AdvOut", "RecProfile", if tiny { "baseline" } else { "high" }),
        ini_edit("AdvOut", "KeyframeSec", if tiny { "8" } else { "2" }),
        ini_edit("AdvOut", "x264Settings", if tiny { "keyint=64:min-keyint=64:scenecut=0:aq-mode=0:deblock=-6,-6:no-cabac=1:ref=1:subme=0:me=dia" } else { "" }),
        ini_edit("AdvOut", "RecRBSize", row.rb_size),
        ini_edit("AdvOut", "RecRBTime", row.rb_time),
        ini_edit("AdvOut", "RecFormat2", "mkv"),
        ini_edit("Video", "BaseCX", row.base_w),
        ini_edit("Video", "BaseCY", row.base_h),
        ini_edit("Video", "OutputCX", row.out_w),
        ini_edit("Video", "OutputCY", row.out_h),
        ini_edit("Video", "FPSCommon", row.fps),
        ini_edit("Video", "FPSInt", row.fps),
        ini_edit("Video", "FPSNum", row.fps),
        ini_edit("Video", "FPSDen", "1"),
        ini_edit("Video", "ScaleType", row.scale),
        ini_edit("Video", "ColorFormat", if tiny { "I420" } else { "NV12" }),
        ini_edit("Video", "ColorSpace", if tiny { "601" } else { "709" }),
        ini_edit("Video", "ColorRange", if tiny { "Full" } else { "Partial" }),
        ini_edit("Video", "AutoRemux", "false"),
    ];
    assert(edits_view(r@) =~= preset_edits_spec(p));
    r
}

/// The edits for a preset named by the user (`apply_quality_preset`), or the
/// error for a name that is not a preset.
pub fn quality_preset_edits(preset: &str) -> (r: Result<Vec<IniEdit>, String>)
    ensures
        match preset_named(preset@) {
            Some(p) => r matches Ok(e) && edits_view(e@) == preset_edits_spec(p),
            None => r matches Err(e) && e@ == "Unknown OBS preset. Use high, medium, low, potato, or 533."@,
        },
{
    match quality_preset_named(preset) {
        Some(p) => Ok(preset_edits(p)),
        None => Err(lit("Unknown OBS preset. Use high, medium, low, potato, or 533.")),
    }
}


// ---------------------------------------------------------- hotkey values

/// `"name":true,` where the flag is set, nothing otherwise.
pub open spec fn flag_text(on: bool, text: Seq<char>) -> Seq<char> {
    if on {
        text
    } else {
        Seq::empty()
    }
}

/// The binding as OBS stores it, as JSON text: the modifiers held and the
/// key, members in name order (`alt`, `command`, `control`, `key`,
/// `shift`); the key needs no escaping.
pub open spec fn hotkey_json_spec(e: HotkeyEntry) -> Seq<char> {
    "{"@ + flag_text(e.alt, "\"alt\":true,"@) + flag_text(e.command, "\"command\":true,"@) + flag_text(
        e.control,
        "\"control\":true,"@,
    ) + "\"key\":\""@ + e.key@ + "\""@ + flag_text(e.shift, ",\"shift\":true"@) + "}"@
}

/// The binding as JSON text (`serde_json::to_string` of the entry's object,
/// whose members come out in name order).
pub fn hotkey_json(e: &HotkeyEntry) -> (r: String)
    requires
        json_plain(e.key@),
    ensures
        r@ == hotkey_json_spec(*e),
{
    let mut r = lit("{");
    if e.alt {
        append_str(&mut r, "\"alt\":true,");
    }
    if e.command {
        append_str(&mut r, "\"command\":true,");
    }
    if e.control {
        append_str(&mut r, "\"control\":true,");
    }
    append_str(&mut r, "\"key\":\"");
    append_str(&mut r, e.key.as_str());
    append_str(&mut r, "\"");
    if e.shift {
        append_str(&mut r, ",\"shift\":true");
    }
    append_str(&mut r, "}");
    assert(r@ =~= hotkey_json_spec(*e));
    r
}

/// The `[Hotkeys] ReplayBuffer` value for a binding:
/// `{"ReplayBuffer.Save":[binding]}`.
pub fn replay_hotkey_value(e: &HotkeyEntry) -> (r: String)
    requires
        json_plain(e.key@),
    ensures
        r@ == "{\"ReplayBuffer.Save\":["@ + hotkey_json_spec(*e) + "]}"@,
{
    let mut r = lit("{\"ReplayBuffer.Save\":[");
    let h = hotkey_json(e);
    append_str(&mut r, h.as_str());
    append_str(&mut r, "]}");
    r
}

/// The value of each recording start and stop binding: `[binding]`.
pub fn recording_hotkey_value(e: &HotkeyEntry) -> (r: String)
    requires
        json_plain(e.key@),
    ensures
        r@ == "["@ + hotkey_json_spec(*e) + "]"@,
{
    let mut r = lit("[");
    let h = hotkey_json(e);
    append_str(&mut r, h.as_str());
    append_str(&mut r, "]");
    r
}


// ------------------------------------------------------------ preset laws

/// The preset `name` picks writes video bitrate `vb` and audio bitrate `ab`
/// (simple output), an output frame of `w` by `h` and `fps` frames per
/// second.
pub open spec fn preset_writes(name: Seq<char>, vb: Seq<char>, ab: Seq<char>, w: Seq<char>, h: Seq<char>, fps: Seq<
    char,
>) -> bool {
    match preset_named(name) {
        Some(p) => {
            let e = preset_edits_spec(p);
            &&& e.len() > 38
            &&& e[0] == ("SimpleOutput"@, "VBitrate"@, vb)
            &&& e[1] == ("SimpleOutput"@, "ABitrate"@, ab)
            &&& e[36] == ("Video"@, "OutputCX"@, w)
            &&& e[37] == ("Video"@, "OutputCY"@, h)
            &&& e[38] == ("Video"@, "FPSCommon"@, fps)
        },
        None => false,
    }
}

/// Each preset name (trimmed, in any ASCII case) picks its own settings:
/// high 8000/192 kb/s at 1536x864 60 fps, medium 3500/160 at 1280x720 30 fps,
/// low 1400/128 at 960x540 30 fps, potato 350/64 at 426x240 15 fps and 533
/// 120/32 at 160x90 8 fps.
pub proof fn law_preset_settings(name: Seq<char>)
    ensures
        ascii_lower_seq(trim_seq(name)) == "high"@ ==> preset_writes(
            name,
            "8000"@,
            "192"@,
            "1536"@,
            "864"@,
            "60"@,
        ),
        ascii_lower_seq(trim_seq(name)) == "medium"@ ==> preset_writes(
            name,
            "3500"@,
            "160"@,
            "1280"@,
            "720"@,
            "30"@,
        ),
        ascii_lower_seq(trim_seq(name)) == "low"@ ==> preset_writes(
            name,
            "1400"@,
            "128"@,
            "960"@,
            "540"@,
            "30"@,
        ),
        ascii_lower_seq(trim_seq(name)) == "potato"@ ==> preset_writes(
            name,
            "350"@,
            "64"@,
            "426"@,
            "240"@,
            "15"@,
        ),
        ascii_lower_seq(trim_seq(name)) == "533"@ ==> preset_writes(
            name,
            "120"@,
            "32"@,
            "160"@,
            "90"@,
            "8"@,
        ),
{
    reveal_strlit("high");
    reveal_strlit("medium");
    reveal_strlit("low");
    reveal_strlit("potato");
    reveal_strlit("533");
    let n = ascii_lower_seq(trim_seq(name));
    assert("medium"@ != "high"@) by {
        assert("medium"@.len() != "high"@.len());
    }
    assert("low"@ != "high"@ && "low"@ != "medium"@) by {
        assert("low"@[0] != "high"@[0]);
        assert("low"@.len() != "medium"@.len());
    }
    assert("potato"@ != "high"@ && "potato"@ != "medium"@ && "potato"@ != "low"@) by {
        assert("potato"@.len() != "high"@.len());
        assert("potato"@[0] != "medium"@[0]);
        assert("potato"@.len() != "low"@.len());
    }
    assert("533"@ != "high"@ && "533"@ != "medium"@ && "533"@ != "low"@ && "533"@ != "potato"@) by {
        assert("533"@.len() != "high"@.len());
        assert("533"@.len() != "medium"@.len());
        assert("533"@[0] != "low"@[0]);
        assert("533"@.len() != "potato"@.len());
    }
    if n == "medium"@ {
        assert(preset_named(name) == Some(QualityPreset::Medium));
    }
    if n == "low"@ {
        assert(preset_named(name) == Some(QualityPreset::Low));
    }
    if n == "potato"@ {
        assert(preset_named(name) == Some(QualityPreset::Potato));
    }
    if n == "533"@ {
        assert(preset_named(name) == Some(QualityPreset::Tiny));
    }
}

/// Different preset names pick different presets, and only the five names
/// pick one.
pub proof fn law_preset_names_distinct(a: Seq<char>, b: Seq<char>)
    ensures
        preset_named(a) is Some && preset_named(a) == preset_named(b) ==> ascii_lower_seq(trim_seq(a))
            == ascii_lower_seq(trim_seq(b)),
        preset_named(a) is Some ==> {
            let n = ascii_lower_seq(trim_seq(a));
            n == "high"@ || n == "medium"@ || n == "low"@ || n == "potato"@ || n == "533"@
        },
{
}

// ------------------------------------------------------------ key name laws

/// The key words a hotkey may name besides letters, digits and F-keys.
pub open spec fn key_word(v: Seq<char>) -> bool {
    v == "SPACE"@ || v == "TAB"@ || v == "ENTER"@ || v == "ESC"@ || v == "ESCAPE"@
}

/// Keys are named after themselves: a letter or digit `c` is `OBS_KEY_c`,
/// SPACE, TAB and ESCAPE are `OBS_KEY_` and the word, ENTER is
/// `OBS_KEY_RETURN` and ESC is `OBS_KEY_ESCAPE`.
pub proof fn law_key_named_after_key(v: Seq<char>)
    ensures
        v.len() == 1 && is_ascii_alnum(v[0]) ==> obs_key_name_spec(v) == Ok::<Seq<char>, Seq<char>>(
            "OBS_KEY_"@ + v,
        ),
        v == "SPACE"@ || v == "TAB"@ || v == "ESCAPE"@ ==> obs_key_name_spec(v) == Ok::<
            Seq<char>,
            Seq<char>,
        >("OBS_KEY_"@ + v),
        v == "ENTER"@ ==> obs_key_name_spec(v) == Ok::<Seq<char>, Seq<char>>("OBS_KEY_RETURN"@),
        v == "ESC"@ ==> obs_key_name_spec(v) == Ok::<Seq<char>, Seq<char>>("OBS_KEY_ESCAPE"@),
{
    reveal_strlit("SPACE");
    reveal_strlit("TAB");
    reveal_strlit("ENTER");
    reveal_strlit("ESC");
    reveal_strlit("ESCAPE");
    reveal_strlit("OBS_KEY_");
    reveal_strlit("OBS_KEY_SPACE");
    reveal_strlit("OBS_KEY_TAB");
    reveal_strlit("OBS_KEY_ESCAPE");
    if v == "SPACE"@ {
        assert(function_key_number(v) is None);
        assert("OBS_KEY_"@ + v =~= "OBS_KEY_SPACE"@);
    }
    if v == "TAB"@ {
        assert(function_key_number(v) is None);
        assert(v != "SPACE"@);
        assert("OBS_KEY_"@ + v =~= "OBS_KEY_TAB"@);
    }
    if v == "ESCAPE"@ {
        assert(function_key_number(v) is None);
        assert(v != "SPACE"@ && v != "TAB"@ && v != "ENTER"@ && v != "ESC"@);
        assert("OBS_KEY_"@ + v =~= "OBS_KEY_ESCAPE"@);
    }
    if v == "ENTER"@ {
        assert(function_key_number(v) is None);
        assert(v != "SPACE"@ && v != "TAB"@);
    }
    if v == "ESC"@ {
        assert(function_key_number(v) is None);
        assert(v != "SPACE"@ && v != "TAB"@ && v != "ENTER"@);
    }
    if v.len() == 1 && is_ascii_alnum(v[0]) {
        if function_key_number(v) is Some {
            assert(parse_u8(v.drop_first()) is None);
        }
    }
}

/// Different keys get different OBS names: apart from F-keys (where `F01`
/// and `F1` both name F1) and the two spellings ESC and ESCAPE, no two key
/// texts share a name.
pub proof fn law_key_names_distinct(v: Seq<char>, w: Seq<char>)
    ensures
        ({
            let ok = obs_key_name_spec(v) is Ok && obs_key_name_spec(w) is Ok;
            let f_key = function_key_number(v) is Some || function_key_number(w) is Some;
            let escape = (v == "ESC"@ || v == "ESCAPE"@) && (w == "ESC"@ || w == "ESCAPE"@);
            ok && !f_key && obs_key_name_spec(v) == obs_key_name_spec(w) ==> v == w || escape
        }),
{
    reveal_strlit("SPACE");
    reveal_strlit("TAB");
    reveal_strlit("ENTER");
    reveal_strlit("ESC");
    reveal_strlit("ESCAPE");
    reveal_strlit("OBS_KEY_");
    reveal_strlit("OBS_KEY_SPACE");
    reveal_strlit("OBS_KEY_TAB");
    reveal_strlit("OBS_KEY_RETURN");
    reveal_strlit("OBS_KEY_ESCAPE");
    if obs_key_name_spec(v) is Ok && obs_key_name_spec(w) is Ok && function_key_number(v) is None
        && function_key_number(w) is None && obs_key_name_spec(v) == obs_key_name_spec(w) {
        let a = obs_key_name_spec(v)->Ok_0;
        if v.len() == 1 && is_ascii_alnum(v[0]) && w.len() == 1 && is_ascii_alnum(w[0]) {
            assert(a[8] == v[0] && a[8] == w[0]);
            assert(v =~= w);
        } else if v.len() == 1 && is_ascii_alnum(v[0]) {
            assert(a.len() == 9);
        } else if w.len() == 1 && is_ascii_alnum(w[0]) {
            assert(a.len() == 9);
        } else {
            assert("OBS_KEY_SPACE"@.len() == 13 && "OBS_KEY_TAB"@.len() == 11);
            assert("OBS_KEY_RETURN"@.len() == 14 && "OBS_KEY_ESCAPE"@.len() == 14);
            assert("OBS_KEY_RETURN"@[8] != "OBS_KEY_ESCAPE"@[8]);
            assert(v == "SPACE"@ || v == "TAB"@ || v == "ENTER"@ || v == "ESC"@ || v == "ESCAPE"@);
            assert(w == "SPACE"@ || w == "TAB"@ || w == "ENTER"@ || w == "ESC"@ || w == "ESCAPE"@);
            if v == "SPACE"@ {
                assert(a == "OBS_KEY_SPACE"@);
            } else if v == "TAB"@ {
                assert(a == "OBS_KEY_TAB"@);
            } else if v == "ENTER"@ {
                assert(a == "OBS_KEY_RETURN"@);
            } else {
                assert(a == "OBS_KEY_ESCAPE"@);
            }
        }
    }
}
} // verus!
