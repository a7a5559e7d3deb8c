//! Editing OBS profile files (`basic.ini`): setting one `key=value` inside a
//! `[section]`, the way OBS reads them back.
use vstd::prelude::*;

use crate::text::{
    is_ws, trim_end_seq,
    chars_of, contains_chars, contains_seq, occurs_at, eq_ignore_ascii_case, eq_ignore_ascii_case_chars,
    starts_with, starts_with_chars, string_of, trim_chars, trim_seq, trim_start_index,
    trim_start_seq,
};

verus! {

// ------------------------------------------------------------------ lines

/// Index of the first `'\n'` at or after `i` (the length if none).
pub open spec fn next_nl(s: Seq<char>, i: int) -> int
    decreases s.len() - i,
{
    if i >= s.len() {
        s.len() as int
    } else if s[i] == '\n' {
        i
    } else {
        next_nl(s, i + 1)
    }
}

/// `str::lines` from index `i`: pieces ended by `'\n'`, a `'\r'` before the
/// `'\n'` dropped, the last piece kept only if non-empty.
pub open spec fn lines_from(s: Seq<char>, i: int) -> Seq<Seq<char>>
    decreases s.len() - i,
{
    if i < 0 || i >= s.len() {
        Seq::empty()
    } else {
        proof {
            lemma_next_nl_bounds(s, i);
        }
        let j = next_nl(s, i);
        let piece = s.subrange(i, j);
        let line = if j < s.len() && piece.len() > 0 && piece.last() == '\r' {
            piece.drop_last()
        } else {
            piece
        };
        if j >= s.len() {
            seq![line]
        } else {
            seq![line] + lines_from(s, j + 1)
        }
    }
}

/// `str::lines`.
pub open spec fn lines_of(s: Seq<char>) -> Seq<Seq<char>> {
    lines_from(s, 0)
}

pub proof fn lemma_next_nl_bounds(s: Seq<char>, i: int)
    requires
        0 <= i,
    ensures
        i <= s.len() ==> i <= next_nl(s, i) <= s.len(),
        next_nl(s, i) < s.len() ==> s[next_nl(s, i)] == '\n',
    decreases s.len() - i,
{
    if i < s.len() && s[i] != '\n' {
        lemma_next_nl_bounds(s, i + 1);
    }
}

pub proof fn lemma_next_nl(s: Seq<char>, i: int, j: int)
    requires
        0 <= i <= j <= s.len(),
        forall|k: int| i <= k < j ==> s[k] != '\n',
        j < s.len() ==> s[j] == '\n',
    ensures
        next_nl(s, i) == j,
    decreases j - i,
{
    if i < j {
        lemma_next_nl(s, i + 1, j);
    }
}

/// Splits into lines as `str::lines` does.
pub fn split_lines(s: &[char]) -> (r: Vec<Vec<char>>)
    ensures
        deep(r@) == lines_of(s@),
{
    let mut r: Vec<Vec<char>> = Vec::new();
    let mut cur: Vec<char> = Vec::new();
    let mut start: usize = 0;
    let mut i: usize = 0;
    while i < s.len()
        invariant
            start <= i <= s@.len(),
            cur@ == s@.subrange(start as int, i as int),
            forall|k: int| start <= k < i ==> s@[k] != '\n',
            deep(r@) + lines_from(s@, start as int) == lines_of(s@),
        decreases s.len() - i,
    {
        if s[i] == '\n' {
            proof {
                lemma_next_nl(s@, start as int, i as int);
            }
            let mut line = cur;
            if line.len() > 0 && line[line.len() - 1] == '\r' {
                line.pop();
            }
            let ghost before = r@;
            r.push(line);
            proof {
                assert(deep(r@) =~= deep(before).push(line@));
                assert(deep(before).push(line@) + lines_from(s@, i + 1) =~= deep(before) + (seq![
                    line@,
                ] + lines_from(s@, i + 1)));
            }
            cur = Vec::new();
            start = i + 1;
        } else {
            cur.push(s[i]);
            assert(cur@ =~= s@.subrange(start as int, i + 1));
        }
        i += 1;
    }
    if start < s.len() {
        proof {
            lemma_next_nl(s@, start as int, s@.len() as int);
        }
        let ghost before = r@;
        r.push(cur);
        proof {
            assert(deep(r@) =~= deep(before).push(cur@));
            assert(deep(before).push(cur@) =~= deep(before) + seq![cur@]);
        }
    } else {
        assert(deep(r@) + lines_from(s@, start as int) =~= deep(r@));
    }
    r
}

/// The character sequences of a list of character vectors.
pub open spec fn deep(v: Seq<Vec<char>>) -> Seq<Seq<char>> {
    v.map_values(|l: Vec<char>| l@)
}

/// Lines each followed by `nl` (`lines.join(nl) + nl` for a non-empty list).
pub open spec fn join_terminated(ls: Seq<Seq<char>>, nl: Seq<char>) -> Seq<char>
    decreases ls.len(),
{
    if ls.len() == 0 {
        Seq::empty()
    } else {
        join_terminated(ls.drop_last(), nl) + ls.last() + nl
    }
}

pub fn join_lines(ls: &Vec<Vec<char>>, nl: &[char]) -> (r: Vec<char>)
    ensures
        r@ == join_terminated(deep(ls@), nl@),
{
    let mut r: Vec<char> = Vec::new();
    let mut i: usize = 0;
    while i < ls.len()
        invariant
            i <= ls@.len(),
            r@ == join_terminated(deep(ls@).take(i as int), nl@),
        decreases ls.len() - i,
    {
        let ghost before = r@;
        let line = &ls[i];
        let mut k: usize = 0;
        while k < line.len()
            invariant
                k <= line@.len(),
                r@ == before + line@.take(k as int),
            decreases line.len() - k,
        {
            r.push(line[k]);
            assert(line@.take(k + 1) =~= line@.take(k as int).push(line@[k as int]));
            k += 1;
        }
        let mut m: usize = 0;
        while m < nl.len()
            invariant
                m <= nl@.len(),
                r@ == before + line@ + nl@.take(m as int),
            decreases nl.len() - m,
        {
            r.push(nl[m]);
            assert(nl@.take(m + 1) =~= nl@.take(m as int).push(nl@[m as int]));
            m += 1;
        }
        proof {
            assert(line@.take(line@.len() as int) =~= line@);
            assert(nl@.take(nl@.len() as int) =~= nl@);
            assert(deep(ls@).take(i + 1).drop_last() =~= deep(ls@).take(i as int));
            assert(deep(ls@).take(i + 1).last() == line@);
        }
        i += 1;
    }
    assert(deep(ls@).take(ls@.len() as int) =~= deep(ls@));
    r
}

// ------------------------------------------------------------- sections

/// The line is the header `[section]`, compared ignoring ASCII case and
/// surrounding white space.
pub open spec fn is_header(line: Seq<char>, header: Seq<char>) -> bool {
    eq_ignore_ascii_case(trim_seq(line), header)
}

/// The line opens some section.
pub open spec fn opens_section(line: Seq<char>) -> bool {
    starts_with(trim_seq(line), seq!['['])
}

/// Scans for the section from line `i`: the result is the header line of the
/// section (the last matching header before the section ends) and the index
/// where the section ends (the next other section's header, or the end).
pub open spec fn scan_section(ls: Seq<Seq<char>>, header: Seq<char>, i: int, start: Option<int>) -> (
    Option<int>,
    int,
)
    decreases ls.len() - i,
{
    if i < 0 || i >= ls.len() {
        (start, ls.len() as int)
    } else if is_header(ls[i], header) {
        scan_section(ls, header, i + 1, Some(i))
    } else if start is Some && opens_section(ls[i]) {
        (start, i)
    } else {
        scan_section(ls, header, i + 1, start)
    }
}

/// The line sets `key` (its text, leading white space dropped, begins `key=`).
pub open spec fn sets_key(line: Seq<char>, key_prefix: Seq<char>) -> bool {
    starts_with(trim_start_seq(line), key_prefix)
}

/// First line in `i..end` that sets the key.
pub open spec fn find_key(ls: Seq<Seq<char>>, key_prefix: Seq<char>, i: int, end: int) -> Option<
    int,
>
    decreases end - i,
{
    if i < 0 || i >= end || i >= ls.len() {
        None
    } else if sets_key(ls[i], key_prefix) {
        Some(i)
    } else {
        find_key(ls, key_prefix, i + 1, end)
    }
}

pub open spec fn header_text(section: Seq<char>) -> Seq<char> {
    seq!['['] + section + seq![']']
}

pub open spec fn key_prefix(key: Seq<char>) -> Seq<char> {
    key + seq!['=']
}

pub open spec fn key_line(key: Seq<char>, value: Seq<char>) -> Seq<char> {
    key + seq!['='] + value
}

/// The lines after setting `key=value` in `[section]`: the first line of the
/// section that sets the key is replaced; otherwise the line is added at the
/// end of the section; a missing section is added at the end of the file,
/// after a blank line unless the file already ends with one.
pub open spec fn upsert_lines(ls: Seq<Seq<char>>, section: Seq<char>, key: Seq<char>, value: Seq<char>) -> Seq<Seq<char>> {
    let (start, end) = scan_section(ls, header_text(section), 0, None);
    match start {
        Some(st) => match find_key(ls, key_prefix(key), st + 1, end) {
            Some(p) => ls.update(p, key_line(key, value)),
            None => ls.insert(end, key_line(key, value)),
        },
        None => {
            let base = if ls.len() > 0 && trim_seq(ls.last()).len() > 0 {
                ls.push(Seq::empty())
            } else {
                ls
            };
            base.push(header_text(section)).push(key_line(key, value))
        },
    }
}

/// The line ending a file uses: `"\r\n"` if it holds one anywhere, else `"\n"`.
pub open spec fn newline_of(raw: Seq<char>) -> Seq<char> {
    if contains_seq(raw, seq!['\r', '\n']) {
        seq!['\r', '\n']
    } else {
        seq!['\n']
    }
}

/// The file text after setting `key=value` in `[section]`.
pub open spec fn upsert_ini(raw: Seq<char>, section: Seq<char>, key: Seq<char>, value: Seq<char>) -> Seq<char> {
    join_terminated(upsert_lines(lines_of(raw), section, key, value), newline_of(raw))
}

pub proof fn lemma_scan_bounds(ls: Seq<Seq<char>>, header: Seq<char>, i: int, start: Option<int>)
    requires
        0 <= i <= ls.len(),
        start matches Some(x) ==> 0 <= x < i,
    ensures
        ({
            let (s, e) = scan_section(ls, header, i, start);
            &&& i <= e <= ls.len()
            &&& (s matches Some(x) ==> 0 <= x < e)
            &&& (start is Some ==> s is Some)
        }),
    decreases ls.len() - i,
{
    if i < ls.len() {
        if is_header(ls[i], header) {
            lemma_scan_bounds(ls, header, i + 1, Some(i));
        } else if start is Some && opens_section(ls[i]) {
        } else {
            lemma_scan_bounds(ls, header, i + 1, start);
        }
    }
}

fn scan_section_exec(ls: &Vec<Vec<char>>, header: &[char]) -> (r: (Option<usize>, usize))
    ensures
        ({
            let (s, e) = scan_section(deep(ls@), header@, 0, None);
            &&& r.1 <= ls@.len()
            &&& (r.0 matches Some(x) ==> x < r.1)
            &&& (r.0 is Some <==> s is Some)
            &&& (r.0 matches Some(x) ==> s == Some(x as int))
            &&& r.1 == e
        }),
{
    let ghost d = deep(ls@);
    let mut start: Option<usize> = None;
    let mut i: usize = 0;
    proof {
        lemma_scan_bounds(d, header@, 0, None);
    }
    while i < ls.len()
        invariant
            i <= ls@.len(),
            d == deep(ls@),
            start matches Some(x) ==> x < i,
            scan_section(d, header@, 0, None) == scan_section(
                d,
                header@,
                i as int,
                match start {
                    Some(x) => Some(x as int),
                    None => None,
                },
            ),
        decreases ls.len() - i,
    {
        proof {
            lemma_scan_bounds(
                d,
                header@,
                i as int,
                match start {
                    Some(x) => Some(x as int),
                    None => None,
                },
            );
        }
        let t = trim_chars(ls[i].as_slice());
        assert(d[i as int] == ls@[i as int]@);
        if eq_ignore_ascii_case_chars(t.as_slice(), header) {
            start = Some(i);
        } else if start.is_some() && t.len() > 0 && t[0] == '[' {
            proof {
                assert(t@.take(1) =~= seq!['[']);
                lemma_scan_bounds(d, header@, i + 1, Some(i as int));
            }
            return (start, i);
        } else {
            proof {
                if start is Some {
                    assert(!starts_with(t@, seq!['['])) by {
                        if t@.len() > 0 {
                            assert(t@.take(1)[0] == t@[0]);
                        }
                    }
                }
            }
        }
        i += 1;
    }
    (start, i)
}

fn find_key_exec(ls: &Vec<Vec<char>>, prefix: &[char], from: usize, end: usize) -> (r: Option<usize>)
    requires
        end <= ls@.len(),
    ensures
        (r is Some <==> find_key(deep(ls@), prefix@, from as int, end as int) is Some),
        r matches Some(x) ==> find_key(deep(ls@), prefix@, from as int, end as int) == Some(x as int)
            && from <= x < end,
{
    let ghost d = deep(ls@);
    let mut i: usize = from;
    while i < end
        invariant
            from <= i,
            end <= ls@.len(),
            d == deep(ls@),
            find_key(d, prefix@, from as int, end as int) == find_key(d, prefix@, i as int, end as int),
        decreases end - i,
    {
        let line = &ls[i];
        assert(d[i as int] == line@);
        let st = trim_start_index(line.as_slice());
        let mut rest: Vec<char> = Vec::new();
        let mut k: usize = st;
        while k < line.len()
            invariant
                st <= k <= line@.len(),
                rest@ == line@.subrange(st as int, k as int),
            decreases line.len() - k,
        {
            rest.push(line[k]);
            assert(line@.subrange(st as int, k + 1) =~= line@.subrange(st as int, k as int).push(
                line@[k as int],
            ));
            k += 1;
        }
        if starts_with_chars(rest.as_slice(), prefix) {
            return Some(i);
        }
        i += 1;
    }
    None
}

fn concat_chars(a: &[char], b: &[char]) -> (r: Vec<char>)
    ensures
        r@ == a@ + b@,
{
    let mut r: Vec<char> = Vec::new();
    let mut i: usize = 0;
    while i < a.len()
        invariant
            i <= a@.len(),
            r@ == a@.take(i as int),
        decreases a.len() - i,
    {
        r.push(a[i]);
        assert(a@.take(i + 1) =~= a@.take(i as int).push(a@[i as int]));
        i += 1;
    }
    let mut j: usize = 0;
    while j < b.len()
        invariant
            j <= b@.len(),
            r@ == a@ + b@.take(j as int),
        decreases b.len() - j,
    {
        r.push(b[j]);
        assert(b@.take(j + 1) =~= b@.take(j as int).push(b@[j as int]));
        j += 1;
    }
    assert(a@.take(a@.len() as int) =~= a@);
    assert(b@.take(b@.len() as int) =~= b@);
    r
}

/// Sets `key=value` in `[section]` of an INI text, keeping the file's line
/// ending (see `upsert_lines` for where the line goes).
pub fn upsert_ini_key(raw: &str, section: &str, key: &str, value: &str) -> (r: String)
    ensures
        r@ == upsert_ini(raw@, section@, key@, value@),
{
    let rv = chars_of(raw);
    let crlf: Vec<char> = vec!['\r', '\n'];
    assert(crlf@ =~= seq!['\r', '\n']);
    let nl: Vec<char> = if contains_chars(rv.as_slice(), crlf.as_slice()) {
        crlf
    } else {
        let v = vec!['\n'];
        assert(v@ =~= seq!['\n']);
        v
    };
    let mut lines = split_lines(rv.as_slice());
    let sv = chars_of(section);
    let kv = chars_of(key);
    let vv = chars_of(value);
    let open = vec!['['];
    let close = vec![']'];
    let eq = vec!['='];
    let header0 = concat_chars(open.as_slice(), sv.as_slice());
    let header = concat_chars(header0.as_slice(), close.as_slice());
    assert(header@ =~= header_text(section@));
    let prefix = concat_chars(kv.as_slice(), eq.as_slice());
    assert(prefix@ =~= key_prefix(key@));
    let new_line = concat_chars(prefix.as_slice(), vv.as_slice());
    assert(new_line@ =~= key_line(key@, value@));
    let ghost ls = deep(lines@);
    let (start, end) = scan_section_exec(&lines, header.as_slice());
    match start {
        Some(st) => {
            match find_key_exec(&lines, prefix.as_slice(), st + 1, end) {
                Some(p) => {
                    let ghost before = lines@;
                    lines.set(p, new_line);
                    assert(deep(lines@) =~= ls.update(p as int, key_line(key@, value@)));
                },
                None => {
                    let ghost before = lines@;
                    lines.insert(end, new_line);
                    proof {
                        before.insert_ensures(end as int, new_line);
                        ls.insert_ensures(end as int, key_line(key@, value@));
                        assert(deep(lines@) =~= ls.insert(end as int, key_line(key@, value@)));
                    }
                },
            }
        },
        None => {
            let n = lines.len();
            if n > 0 {
                let t = trim_chars(lines[n - 1].as_slice());
                assert(ls.last() == lines@[n - 1]@);
                if t.len() > 0 {
                    lines.push(Vec::new());
                }
            }
            lines.push(header);
            lines.push(new_line);
            proof {
                let base = if ls.len() > 0 && trim_seq(ls.last()).len() > 0 {
                    ls.push(Seq::empty())
                } else {
                    ls
                };
                assert(deep(lines@) =~= base.push(header_text(section@)).push(
                    key_line(key@, value@),
                ));
            }
        },
    }
    let out = join_lines(&lines, nl.as_slice());
    string_of(out.as_slice())
}

} // verus!

verus! {

// ------------------------------------------------------------- reading back

/// The value of `key` in `[section]` as the file's lines give it: the text
/// after `key=` on the first line of the section that sets the key.
pub open spec fn ini_value(ls: Seq<Seq<char>>, section: Seq<char>, key: Seq<char>) -> Option<Seq<char>> {
    let (start, end) = scan_section(ls, header_text(section), 0, None);
    match start {
        Some(st) => match find_key(ls, key_prefix(key), st + 1, end) {
            Some(p) => Some(trim_start_seq(ls[p]).skip(key.len() + 1int)),
            None => None,
        },
        None => None,
    }
}

/// A key that can be written on its own line: it does not start with white
/// space or with `[`.
pub open spec fn plain_key(key: Seq<char>) -> bool {
    key.len() > 0 ==> (!is_ws(key[0]) && key[0] != '[')
}

/// The line neither is the section's header nor opens another section.
pub open spec fn neutral(line: Seq<char>, header: Seq<char>) -> bool {
    !is_header(line, header) && !opens_section(line)
}

proof fn lemma_trim_end_prefix(s: Seq<char>)
    ensures
        trim_end_seq(s).len() <= s.len(),
        trim_end_seq(s) == s.take(trim_end_seq(s).len() as int),
        s.len() > 0 && !is_ws(s[0]) ==> trim_end_seq(s).len() >= 1,
    decreases s.len(),
{
    if s.len() > 0 && is_ws(s.last()) {
        lemma_trim_end_prefix(s.drop_last());
        let t = trim_end_seq(s.drop_last());
        assert(s.drop_last().take(t.len() as int) =~= s.take(t.len() as int));
    } else {
        assert(s.take(s.len() as int) =~= s);
    }
}

/// A line whose first character is not white space keeps that first
/// character when trimmed.
proof fn lemma_trim_first(s: Seq<char>)
    requires
        s.len() > 0,
        !is_ws(s[0]),
    ensures
        trim_start_seq(s) == s,
        trim_seq(s).len() > 0,
        trim_seq(s)[0] == s[0],
{
    lemma_trim_end_prefix(s);
}

proof fn lemma_key_line_neutral(key: Seq<char>, value: Seq<char>, header: Seq<char>)
    requires
        plain_key(key),
        header.len() > 0,
        header[0] == '[',
    ensures
        neutral(key_line(key, value), header),
        trim_start_seq(key_line(key, value)) == key_line(key, value),
{
    let kl = key_line(key, value);
    assert(kl[0] == if key.len() > 0 { key[0] } else { '=' });
    lemma_trim_first(kl);
    let t = trim_seq(kl);
    if is_header(kl, header) {
        assert(crate::text::ascii_lower_seq(t)[0] == crate::text::ascii_lower_seq(header)[0]);
    }
    if opens_section(kl) {
        assert(t.take(1)[0] == t[0]);
    }
}

proof fn lemma_empty_line_neutral(header: Seq<char>)
    requires
        header.len() > 0,
    ensures
        neutral(Seq::<char>::empty(), header),
{
    let e = Seq::<char>::empty();
    assert(trim_start_seq(e) =~= e);
    assert(trim_end_seq(e) =~= e);
    if is_header(e, header) {
        assert(crate::text::ascii_lower_seq(trim_seq(e)).len() == 0);
    }
}

proof fn lemma_header_is_header(section: Seq<char>)
    ensures
        is_header(header_text(section), header_text(section)),
        header_text(section).len() > 0,
        header_text(section)[0] == '[',
{
    let h = header_text(section);
    assert(h[0] == '[');
    assert(h.last() == ']');
    lemma_trim_end_prefix(h);
    assert(trim_start_seq(h) == h);
    assert(trim_end_seq(h) == h);
}

/// Facts about where a scan can end, strengthening `lemma_scan_bounds`.
proof fn lemma_scan_start(ls: Seq<Seq<char>>, header: Seq<char>, i: int, start: Option<int>)
    requires
        0 <= i <= ls.len(),
        start matches Some(x) ==> 0 <= x < i,
    ensures
        ({
            let (s, e) = scan_section(ls, header, i, start);
            &&& (start matches Some(x) ==> s matches Some(y) && y >= x)
            &&& (start is None ==> (s matches Some(y) ==> y >= i))
            &&& (s is None ==> e == ls.len() && forall|q: int| i <= q < ls.len() ==> !is_header(#[trigger] ls[q], header))
            &&& (forall|q: int| i <= q < e && (s matches Some(x) && x < q) ==> neutral(#[trigger] ls[q], header))
        }),
    decreases ls.len() - i,
{
    if i < ls.len() {
        if is_header(ls[i], header) {
            lemma_scan_start(ls, header, i + 1, Some(i));
        } else if start is Some && opens_section(ls[i]) {
        } else {
            lemma_scan_start(ls, header, i + 1, start);
        }
    }
}

/// Changing a line in the middle of a section to another neutral line does
/// not change the scan.
proof fn lemma_scan_update(
    ls: Seq<Seq<char>>,
    header: Seq<char>,
    i: int,
    start: Option<int>,
    p: int,
    line: Seq<char>,
)
    requires
        0 <= i,
        0 <= p < ls.len(),
        neutral(ls[p], header),
        neutral(line, header),
    ensures
        scan_section(ls.update(p, line), header, i, start) == scan_section(ls, header, i, start),
    decreases ls.len() - i,
{
    let ls2 = ls.update(p, line);
    if i < ls.len() {
        assert(is_header(ls2[i], header) == is_header(ls[i], header));
        assert(opens_section(ls2[i]) == opens_section(ls[i]));
        if is_header(ls[i], header) {
            lemma_scan_update(ls, header, i + 1, Some(i), p, line);
        } else if start is Some && opens_section(ls[i]) {
        } else {
            lemma_scan_update(ls, header, i + 1, start, p, line);
        }
    }
}

/// Inserting a neutral line at the end of a section moves the end by one.
proof fn lemma_scan_insert(
    ls: Seq<Seq<char>>,
    header: Seq<char>,
    i: int,
    start: Option<int>,
    line: Seq<char>,
)
    requires
        0 <= i <= scan_section(ls, header, i, start).1,
        start matches Some(x) ==> 0 <= x < i,
        neutral(line, header),
    ensures
        ({
            let (s, e) = scan_section(ls, header, i, start);
            s is Some ==> scan_section(ls.insert(e, line), header, i, start) == (s, e + 1)
        }),
    decreases ls.len() - i,
{
    lemma_scan_bounds(ls, header, i, start);
    let (s, e) = scan_section(ls, header, i, start);
    let ls2 = ls.insert(e, line);
    ls.insert_ensures(e, line);
    if s is Some {
        if i == e {
            // the scan stopped at i (or ran to the end) with `start` as the section
            if i < ls.len() {
                if is_header(ls[i], header) {
                    lemma_scan_bounds(ls, header, i + 1, Some(i));
                } else if !(start is Some && opens_section(ls[i])) {
                    lemma_scan_bounds(ls, header, i + 1, start);
                }
            }
            assert(start == s);
            assert(ls2[e] == line);
            lemma_scan_bounds(ls2, header, e + 1, start);
            if e < ls.len() {
                assert(ls2[e + 1] == ls[e]);
            }
        } else {
            assert(i < ls.len());
            assert(ls2[i] == ls[i]);
            if is_header(ls[i], header) {
                lemma_scan_bounds(ls, header, i + 1, Some(i));
                lemma_scan_insert(ls, header, i + 1, Some(i), line);
            } else if start is Some && opens_section(ls[i]) {
            } else {
                lemma_scan_bounds(ls, header, i + 1, start);
                lemma_scan_insert(ls, header, i + 1, start, line);
            }
        }
    }
}

/// A scan with no section yet passes over lines that are not headers.
proof fn lemma_scan_skip(ls: Seq<Seq<char>>, header: Seq<char>, i: int, j: int)
    requires
        0 <= i <= j <= ls.len(),
        forall|q: int| i <= q < j ==> !is_header(#[trigger] ls[q], header),
    ensures
        scan_section(ls, header, i, None) == scan_section(ls, header, j, None),
    decreases j - i,
{
    if i < j {
        lemma_scan_skip(ls, header, i + 1, j);
    }
}

proof fn lemma_find_key_result(ls: Seq<Seq<char>>, kp: Seq<char>, i: int, end: int)
    requires
        0 <= i,
    ensures
        find_key(ls, kp, i, end) matches Some(p) ==> i <= p < end && p < ls.len() && sets_key(
            ls[p],
            kp,
        ) && forall|q: int| i <= q < p ==> !sets_key(#[trigger] ls[q], kp),
        find_key(ls, kp, i, end) is None ==> forall|q: int|
            i <= q < end && q < ls.len() ==> !sets_key(#[trigger] ls[q], kp),
    decreases end - i,
{
    if i < end && i < ls.len() && !sets_key(ls[i], kp) {
        lemma_find_key_result(ls, kp, i + 1, end);
    }
}

proof fn lemma_find_key_at(ls: Seq<Seq<char>>, kp: Seq<char>, i: int, end: int, p: int)
    requires
        0 <= i <= p < end,
        p < ls.len(),
        sets_key(ls[p], kp),
        forall|q: int| i <= q < p ==> !sets_key(#[trigger] ls[q], kp),
    ensures
        find_key(ls, kp, i, end) == Some(p),
    decreases p - i,
{
    if i < p {
        lemma_find_key_at(ls, kp, i + 1, end, p);
    }
}

/// After an upsert, the section is found and its first line setting the key
/// is the written line.
proof fn lemma_upsert_locates(
    ls: Seq<Seq<char>>,
    section: Seq<char>,
    key: Seq<char>,
    value: Seq<char>,
) -> (p: int)
    requires
        plain_key(key),
    ensures
        ({
            let out = upsert_lines(ls, section, key, value);
            let (s, e) = scan_section(out, header_text(section), 0, None);
            &&& s is Some
            &&& find_key(out, key_prefix(key), s->0 + 1, e) == Some(p)
            &&& 0 <= p < out.len()
            &&& out[p] == key_line(key, value)
            &&& trim_start_seq(out[p]).skip(key.len() + 1int) == value
        }),
{
    let h = header_text(section);
    let kp = key_prefix(key);
    let kl = key_line(key, value);
    lemma_header_is_header(section);
    lemma_key_line_neutral(key, value, h);
    assert(starts_with(kl, kp)) by {
        assert(kl.take(kp.len() as int) =~= kp);
    }
    assert(kl.skip(key.len() + 1int) =~= value);
    lemma_scan_bounds(ls, h, 0, None);
    lemma_scan_start(ls, h, 0, None);
    let (start, end) = scan_section(ls, h, 0, None);
    let out = upsert_lines(ls, section, key, value);
    match start {
        Some(st) => {
            lemma_find_key_result(ls, kp, st + 1, end);
            match find_key(ls, kp, st + 1, end) {
                Some(p) => {
                    assert(neutral(ls[p], h));
                    lemma_scan_update(ls, h, 0, None, p, kl);
                    assert(out == ls.update(p, kl));
                    assert forall|q: int| st + 1 <= q < p implies !sets_key(#[trigger] out[q], kp) by {
                        assert(out[q] == ls[q]);
                    }
                    lemma_find_key_at(out, kp, st + 1, end, p);
                    assert(scan_section(out, h, 0, None) == (Some(st), end));
                    assert(out[p] == kl);
                    assert(trim_start_seq(out[p]).skip(key.len() + 1int) == value);
                    assert(find_key(out, key_prefix(key), st + 1, end) == Some(p));
                    assert(ini_value(out, section, key) == Some(value));
                    p
                },
                None => {
                    lemma_scan_insert(ls, h, 0, None, kl);
                    assert(out == ls.insert(end, kl));
                    ls.insert_ensures(end, kl);
                    assert forall|q: int| st + 1 <= q < end implies !sets_key(#[trigger] out[q], kp) by {
                        assert(out[q] == ls[q]);
                    }
                    lemma_find_key_at(out, kp, st + 1, end + 1, end);
                    assert(scan_section(out, h, 0, None) == (Some(st), end + 1));
                    assert(out[end] == kl);
                    assert(trim_start_seq(out[end]).skip(key.len() + 1int) == value);
                    assert(find_key(out, key_prefix(key), st + 1, end + 1) == Some(end));
                    assert(ini_value(out, section, key) == Some(value));
                    end
                },
            }
        },
        None => {
            let base = if ls.len() > 0 && trim_seq(ls.last()).len() > 0 {
                ls.push(Seq::empty())
            } else {
                ls
            };
            lemma_empty_line_neutral(h);
            assert(forall|q: int| 0 <= q < base.len() ==> !is_header(#[trigger] base[q], h)) by {
                assert forall|q: int| 0 <= q < base.len() implies !is_header(#[trigger] base[q], h) by {
                    if q < ls.len() {
                        assert(base[q] == ls[q]);
                    }
                }
            }
            let n = base.len() as int;
            assert(out == base.push(h).push(kl));
            assert forall|q: int| 0 <= q < n implies !is_header(#[trigger] out[q], h) by {
                assert(out[q] == base[q]);
            }
            lemma_scan_skip(out, h, 0, n);
            assert(out[n] == h);
            assert(out[n + 1] == kl);
            lemma_find_key_at(out, kp, n + 1, n + 2, n + 1);
            assert(out.len() == n + 2);
            assert(scan_section(out, h, n + 2, Some(n)) == (Some(n), n + 2));
            assert(!is_header(out[n + 1], h) && !opens_section(out[n + 1]));
            assert(scan_section(out, h, n + 1, Some(n)) == (Some(n), n + 2));
            assert(is_header(out[n], h));
            assert(scan_section(out, h, n, None) == (Some(n), n + 2));
            assert(out[n + 1] == kl);
            assert(ini_value(out, section, key) == Some(value));
            n + 1
        },
    }
}

/// Reading back a key just set in a section gives the value written.
pub proof fn law_upsert_then_read(
    ls: Seq<Seq<char>>,
    section: Seq<char>,
    key: Seq<char>,
    value: Seq<char>,
)
    requires
        plain_key(key),
    ensures
        ini_value(upsert_lines(ls, section, key, value), section, key) == Some(value),
{
    lemma_upsert_locates(ls, section, key, value);
}

/// Setting the same key to the same value twice changes nothing the second
/// time.
pub proof fn law_upsert_idempotent(
    ls: Seq<Seq<char>>,
    section: Seq<char>,
    key: Seq<char>,
    value: Seq<char>,
)
    requires
        plain_key(key),
    ensures
        upsert_lines(upsert_lines(ls, section, key, value), section, key, value) == upsert_lines(
            ls,
            section,
            key,
            value,
        ),
{
    let p = lemma_upsert_locates(ls, section, key, value);
    let out = upsert_lines(ls, section, key, value);
    assert(out.update(p, key_line(key, value)) =~= out);
}


// ------------------------------------------------- the file text, twice over

/// A line with no line break in it (`'\n'` or `'\r'`).
pub open spec fn clean_line(l: Seq<char>) -> bool {
    forall|k: int| 0 <= k < l.len() ==> l[k] != '\n' && l[k] != '\r'
}

/// Text with no `'\r'` in it.
pub open spec fn no_cr(s: Seq<char>) -> bool {
    forall|k: int| 0 <= k < s.len() ==> s[k] != '\r'
}

pub open spec fn all_clean(ls: Seq<Seq<char>>) -> bool {
    forall|m: int| 0 <= m < ls.len() ==> clean_line(#[trigger] ls[m])
}

proof fn lemma_next_nl_before(s: Seq<char>, i: int)
    requires
        0 <= i,
    ensures
        forall|k: int| i <= k < next_nl(s, i) ==> s[k] != '\n',
    decreases s.len() - i,
{
    if i < s.len() && s[i] != '\n' {
        lemma_next_nl_before(s, i + 1);
    }
}

/// The lines of text without `'\r'` have no line break in them.
proof fn lemma_lines_clean(s: Seq<char>, i: int)
    requires
        no_cr(s),
        0 <= i,
    ensures
        all_clean(lines_from(s, i)),
    decreases s.len() - i,
{
    if i < s.len() {
        lemma_next_nl_bounds(s, i);
        lemma_next_nl_before(s, i);
        let j = next_nl(s, i);
        let piece = s.subrange(i, j);
        assert(clean_line(piece));
        let line = if j < s.len() && piece.len() > 0 && piece.last() == '\r' {
            piece.drop_last()
        } else {
            piece
        };
        assert(line == piece);
        if j < s.len() {
            lemma_lines_clean(s, j + 1);
            let rest = lines_from(s, j + 1);
            let all = seq![line] + rest;
            assert(lines_from(s, i) == all);
            assert forall|m: int| 0 <= m < all.len() implies clean_line(#[trigger] all[m]) by {
                if m > 0 {
                    assert(all[m] == rest[m - 1]);
                }
            }
        }
    }
}

/// Editing keeps every line free of line breaks where the section, key and
/// value have none.
proof fn lemma_upsert_clean(ls: Seq<Seq<char>>, section: Seq<char>, key: Seq<char>, value: Seq<char>)
    requires
        all_clean(ls),
        clean_line(section),
        clean_line(key),
        clean_line(value),
    ensures
        all_clean(upsert_lines(ls, section, key, value)),
{
    let h = header_text(section);
    let kl = key_line(key, value);
    assert(clean_line(kl)) by {
        assert forall|k: int| 0 <= k < kl.len() implies kl[k] != '\n' && kl[k] != '\r' by {
            if k < key.len() {
                assert(kl[k] == key[k]);
            } else if k > key.len() {
                assert(kl[k] == value[k - key.len() - 1]);
            }
        }
    }
    assert(clean_line(h)) by {
        assert forall|k: int| 0 <= k < h.len() implies h[k] != '\n' && h[k] != '\r' by {
            if 0 < k < h.len() - 1 {
                assert(h[k] == section[k - 1]);
            }
        }
    }
    let (start, end) = scan_section(ls, h, 0, None);
    lemma_scan_bounds(ls, h, 0, None);
    let out = upsert_lines(ls, section, key, value);
    match start {
        Some(st) => match find_key(ls, key_prefix(key), st + 1, end) {
            Some(p) => {
                lemma_find_key_range(ls, key_prefix(key), st + 1, end);
                assert forall|m: int| 0 <= m < out.len() implies clean_line(#[trigger] out[m]) by {
                    if m != p {
                        assert(out[m] == ls[m]);
                    }
                }
            },
            None => {
                assert forall|m: int| 0 <= m < out.len() implies clean_line(#[trigger] out[m]) by {
                    if m < end {
                        assert(out[m] == ls[m]);
                    } else if m > end {
                        assert(out[m] == ls[m - 1]);
                    }
                }
            },
        },
        None => {
            let base = if ls.len() > 0 && trim_seq(ls.last()).len() > 0 {
                ls.push(Seq::empty())
            } else {
                ls
            };
            assert forall|m: int| 0 <= m < out.len() implies clean_line(#[trigger] out[m]) by {
                if m < ls.len() {
                    assert(out[m] == ls[m]);
                }
            }
        },
    }
}

proof fn lemma_find_key_range(ls: Seq<Seq<char>>, kp: Seq<char>, i: int, end: int)
    ensures
        find_key(ls, kp, i, end) matches Some(p) ==> i <= p < ls.len() && p < end,
    decreases end - i,
{
    if !(i < 0 || i >= end || i >= ls.len()) && !sets_key(ls[i], kp) {
        lemma_find_key_range(ls, kp, i + 1, end);
    }
}

proof fn lemma_join_front(ls: Seq<Seq<char>>, nl: Seq<char>)
    requires
        ls.len() > 0,
    ensures
        join_terminated(ls, nl) == ls[0] + nl + join_terminated(ls.drop_first(), nl),
    decreases ls.len(),
{
    if ls.len() == 1 {
        assert(ls.drop_last() =~= Seq::<Seq<char>>::empty());
        assert(ls.drop_first() =~= Seq::<Seq<char>>::empty());
        assert(join_terminated(ls, nl) =~= ls[0] + nl + join_terminated(ls.drop_first(), nl));
    } else {
        lemma_join_front(ls.drop_last(), nl);
        assert(ls.drop_last().drop_first() =~= ls.drop_first().drop_last());
        assert(ls.drop_first().last() == ls.last());
        assert(join_terminated(ls, nl) =~= ls[0] + nl + join_terminated(ls.drop_first(), nl));
    }
}

proof fn lemma_next_nl_shift(p: Seq<char>, b: Seq<char>, i: int)
    requires
        0 <= i,
    ensures
        next_nl(p + b, p.len() + i) == p.len() + next_nl(b, i),
    decreases b.len() - i,
{
    if i < b.len() {
        assert((p + b)[p.len() + i] == b[i]);
        if b[i] != '\n' {
            lemma_next_nl_shift(p, b, i + 1);
        }
    }
}

proof fn lemma_lines_shift(p: Seq<char>, b: Seq<char>, i: int)
    requires
        0 <= i,
    ensures
        lines_from(p + b, p.len() + i) == lines_from(b, i),
    decreases b.len() - i,
{
    if i < b.len() {
        lemma_next_nl_shift(p, b, i);
        lemma_next_nl_bounds(b, i);
        let j = next_nl(b, i);
        assert((p + b).subrange(p.len() + i, p.len() + j) =~= b.subrange(i, j));
        if j < b.len() {
            lemma_lines_shift(p, b, j + 1);
            assert(p.len() + j + 1 == p.len() + (j + 1));
        }
    }
}

/// Lines without line breaks, each ended by `'\n'`, split back into the
/// same lines.
proof fn lemma_join_lines(ls: Seq<Seq<char>>)
    requires
        all_clean(ls),
    ensures
        lines_of(join_terminated(ls, seq!['\n'])) == ls,
    decreases ls.len(),
{
    let nl = seq!['\n'];
    if ls.len() == 0 {
        assert(lines_of(join_terminated(ls, nl)) =~= ls);
    } else {
        let l0 = ls[0];
        assert(clean_line(l0));
        let rest_ls = ls.drop_first();
        assert forall|m: int| 0 <= m < rest_ls.len() implies clean_line(#[trigger] rest_ls[m]) by {
            assert(rest_ls[m] == ls[m + 1]);
        }
        lemma_join_lines(rest_ls);
        lemma_join_front(ls, nl);
        let rest = join_terminated(rest_ls, nl);
        let s = join_terminated(ls, nl);
        let pre = l0 + nl;
        assert(s =~= pre + rest);
        assert forall|k: int| 0 <= k < l0.len() implies s[k] != '\n' by {
            assert(s[k] == l0[k]);
        }
        assert(s[l0.len() as int] == '\n');
        lemma_next_nl(s, 0, l0.len() as int);
        let piece = s.subrange(0, l0.len() as int);
        assert(piece =~= l0);
        lemma_lines_shift(pre, rest, 0);
        assert(lines_from(s, l0.len() + 1int) == lines_from(rest, 0));
        assert(lines_from(s, 0) == seq![l0] + lines_from(s, l0.len() + 1int));
        assert(seq![l0] + rest_ls =~= ls);
    }
}

/// Lines without line breaks, ended by `'\n'`, hold no `'\r'`.
proof fn lemma_join_no_cr(ls: Seq<Seq<char>>)
    requires
        all_clean(ls),
    ensures
        no_cr(join_terminated(ls, seq!['\n'])),
    decreases ls.len(),
{
    if ls.len() > 0 {
        let d = ls.drop_last();
        assert forall|m: int| 0 <= m < d.len() implies clean_line(#[trigger] d[m]) by {
            assert(d[m] == ls[m]);
        }
        lemma_join_no_cr(d);
        let a = join_terminated(d, seq!['\n']);
        let l = ls.last();
        assert(clean_line(ls[ls.len() - 1]));
        let s = join_terminated(ls, seq!['\n']);
        assert forall|k: int| 0 <= k < s.len() implies s[k] != '\r' by {
            if k < a.len() {
                assert(s[k] == a[k]);
            } else if k < a.len() + l.len() {
                assert(s[k] == l[k - a.len()]);
            }
        }
    }
}

proof fn lemma_newline_no_cr(s: Seq<char>)
    requires
        no_cr(s),
    ensures
        newline_of(s) == seq!['\n'],
{
    if contains_seq(s, seq!['\r', '\n']) {
        let i = choose|i: int| occurs_at(s, seq!['\r', '\n'], i);
        assert(s.subrange(i, i + 2)[0] == s[i]);
    }
}

/// Setting the same key to the same value twice leaves the file text as the
/// first time left it, where the file has no `'\r'` and the section, key and
/// value hold no line break.
pub proof fn law_upsert_text_idempotent(
    raw: Seq<char>,
    section: Seq<char>,
    key: Seq<char>,
    value: Seq<char>,
)
    requires
        plain_key(key),
        no_cr(raw),
        clean_line(section),
        clean_line(key),
        clean_line(value),
    ensures
        upsert_ini(upsert_ini(raw, section, key, value), section, key, value) == upsert_ini(
            raw,
            section,
            key,
            value,
        ),
{
    let ls = lines_of(raw);
    lemma_lines_clean(raw, 0);
    lemma_upsert_clean(ls, section, key, value);
    let u = upsert_lines(ls, section, key, value);
    lemma_newline_no_cr(raw);
    let once = upsert_ini(raw, section, key, value);
    assert(once == join_terminated(u, seq!['\n']));
    lemma_join_lines(u);
    lemma_join_no_cr(u);
    lemma_newline_no_cr(once);
    law_upsert_idempotent(ls, section, key, value);
}

} // verus!
