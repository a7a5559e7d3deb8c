//! Highlight markers from a clip's loudness. ffmpeg's `astats` filter prints
//! the RMS level of each quarter second; the loudest moments (at least 6 dB
//! above the clip's average, and louder than both neighbours) become
//! markers, at most one per 4 seconds (the loudest of a close run) and at
//! most ten per clip (the loudest ten), in time order.
//!
//! Times are whole microseconds and levels whole micro-decibels; a level of
//! `-inf` (or one that cannot be read) counts as -100 dB.
use vstd::prelude::*;

use crate::ffmpeg::{seconds_us_spec, parse_seconds_us};
use crate::ini::{deep, lines_of, split_lines};
use crate::text::{
    chars_of, eq_ignore_ascii_case, eq_ignore_ascii_case_chars, is_ws, is_ws_exec, occurs_at,
    occurs_at_exec, starts_with, starts_with_chars, string_of, trim_chars, trim_seq,
};

verus! {

/// One level reading: when, and how loud.
#[derive(Clone, Copy, PartialEq, Eq, Debug, Structural)]
pub struct Sample {
    pub time_us: i64,
    pub level_udb: i64,
}

// ------------------------------------------------------------ reading

/// A signed decimal (`-12.5`) in millionths, where it fits in an `i64`.
pub open spec fn signed_micro(t: Seq<char>) -> Option<int> {
    if t.len() > 0 && t[0] == '-' {
        match seconds_us_spec(t.drop_first()) {
            Some(v) => if v <= 0x8000_0000_0000_0000 {
                Some(-v)
            } else {
                None
            },
            None => None,
        }
    } else {
        let u = if t.len() > 0 && t[0] == '+' {
            t.drop_first()
        } else {
            t
        };
        match seconds_us_spec(u) {
            Some(v) => if v <= 0x7fff_ffff_ffff_ffff {
                Some(v as int)
            } else {
                None
            },
            None => None,
        }
    }
}

fn tail_string(v: &Vec<char>, from: usize) -> (r: String)
    requires
        from <= v@.len(),
    ensures
        r@ == v@.skip(from as int),
{
    let mut out: Vec<char> = Vec::new();
    let mut k: usize = from;
    while k < v.len()
        invariant
            from <= k <= v@.len(),
            out@ == v@.subrange(from as int, k as int),
        decreases v.len() - k,
    {
        out.push(v[k]);
        assert(v@.subrange(from as int, k + 1) =~= v@.subrange(from as int, k as int).push(v@[k as int]));
        k += 1;
    }
    assert(out@ =~= v@.skip(from as int));
    string_of(out.as_slice())
}

pub fn parse_signed_micro(t: &Vec<char>) -> (r: Option<i64>)
    ensures
        match r {
            Some(v) => signed_micro(t@) == Some(v as int),
            None => signed_micro(t@) is None,
        },
{
    let v = t;
    if v.len() > 0 && v[0] == '-' {
        let rest = tail_string(v, 1);
        assert(v@.skip(1) =~= t@.drop_first());
        match parse_seconds_us(rest.as_str()) {
            Some(m) => if m <= 0x8000_0000_0000_0000 {
                if m == 0x8000_0000_0000_0000 {
                    Some(i64::MIN)
                } else {
                    Some(-(m as i64))
                }
            } else {
                None
            },
            None => None,
        }
    } else {
        let from: usize = if v.len() > 0 && v[0] == '+' {
            1
        } else {
            0
        };
        let rest = tail_string(v, from);
        assert(v@.skip(from as int) =~= if t@.len() > 0 && t@[0] == '+' {
            t@.drop_first()
        } else {
            t@
        });
        match parse_seconds_us(rest.as_str()) {
            Some(m) => if m <= 0x7fff_ffff_ffff_ffff {
                Some(m as i64)
            } else {
                None
            },
            None => None,
        }
    }
}

/// Where `p` first occurs in `s` at or after `i`, or -1 (`str::find`).
pub open spec fn find_from(s: Seq<char>, p: Seq<char>, i: int) -> int
    decreases s.len() + 1 - i,
{
    if i < 0 || i + p.len() > s.len() {
        -1
    } else if occurs_at(s, p, i) {
        i
    } else {
        find_from(s, p, i + 1)
    }
}

pub proof fn lemma_find_from(s: Seq<char>, p: Seq<char>, i: int)
    ensures
        find_from(s, p, i) == -1 || (i <= find_from(s, p, i) && find_from(s, p, i) + p.len()
            <= s.len()),
    decreases s.len() + 1 - i,
{
    if !(i < 0 || i + p.len() > s.len()) && !occurs_at(s, p, i) {
        lemma_find_from(s, p, i + 1);
    }
}

pub fn find_chars(s: &[char], p: &[char]) -> (r: Option<usize>)
    ensures
        match r {
            Some(i) => find_from(s@, p@, 0) == i as int,
            None => find_from(s@, p@, 0) == -1,
        },
{
    if p.len() > s.len() {
        return None;
    }
    let last = s.len() - p.len();
    let mut i: usize = 0;
    while i < last
        invariant
            i <= last,
            last == s@.len() - p@.len(),
            find_from(s@, p@, 0) == find_from(s@, p@, i as int),
        decreases last - i,
    {
        if occurs_at_exec(s, p, i) {
            return Some(i);
        }
        i += 1;
    }
    if occurs_at_exec(s, p, i) {
        return Some(i);
    }
    assert(find_from(s@, p@, i + 1) == -1);
    None
}

/// The characters up to the first white space after any leading white
/// space (`split_whitespace().next()`), where there are any.
pub open spec fn first_word(s: Seq<char>) -> Option<Seq<char>> {
    let t = crate::text::trim_start_seq(s);
    if t.len() == 0 {
        None
    } else {
        Some(t.take(word_len(t, 0)))
    }
}

/// The length of the run of non-space characters starting at `i`, plus `i`.
pub open spec fn word_len(t: Seq<char>, i: int) -> int
    decreases t.len() - i,
{
    if i < 0 || i >= t.len() || is_ws(t[i]) {
        i
    } else {
        word_len(t, i + 1)
    }
}

/// The lines of the metadata file, from `i` on, read with the timestamp
/// `pending` waiting for its level.
pub open spec fn scan_samples(lines: Seq<Seq<char>>, i: int, pending: Option<int>) -> Seq<(int, int)>
    decreases lines.len() - i,
{
    if i < 0 || i >= lines.len() {
        Seq::empty()
    } else {
        let line = trim_seq(lines[i]);
        if starts_with(line, "frame:"@) {
            let rest = line.skip("frame:"@.len() as int);
            let at = find_from(rest, "pts_time:"@, 0);
            let next = if at >= 0 {
                match first_word(rest.skip(at + "pts_time:"@.len())) {
                    Some(w) => signed_micro(w),
                    None => None,
                }
            } else {
                pending
            };
            scan_samples(lines, i + 1, next)
        } else if starts_with(line, "lavfi.astats.Overall.RMS_level="@) {
            let value = trim_seq(line.skip("lavfi.astats.Overall.RMS_level="@.len() as int));
            match pending {
                Some(t) => {
                    let level = if eq_ignore_ascii_case(value, "-inf"@) {
                        -100_000_000
                    } else {
                        match signed_micro(value) {
                            Some(v) => v,
                            None => -100_000_000,
                        }
                    };
                    seq![(t, level)] + scan_samples(lines, i + 1, None)
                },
                None => scan_samples(lines, i + 1, None),
            }
        } else {
            scan_samples(lines, i + 1, pending)
        }
    }
}

pub fn first_word_chars(s: &Vec<char>) -> (r: Option<Vec<char>>)
    ensures
        match (r, first_word(s@)) {
            (Some(a), Some(b)) => a@ == b,
            (None, None) => true,
            _ => false,
        },
{
    let start = crate::text::trim_start_index(s.as_slice());
    if start == s.len() {
        return None;
    }
    let ghost t = s@.subrange(start as int, s@.len() as int);
    let mut j: usize = start;
    while j < s.len() && !is_ws_exec(s[j])
        invariant
            start <= j <= s@.len(),
            t == s@.subrange(start as int, s@.len() as int),
            word_len(t, 0) == word_len(t, j - start),
        decreases s.len() - j,
    {
        assert(t[j - start] == s@[j as int]);
        j += 1;
    }
    proof {
        if j < s@.len() {
            assert(t[j - start] == s@[j as int]);
        }
    }
    let mut out: Vec<char> = Vec::new();
    let mut k: usize = start;
    while k < j
        invariant
            start <= k <= j <= s@.len(),
            out@ == s@.subrange(start as int, k as int),
        decreases j - k,
    {
        out.push(s[k]);
        assert(s@.subrange(start as int, k + 1) =~= s@.subrange(start as int, k as int).push(
            s@[k as int],
        ));
        k += 1;
    }
    assert(out@ =~= t.take(j - start));
    Some(out)
}

fn skip_vec(v: &Vec<char>, from: usize) -> (r: Vec<char>)
    requires
        from <= v@.len(),
    ensures
        r@ == v@.skip(from as int),
{
    let mut out: Vec<char> = Vec::new();
    let mut k: usize = from;
    while k < v.len()
        invariant
            from <= k <= v@.len(),
            out@ == v@.subrange(from as int, k as int),
        decreases v.len() - k,
    {
        out.push(v[k]);
        assert(v@.subrange(from as int, k + 1) =~= v@.subrange(from as int, k as int).push(v@[k as int]));
        k += 1;
    }
    assert(out@ =~= v@.skip(from as int));
    out
}

/// The readings as (time, level) pairs.
pub open spec fn sample_view(s: Seq<Sample>) -> Seq<(int, int)> {
    s.map_values(|x: Sample| (x.time_us as int, x.level_udb as int))
}

pub open spec fn opt_int(o: Option<i64>) -> Option<int> {
    match o {
        Some(v) => Some(v as int),
        None => None,
    }
}

/// `parse_rms_samples`: each level reading paired with the timestamp of the
/// frame line before it.
pub fn parse_rms_samples(raw: &str) -> (r: Vec<Sample>)
    ensures
        sample_view(r@) == scan_samples(lines_of(raw@), 0, None),
{
    let v = chars_of(raw);
    let lines = split_lines(v.as_slice());
    let ghost ls = deep(lines@);
    let frame = chars_of("frame:");
    let pts = chars_of("pts_time:");
    let rms = chars_of("lavfi.astats.Overall.RMS_level=");
    let neg_inf = chars_of("-inf");
    let mut out: Vec<Sample> = Vec::new();
    let mut pending: Option<i64> = None;
    let mut i: usize = 0;
    while i < lines.len()
        invariant
            ls == deep(lines@),
            ls == lines_of(raw@),
            ls.len() == lines@.len(),
            i <= lines@.len(),
            frame@ == "frame:"@,
            pts@ == "pts_time:"@,
            rms@ == "lavfi.astats.Overall.RMS_level="@,
            neg_inf@ == "-inf"@,
            sample_view(out@) + scan_samples(ls, i as int, opt_int(pending)) == scan_samples(
                ls,
                0,
                None,
            ),
        decreases lines.len() - i,
    {
        assert(ls[i as int] == lines@[i as int]@);
        let line = trim_chars(lines[i].as_slice());
        let ghost before = out@;
        if starts_with_chars(line.as_slice(), frame.as_slice()) {
            let rest = skip_vec(&line, frame.len());
            match find_chars(rest.as_slice(), pts.as_slice()) {
                Some(at) => {
                    proof {
                        lemma_find_from(rest@, pts@, 0);
                        assert(at + pts@.len() <= rest@.len());
                    }
                    let after = skip_vec(&rest, at + pts.len());
                    pending = match first_word_chars(&after) {
                        Some(w) => parse_signed_micro(&w),
                        None => None,
                    };
                },
                None => {},
            }
        } else if starts_with_chars(line.as_slice(), rms.as_slice()) {
            let value_raw = skip_vec(&line, rms.len());
            let value = trim_chars(value_raw.as_slice());
            match pending {
                Some(t) => {
                    let level: i64 = if eq_ignore_ascii_case_chars(value.as_slice(), neg_inf.as_slice()) {
                        -100_000_000
                    } else {
                        match parse_signed_micro(&value) {
                            Some(l) => l,
                            None => -100_000_000,
                        }
                    };
                    out.push(Sample { time_us: t, level_udb: level });
                    assert(sample_view(out@) =~= sample_view(before) + seq![(t as int, level as int)]);
                    pending = None;
                },
                None => {},
            }
        }
        i += 1;
    }
    assert(sample_view(out@) + scan_samples(ls, i as int, opt_int(pending)) =~= sample_view(out@));
    out
}

// ------------------------------------------------------------ picking

/// Peaks closer than this (4 s) are one loud moment.
pub const MIN_PEAK_GAP_US: i64 = 4_000_000;

/// At most this many markers per clip.
pub const MAX_PEAKS: usize = 10;

/// The sum of the levels.
pub open spec fn levels_sum(s: Seq<(int, int)>) -> int
    decreases s.len(),
{
    if s.len() == 0 {
        0
    } else {
        levels_sum(s.drop_last()) + s.last().1
    }
}

/// Reading `i` is a candidate: at least 6 dB above the clip's average and
/// no quieter than either neighbour.
pub open spec fn is_candidate(s: Seq<(int, int)>, i: int) -> bool {
    &&& 1 <= i < s.len() - 1
    &&& s[i].1 * s.len() >= levels_sum(s) + 6_000_000 * s.len()
    &&& s[i].1 >= s[i - 1].1
    &&& s[i].1 >= s[i + 1].1
}

/// The candidates among the readings before `k`, in reading order.
pub open spec fn candidates_upto(s: Seq<(int, int)>, k: int) -> Seq<(int, int)>
    decreases k,
{
    if k <= 0 {
        Seq::empty()
    } else if is_candidate(s, k - 1) {
        candidates_upto(s, k - 1).push(s[k - 1])
    } else {
        candidates_upto(s, k - 1)
    }
}

/// `x` put into `s` after the last element that goes before or with it
/// (stable insertion by `le`).
pub open spec fn ins_by(s: Seq<(int, int)>, x: (int, int), le: spec_fn((int, int), (int, int)) -> bool) -> Seq<
    (int, int),
>
    decreases s.len(),
{
    if s.len() == 0 {
        seq![x]
    } else if le(s.last(), x) {
        s.push(x)
    } else {
        ins_by(s.drop_last(), x, le).push(s.last())
    }
}

/// The stable sort by `le`.
pub open spec fn sort_by(s: Seq<(int, int)>, le: spec_fn((int, int), (int, int)) -> bool) -> Seq<
    (int, int),
>
    decreases s.len(),
{
    if s.len() == 0 {
        s
    } else {
        ins_by(sort_by(s.drop_last(), le), s.last(), le)
    }
}

pub open spec fn by_time() -> spec_fn((int, int), (int, int)) -> bool {
    |a: (int, int), b: (int, int)| a.0 <= b.0
}

pub open spec fn by_level_desc() -> spec_fn((int, int), (int, int)) -> bool {
    |a: (int, int), b: (int, int)| a.1 >= b.1
}

/// Close candidates (in time order) folded into the loudest of each run.
pub open spec fn merge_close(s: Seq<(int, int)>) -> Seq<(int, int)>
    decreases s.len(),
{
    if s.len() == 0 {
        s
    } else {
        let m = merge_close(s.drop_last());
        let x = s.last();
        if m.len() > 0 && x.0 - m.last().0 < MIN_PEAK_GAP_US {
            if x.1 > m.last().1 {
                m.drop_last().push(x)
            } else {
                m
            }
        } else {
            m.push(x)
        }
    }
}

/// `pick_peaks`: the marker times for the readings (none for fewer than 6).
pub open spec fn pick_peaks_spec(s: Seq<(int, int)>) -> Seq<int> {
    if s.len() < 6 {
        Seq::empty()
    } else {
        let merged = merge_close(sort_by(candidates_upto(s, s.len() - 1), by_time()));
        let loudest = sort_by(merged, by_level_desc());
        let top = loudest.take(if loudest.len() < 10 {
            loudest.len() as int
        } else {
            10
        });
        sort_by(top.map_values(|x: (int, int)| (x.0, 0)), by_time()).map_values(
            |x: (int, int)| x.0,
        )
    }
}

proof fn lemma_ins_by_len(s: Seq<(int, int)>, x: (int, int), le: spec_fn((int, int), (int, int)) -> bool)
    ensures
        ins_by(s, x, le).len() == s.len() + 1,
    decreases s.len(),
{
    if s.len() > 0 && !le(s.last(), x) {
        lemma_ins_by_len(s.drop_last(), x, le);
    }
}

proof fn lemma_sort_by_len(s: Seq<(int, int)>, le: spec_fn((int, int), (int, int)) -> bool)
    ensures
        sort_by(s, le).len() == s.len(),
    decreases s.len(),
{
    if s.len() > 0 {
        lemma_sort_by_len(s.drop_last(), le);
        lemma_ins_by_len(sort_by(s.drop_last(), le), s.last(), le);
    }
}

pub open spec fn time_sorted(s: Seq<(int, int)>) -> bool {
    forall|i: int, j: int| 0 <= i < j < s.len() ==> #[trigger] s[i].0 <= #[trigger] s[j].0
}

proof fn lemma_ins_by_time_sorted(s: Seq<(int, int)>, x: (int, int))
    requires
        time_sorted(s),
    ensures
        time_sorted(ins_by(s, x, by_time())),
        forall|k: int|
            0 <= k < ins_by(s, x, by_time()).len() ==> (#[trigger] ins_by(s, x, by_time())[k] == x || s.contains(
                ins_by(s, x, by_time())[k],
            )),
    decreases s.len(),
{
    let r = ins_by(s, x, by_time());
    if s.len() == 0 {
    } else if (by_time())(s.last(), x) {
        assert forall|k: int| 0 <= k < r.len() implies (#[trigger] r[k] == x || s.contains(r[k])) by {
            if k < s.len() {
                assert(r[k] == s[k]);
            }
        }
    } else {
        let t = s.drop_last();
        lemma_ins_by_time_sorted(t, x);
        let inner = ins_by(t, x, by_time());
        assert(r == inner.push(s.last()));
        assert forall|k: int| 0 <= k < inner.len() implies inner[k].0 <= s.last().0 by {
            if inner[k] != x {
                let j = choose|j: int| 0 <= j < t.len() && t[j] == inner[k];
                assert(s[j] == t[j]);
                assert(s[j].0 <= s[s.len() - 1].0);
            }
        }
        assert forall|i: int, j: int| 0 <= i < j < r.len() implies #[trigger] r[i].0 <= #[trigger] r[j].0 by {
            if j == r.len() - 1 {
                assert(r[i] == inner[i]);
            } else {
                assert(r[i] == inner[i] && r[j] == inner[j]);
            }
        }
        assert forall|k: int| 0 <= k < r.len() implies (#[trigger] r[k] == x || s.contains(r[k])) by {
            if k < inner.len() {
                assert(r[k] == inner[k]);
                if inner[k] != x {
                    let j = choose|j: int| 0 <= j < t.len() && t[j] == inner[k];
                    assert(s[j] == t[j]);
                }
            } else {
                assert(r[k] == s[s.len() - 1]);
            }
        }
    }
}

proof fn lemma_sort_by_time_sorted(s: Seq<(int, int)>)
    ensures
        time_sorted(sort_by(s, by_time())),
    decreases s.len(),
{
    if s.len() > 0 {
        lemma_sort_by_time_sorted(s.drop_last());
        lemma_ins_by_time_sorted(sort_by(s.drop_last(), by_time()), s.last());
    }
}

/// At most ten markers per clip, in time order.
pub proof fn law_at_most_ten_peaks_in_order(s: Seq<(int, int)>)
    ensures
        pick_peaks_spec(s).len() <= 10,
        forall|i: int, j: int|
            0 <= i < j < pick_peaks_spec(s).len() ==> #[trigger] pick_peaks_spec(s)[i] <= #[trigger] pick_peaks_spec(
                s,
            )[j],
{
    if s.len() >= 6 {
        let merged = merge_close(sort_by(candidates_upto(s, s.len() - 1), by_time()));
        let loudest = sort_by(merged, by_level_desc());
        let top = loudest.take(if loudest.len() < 10 {
            loudest.len() as int
        } else {
            10
        });
        let m = top.map_values(|x: (int, int)| (x.0, 0));
        lemma_sort_by_len(m, by_time());
        lemma_sort_by_time_sorted(m);
        let sorted = sort_by(m, by_time());
        let out = sorted.map_values(|x: (int, int)| x.0);
        assert(out == pick_peaks_spec(s));
        assert forall|i: int, j: int| 0 <= i < j < out.len() implies #[trigger] out[i] <= #[trigger] out[j] by {
            assert(sorted[i].0 <= sorted[j].0);
        }
    }
}

proof fn lemma_ins_by_multiset(s: Seq<(int, int)>, x: (int, int), le: spec_fn((int, int), (int, int)) -> bool)
    ensures
        ins_by(s, x, le).to_multiset() =~= s.to_multiset().insert(x),
    decreases s.len(),
{
    broadcast use vstd::seq_lib::group_to_multiset_ensures;
    broadcast use vstd::multiset::group_multiset_axioms;

    if s.len() == 0 {
        assert(seq![x] =~= Seq::<(int, int)>::empty().push(x));
    } else if !le(s.last(), x) {
        lemma_ins_by_multiset(s.drop_last(), x, le);
        assert(s.drop_last().push(s.last()) =~= s);
    }
}

proof fn lemma_sort_by_multiset(s: Seq<(int, int)>, le: spec_fn((int, int), (int, int)) -> bool)
    ensures
        sort_by(s, le).to_multiset() =~= s.to_multiset(),
    decreases s.len(),
{
    broadcast use vstd::seq_lib::group_to_multiset_ensures;

    if s.len() > 0 {
        lemma_sort_by_multiset(s.drop_last(), le);
        lemma_ins_by_multiset(sort_by(s.drop_last(), le), s.last(), le);
        assert(s.drop_last().push(s.last()) =~= s);
    }
}

/// What one of two lists with the same elements holds, the other holds.
proof fn lemma_same_elements(a: Seq<(int, int)>, b: Seq<(int, int)>, y: (int, int))
    requires
        a.to_multiset() == b.to_multiset(),
        a.contains(y),
    ensures
        b.contains(y),
{
    a.to_multiset_ensures();
    b.to_multiset_ensures();
    assert(a.to_multiset().count(y) > 0);
    assert(b.to_multiset().count(y) > 0);
}

/// Every candidate is a reading that qualifies.
proof fn lemma_candidates_qualify(s: Seq<(int, int)>, k: int)
    ensures
        forall|y: (int, int)|
            #[trigger] candidates_upto(s, k).contains(y) ==> exists|i: int|
                #![trigger s[i]]
                is_candidate(s, i) && s[i] == y,
    decreases k,
{
    if k > 0 {
        lemma_candidates_qualify(s, k - 1);
        let prev = candidates_upto(s, k - 1);
        let c = candidates_upto(s, k);
        assert forall|y: (int, int)| #[trigger] c.contains(y) implies exists|i: int|
            #![trigger s[i]]
            is_candidate(s, i) && s[i] == y by {
            let j = choose|j: int| 0 <= j < c.len() && c[j] == y;
            if is_candidate(s, k - 1) && j == c.len() - 1 {
                assert(is_candidate(s, k - 1) && s[k - 1] == y);
            } else {
                assert(prev[j] == y);
                assert(prev.contains(y));
            }
        }
    }
}

/// Merging close candidates keeps only candidates, and what it keeps lies
/// at least the minimum gap apart.
proof fn lemma_merge_close_spaced(s: Seq<(int, int)>)
    requires
        time_sorted(s),
    ensures
        forall|y: (int, int)| #[trigger] merge_close(s).contains(y) ==> s.contains(y),
        forall|i: int, j: int|
            0 <= i < j < merge_close(s).len() ==> #[trigger] merge_close(s)[j].0 - #[trigger] merge_close(
                s,
            )[i].0 >= MIN_PEAK_GAP_US,
    decreases s.len(),
{
    if s.len() > 0 {
        let d = s.drop_last();
        assert(time_sorted(d)) by {
            assert forall|i: int, j: int| 0 <= i < j < d.len() implies #[trigger] d[i].0 <= #[trigger] d[j].0 by {
                assert(d[i] == s[i] && d[j] == s[j]);
            }
        }
        lemma_merge_close_spaced(d);
        let m = merge_close(d);
        let x = s.last();
        assert forall|k: int| 0 <= k < m.len() implies #[trigger] m[k].0 <= x.0 by {
            assert(m.contains(m[k]));
            assert(d.contains(m[k]));
            let q = choose|q: int| 0 <= q < d.len() && d[q] == m[k];
            assert(s[q] == d[q]);
            assert(s[q].0 <= s[s.len() - 1].0);
        }
        let r = merge_close(s);
        assert forall|y: (int, int)| #[trigger] r.contains(y) implies s.contains(y) by {
            let j = choose|j: int| 0 <= j < r.len() && r[j] == y;
            if y == x {
                assert(s[s.len() - 1] == x);
            } else {
                assert(j < m.len() && m[j] == y);
                assert(m.contains(y));
                assert(d.contains(y));
                let q = choose|q: int| 0 <= q < d.len() && d[q] == y;
                assert(s[q] == y);
            }
        }
        assert forall|i: int, j: int| 0 <= i < j < r.len() implies #[trigger] r[j].0 - #[trigger] r[i].0
            >= MIN_PEAK_GAP_US by {
            if j < m.len() && r[j] == m[j] {
                assert(r[i] == m[i]);
            } else {
                assert(r[j] == x);
                assert(r[i] == m[i]);
                if m.len() > 0 && x.0 - m.last().0 < MIN_PEAK_GAP_US {
                    assert(j == m.len() - 1);
                    assert(m[j].0 - m[i].0 >= MIN_PEAK_GAP_US);
                    assert(m[j].0 <= x.0);
                } else {
                    assert(j == m.len());
                    if i < m.len() - 1 {
                        assert(m[m.len() - 1].0 - m[i].0 >= MIN_PEAK_GAP_US);
                    }
                }
            }
        }
    }
}

/// `t` is the time of a reading that qualifies as a candidate.
pub open spec fn marks_reading(s: Seq<(int, int)>, t: int) -> bool {
    exists|k: int| #![trigger s[k]] is_candidate(s, k) && s[k].0 == t
}

/// Markers lie at least 4 s apart, and each marks a reading that qualified:
/// at least 6 dB above the clip's average and no quieter than either
/// neighbour.
pub proof fn law_peaks_spaced_and_loud(s: Seq<(int, int)>)
    ensures
        forall|i: int, j: int|
            0 <= i < j < pick_peaks_spec(s).len() ==> #[trigger] pick_peaks_spec(s)[j] - #[trigger] pick_peaks_spec(
                s,
            )[i] >= MIN_PEAK_GAP_US,
        forall|i: int|
            0 <= i < pick_peaks_spec(s).len() ==> marks_reading(s, #[trigger] pick_peaks_spec(s)[i]),
{
    if s.len() >= 6 {
        let c = candidates_upto(s, s.len() - 1);
        lemma_candidates_qualify(s, s.len() - 1);
        let cs = sort_by(c, by_time());
        lemma_sort_by_multiset(c, by_time());
        lemma_sort_by_time_sorted(c);
        let merged = merge_close(cs);
        lemma_merge_close_spaced(cs);
        assert(merged.no_duplicates()) by {
            assert forall|i: int, j: int| 0 <= i < merged.len() && 0 <= j < merged.len() && i != j implies merged[i]
                != merged[j] by {
                if i < j {
                    assert(merged[j].0 - merged[i].0 >= MIN_PEAK_GAP_US);
                } else {
                    assert(merged[i].0 - merged[j].0 >= MIN_PEAK_GAP_US);
                }
            }
        }
        let loudest = sort_by(merged, by_level_desc());
        lemma_sort_by_multiset(merged, by_level_desc());
        merged.lemma_multiset_has_no_duplicates();
        loudest.lemma_multiset_has_no_duplicates_conv();
        let k = if loudest.len() < 10 {
            loudest.len() as int
        } else {
            10
        };
        lemma_sort_by_len(merged, by_level_desc());
        let top = loudest.take(k);
        // each kept reading is a merged one
        assert forall|a: int| 0 <= a < top.len() implies #[trigger] merged.contains(top[a]) by {
            assert(loudest[a] == top[a]);
            assert(loudest.contains(top[a]));
            lemma_same_elements(loudest, merged, top[a]);
        }
        // distinct kept readings lie at least the gap apart
        assert forall|a: int, b: int| 0 <= a < b < top.len() implies #[trigger] top[a].0 - #[trigger] top[b].0
            >= MIN_PEAK_GAP_US || top[b].0 - top[a].0 >= MIN_PEAK_GAP_US by {
            assert(merged.contains(top[a]) && merged.contains(top[b]));
            assert(top[a] == loudest[a] && top[b] == loudest[b]);
            assert(top[a] != top[b]);
            let pa = choose|q: int| 0 <= q < merged.len() && merged[q] == top[a];
            let pb = choose|q: int| 0 <= q < merged.len() && merged[q] == top[b];
            if pa < pb {
                assert(merged[pb].0 - merged[pa].0 >= MIN_PEAK_GAP_US);
            } else {
                assert(pa != pb);
                assert(merged[pa].0 - merged[pb].0 >= MIN_PEAK_GAP_US);
            }
        }
        let m = top.map_values(|x: (int, int)| (x.0, 0));
        assert(m.no_duplicates()) by {
            assert forall|a: int, b: int| 0 <= a < m.len() && 0 <= b < m.len() && a != b implies m[a] != m[b] by {
                assert(m[a].0 == top[a].0 && m[b].0 == top[b].0);
                if a < b {
                    assert(top[a].0 - top[b].0 >= MIN_PEAK_GAP_US || top[b].0 - top[a].0 >= MIN_PEAK_GAP_US);
                } else {
                    assert(top[b].0 - top[a].0 >= MIN_PEAK_GAP_US || top[a].0 - top[b].0 >= MIN_PEAK_GAP_US);
                }
            }
        }
        let sorted = sort_by(m, by_time());
        lemma_sort_by_multiset(m, by_time());
        lemma_sort_by_time_sorted(m);
        lemma_sort_by_len(m, by_time());
        m.lemma_multiset_has_no_duplicates();
        sorted.lemma_multiset_has_no_duplicates_conv();
        let out = sorted.map_values(|x: (int, int)| x.0);
        assert(out == pick_peaks_spec(s));
        assert forall|i: int| 0 <= i < sorted.len() implies exists|a: int|
            0 <= a < top.len() && #[trigger] sorted[i] == (top[a].0, 0int) by {
            assert(sorted.contains(sorted[i]));
            lemma_same_elements(sorted, m, sorted[i]);
            let a = choose|a: int| 0 <= a < m.len() && m[a] == sorted[i];
            assert(m[a] == (top[a].0, 0int));
        }
        assert forall|i: int, j: int| 0 <= i < j < out.len() implies #[trigger] out[j] - #[trigger] out[i]
            >= MIN_PEAK_GAP_US by {
            assert(out[i] == sorted[i].0 && out[j] == sorted[j].0);
            assert(sorted[i] != sorted[j]);
            assert(sorted[i].0 <= sorted[j].0);
            let a = choose|a: int| 0 <= a < top.len() && sorted[i] == (top[a].0, 0int);
            let b = choose|b: int| 0 <= b < top.len() && sorted[j] == (top[b].0, 0int);
            assert(a != b);
            if a < b {
                assert(top[a].0 - top[b].0 >= MIN_PEAK_GAP_US || top[b].0 - top[a].0 >= MIN_PEAK_GAP_US);
            } else {
                assert(top[b].0 - top[a].0 >= MIN_PEAK_GAP_US || top[a].0 - top[b].0 >= MIN_PEAK_GAP_US);
            }
        }
        assert forall|i: int| 0 <= i < out.len() implies exists|q: int|
            #![trigger s[q]]
            is_candidate(s, q) && s[q].0 == #[trigger] out[i] by {
            assert(out[i] == sorted[i].0);
            let a = choose|a: int| 0 <= a < top.len() && sorted[i] == (top[a].0, 0int);
            assert(merged.contains(top[a]));
            assert(cs.contains(top[a]));
            lemma_same_elements(cs, c, top[a]);
            assert(c.contains(top[a]));
            let q = choose|q: int| #![trigger s[q]] is_candidate(s, q) && s[q] == top[a];
            assert(s[q].0 == out[i]);
        }
        let r = pick_peaks_spec(s);
        assert forall|i: int, j: int| 0 <= i < j < r.len() implies #[trigger] r[j] - #[trigger] r[i]
            >= MIN_PEAK_GAP_US by {
            assert(out[j] - out[i] >= MIN_PEAK_GAP_US);
        }
        assert forall|i: int| 0 <= i < pick_peaks_spec(s).len() implies marks_reading(
            s,
            #[trigger] pick_peaks_spec(s)[i],
        ) by {
            assert(pick_peaks_spec(s)[i] == out[i]);
            let q = choose|q: int| #![trigger s[q]] is_candidate(s, q) && s[q].0 == out[i];
            assert(is_candidate(s, q) && s[q].0 == pick_peaks_spec(s)[i]);
        }
    }
}

/// Insertion at `p` is the stable insertion where everything from `p` on
/// goes after `x` and the element before `p` does not.
pub proof fn lemma_ins_by_at(
    s: Seq<(int, int)>,
    x: (int, int),
    le: spec_fn((int, int), (int, int)) -> bool,
    p: int,
)
    requires
        0 <= p <= s.len(),
        forall|q: int| p <= q < s.len() ==> !le(#[trigger] s[q], x),
        p == 0 || le(s[p - 1], x),
    ensures
        ins_by(s, x, le) == s.insert(p, x),
    decreases s.len(),
{
    if s.len() == 0 {
        assert(s.insert(p, x) =~= seq![x]);
    } else if p == s.len() {
        assert(s.insert(p, x) =~= s.push(x));
    } else {
        assert(!le(s.last(), x));
        let t = s.drop_last();
        assert forall|q: int| p <= q < t.len() implies !le(#[trigger] t[q], x) by {
            assert(t[q] == s[q]);
        }
        if p > 0 {
            assert(t[p - 1] == s[p - 1]);
        }
        lemma_ins_by_at(t, x, le, p);
        assert(t.insert(p, x).push(s.last()) =~= s.insert(p, x));
    }
}

pub open spec fn pair(x: Sample) -> (int, int) {
    (x.time_us as int, x.level_udb as int)
}


fn goes_before(a: Sample, b: Sample, time_order: bool) -> (r: bool)
    ensures
        r == (if time_order {
            by_time()
        } else {
            by_level_desc()
        })(pair(a), pair(b)),
{
    if time_order {
        a.time_us <= b.time_us
    } else {
        a.level_udb >= b.level_udb
    }
}

/// The stable sort by time (`time_order`) or by level, loudest first.
pub fn sort_samples(v: &Vec<Sample>, time_order: bool) -> (r: Vec<Sample>)
    ensures
        sample_view(r@) == sort_by(
            sample_view(v@),
            if time_order {
                by_time()
            } else {
                by_level_desc()
            },
        ),
{
    let ghost le = if time_order {
        by_time()
    } else {
        by_level_desc()
    };
    let mut out: Vec<Sample> = Vec::new();
    let mut j: usize = 0;
    while j < v.len()
        invariant
            j <= v@.len(),
            le == (if time_order {
                by_time()
            } else {
                by_level_desc()
            }),
            sample_view(out@) == sort_by(sample_view(v@).take(j as int), le),
        decreases v.len() - j,
    {
        let x = v[j];
        let mut p: usize = out.len();
        while p > 0 && !goes_before(out[p - 1], x, time_order)
            invariant
                p <= out@.len(),
                le == (if time_order {
                    by_time()
                } else {
                    by_level_desc()
                }),
                forall|q: int| p <= q < out@.len() ==> !le(#[trigger] sample_view(out@)[q], pair(x)),
            decreases p,
        {
            p -= 1;
        }
        proof {
            let sv = sample_view(out@);
            if p > 0 {
                assert(sv[p - 1] == pair(out@[p - 1]));
            }
            lemma_ins_by_at(sv, pair(x), le, p as int);
            let vj = sample_view(v@).take(j + 1);
            assert(vj.drop_last() =~= sample_view(v@).take(j as int));
            assert(vj.last() == pair(x));
        }
        let ghost before = out@;
        out.insert(p, x);
        assert(sample_view(out@) =~= sample_view(before).insert(p as int, pair(x)));
        j += 1;
    }
    assert(sample_view(v@).take(j as int) =~= sample_view(v@));
    out
}

/// `merge_close` on readings in time order.
pub fn merge_close_samples(v: &Vec<Sample>) -> (r: Vec<Sample>)
    ensures
        sample_view(r@) == merge_close(sample_view(v@)),
{
    let mut m: Vec<Sample> = Vec::new();
    let mut j: usize = 0;
    while j < v.len()
        invariant
            j <= v@.len(),
            sample_view(m@) == merge_close(sample_view(v@).take(j as int)),
        decreases v.len() - j,
    {
        let x = v[j];
        proof {
            let vj = sample_view(v@).take(j + 1);
            assert(vj.drop_last() =~= sample_view(v@).take(j as int));
            assert(vj.last() == pair(x));
        }
        let ghost before = m@;
        let n = m.len();
        if n > 0 && (x.time_us as i128) - (m[n - 1].time_us as i128) < MIN_PEAK_GAP_US as i128 {
            if x.level_udb > m[n - 1].level_udb {
                m.pop();
                m.push(x);
                assert(sample_view(m@) =~= sample_view(before).drop_last().push(pair(x)));
            }
        } else {
            m.push(x);
            assert(sample_view(m@) =~= sample_view(before).push(pair(x)));
        }
        j += 1;
    }
    assert(sample_view(v@).take(j as int) =~= sample_view(v@));
    m
}

/// `pick_peaks`: the highlight times for a clip's level readings. A vector
/// of readings never holds more than `isize::MAX` bytes, so its length is
/// below 2^60.
pub fn pick_peaks(samples: &Vec<Sample>) -> (r: Vec<i64>)
    requires
        samples@.len() < 0x1000_0000_0000_0000,
    ensures
        r@.map_values(|t: i64| t as int) == pick_peaks_spec(sample_view(samples@)),
{
    let ghost sv = sample_view(samples@);
    let n = samples.len();
    if n < 6 {
        let r: Vec<i64> = Vec::new();
        assert(r@.map_values(|t: i64| t as int) =~= Seq::<int>::empty());
        return r;
    }
    let mut sum: i128 = 0;
    let mut i: usize = 0;
    while i < n
        invariant
            n == samples@.len(),
            n < 0x1000_0000_0000_0000,
            sv == sample_view(samples@),
            i <= n,
            sum == levels_sum(sv.take(i as int)),
            -(i as int) * 0x8000_0000_0000_0000 <= sum <= (i as int) * 0x8000_0000_0000_0000,
        decreases n - i,
    {
        proof {
            assert(sv.take(i + 1).drop_last() =~= sv.take(i as int));
            assert(sv.take(i + 1).last() == pair(samples@[i as int]));
        }
        sum = sum + samples[i].level_udb as i128;
        i += 1;
    }
    assert(sv.take(n as int) =~= sv);
    let nn = n as i128;
    let bar: i128 = sum + 6_000_000 * nn;
    let mut cands: Vec<Sample> = Vec::new();
    let mut k: usize = 1;
    assert(candidates_upto(sv, 0) =~= Seq::<(int, int)>::empty());
    assert(!is_candidate(sv, 0));
    assert(candidates_upto(sv, 1) =~= Seq::<(int, int)>::empty());
    while k < n - 1
        invariant
            n == samples@.len(),
            6 <= n < 0x1000_0000_0000_0000,
            sv == sample_view(samples@),
            1 <= k <= n - 1,
            sum == levels_sum(sv),
            -(n as int) * 0x8000_0000_0000_0000 <= sum <= (n as int) * 0x8000_0000_0000_0000,
            nn == n,
            bar == sum + 6_000_000 * nn,
            sample_view(cands@) == candidates_upto(sv, k as int),
        decreases n - 1 - k,
    {
        let x = samples[k];
        let lv = x.level_udb as i128;
        assert(-0x8000_0000_0000_0000 * nn <= lv * nn <= 0x8000_0000_0000_0000 * nn) by (nonlinear_arith)
            requires
                -0x8000_0000_0000_0000 <= lv <= 0x8000_0000_0000_0000,
                0 <= nn,
        ;
        let loud = lv * nn >= bar;
        let ghost before = cands@;
        if loud && x.level_udb >= samples[k - 1].level_udb && x.level_udb >= samples[k + 1].level_udb {
            cands.push(x);
            assert(sample_view(cands@) =~= sample_view(before).push(pair(x)));
        }
        assert(sv[k as int] == pair(x));
        assert(sv[k - 1] == pair(samples@[k - 1]));
        assert(sv[k + 1] == pair(samples@[k + 1]));
        k += 1;
    }
    let in_time = sort_samples(&cands, true);
    let merged = merge_close_samples(&in_time);
    let loudest = sort_samples(&merged, false);
    let mut top: Vec<Sample> = Vec::new();
    let keep = if loudest.len() < MAX_PEAKS {
        loudest.len()
    } else {
        MAX_PEAKS
    };
    let mut q: usize = 0;
    while q < keep
        invariant
            keep <= loudest@.len(),
            q <= keep,
            top@.len() == q,
            forall|z: int| 0 <= z < q ==> #[trigger] top@[z] == (Sample { time_us: loudest@[z].time_us, level_udb: 0 }),
        decreases keep - q,
    {
        top.push(Sample { time_us: loudest[q].time_us, level_udb: 0 });
        q += 1;
    }
    let ghost lv = sample_view(loudest@);
    assert(sample_view(top@) =~= lv.take(keep as int).map_values(|x: (int, int)| (x.0, 0)));
    let times = sort_samples(&top, true);
    let mut out: Vec<i64> = Vec::new();
    let mut z: usize = 0;
    while z < times.len()
        invariant
            z <= times@.len(),
            out@.len() == z,
            forall|w: int| 0 <= w < z ==> #[trigger] out@[w] == times@[w].time_us,
        decreases times.len() - z,
    {
        out.push(times[z].time_us);
        z += 1;
    }
    assert(out@.map_values(|t: i64| t as int) =~= sample_view(times@).map_values(|x: (int, int)| x.0));
    out
}

} // verus!
