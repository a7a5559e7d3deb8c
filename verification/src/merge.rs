//! Joining overlapping replay saves. Two replay-buffer saves taken moments
//! apart both hold the trailing seconds of the same session, so their
//! recorded windows (`created_at - duration` .. `created_at`) can overlap.
//! When a freshly probed clip overlaps the latest earlier clip by at least
//! 750 ms and still adds at least 750 ms of its own, the two are spliced into
//! one clip (by ffmpeg, outside the library) and the merged record takes over
//! from both.
use vstd::prelude::*;

use crate::clip::{Clip, clone_opt_string, opt_seq};
use crate::instant::{before, Instant, is_before, nanos_between, parse_rfc3339, rfc3339_instant};
use crate::sorted::views;
use crate::store::{
    ClipStore, edited, key_index, lemma_edit_by, lookup, path_index, removed_all, StoreEntry,
    taken_out,
};
use crate::text::{append_str, chars_of, contains_chars, contains_seq, owned, str_eq};

verus! {

/// Overlap needed before two clips count as one moment (750 ms).
pub const MIN_OVERLAP_US: i64 = 750_000;

/// New footage the later clip must add (750 ms).
pub const MIN_NEW_CONTENT_US: i64 = 750_000;

/// When a clip's recording ended, as its `created_at` says.
pub open spec fn end_of(c: Clip) -> Option<Instant> {
    rfc3339_instant(c.created_at@)
}

/// `c` may be the earlier half of a merge with `cur`, which ended at
/// `cur_end`: another clip, of known non-zero length, that ended earlier.
pub open spec fn candidate_ok(c: Clip, cur: Clip, cur_end: Instant) -> bool {
    &&& c.id@ != cur.id@
    &&& c.duration_us matches Some(d) && d > 0
    &&& end_of(c) matches Some(e) && before(e, cur_end)
}

/// Among the first `n` candidates, the first of those that ended latest, or
/// -1.
pub open spec fn latest_before(cands: Seq<Clip>, cur: Clip, cur_end: Instant, n: nat) -> int
    decreases n,
{
    if n == 0 {
        -1
    } else {
        let b = latest_before(cands, cur, cur_end, (n - 1) as nat);
        let c = cands[n - 1];
        if candidate_ok(c, cur, cur_end) && (b < 0 || before(
            end_of(cands[b]).unwrap(),
            end_of(c).unwrap(),
        )) {
            n - 1
        } else {
            b
        }
    }
}

pub proof fn lemma_latest_before(cands: Seq<Clip>, cur: Clip, cur_end: Instant, n: nat)
    requires
        n <= cands.len(),
    ensures
        -1 <= latest_before(cands, cur, cur_end, n) < n,
        latest_before(cands, cur, cur_end, n) >= 0 ==> candidate_ok(
            cands[latest_before(cands, cur, cur_end, n)],
            cur,
            cur_end,
        ),
    decreases n,
{
    if n > 0 {
        lemma_latest_before(cands, cur, cur_end, (n - 1) as nat);
    }
}

/// No candidate that may be merged ended after the one `latest_before` picks.
pub proof fn lemma_latest_before_is_latest(cands: Seq<Clip>, cur: Clip, cur_end: Instant, n: nat)
    requires
        n <= cands.len(),
    ensures
        forall|j: int|
            0 <= j < n && #[trigger] candidate_ok(cands[j], cur, cur_end) ==> latest_before(cands, cur, cur_end, n)
                >= 0 && !before(
                end_of(cands[latest_before(cands, cur, cur_end, n)]).unwrap(),
                end_of(cands[j]).unwrap(),
            ),
    decreases n,
{
    if n > 0 {
        lemma_latest_before_is_latest(cands, cur, cur_end, (n - 1) as nat);
        lemma_latest_before(cands, cur, cur_end, (n - 1) as nat);
    }
}

/// A merge is never set off by a coincidence: only a probed clip that is no
/// trimmed copy starts one, its partner is another probed clip that ended
/// earlier (the latest such), the overlap skipped is at least 750 ms and no
/// more than the partner's length, and the later clip still adds at least
/// 750 ms of its own.
pub proof fn law_merge_is_warranted(cur: Clip, cands: Seq<Clip>)
    requires
        merge_plan_spec(cur, cands) is Some,
    ensures
        ({
            let (b, t) = merge_plan_spec(cur, cands)->Some_0;
            let d = cur.duration_us->Some_0;
            let cur_end = end_of(cur)->Some_0;
            &&& cur.duration_us is Some && d > 0
            &&& !contains_seq(cur.file_name@, "_trim_"@)
            &&& end_of(cur) is Some
            &&& 0 <= b < cands.len()
            &&& candidate_ok(cands[b], cur, cur_end)
            &&& forall|j: int|
                0 <= j < cands.len() && #[trigger] candidate_ok(cands[j], cur, cur_end) ==> !before(
                    end_of(cands[b]).unwrap(),
                    end_of(cands[j]).unwrap(),
                )
            &&& t <= cands[b].duration_us->Some_0
            &&& (t >= MIN_OVERLAP_US || t == cands[b].duration_us->Some_0)
            &&& t + MIN_NEW_CONTENT_US < d
        }),
{
    let d = cur.duration_us->Some_0;
    let cur_end = end_of(cur)->Some_0;
    lemma_latest_before(cands, cur, cur_end, cands.len());
    lemma_latest_before_is_latest(cands, cur, cur_end, cands.len());
    let b = latest_before(cands, cur, cur_end, cands.len());
    let prev = cands[b];
    let overlap_ns = nanos_between(cur_end, end_of(prev).unwrap()) + (d / 1000) * 1_000_000;
    let overlap_ms = overlap_ns / 1_000_000;
    assert(overlap_ms >= 750);
    assert(overlap_ms * 1000 < d - MIN_NEW_CONTENT_US);
}

/// What to merge: which candidate is the earlier clip, and how much of the
/// later clip's start it already covers.
pub struct MergePlan {
    pub prev_index: usize,
    pub trim_start_us: u64,
}

/// The merge decision for `cur` against the library's clips `cands`: the
/// earlier clip and the microseconds to skip at the start of `cur`, if any.
pub open spec fn merge_plan_spec(cur: Clip, cands: Seq<Clip>) -> Option<(int, int)> {
    match cur.duration_us {
        None => None,
        Some(d) => {
            if d == 0 || contains_seq(cur.file_name@, "_trim_"@) {
                None
            } else {
                match end_of(cur) {
                    None => None,
                    Some(cur_end) => {
                        let b = latest_before(cands, cur, cur_end, cands.len());
                        if b < 0 {
                            None
                        } else {
                            let prev = cands[b];
                            let overlap_ns = nanos_between(cur_end, end_of(prev).unwrap()) + (d
                                / 1000) * 1_000_000;
                            let overlap_ms = overlap_ns / 1_000_000;
                            if overlap_ms < 750 || overlap_ms * 1000 >= d - MIN_NEW_CONTENT_US {
                                None
                            } else {
                                let prev_d = prev.duration_us.unwrap();
                                Some(
                                    (
                                        b,
                                        if overlap_ms * 1000 <= prev_d {
                                            overlap_ms * 1000
                                        } else {
                                            prev_d as int
                                        },
                                    ),
                                )
                            }
                        }
                    },
                }
            }
        },
    }
}

/// `try_merge_overlapping`'s decision.
pub fn plan_merge(cur: &Clip, cands: &Vec<Clip>) -> (r: Option<MergePlan>)
    ensures
        match (r, merge_plan_spec(*cur, cands@)) {
            (Some(p), Some((b, t))) => p.prev_index == b && p.trim_start_us == t,
            (None, None) => true,
            _ => false,
        },
{
    let d = match cur.duration_us {
        Some(d) => d,
        None => {
            return None;
        },
    };
    if d == 0 {
        return None;
    }
    let name = chars_of(cur.file_name.as_str());
    let marker = chars_of("_trim_");
    if contains_chars(name.as_slice(), marker.as_slice()) {
        return None;
    }
    let cur_end = match parse_rfc3339(cur.created_at.as_str()) {
        Some(t) => t,
        None => {
            return None;
        },
    };
    let mut best: Option<(usize, Instant)> = None;
    let mut i: usize = 0;
    while i < cands.len()
        invariant
            i <= cands@.len(),
            end_of(*cur) == Some(cur_end),
            match best {
                Some((b, e)) => b as int == latest_before(cands@, *cur, cur_end, i as nat)
                    && end_of(cands@[b as int]) == Some(e),
                None => latest_before(cands@, *cur, cur_end, i as nat) == -1,
            },
        decreases cands.len() - i,
    {
        proof {
            lemma_latest_before(cands@, *cur, cur_end, i as nat);
        }
        let c = &cands[i];
        let ok_duration = match c.duration_us {
            Some(pd) => pd > 0,
            None => false,
        };
        if !str_eq(c.id.as_str(), cur.id.as_str()) && ok_duration {
            match parse_rfc3339(c.created_at.as_str()) {
                Some(e) => {
                    if is_before(e, cur_end) {
                        let better = match best {
                            Some((_, be)) => is_before(be, e),
                            None => true,
                        };
                        if better {
                            best = Some((i, e));
                        }
                    }
                },
                None => {},
            }
        }
        i += 1;
    }
    let (b, prev_end) = match best {
        Some(x) => x,
        None => {
            return None;
        },
    };
    proof {
        lemma_latest_before(cands@, *cur, cur_end, cands@.len());
    }
    let prev_d: u64 = match cands[b].duration_us {
        Some(pd) => pd,
        None => 0,
    };
    let overlap_ns: i128 = (prev_end.secs as i128 - cur_end.secs as i128) * 1_000_000_000
        + (prev_end.nanos as i128 - cur_end.nanos as i128) + (d / 1000) as i128 * 1_000_000;
    assert(overlap_ns == nanos_between(cur_end, prev_end) + (d / 1000) * 1_000_000);
    if overlap_ns < 750_000_000 {
        return None;
    }
    let overlap_ms: i128 = overlap_ns / 1_000_000;
    if overlap_ms * 1000 >= d as i128 - MIN_NEW_CONTENT_US as i128 {
        return None;
    }
    let covered = overlap_ms * 1000;
    let trim_start_us: u64 = if covered <= prev_d as i128 {
        covered as u64
    } else {
        prev_d
    };
    Some(MergePlan { prev_index: b, trim_start_us })
}

// ------------------------------------------------------------ merged record

/// The earlier clip's tags, then each of the later clip's tags not yet
/// among them.
pub open spec fn union_tags(prev: Seq<String>, cur: Seq<String>) -> Seq<String>
    decreases cur.len(),
{
    if cur.len() == 0 {
        prev
    } else {
        let t = union_tags(prev, cur.drop_last());
        if views(t).contains(cur.last()@) {
            t
        } else {
            t.push(cur.last())
        }
    }
}

pub fn contains_string(v: &Vec<String>, s: &str) -> (r: bool)
    ensures
        r == views(v@).contains(s@),
{
    let mut i: usize = 0;
    while i < v.len()
        invariant
            i <= v@.len(),
            forall|k: int| 0 <= k < i ==> v@[k]@ != s@,
        decreases v.len() - i,
    {
        if str_eq(v[i].as_str(), s) {
            assert(views(v@)[i as int] == s@);
            return true;
        }
        i += 1;
    }
    assert forall|k: int| 0 <= k < views(v@).len() implies views(v@)[k] != s@ by {
        assert(views(v@)[k] == v@[k]@);
    }
    false
}

pub fn union_tag_list(prev: &Vec<String>, cur: &Vec<String>) -> (r: Vec<String>)
    ensures
        r@ == union_tags(prev@, cur@),
{
    let mut tags = prev.clone();
    assert(tags@ =~= prev@) by {
        assert forall|k: int| 0 <= k < prev@.len() implies tags@[k] == prev@[k] by {
            assert(vstd::pervasive::cloned(prev@[k], tags@[k]));
        }
    }
    let mut i: usize = 0;
    while i < cur.len()
        invariant
            i <= cur@.len(),
            tags@ == union_tags(prev@, cur@.take(i as int)),
        decreases cur.len() - i,
    {
        proof {
            assert(cur@.take(i + 1).drop_last() =~= cur@.take(i as int));
        }
        if !contains_string(&tags, cur[i].as_str()) {
            tags.push(cur[i].clone());
        }
        i += 1;
    }
    assert(cur@.take(i as int) =~= cur@);
    tags
}

pub open spec fn or_opt(a: Option<String>, b: Option<String>) -> Option<String> {
    if a is Some {
        a
    } else {
        b
    }
}

/// `new` is `old` carrying what the merged clip keeps of both halves: the
/// later clip's time, the earlier clip's game and title (else the later
/// one's), all tags, and the favourite mark if either had it.
pub open spec fn merged_from(old: Clip, new: Clip, prev: Clip, cur: Clip) -> bool {
    &&& new == Clip {
        created_at: cur.created_at,
        game_name: or_opt(prev.game_name, cur.game_name),
        display_name: or_opt(prev.display_name, cur.display_name),
        tags: new.tags,
        is_favorite: prev.is_favorite || cur.is_favorite,
        ..old
    }
    &&& new.tags@ == union_tags(prev.tags@, cur.tags@)
}

/// The merged clip is a favourite exactly when at least one of the two
/// halves was; it keeps the later half's time, and every tag of either half.
pub proof fn law_merged_favourite(old: Clip, new: Clip, prev: Clip, cur: Clip)
    requires
        merged_from(old, new, prev, cur),
    ensures
        new.is_favorite <==> (prev.is_favorite || cur.is_favorite),
        new.created_at == cur.created_at,
        forall|t: Seq<char>|
            views(prev.tags@).contains(t) || views(cur.tags@).contains(t) ==> #[trigger] views(
                new.tags@,
            ).contains(t),
{
    lemma_union_tags_keeps(prev.tags@, cur.tags@);
}

/// Every tag of either list, as text, is in their union.
proof fn lemma_union_tags_keeps(prev: Seq<String>, cur: Seq<String>)
    ensures
        forall|t: Seq<char>|
            views(prev).contains(t) || views(cur).contains(t) ==> #[trigger] views(
                union_tags(prev, cur),
            ).contains(t),
    decreases cur.len(),
{
    if cur.len() > 0 {
        let d = cur.drop_last();
        lemma_union_tags_keeps(prev, d);
        let u0 = union_tags(prev, d);
        let u = union_tags(prev, cur);
        assert forall|t: Seq<char>| views(prev).contains(t) || views(cur).contains(t) implies #[trigger] views(
            u,
        ).contains(t) by {
            if views(u0).contains(views(cur).last()) {
                assert(u == u0);
            } else {
                crate::sorted::lemma_views_push(u0, cur.last());
                assert(views(u) == views(u0).push(cur.last()@));
                if views(u0).contains(t) {
                    let j = choose|j: int| 0 <= j < views(u0).len() && views(u0)[j] == t;
                    assert(views(u)[j] == t);
                }
            }
            if views(cur).contains(t) && !views(prev).contains(t) {
                let j = choose|j: int| 0 <= j < views(cur).len() && views(cur)[j] == t;
                if j < cur.len() - 1 {
                    assert(views(d)[j] == t);
                    assert(views(d).contains(t));
                } else {
                    assert(cur.last()@ == t);
                    if views(u0).contains(t) {
                        assert(u == u0);
                    } else {
                        assert(views(u)[views(u0).len() as int] == t);
                    }
                }
            }
        }
    }
}

pub open spec fn merged_by(old: Clip, new: Clip, prev: &Clip, cur: &Clip) -> bool {
    merged_from(old, new, *prev, *cur)
}

/// What finishing a merge did to the library.
pub struct MergeOutcome {
    /// The merged clip's record, as announced.
    pub merged: Clip,
    /// The two halves, as dropped.
    pub removed: Vec<Clip>,
}

/// Once the merged file has been taken into the library: the merged record
/// takes over the halves' time, game, title, tags and favourite mark, and
/// both halves are dropped. Nothing changes if the merged file is not in the
/// library.
pub fn finish_merge(store: &mut ClipStore, output_path: &str, prev: &Clip, cur: &Clip) -> (r: Option<
    MergeOutcome,
>)
    requires
        old(store).wf(),
    ensures
        final(store).wf(),
        path_index(old(store).entries(), output_path@) == -1 ==> final(store).entries() == old(
            store,
        ).entries() && r is None,
        path_index(old(store).entries(), output_path@) >= 0 ==> {
            let found = old(store).entries()[path_index(old(store).entries(), output_path@)].clip;
            let halves = seq![prev.id@, cur.id@];
            exists|mid: Seq<StoreEntry>|
                {
                    &&& edited(
                        old(store).entries(),
                        found.id@,
                        mid,
                        |a: Clip, b: Clip| merged_from(a, b, *prev, *cur),
                    )
                    &&& final(store).entries() == removed_all(mid, halves)
                    &&& r matches Some(o) && (if key_index(old(store).entries(), found.id@) >= 0 {
                        o.merged.same_as(mid[key_index(old(store).entries(), found.id@)].clip)
                    } else {
                        o.merged.same_as(found)
                    }) && o.removed@ == taken_out(mid, halves)
                }
        },
{
    let found = match store.by_file_path(output_path) {
        Some(c) => c,
        None => {
            return None;
        },
    };
    let f = |c: Clip| -> (out: Clip)
        ensures
            merged_by(c, out, prev, cur),
        {
            Clip {
                created_at: cur.created_at.clone(),
                game_name: if prev.game_name.is_some() {
                    clone_opt_string(&prev.game_name)
                } else {
                    clone_opt_string(&cur.game_name)
                },
                display_name: if prev.display_name.is_some() {
                    clone_opt_string(&prev.display_name)
                } else {
                    clone_opt_string(&cur.display_name)
                },
                tags: union_tag_list(&prev.tags, &cur.tags),
                is_favorite: prev.is_favorite || cur.is_favorite,
                ..c
            }
        };
    let ghost before = store.entries();
    let updated = store.update(found.id.as_str(), f);
    let ghost mid = store.entries();
    proof {
        lemma_edit_by(f, before, found.id@, mid, |a: Clip, b: Clip| merged_from(a, b, *prev, *cur));
    }
    let merged = match updated {
        Some(c) => c,
        None => found,
    };
    let halves: Vec<String> = vec![prev.id.clone(), cur.id.clone()];
    assert(views(halves@) =~= seq![prev.id@, cur.id@]);
    let removed = store.remove_many(halves.as_slice());
    Some(MergeOutcome { merged, removed })
}


/// The file name of a merged clip: `{stem}_merged_{stamp}.mp4`, next to the
/// later clip and never over a source, the stem being "clip" where the later
/// clip's file has none.
pub open spec fn merged_name_spec(stem: Option<Seq<char>>, stamp: Seq<char>) -> Seq<char> {
    let s = match stem {
        Some(s) => s,
        None => "clip"@,
    };
    s + "_merged_"@ + stamp + ".mp4"@
}

pub fn merged_output_name(stem: Option<&str>, stamp: &str) -> (r: String)
    ensures
        r@ == merged_name_spec(
            match stem {
                Some(s) => Some(s@),
                None => None,
            },
            stamp@,
        ),
{
    let mut r = match stem {
        Some(s) => owned(s),
        None => owned("clip"),
    };
    append_str(&mut r, "_merged_");
    append_str(&mut r, stamp);
    append_str(&mut r, ".mp4");
    r
}
} // verus!
