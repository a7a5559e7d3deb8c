//! Freeing disk space (`cleanup_old_local_clips`): clips older than the
//! cutoff go, favourites never do; with a size limit, the oldest remaining
//! clips go too until the library fits.
use vstd::prelude::*;

use crate::clip::Clip;
use crate::instant::{before, days_earlier, Instant, is_before, parse_rfc3339, rfc3339_instant};
use crate::sorted::views;
use crate::text::str_eq;

verus! {

/// One clip as the cleanup sees it: when it was recorded (if readable), its
/// id, whether it is a favourite, and its file's size.
pub open spec fn cleanup_view(c: Clip, bytes: u64) -> (Option<Instant>, Seq<char>, bool, nat) {
    (rfc3339_instant(c.created_at@), c.id@, c.is_favorite, bytes as nat)
}

pub open spec fn sat_add(a: nat, b: nat) -> nat {
    if a + b > u64::MAX {
        u64::MAX as nat
    } else {
        a + b
    }
}

pub open spec fn sat_sub(a: nat, b: nat) -> nat {
    if a < b {
        0
    } else {
        (a - b) as nat
    }
}

/// The size of all the clips' files (saturating).
pub open spec fn total_bytes(cs: Seq<(Option<Instant>, Seq<char>, bool, nat)>) -> nat
    decreases cs.len(),
{
    if cs.len() == 0 {
        0
    } else {
        sat_add(total_bytes(cs.drop_last()), cs.last().3)
    }
}

/// How many clips with a readable time are favourites.
pub open spec fn favourites(cs: Seq<(Option<Instant>, Seq<char>, bool, nat)>) -> nat
    decreases cs.len(),
{
    if cs.len() == 0 {
        0
    } else {
        favourites(cs.drop_last()) + if cs.last().0 is Some && cs.last().2 {
            1nat
        } else {
            0nat
        }
    }
}

/// The clips that may be removed (readable time, not a favourite): their
/// time, id and size, in order.
pub open spec fn removable(cs: Seq<(Option<Instant>, Seq<char>, bool, nat)>) -> Seq<(Instant, Seq<char>, nat)>
    decreases cs.len(),
{
    if cs.len() == 0 {
        Seq::empty()
    } else if cs.last().0 is Some && !cs.last().2 {
        removable(cs.drop_last()).push((cs.last().0.unwrap(), cs.last().1, cs.last().3))
    } else {
        removable(cs.drop_last())
    }
}

/// The ids of the removable clips recorded before the cutoff, in order.
pub open spec fn too_old(cands: Seq<(Instant, Seq<char>, nat)>, cutoff: Instant) -> Seq<Seq<char>>
    decreases cands.len(),
{
    if cands.len() == 0 {
        Seq::empty()
    } else if before(cands.last().0, cutoff) {
        too_old(cands.drop_last(), cutoff).push(cands.last().1)
    } else {
        too_old(cands.drop_last(), cutoff)
    }
}

/// The size of the first candidate with the id, if any.
pub open spec fn first_size(cands: Seq<(Instant, Seq<char>, nat)>, id: Seq<char>) -> Option<nat>
    decreases cands.len(),
{
    if cands.len() == 0 {
        None
    } else if first_size(cands.drop_last(), id) is Some {
        first_size(cands.drop_last(), id)
    } else if cands.last().1 == id {
        Some(cands.last().2)
    } else {
        None
    }
}

/// The total after taking off the sizes of the listed ids.
pub open spec fn projected_after(total: nat, cands: Seq<(Instant, Seq<char>, nat)>, ids: Seq<Seq<char>>) -> nat
    decreases ids.len(),
{
    if ids.len() == 0 {
        total
    } else {
        let p = projected_after(total, cands, ids.drop_last());
        match first_size(cands, ids.last()) {
            Some(b) => sat_sub(p, b),
            None => p,
        }
    }
}

/// `x` put after the last candidate recorded no later than it.
pub open spec fn ins_by_time(s: Seq<(Instant, Seq<char>, nat)>, x: (Instant, Seq<char>, nat)) -> Seq<
    (Instant, Seq<char>, nat),
>
    decreases s.len(),
{
    if s.len() == 0 {
        seq![x]
    } else if !before(x.0, s.last().0) {
        s.push(x)
    } else {
        ins_by_time(s.drop_last(), x).push(s.last())
    }
}

/// The candidates, oldest first (a stable sort).
pub open spec fn oldest_first(s: Seq<(Instant, Seq<char>, nat)>) -> Seq<(Instant, Seq<char>, nat)>
    decreases s.len(),
{
    if s.len() == 0 {
        s
    } else {
        ins_by_time(oldest_first(s.drop_last()), s.last())
    }
}

/// The size pass: going through the candidates oldest first while the
/// projected total is over the limit, each one not already chosen is chosen.
/// Gives the chosen ids and the projected total.
pub open spec fn size_pass(
    sorted: Seq<(Instant, Seq<char>, nat)>,
    i: int,
    ids: Seq<Seq<char>>,
    projected: nat,
    limit: nat,
) -> Seq<Seq<char>>
    decreases sorted.len() - i,
{
    if i < 0 || i >= sorted.len() || projected <= limit {
        ids
    } else if ids.contains(sorted[i].1) {
        size_pass(sorted, i + 1, ids, projected, limit)
    } else {
        size_pass(sorted, i + 1, ids.push(sorted[i].1), sat_sub(projected, sorted[i].2), limit)
    }
}

/// The ids `cleanup_old_local_clips` removes, for the clips as listed.
pub open spec fn cleanup_ids_spec(cs: Seq<(Option<Instant>, Seq<char>, bool, nat)>, cutoff: Instant, limit: Option<nat>) -> Seq<Seq<char>> {
    let cands = removable(cs);
    let ids = too_old(cands, cutoff);
    match limit {
        None => ids,
        Some(l) => size_pass(
            oldest_first(cands),
            0,
            ids,
            projected_after(total_bytes(cs), cands, ids),
            l,
        ),
    }
}

/// Whether `x` is the id of a clip that is no favourite.
pub open spec fn non_favourite_id(cs: Seq<(Option<Instant>, Seq<char>, bool, nat)>, x: Seq<char>) -> bool {
    exists|j: int| 0 <= j < cs.len() && #[trigger] cs[j].1 == x && !cs[j].2
}

pub open spec fn cand_ids(cands: Seq<(Instant, Seq<char>, nat)>) -> Seq<Seq<char>> {
    cands.map_values(|c: (Instant, Seq<char>, nat)| c.1)
}

proof fn lemma_removable_ids(cs: Seq<(Option<Instant>, Seq<char>, bool, nat)>)
    ensures
        forall|k: int| 0 <= k < removable(cs).len() ==> non_favourite_id(cs, #[trigger] removable(cs)[k].1),
    decreases cs.len(),
{
    if cs.len() > 0 {
        let t = cs.drop_last();
        lemma_removable_ids(t);
        assert forall|k: int| 0 <= k < removable(cs).len() implies non_favourite_id(cs, #[trigger] removable(cs)[k].1) by {
            if k < removable(t).len() {
                assert(removable(cs)[k] == removable(t)[k]);
                assert(non_favourite_id(t, removable(t)[k].1));
                let j = choose|j: int| 0 <= j < t.len() && #[trigger] t[j].1 == removable(t)[k].1 && !t[j].2;
                assert(cs[j] == t[j]);
            } else {
                assert(cs[cs.len() - 1].1 == removable(cs)[k].1);
            }
        }
    }
}

proof fn lemma_too_old_ids(cands: Seq<(Instant, Seq<char>, nat)>, cutoff: Instant)
    ensures
        forall|k: int| 0 <= k < too_old(cands, cutoff).len() ==> cand_ids(cands).contains(
            #[trigger] too_old(cands, cutoff)[k],
        ),
    decreases cands.len(),
{
    if cands.len() > 0 {
        let t = cands.drop_last();
        lemma_too_old_ids(t, cutoff);
        assert forall|k: int| 0 <= k < too_old(cands, cutoff).len() implies cand_ids(cands).contains(
            #[trigger] too_old(cands, cutoff)[k],
        ) by {
            if k < too_old(t, cutoff).len() {
                assert(too_old(cands, cutoff)[k] == too_old(t, cutoff)[k]);
                let j = choose|j: int| 0 <= j < cand_ids(t).len() && cand_ids(t)[j] == too_old(t, cutoff)[k];
                assert(cand_ids(cands)[j] == cand_ids(t)[j]);
            } else {
                assert(cand_ids(cands)[cands.len() - 1] == too_old(cands, cutoff)[k]);
            }
        }
    }
}

proof fn lemma_ins_by_time_members(s: Seq<(Instant, Seq<char>, nat)>, x: (Instant, Seq<char>, nat))
    ensures
        forall|k: int| 0 <= k < ins_by_time(s, x).len() ==> (#[trigger] ins_by_time(s, x)[k] == x || s.contains(
            ins_by_time(s, x)[k],
        )),
    decreases s.len(),
{
    if s.len() > 0 && before(x.0, s.last().0) {
        let t = s.drop_last();
        lemma_ins_by_time_members(t, x);
        assert forall|k: int| 0 <= k < ins_by_time(s, x).len() implies (#[trigger] ins_by_time(s, x)[k] == x
            || s.contains(ins_by_time(s, x)[k])) by {
            let r = ins_by_time(s, x);
            if k < ins_by_time(t, x).len() {
                assert(r[k] == ins_by_time(t, x)[k]);
                if ins_by_time(t, x)[k] != x {
                    let j = choose|j: int| 0 <= j < t.len() && t[j] == ins_by_time(t, x)[k];
                    assert(s[j] == t[j]);
                }
            } else {
                assert(r[k] == s[s.len() - 1]);
            }
        }
    } else if s.len() > 0 {
        assert forall|k: int| 0 <= k < ins_by_time(s, x).len() implies (#[trigger] ins_by_time(s, x)[k] == x
            || s.contains(ins_by_time(s, x)[k])) by {
            if k < s.len() {
                assert(ins_by_time(s, x)[k] == s[k]);
            }
        }
    }
}

proof fn lemma_oldest_first_members(s: Seq<(Instant, Seq<char>, nat)>)
    ensures
        forall|k: int| 0 <= k < oldest_first(s).len() ==> s.contains(#[trigger] oldest_first(s)[k]),
    decreases s.len(),
{
    if s.len() > 0 {
        let t = s.drop_last();
        lemma_oldest_first_members(t);
        lemma_ins_by_time_members(oldest_first(t), s.last());
        assert forall|k: int| 0 <= k < oldest_first(s).len() implies s.contains(#[trigger] oldest_first(s)[k]) by {
            let y = oldest_first(s)[k];
            if y == s.last() {
                assert(s[s.len() - 1] == y);
            } else {
                let i = choose|i: int| 0 <= i < oldest_first(t).len() && oldest_first(t)[i] == y;
                assert(t.contains(oldest_first(t)[i]));
                let j = choose|j: int| 0 <= j < t.len() && t[j] == y;
                assert(s[j] == t[j]);
            }
        }
    }
}

proof fn lemma_size_pass_ids(
    sorted: Seq<(Instant, Seq<char>, nat)>,
    i: int,
    ids: Seq<Seq<char>>,
    projected: nat,
    limit: nat,
)
    ensures
        forall|k: int|
            0 <= k < size_pass(sorted, i, ids, projected, limit).len() ==> ids.contains(
                #[trigger] size_pass(sorted, i, ids, projected, limit)[k],
            ) || cand_ids(sorted).contains(size_pass(sorted, i, ids, projected, limit)[k]),
    decreases sorted.len() - i,
{
    let r = size_pass(sorted, i, ids, projected, limit);
    if i < 0 || i >= sorted.len() || projected <= limit {
        assert forall|k: int| 0 <= k < r.len() implies ids.contains(#[trigger] r[k]) || cand_ids(
            sorted,
        ).contains(r[k]) by {
            assert(r[k] == ids[k]);
        }
    } else if ids.contains(sorted[i].1) {
        lemma_size_pass_ids(sorted, i + 1, ids, projected, limit);
        assert(r == size_pass(sorted, i + 1, ids, projected, limit));
    } else {
        let ids2 = ids.push(sorted[i].1);
        lemma_size_pass_ids(sorted, i + 1, ids2, sat_sub(projected, sorted[i].2), limit);
        assert(r == size_pass(sorted, i + 1, ids2, sat_sub(projected, sorted[i].2), limit));
        assert forall|k: int| 0 <= k < r.len() implies ids.contains(#[trigger] r[k]) || cand_ids(
            sorted,
        ).contains(r[k]) by {
            if ids2.contains(r[k]) {
                let j = choose|j: int| 0 <= j < ids2.len() && ids2[j] == r[k];
                if j < ids.len() {
                    assert(ids2[j] == ids[j]);
                    assert(ids[j] == r[k]);
                } else {
                    assert(ids2[j] == sorted[i].1);
                    assert(cand_ids(sorted)[i] == sorted[i].1);
                    assert(cand_ids(sorted)[i] == r[k]);
                }
            } else {
                assert(cand_ids(sorted).contains(r[k]));
            }
        }
    }
}

/// Favourites are never cleaned up: where each clip has its own id, no id
/// the cleanup picks (by age or by size) is a favourite's, and each is the
/// id of a clip with a readable time.
pub proof fn law_favourites_kept(
    cs: Seq<(Option<Instant>, Seq<char>, bool, nat)>,
    cutoff: Instant,
    limit: Option<nat>,
)
    requires
        forall|a: int, b: int| 0 <= a < b < cs.len() ==> cs[a].1 != cs[b].1,
    ensures
        forall|k: int|
            0 <= k < cleanup_ids_spec(cs, cutoff, limit).len() ==> non_favourite_id(
                cs,
                #[trigger] cleanup_ids_spec(cs, cutoff, limit)[k],
            ),
        forall|k: int, i: int|
            0 <= k < cleanup_ids_spec(cs, cutoff, limit).len() && 0 <= i < cs.len() && cs[i].2 ==> #[trigger] cleanup_ids_spec(
                cs,
                cutoff,
                limit,
            )[k] != #[trigger] cs[i].1,
{
    let cands = removable(cs);
    let ids = too_old(cands, cutoff);
    lemma_removable_ids(cs);
    lemma_too_old_ids(cands, cutoff);
    assert forall|x: Seq<char>| cand_ids(cands).contains(x) implies non_favourite_id(cs, x) by {
        let j = choose|j: int| 0 <= j < cand_ids(cands).len() && cand_ids(cands)[j] == x;
        assert(non_favourite_id(cs, cands[j].1));
    }
    let r = cleanup_ids_spec(cs, cutoff, limit);
    match limit {
        None => {
            assert forall|k: int| 0 <= k < r.len() implies non_favourite_id(cs, #[trigger] r[k]) by {
                assert(cand_ids(cands).contains(ids[k]));
            }
        },
        Some(l) => {
            let sorted = oldest_first(cands);
            lemma_oldest_first_members(cands);
            lemma_size_pass_ids(sorted, 0, ids, projected_after(total_bytes(cs), cands, ids), l);
            assert forall|k: int| 0 <= k < r.len() implies non_favourite_id(cs, #[trigger] r[k]) by {
                if ids.contains(r[k]) {
                    let j = choose|j: int| 0 <= j < ids.len() && ids[j] == r[k];
                    assert(cand_ids(cands).contains(ids[j]));
                } else {
                    let j = choose|j: int| 0 <= j < cand_ids(sorted).len() && cand_ids(sorted)[j] == r[k];
                    assert(cands.contains(sorted[j]));
                    let q = choose|q: int| 0 <= q < cands.len() && cands[q] == sorted[j];
                    assert(cand_ids(cands)[q] == r[k]);
                }
            }
        },
    }
    assert forall|k: int, i: int| 0 <= k < r.len() && 0 <= i < cs.len() && cs[i].2 implies #[trigger] r[k]
        != #[trigger] cs[i].1 by {
        assert(non_favourite_id(cs, r[k]));
        let j = choose|j: int| 0 <= j < cs.len() && #[trigger] cs[j].1 == r[k] && !cs[j].2;
        assert(j != i);
    }
}

pub proof fn lemma_first_size_take(cands: Seq<(Instant, Seq<char>, nat)>, id: Seq<char>, k: int)
    requires
        0 <= k <= cands.len(),
        first_size(cands.take(k), id) is Some,
    ensures
        first_size(cands, id) == first_size(cands.take(k), id),
    decreases cands.len() - k,
{
    if k < cands.len() {
        assert(cands.take(k + 1).drop_last() =~= cands.take(k));
        lemma_first_size_take(cands, id, k + 1);
    } else {
        assert(cands.take(k) =~= cands);
    }
}

pub proof fn lemma_ins_by_time_at(s: Seq<(Instant, Seq<char>, nat)>, x: (Instant, Seq<char>, nat), p: int)
    requires
        0 <= p <= s.len(),
        forall|q: int| p <= q < s.len() ==> before(x.0, #[trigger] s[q].0),
        p == 0 || !before(x.0, s[p - 1].0),
    ensures
        ins_by_time(s, x) == s.insert(p, x),
    decreases s.len(),
{
    if s.len() == 0 {
        assert(s.insert(p, x) =~= seq![x]);
    } else if p == s.len() {
        assert(s.insert(p, x) =~= s.push(x));
    } else {
        let t = s.drop_last();
        assert(before(x.0, s[s.len() - 1].0));
        assert forall|q: int| p <= q < t.len() implies before(x.0, #[trigger] t[q].0) by {
            assert(t[q] == s[q]);
        }
        if p > 0 {
            assert(t[p - 1] == s[p - 1]);
        }
        lemma_ins_by_time_at(t, x, p);
        assert(t.insert(p, x).push(s.last()) =~= s.insert(p, x));
    }
}

/// A candidate for removal.
pub struct Candidate {
    pub at: Instant,
    pub id: String,
    pub bytes: u64,
}

pub open spec fn cand_view(c: Seq<Candidate>) -> Seq<(Instant, Seq<char>, nat)> {
    c.map_values(|x: Candidate| (x.at, x.id@, x.bytes as nat))
}

/// What the cleanup will do.
pub struct CleanupPlan {
    /// The clips to remove, by id.
    pub ids: Vec<String>,
    /// Favourites kept regardless of age.
    pub kept_favorites: usize,
    /// The size of all the clips' files (saturating).
    pub total_bytes: u64,
}

pub open spec fn cleanup_views(clips: Seq<Clip>, sizes: Seq<u64>) -> Seq<(Option<Instant>, Seq<char>, bool, nat)> {
    Seq::new(clips.len(), |i: int| cleanup_view(clips[i], sizes[i]))
}

/// The removal plan of `cleanup_old_local_clips`, for the clips as listed
/// with their files' sizes; the cutoff is `older_than_days` (at least one)
/// days before `now`, and `max_bytes` the size limit, if any.
pub fn plan_cleanup(
    clips: &Vec<Clip>,
    sizes: &Vec<u64>,
    now: Instant,
    older_than_days: u32,
    max_bytes: Option<u64>,
) -> (r: CleanupPlan)
    requires
        clips@.len() == sizes@.len(),
        now.secs - (if older_than_days < 1 {
            1
        } else {
            older_than_days as int
        }) * 86_400 >= i64::MIN,
    ensures
        ({
            let cs = cleanup_views(clips@, sizes@);
            let days = if older_than_days < 1 {
                1
            } else {
                older_than_days as int
            };
            &&& views(r.ids@) == cleanup_ids_spec(
                cs,
                days_earlier(now, days),
                match max_bytes {
                    Some(m) => Some(m as nat),
                    None => None,
                },
            )
            &&& r.kept_favorites == favourites(cs)
            &&& r.total_bytes == total_bytes(cs)
        }),
{
    let ghost cs = cleanup_views(clips@, sizes@);
    let days: u32 = if older_than_days < 1 {
        1
    } else {
        older_than_days
    };
    let cutoff = match crate::instant::days_before(now, days) {
        Some(c) => c,
        None => {
            return CleanupPlan { ids: Vec::new(), kept_favorites: 0, total_bytes: 0 };
        },
    };
    let mut total: u64 = 0;
    let mut kept: usize = 0;
    let mut cands: Vec<Candidate> = Vec::new();
    let mut ids: Vec<String> = Vec::new();
    let mut i: usize = 0;
    while i < clips.len()
        invariant
            clips@.len() == sizes@.len(),
            cs == cleanup_views(clips@, sizes@),
            i <= clips@.len(),
            kept <= i,
            total as nat == total_bytes(cs.take(i as int)),
            kept as nat == favourites(cs.take(i as int)),
            cand_view(cands@) == removable(cs.take(i as int)),
            views(ids@) == too_old(removable(cs.take(i as int)), cutoff),
        decreases clips.len() - i,
    {
        proof {
            assert(cs.take(i + 1).drop_last() =~= cs.take(i as int));
            assert(cs.take(i + 1).last() == cleanup_view(clips@[i as int], sizes@[i as int]));
        }
        let bytes = sizes[i];
        total = total.saturating_add(bytes);
        let c = &clips[i];
        match parse_rfc3339(c.created_at.as_str()) {
            Some(at) => {
                if c.is_favorite {
                    kept += 1;
                } else {
                    let ghost cb = cands@;
                    let ghost ib = ids@;
                    cands.push(Candidate { at, id: c.id.clone(), bytes });
                    assert(cand_view(cands@) =~= cand_view(cb).push((at, c.id@, bytes as nat)));
                    proof {
                        let rp = removable(cs.take(i + 1));
                        assert(rp == removable(cs.take(i as int)).push((at, c.id@, bytes as nat)));
                        assert(rp.drop_last() =~= removable(cs.take(i as int)));
                    }
                    if is_before(at, cutoff) {
                        ids.push(c.id.clone());
                        assert(views(ids@) =~= views(ib).push(c.id@));
                    }
                }
            },
            None => {},
        }
        i += 1;
    }
    assert(cs.take(i as int) =~= cs);
    let ghost cv = cand_view(cands@);
    let ghost old_ids = views(ids@);
    let limit = match max_bytes {
        Some(m) => m,
        None => {
            return CleanupPlan { ids, kept_favorites: kept, total_bytes: total };
        },
    };
    // what removing the old clips already frees
    let mut projected: u64 = total;
    let mut j: usize = 0;
    while j < ids.len()
        invariant
            j <= ids@.len(),
            cv == cand_view(cands@),
            old_ids == views(ids@),
            projected as nat == projected_after(total as nat, cv, old_ids.take(j as int)),
        decreases ids.len() - j,
    {
        proof {
            assert(old_ids.take(j + 1).drop_last() =~= old_ids.take(j as int));
            assert(old_ids.take(j + 1).last() == ids@[j as int]@);
        }
        let mut k: usize = 0;
        let mut found: Option<u64> = None;
        while k < cands.len() && found.is_none()
            invariant
                k <= cands@.len(),
                cv == cand_view(cands@),
                found is None ==> first_size(cv.take(k as int), ids@[j as int]@) is None,
                found matches Some(b) ==> first_size(cv, ids@[j as int]@) == Some(b as nat),
                j < ids@.len(),
            decreases cands.len() - k + if found is None {
                1int
            } else {
                0int
            },
        {
            proof {
                assert(cv.take(k + 1).drop_last() =~= cv.take(k as int));
                assert(cv.take(k + 1).last() == cv[k as int]);
            }
            if str_eq(cands[k].id.as_str(), ids[j].as_str()) {
                found = Some(cands[k].bytes);
                proof {
                    lemma_first_size_take(cv, ids@[j as int]@, k + 1);
                }
            }
            k += 1;
        }
        proof {
            if found is None {
                assert(cv.take(k as int) =~= cv);
            }
        }
        match found {
            Some(b) => {
                projected = projected.saturating_sub(b);
            },
            None => {},
        }
        j += 1;
    }
    assert(old_ids.take(j as int) =~= old_ids);
    // oldest first
    let mut sorted: Vec<Candidate> = Vec::new();
    let mut q: usize = 0;
    while q < cands.len()
        invariant
            q <= cands@.len(),
            cv == cand_view(cands@),
            cand_view(sorted@) == oldest_first(cv.take(q as int)),
        decreases cands.len() - q,
    {
        let x_at = cands[q].at;
        let mut p: usize = sorted.len();
        while p > 0 && is_before(x_at, sorted[p - 1].at)
            invariant
                p <= sorted@.len(),
                forall|z: int| p <= z < sorted@.len() ==> before(x_at, #[trigger] cand_view(sorted@)[z].0),
            decreases p,
        {
            p -= 1;
        }
        proof {
            let sv = cand_view(sorted@);
            if p > 0 {
                assert(sv[p - 1].0 == sorted@[p - 1].at);
            }
            lemma_ins_by_time_at(sv, cv[q as int], p as int);
            assert(cv.take(q + 1).drop_last() =~= cv.take(q as int));
            assert(cv.take(q + 1).last() == cv[q as int]);
        }
        let ghost sb = sorted@;
        sorted.insert(p, Candidate { at: x_at, id: cands[q].id.clone(), bytes: cands[q].bytes });
        assert(cand_view(sorted@) =~= cand_view(sb).insert(p as int, cv[q as int]));
        q += 1;
    }
    assert(cv.take(q as int) =~= cv);
    let ghost sv = cand_view(sorted@);
    let ghost p0 = projected as nat;
    let mut t: usize = 0;
    while t < sorted.len() && projected > limit
        invariant
            t <= sorted@.len(),
            sv == cand_view(sorted@),
            size_pass(sv, 0, old_ids, p0, limit as nat) == size_pass(
                sv,
                t as int,
                views(ids@),
                projected as nat,
                limit as nat,
            ),
        decreases sorted.len() - t,
    {
        assert(sv[t as int] == (sorted@[t as int].at, sorted@[t as int].id@, sorted@[t as int].bytes as nat));
        if !crate::merge::contains_string(&ids, sorted[t].id.as_str()) {
            let ghost ib = ids@;
            ids.push(sorted[t].id.clone());
            assert(views(ids@) =~= views(ib).push(sorted@[t as int].id@));
            projected = projected.saturating_sub(sorted[t].bytes);
        }
        t += 1;
    }
    CleanupPlan { ids, kept_favorites: kept, total_bytes: total }
}

/// The size of the files of the clips being removed (`freed_bytes`).
pub open spec fn freed_spec(cs: Seq<(Option<Instant>, Seq<char>, bool, nat)>, ids: Seq<Seq<char>>) -> nat
    decreases cs.len(),
{
    if cs.len() == 0 {
        0
    } else {
        freed_spec(cs.drop_last(), ids) + if ids.contains(cs.last().1) {
            cs.last().3
        } else {
            0
        }
    }
}

/// How many bytes removing the chosen clips frees (their files' sizes).
pub fn freed_bytes(clips: &Vec<Clip>, sizes: &Vec<u64>, ids: &Vec<String>) -> (r: u128)
    requires
        clips@.len() == sizes@.len(),
    ensures
        r as nat == freed_spec(cleanup_views(clips@, sizes@), views(ids@)),
{
    let ghost cs = cleanup_views(clips@, sizes@);
    let mut sum: u128 = 0;
    let mut i: usize = 0;
    while i < clips.len()
        invariant
            clips@.len() == sizes@.len(),
            cs == cleanup_views(clips@, sizes@),
            i <= clips@.len(),
            sum as nat == freed_spec(cs.take(i as int), views(ids@)),
            sum <= i * 0xffff_ffff_ffff_ffff,
        decreases clips.len() - i,
    {
        proof {
            assert(cs.take(i + 1).drop_last() =~= cs.take(i as int));
            assert(cs.take(i + 1).last() == cleanup_view(clips@[i as int], sizes@[i as int]));
        }
        if crate::merge::contains_string(ids, clips[i].id.as_str()) {
            sum = sum + sizes[i] as u128;
        }
        i += 1;
    }
    assert(cs.take(i as int) =~= cs);
    sum
}

/// `cleanup_storage`'s orphans: the files in the thumbnail folder that no
/// clip record names, in folder order.
pub open spec fn orphans_spec(files: Seq<Seq<char>>, known: Seq<Seq<char>>) -> Seq<Seq<char>>
    decreases files.len(),
{
    if files.len() == 0 {
        files
    } else {
        let prev = orphans_spec(files.drop_last(), known);
        if known.contains(files.last()) {
            prev
        } else {
            prev.push(files.last())
        }
    }
}

pub fn orphan_thumbnails(files: &Vec<String>, known: &Vec<String>) -> (r: Vec<String>)
    ensures
        views(r@) == orphans_spec(views(files@), views(known@)),
{
    let mut out: Vec<String> = Vec::new();
    let mut i: usize = 0;
    while i < files.len()
        invariant
            i <= files@.len(),
            views(out@) == orphans_spec(views(files@).take(i as int), views(known@)),
        decreases files.len() - i,
    {
        let mut found = false;
        let mut k: usize = 0;
        while k < known.len()
            invariant
                k <= known@.len(),
                i < files@.len(),
                found == exists|q: int| 0 <= q < k && known@[q]@ == files@[i as int]@,
            decreases known.len() - k,
        {
            if str_eq(known[k].as_str(), files[i].as_str()) {
                found = true;
            }
            k += 1;
        }
        proof {
            let fi = views(files@).take(i + 1);
            assert(fi.drop_last() =~= views(files@).take(i as int));
            assert(fi.last() == files@[i as int]@);
            if found {
                let q = choose|q: int| 0 <= q < known@.len() && known@[q]@ == files@[i as int]@;
                assert(views(known@)[q] == files@[i as int]@);
            } else {
                assert forall|q: int| 0 <= q < views(known@).len() implies views(known@)[q] != fi.last() by {
                    assert(views(known@)[q] == known@[q]@);
                }
            }
        }
        if !found {
            let ghost before = out@;
            out.push(files[i].clone());
            assert(views(out@) =~= views(before).push(files@[i as int]@));
        }
        i += 1;
    }
    assert(views(files@).take(i as int) =~= views(files@));
    out
}

} // verus!
