//! Clip tags: normalization, the registry of known tags (`tags.json`), and
//! the merged tag list shown to the user.
use vstd::prelude::*;
use vstd::utf8::encode_utf8;

use crate::sorted::{
    insert_sorted_unique, lemma_sorted_remove, lemma_sorted_unique,
    lemma_views_push, sort_strings, sorted_le, strictly_sorted, views,
};
use crate::text::{to_lowercase, trim, trim_seq, unicode_lowercase};

verus! {

/// A tag as the library stores it: trimmed, then lowercased.
pub open spec fn normalized_tag(s: Seq<char>) -> Seq<char> {
    unicode_lowercase(trim_seq(s))
}

/// Longest tag accepted, in UTF-8 bytes.
pub const MAX_TAG_BYTES: usize = 32;

/// Normalizes a tag the user typed, refusing an empty or overlong one.
pub fn normalize_tag(tag: &str) -> (r: Result<String, String>)
    ensures
        ({
            let n = normalized_tag(tag@);
            match r {
                Ok(t) => n.len() > 0 && encode_utf8(n).len() <= 32 && t@ == n,
                Err(e) => (n.len() == 0 && e@ == "tag cannot be empty"@) || (n.len() > 0
                    && encode_utf8(n).len() > 32 && e@ == "tag too long (max 32)"@),
            }
        }),
{
    let trimmed = trim(tag);
    let t = to_lowercase(trimmed.as_str());
    if t.as_str().is_empty() {
        return Err(String::from_str("tag cannot be empty"));
    }
    if t.as_str().as_bytes().len() > MAX_TAG_BYTES {
        return Err(String::from_str("tag too long (max 32)"));
    }
    Ok(t)
}

/// Tags of the registry, as stored: each lowercased (not trimmed).
pub open spec fn known_tag_seq(known: Seq<Seq<char>>) -> Seq<Seq<char>> {
    known.map_values(|t: Seq<char>| unicode_lowercase(t))
}

/// Tags found on clips, normalized, the empty ones dropped.
pub open spec fn clip_tag_seq(clip_tags: Seq<Seq<char>>) -> Seq<Seq<char>> {
    clip_tags.map_values(|t: Seq<char>| normalized_tag(t)).filter(|t: Seq<char>| t.len() > 0)
}

/// The set of tags that `merge_tags_from_clips` lists.
pub open spec fn merged_tag_set(known: Seq<Seq<char>>, clip_tags: Seq<Seq<char>>) -> Set<Seq<char>> {
    known_tag_seq(known).to_set().union(clip_tag_seq(clip_tags).to_set())
}

/// All tags the user can pick from: the registry's tags lowercased, and the
/// tags found on clips normalized, without repeats and in ascending order.
pub fn merge_tags_from_clips(known: Vec<String>, clip_tags: Vec<String>) -> (r: Vec<String>)
    ensures
        strictly_sorted(views(r@)),
        views(r@).to_set() == merged_tag_set(views(known@), views(clip_tags@)),
{
    let mut r: Vec<String> = Vec::new();
    let ghost kv = views(known@);
    let ghost cv = views(clip_tags@);
    assert(views(r@).to_set() =~= known_tag_seq(kv.take(0)).to_set());
    let mut i: usize = 0;
    while i < known.len()
        invariant
            i <= known@.len(),
            kv == views(known@),
            strictly_sorted(views(r@)),
            views(r@).to_set() == known_tag_seq(kv.take(i as int)).to_set(),
        decreases known.len() - i,
    {
        let t = to_lowercase(known[i].as_str());
        insert_sorted_unique(&mut r, t);
        proof {
            assert(kv.take(i + 1) =~= kv.take(i as int).push(kv[i as int]));
            kv.take(i as int).lemma_push_map_commute(|t: Seq<char>| unicode_lowercase(t), kv[i as int]);
            known_tag_seq(kv.take(i as int)).lemma_push_to_set_commute(unicode_lowercase(kv[i as int]));
        }
        i += 1;
    }
    assert(kv.take(kv.len() as int) =~= kv);
    let ghost base = views(r@).to_set();
    assert(clip_tag_seq(cv.take(0)) =~= Seq::<Seq<char>>::empty());
    assert(base.union(clip_tag_seq(cv.take(0)).to_set()) =~= base);
    let mut j: usize = 0;
    while j < clip_tags.len()
        invariant
            j <= clip_tags@.len(),
            cv == views(clip_tags@),
            base == known_tag_seq(kv).to_set(),
            strictly_sorted(views(r@)),
            views(r@).to_set() == base.union(clip_tag_seq(cv.take(j as int)).to_set()),
        decreases clip_tags.len() - j,
    {
        let trimmed = trim(clip_tags[j].as_str());
        let n = to_lowercase(trimmed.as_str());
        let ghost pred = |t: Seq<char>| t.len() > 0;
        let ghost f = |t: Seq<char>| normalized_tag(t);
        proof {
            assert(cv.take(j + 1) =~= cv.take(j as int).push(cv[j as int]));
            cv.take(j as int).lemma_push_map_commute(f, cv[j as int]);
            cv.take(j as int).map_values(f).lemma_filter_push(n@, pred);
        }
        if !n.as_str().is_empty() {
            insert_sorted_unique(&mut r, n);
            proof {
                clip_tag_seq(cv.take(j as int)).lemma_push_to_set_commute(normalized_tag(cv[j as int]));
                assert(views(r@).to_set() =~= base.union(clip_tag_seq(cv.take(j + 1)).to_set()));
            }
        }
        j += 1;
    }
    assert(cv.take(cv.len() as int) =~= cv);
    r
}

/// The registry of known tags (the contents of `tags.json`).
pub struct TagRegistryStore {
    known_tags: Vec<String>,
}

/// The known tags other than `t`, in order.
pub open spec fn tags_without(s: Seq<Seq<char>>, t: Seq<char>) -> Seq<Seq<char>>
    decreases s.len(),
{
    if s.len() == 0 {
        s
    } else if s.last() != t {
        tags_without(s.drop_last(), t).push(s.last())
    } else {
        tags_without(s.drop_last(), t)
    }
}

/// A list none of whose entries is `t` comes through whole.
proof fn lemma_without_absent(s: Seq<Seq<char>>, t: Seq<char>)
    requires
        !s.contains(t),
    ensures
        tags_without(s, t) == s,
    decreases s.len(),
{
    if s.len() > 0 {
        let d = s.drop_last();
        assert(!d.contains(t)) by {
            if d.contains(t) {
                let j = choose|j: int| 0 <= j < d.len() && d[j] == t;
                assert(s[j] == t);
            }
        }
        lemma_without_absent(d, t);
        assert(s[s.len() - 1] != t) by {
            if s[s.len() - 1] == t {
                assert(s.contains(t));
            }
        }
        assert(d.push(s.last()) =~= s);
    }
}

/// Removing an entry inserted into a list without it gives the list back.
proof fn lemma_without_inserted(s: Seq<Seq<char>>, p: int, t: Seq<char>)
    requires
        0 <= p <= s.len(),
        !s.contains(t),
    ensures
        tags_without(s.insert(p, t), t) == s,
    decreases s.len(),
{
    if p == s.len() {
        assert(s.insert(p, t) =~= s.push(t));
        assert(s.push(t).drop_last() =~= s);
        lemma_without_absent(s, t);
    } else {
        let d = s.drop_last();
        assert(!d.contains(t)) by {
            if d.contains(t) {
                let j = choose|j: int| 0 <= j < d.len() && d[j] == t;
                assert(s[j] == t);
            }
        }
        lemma_without_inserted(d, p, t);
        let si = s.insert(p, t);
        assert(si.drop_last() =~= d.insert(p, t));
        assert(si.last() == s.last());
        assert(s[s.len() - 1] != t) by {
            if s[s.len() - 1] == t {
                assert(s.contains(t));
            }
        }
        assert(d.push(s.last()) =~= s);
    }
}

impl View for TagRegistryStore {
    type V = Seq<Seq<char>>;

    closed spec fn view(&self) -> Seq<Seq<char>> {
        views(self.known_tags@)
    }
}

/// A copy of a list of strings.
pub fn clone_strings(v: &Vec<String>) -> (r: Vec<String>)
    ensures
        views(r@) == views(v@),
{
    let mut r: Vec<String> = Vec::new();
    let mut i: usize = 0;
    while i < v.len()
        invariant
            i <= v@.len(),
            views(r@) =~= views(v@.take(i as int)),
        decreases v.len() - i,
    {
        let ghost before = r@;
        r.push(v[i].clone());
        proof {
            assert(v@.take(i + 1) =~= v@.take(i as int).push(v@[i as int]));
            lemma_views_push(before, v@[i as int]);
            lemma_views_push(v@.take(i as int), v@[i as int]);
        }
        i += 1;
    }
    assert(v@.take(v@.len() as int) =~= v@);
    r
}

impl TagRegistryStore {
    /// An empty registry (what a missing or empty `tags.json` holds).
    pub fn new() -> (r: Self)
        ensures
            r@ == Seq::<Seq<char>>::empty(),
    {
        let r = TagRegistryStore { known_tags: Vec::new() };
        assert(r@ =~= Seq::<Seq<char>>::empty());
        r
    }

    /// A registry holding the tags read from `tags.json`, in file order.
    pub fn from_tags(known_tags: Vec<String>) -> (r: Self)
        ensures
            r@ == views(known_tags@),
    {
        TagRegistryStore { known_tags }
    }

    /// The known tags, in stored order.
    pub fn list(&self) -> (r: Vec<String>)
        ensures
            views(r@) == self@,
    {
        clone_strings(&self.known_tags)
    }

    /// Adds the normalized tag unless it is empty or already known, then
    /// keeps the list sorted. Returns whether the registry changed (and so
    /// must be saved).
    pub fn ensure_tag(&mut self, tag: &str) -> (changed: bool)
        ensures
            normalized_tag(tag@).len() == 0 ==> !changed && final(self)@ == old(self)@,
            normalized_tag(tag@).len() > 0 && old(self)@.contains(normalized_tag(tag@)) ==> !changed
                && final(self)@ == old(self)@,
            normalized_tag(tag@).len() > 0 && !old(self)@.contains(normalized_tag(tag@)) ==> changed
                && sorted_le(final(self)@) && final(self)@.to_multiset() == old(
                self,
            )@.to_multiset().insert(normalized_tag(tag@)),
            normalized_tag(tag@).len() > 0 && !old(self)@.contains(normalized_tag(tag@)) && sorted_le(
                old(self)@,
            ) ==> exists|p: int|
                0 <= p <= old(self)@.len() && final(self)@ == old(self)@.insert(p, normalized_tag(tag@)),
    {
        let trimmed = trim(tag);
        let normalized = to_lowercase(trimmed.as_str());
        if normalized.as_str().is_empty() {
            return false;
        }
        let mut i: usize = 0;
        while i < self.known_tags.len()
            invariant
                i <= self.known_tags@.len(),
                normalized@ == normalized_tag(tag@),
                forall|k: int| 0 <= k < i ==> views(self.known_tags@)[k] != normalized@,
            decreases self.known_tags.len() - i,
        {
            if crate::text::str_eq(self.known_tags[i].as_str(), normalized.as_str()) {
                assert(views(self.known_tags@)[i as int] == normalized@);
                return false;
            }
            i += 1;
        }
        let mut all = clone_strings(&self.known_tags);
        let ghost before = all@;
        all.push(normalized);
        proof {
            lemma_views_push(before, normalized);
            views(before).to_multiset_ensures();
        }
        self.known_tags = sort_strings(all);
        proof {
            let n = normalized_tag(tag@);
            let o = views(before);
            let f = self@;
            if sorted_le(o) {
                f.to_multiset_ensures();
                o.to_multiset_ensures();
                assert(f.to_multiset().count(n) > 0);
                assert(f.contains(n));
                let q = choose|q: int| 0 <= q < f.len() && f[q] == n;
                lemma_sorted_remove(f, q);
                assert(f.remove(q).to_multiset() =~= o.to_multiset());
                lemma_sorted_unique(f.remove(q), o);
                assert(f =~= o.insert(q, n));
            }
        }
        true
    }

    /// Removes every entry equal to `tag` (compared as given). Returns whether
    /// any was removed.
    pub fn remove_tag(&mut self, tag: &str) -> (changed: bool)
        ensures
            final(self)@ == tags_without(old(self)@, tag@),
            changed == (final(self)@.len() != old(self)@.len()),
    {
        let ghost old_v = views(self.known_tags@);
        let mut kept: Vec<String> = Vec::new();
        let mut i: usize = 0;
        assert(old_v.take(0) =~= Seq::<Seq<char>>::empty());
        assert(views(kept@) =~= Seq::<Seq<char>>::empty());
        while i < self.known_tags.len()
            invariant
                i <= self.known_tags@.len(),
                old_v == views(self.known_tags@),
                views(kept@) == tags_without(old_v.take(i as int), tag@),
            decreases self.known_tags.len() - i,
        {
            let ghost before = kept@;
            let equal = crate::text::str_eq(self.known_tags[i].as_str(), tag);
            proof {
                assert(old_v[i as int] == self.known_tags@[i as int]@);
                assert(old_v.take(i + 1).drop_last() =~= old_v.take(i as int));
                assert(old_v.take(i + 1).last() == old_v[i as int]);
            }
            if !equal {
                kept.push(self.known_tags[i].clone());
                proof {
                    lemma_views_push(before, self.known_tags@[i as int]);
                }
            }
            i += 1;
        }
        assert(old_v.take(old_v.len() as int) =~= old_v);
        let changed = kept.len() != self.known_tags.len();
        self.known_tags = kept;
        changed
    }

    /// The tags, for writing back to `tags.json`.
    pub fn into_tags(self) -> (r: Vec<String>)
        ensures
            views(r@) == self@,
    {
        self.known_tags
    }
}


/// Adding a new tag and then removing it gives the registry back: where the
/// tag was not known, the list with the tag put in any place, less every
/// entry equal to it, is the list before.
pub proof fn law_ensure_then_remove(known: Seq<Seq<char>>, tag: Seq<char>)
    requires
        !known.contains(tag),
    ensures
        forall|p: int| 0 <= p <= known.len() ==> tags_without(#[trigger] known.insert(p, tag), tag) == known,
{
    assert forall|p: int| 0 <= p <= known.len() implies tags_without(#[trigger] known.insert(p, tag), tag)
        == known by {
        lemma_without_inserted(known, p, tag);
    }
}

} // verus!
