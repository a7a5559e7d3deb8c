//! The clip library: every known clip, keyed by id, as `clips.json` holds it.
//!
//! The store is a list of entries with pairwise distinct keys; each entry
//! pairs the key a clip was filed under with the clip record. Reading and
//! writing `clips.json` is the caller's part: `list` gives the records in the
//! order the file keeps them (newest first) and `from_clips` rebuilds the
//! store from what the file held.
use vstd::prelude::*;

use crate::clip::{Clip, opt_seq};
use crate::sorted::views;
use crate::text::{lemma_seq_lt_asymmetric, lemma_seq_lt_total, lemma_seq_lt_transitive, seq_lt, str_eq, str_lt};

verus! {

/// One filed clip: the key it is found under, and the record.
pub struct StoreEntry {
    pub key: String,
    pub clip: Clip,
}

/// No two entries share a key.
pub open spec fn keys_unique(es: Seq<StoreEntry>) -> bool {
    forall|i: int, j: int|
        #![trigger es[i], es[j]]
        0 <= i < es.len() && 0 <= j < es.len() && i != j ==> es[i].key@ != es[j].key@
}

/// Where `key` is filed, or -1.
pub open spec fn key_index(es: Seq<StoreEntry>, key: Seq<char>) -> int
    decreases es.len(),
{
    if es.len() == 0 {
        -1
    } else if es.last().key@ == key {
        es.len() - 1
    } else {
        key_index(es.drop_last(), key)
    }
}

/// The clip filed under `key`.
pub open spec fn lookup(es: Seq<StoreEntry>, key: Seq<char>) -> Option<Clip> {
    let i = key_index(es, key);
    if i >= 0 {
        Some(es[i].clip)
    } else {
        None
    }
}

/// The entries after filing `clip` under its id: an entry with that key
/// gets the new record, otherwise a new entry is added at the end.
pub open spec fn upserted(es: Seq<StoreEntry>, clip: Clip) -> Seq<StoreEntry> {
    let i = key_index(es, clip.id@);
    if i >= 0 {
        es.update(i, StoreEntry { key: es[i].key, clip })
    } else {
        es.push(StoreEntry { key: clip.id, clip })
    }
}

/// The entries after dropping the one filed under `key`, if any.
pub open spec fn removed(es: Seq<StoreEntry>, key: Seq<char>) -> Seq<StoreEntry> {
    let i = key_index(es, key);
    if i >= 0 {
        es.remove(i)
    } else {
        es
    }
}

/// The entries after dropping each key of `keys` in turn.
pub open spec fn removed_all(es: Seq<StoreEntry>, keys: Seq<Seq<char>>) -> Seq<StoreEntry>
    decreases keys.len(),
{
    if keys.len() == 0 {
        es
    } else {
        removed(removed_all(es, keys.drop_last()), keys.last())
    }
}

/// The records that dropping each key of `keys` in turn takes out, in order.
pub open spec fn taken_out(es: Seq<StoreEntry>, keys: Seq<Seq<char>>) -> Seq<Clip>
    decreases keys.len(),
{
    if keys.len() == 0 {
        Seq::empty()
    } else {
        let before = removed_all(es, keys.drop_last());
        match lookup(before, keys.last()) {
            Some(c) => taken_out(es, keys.drop_last()).push(c),
            None => taken_out(es, keys.drop_last()),
        }
    }
}

/// The store rebuilt from a list of records: each filed under its id, a
/// later record replacing an earlier one with the same id.
pub open spec fn loaded(clips: Seq<Clip>) -> Seq<StoreEntry>
    decreases clips.len(),
{
    if clips.len() == 0 {
        Seq::empty()
    } else {
        upserted(loaded(clips.drop_last()), clips.last())
    }
}

/// The last record of the list with the given id.
pub open spec fn last_with_id(clips: Seq<Clip>, id: Seq<char>) -> Option<Clip>
    decreases clips.len(),
{
    if clips.len() == 0 {
        None
    } else if clips.last().id@ == id {
        Some(clips.last())
    } else {
        last_with_id(clips.drop_last(), id)
    }
}

/// Where the first record with the given file path is, or -1.
pub open spec fn path_index(es: Seq<StoreEntry>, path: Seq<char>) -> int
    decreases es.len(),
{
    if es.len() == 0 {
        -1
    } else if path_index(es.drop_last(), path) >= 0 {
        path_index(es.drop_last(), path)
    } else if es.last().clip.file_path@ == path {
        es.len() - 1
    } else {
        -1
    }
}

/// The thumbnail paths of the records, in store order.
pub open spec fn thumbnails(es: Seq<StoreEntry>) -> Seq<String>
    decreases es.len(),
{
    if es.len() == 0 {
        Seq::empty()
    } else {
        match es.last().clip.thumbnail_path {
            Some(t) => thumbnails(es.drop_last()).push(t),
            None => thumbnails(es.drop_last()),
        }
    }
}

/// Newest first: no record's creation time is earlier than a later one's.
pub open spec fn newest_first(cs: Seq<Clip>) -> bool {
    forall|a: int, b: int|
        #![trigger cs[a], cs[b]]
        0 <= a < b < cs.len() ==> !seq_lt(cs[a].created_at@, cs[b].created_at@)
}

/// `cs` holds the records of `es`, each once, in some order.
pub open spec fn is_arrangement_of(cs: Seq<Clip>, es: Seq<StoreEntry>) -> bool {
    &&& cs.len() == es.len()
    &&& exists|src: Seq<int>|
        {
            &&& src.len() == cs.len()
            &&& forall|k: int|
                #![trigger src[k]]
                0 <= k < cs.len() ==> 0 <= src[k] < es.len() && cs[k].same_as(es[src[k]].clip)
            &&& forall|a: int, b: int|
                #![trigger src[a], src[b]]
                0 <= a < src.len() && 0 <= b < src.len() && a != b ==> src[a] != src[b]
        }
}

pub proof fn lemma_key_index(es: Seq<StoreEntry>, key: Seq<char>)
    ensures
        -1 <= key_index(es, key) < es.len(),
        key_index(es, key) >= 0 ==> es[key_index(es, key)].key@ == key,
        key_index(es, key) == -1 ==> forall|j: int| 0 <= j < es.len() ==> es[j].key@ != key,
    decreases es.len(),
{
    if es.len() > 0 {
        lemma_key_index(es.drop_last(), key);
        if es.last().key@ != key {
            assert forall|j: int| 0 <= j < es.len() && key_index(es, key) == -1 implies es[j].key@
                != key by {
                if j < es.len() - 1 {
                    assert(es.drop_last()[j] == es[j]);
                }
            }
        }
    }
}

pub proof fn lemma_key_index_at(es: Seq<StoreEntry>, key: Seq<char>, j: int)
    requires
        keys_unique(es),
        0 <= j < es.len(),
        es[j].key@ == key,
    ensures
        key_index(es, key) == j,
{
    lemma_key_index(es, key);
    let i = key_index(es, key);
    if i != j {
        assert(es[i].key@ != es[j].key@);
    }
}

/// Filing a record keeps the keys distinct.
pub proof fn lemma_upserted_unique(es: Seq<StoreEntry>, clip: Clip)
    requires
        keys_unique(es),
    ensures
        keys_unique(upserted(es, clip)),
        upserted(es, clip).len() == if key_index(es, clip.id@) >= 0 {
            es.len()
        } else {
            es.len() + 1
        },
{
    lemma_key_index(es, clip.id@);
    let r = upserted(es, clip);
    let i = key_index(es, clip.id@);
    assert forall|a: int, b: int|
        0 <= a < r.len() && 0 <= b < r.len() && a != b implies #[trigger] r[a].key@ != #[trigger] r[
        b].key@ by {
        if i >= 0 {
            assert(r[a].key == es[a].key);
            assert(r[b].key == es[b].key);
            assert(es[a].key@ != es[b].key@);
        } else {
            if a < es.len() && b < es.len() {
                assert(es[a].key@ != es[b].key@);
            } else if a == es.len() {
                assert(r[b] == es[b]);
            } else {
                assert(r[a] == es[a]);
            }
        }
    }
}

/// Dropping a key keeps the keys distinct.
pub proof fn lemma_removed_unique(es: Seq<StoreEntry>, key: Seq<char>)
    requires
        keys_unique(es),
    ensures
        keys_unique(removed(es, key)),
{
    lemma_key_index(es, key);
    let r = removed(es, key);
    let i = key_index(es, key);
    if i >= 0 {
        assert forall|a: int, b: int|
            0 <= a < r.len() && 0 <= b < r.len() && a != b implies #[trigger] r[a].key@
            != #[trigger] r[b].key@ by {
            let a0 = if a < i {
                a
            } else {
                a + 1
            };
            let b0 = if b < i {
                b
            } else {
                b + 1
            };
            assert(r[a] == es[a0]);
            assert(r[b] == es[b0]);
            assert(es[a0].key@ != es[b0].key@);
        }
    }
}

pub proof fn lemma_removed_all_unique(es: Seq<StoreEntry>, keys: Seq<Seq<char>>)
    requires
        keys_unique(es),
    ensures
        keys_unique(removed_all(es, keys)),
    decreases keys.len(),
{
    if keys.len() > 0 {
        lemma_removed_all_unique(es, keys.drop_last());
        lemma_removed_unique(removed_all(es, keys.drop_last()), keys.last());
    }
}

pub proof fn lemma_loaded_unique(clips: Seq<Clip>)
    ensures
        keys_unique(loaded(clips)),
    decreases clips.len(),
{
    if clips.len() > 0 {
        lemma_loaded_unique(clips.drop_last());
        lemma_upserted_unique(loaded(clips.drop_last()), clips.last());
    }
}

/// Read after write: the record just filed is what its id finds, and every
/// other id finds what it found before.
pub proof fn law_lookup_after_upsert(es: Seq<StoreEntry>, clip: Clip, key: Seq<char>)
    requires
        keys_unique(es),
    ensures
        lookup(upserted(es, clip), clip.id@) == Some(clip),
        key != clip.id@ ==> lookup(upserted(es, clip), key) == lookup(es, key),
{
    lemma_key_index(es, clip.id@);
    lemma_key_index(es, key);
    lemma_upserted_unique(es, clip);
    let r = upserted(es, clip);
    let i = key_index(es, clip.id@);
    if i >= 0 {
        lemma_key_index_at(r, clip.id@, i);
        if key != clip.id@ {
            let k = key_index(es, key);
            if k >= 0 {
                lemma_key_index_at(r, key, k);
            } else {
                lemma_key_index(r, key);
                if key_index(r, key) >= 0 {
                    assert(r[key_index(r, key)].key == es[key_index(r, key)].key);
                }
            }
        }
    } else {
        lemma_key_index_at(r, clip.id@, es.len() as int);
        if key != clip.id@ {
            assert(r.drop_last() =~= es);
        }
    }
}

/// After a key is dropped it finds nothing, and every other key finds what
/// it found before.
pub proof fn law_lookup_after_remove(es: Seq<StoreEntry>, key: Seq<char>, other: Seq<char>)
    requires
        keys_unique(es),
    ensures
        lookup(removed(es, key), key) is None,
        other != key ==> lookup(removed(es, key), other) == lookup(es, other),
{
    lemma_key_index(es, key);
    lemma_key_index(es, other);
    lemma_removed_unique(es, key);
    let r = removed(es, key);
    let i = key_index(es, key);
    if i >= 0 {
        lemma_key_index(r, key);
        if key_index(r, key) >= 0 {
            let j = key_index(r, key);
            let j0 = if j < i {
                j
            } else {
                j + 1
            };
            assert(r[j] == es[j0]);
            assert(es[j0].key@ != es[i].key@);
        }
        if other != key {
            let k = key_index(es, other);
            lemma_key_index(r, other);
            if k >= 0 {
                let k1 = if k < i {
                    k
                } else {
                    k - 1
                };
                assert(r[k1] == es[k]);
                lemma_key_index_at(r, other, k1);
            } else if key_index(r, other) >= 0 {
                let j = key_index(r, other);
                let j0 = if j < i {
                    j
                } else {
                    j + 1
                };
                assert(r[j] == es[j0]);
            }
        }
    }
}

/// Dropping a list of keys leaves none of them in the store.
pub proof fn law_removed_all_gone(es: Seq<StoreEntry>, keys: Seq<Seq<char>>, k: int)
    requires
        keys_unique(es),
        0 <= k < keys.len(),
    ensures
        lookup(removed_all(es, keys), keys[k]) is None,
    decreases keys.len(),
{
    lemma_removed_all_unique(es, keys.drop_last());
    let before = removed_all(es, keys.drop_last());
    law_lookup_after_remove(before, keys.last(), keys[k]);
    if k < keys.len() - 1 {
        law_removed_all_gone(es, keys.drop_last(), k);
        assert(keys.drop_last()[k] == keys[k]);
    }
}

/// A store rebuilt from a list finds, for each id, the last record of the
/// list with that id.
pub proof fn law_loaded_lookup(clips: Seq<Clip>, id: Seq<char>)
    ensures
        lookup(loaded(clips), id) == last_with_id(clips, id),
    decreases clips.len(),
{
    if clips.len() > 0 {
        law_loaded_lookup(clips.drop_last(), id);
        lemma_loaded_unique(clips.drop_last());
        law_lookup_after_upsert(loaded(clips.drop_last()), clips.last(), id);
    }
}

pub proof fn lemma_path_index_take(es: Seq<StoreEntry>, path: Seq<char>, j: int)
    requires
        0 <= j <= es.len(),
        path_index(es.take(j), path) >= 0,
    ensures
        path_index(es, path) == path_index(es.take(j), path),
    decreases es.len() - j,
{
    if j < es.len() {
        assert(es.take(j + 1).drop_last() =~= es.take(j));
        lemma_path_index_take(es, path, j + 1);
    } else {
        assert(es.take(j) =~= es);
    }
}

/// The tags with every copy of `tag` left out.
pub open spec fn without_tag(tags: Seq<String>, tag: Seq<char>) -> Seq<String>
    decreases tags.len(),
{
    if tags.len() == 0 {
        Seq::empty()
    } else if tags.last()@ == tag {
        without_tag(tags.drop_last(), tag)
    } else {
        without_tag(tags.drop_last(), tag).push(tags.last())
    }
}

/// The positions of the entries whose record carries `tag`.
pub open spec fn tagged_positions(es: Seq<StoreEntry>, tag: Seq<char>) -> Seq<int>
    decreases es.len(),
{
    if es.len() == 0 {
        Seq::empty()
    } else if views(es.last().clip.tags@).contains(tag) {
        tagged_positions(es.drop_last(), tag).push(es.len() - 1)
    } else {
        tagged_positions(es.drop_last(), tag)
    }
}

pub proof fn lemma_without_tag_len(tags: Seq<String>, tag: Seq<char>)
    ensures
        without_tag(tags, tag).len() <= tags.len(),
        without_tag(tags, tag).len() == tags.len() <==> !views(tags).contains(tag),
    decreases tags.len(),
{
    if tags.len() > 0 {
        lemma_without_tag_len(tags.drop_last(), tag);
        assert(views(tags.drop_last()) =~= views(tags).drop_last());
        if views(tags).contains(tag) {
            let j = choose|j: int| 0 <= j < views(tags).len() && views(tags)[j] == tag;
            if j < tags.len() - 1 {
                assert(views(tags.drop_last())[j] == tag);
            }
        }
        if views(tags.drop_last()).contains(tag) {
            let j = choose|j: int|
                0 <= j < views(tags.drop_last()).len() && views(tags.drop_last())[j] == tag;
            assert(views(tags)[j] == tag);
        }
        if tags.last()@ == tag {
            assert(views(tags)[tags.len() - 1] == tag);
        }
    }
}

/// One step of an edit: the record filed under `key`, if any, is replaced
/// by what `f` made of it, under the same key.
pub open spec fn edit_step<F: Fn(Clip) -> Clip>(
    f: F,
    before: Seq<StoreEntry>,
    key: Seq<char>,
    after: Seq<StoreEntry>,
) -> bool {
    let i = key_index(before, key);
    if i >= 0 {
        &&& after.len() == before.len()
        &&& after == before.update(i, StoreEntry { key: before[i].key, clip: after[i].clip })
        &&& call_ensures(f, (before[i].clip,), after[i].clip)
    } else {
        after == before
    }
}

/// `states` are the store before and after each edit of `keys`, in turn.
pub open spec fn edit_chain<F: Fn(Clip) -> Clip>(
    f: F,
    states: Seq<Seq<StoreEntry>>,
    keys: Seq<Seq<char>>,
) -> bool {
    &&& states.len() == keys.len() + 1
    &&& forall|t: int|
        0 <= t < keys.len() ==> edit_step(f, #[trigger] states[t], keys[t], states[t + 1])
}

/// The edited records of the first `n` edits, in order.
pub open spec fn edit_outputs(states: Seq<Seq<StoreEntry>>, keys: Seq<Seq<char>>, n: nat) -> Seq<
    Clip,
>
    decreases n,
{
    if n == 0 {
        Seq::empty()
    } else {
        let t = n - 1;
        let i = key_index(states[t], keys[t]);
        if i >= 0 {
            edit_outputs(states, keys, t as nat).push(states[n as int][i].clip)
        } else {
            edit_outputs(states, keys, t as nat)
        }
    }
}

pub proof fn lemma_edit_outputs_extend(
    s1: Seq<Seq<StoreEntry>>,
    k1: Seq<Seq<char>>,
    s2: Seq<Seq<StoreEntry>>,
    k2: Seq<Seq<char>>,
    n: nat,
)
    requires
        n < s1.len(),
        n <= k1.len(),
        s1.len() <= s2.len(),
        k1.len() <= k2.len(),
        forall|t: int| 0 <= t < s1.len() ==> #[trigger] s2[t] == s1[t],
        forall|t: int| 0 <= t < k1.len() ==> #[trigger] k2[t] == k1[t],
    ensures
        edit_outputs(s2, k2, n) == edit_outputs(s1, k1, n),
    decreases n,
{
    if n > 0 {
        lemma_edit_outputs_extend(s1, k1, s2, k2, (n - 1) as nat);
    }
}

/// The store after the record filed under `key`, if any, was replaced by a
/// record that stands in `rel` to it, under the same key.
pub open spec fn edited(
    before: Seq<StoreEntry>,
    key: Seq<char>,
    after: Seq<StoreEntry>,
    rel: spec_fn(Clip, Clip) -> bool,
) -> bool {
    let i = key_index(before, key);
    if i >= 0 {
        &&& after.len() == before.len()
        &&& after == before.update(i, StoreEntry { key: before[i].key, clip: after[i].clip })
        &&& rel(before[i].clip, after[i].clip)
    } else {
        after == before
    }
}

/// An edit by a function whose every result stands in `rel` to its argument
/// is an edit by `rel`.
pub proof fn lemma_edit_by<F: Fn(Clip) -> Clip>(
    f: F,
    before: Seq<StoreEntry>,
    key: Seq<char>,
    after: Seq<StoreEntry>,
    rel: spec_fn(Clip, Clip) -> bool,
)
    requires
        edit_step(f, before, key, after),
        forall|c: Clip, r: Clip| call_ensures(f, (c,), r) ==> #[trigger] rel(c, r),
    ensures
        edited(before, key, after, rel),
{
}

/// `after` comes from `before` by editing the record under each of `keys`
/// in turn by `rel`, and `outs` are the edited records, in order.
pub open spec fn edits_each(
    before: Seq<StoreEntry>,
    after: Seq<StoreEntry>,
    keys: Seq<Seq<char>>,
    rel: spec_fn(Clip, Clip) -> bool,
    outs: Seq<Clip>,
) -> bool {
    exists|states: Seq<Seq<StoreEntry>>|
        {
            &&& states.len() == keys.len() + 1
            &&& states[0] == before
            &&& states.last() == after
            &&& forall|t: int|
                0 <= t < keys.len() ==> edited(#[trigger] states[t], keys[t], states[t + 1], rel)
            &&& outs.len() == edit_outputs(states, keys, keys.len()).len()
            &&& forall|k: int|
                0 <= k < outs.len() ==> #[trigger] outs[k].same_as(
                    edit_outputs(states, keys, keys.len())[k],
                )
        }
}

/// A chain of edits by a function whose every result stands in `rel` to its
/// argument is a chain of edits by `rel`.
pub proof fn lemma_edits_each<F: Fn(Clip) -> Clip>(
    f: F,
    before: Seq<StoreEntry>,
    after: Seq<StoreEntry>,
    keys: Seq<Seq<char>>,
    rel: spec_fn(Clip, Clip) -> bool,
    outs: Seq<Clip>,
)
    requires
        exists|states: Seq<Seq<StoreEntry>>|
            {
                &&& edit_chain(f, states, keys)
                &&& states[0] == before
                &&& states.last() == after
                &&& outs.len() == edit_outputs(states, keys, keys.len()).len()
                &&& forall|k: int|
                    0 <= k < outs.len() ==> #[trigger] outs[k].same_as(
                        edit_outputs(states, keys, keys.len())[k],
                    )
            },
        forall|c: Clip, r: Clip| call_ensures(f, (c,), r) ==> #[trigger] rel(c, r),
    ensures
        edits_each(before, after, keys, rel, outs),
{
    let states = choose|states: Seq<Seq<StoreEntry>>|
        {
            &&& edit_chain(f, states, keys)
            &&& states[0] == before
            &&& states.last() == after
            &&& outs.len() == edit_outputs(states, keys, keys.len()).len()
            &&& forall|k: int|
                0 <= k < outs.len() ==> #[trigger] outs[k].same_as(
                    edit_outputs(states, keys, keys.len())[k],
                )
        };
    assert forall|t: int| 0 <= t < keys.len() implies edited(
        #[trigger] states[t],
        keys[t],
        states[t + 1],
        rel,
    ) by {
        lemma_edit_by(f, states[t], keys[t], states[t + 1], rel);
    }
}

/// The library of clips, keyed by id.
pub struct ClipStore {
    entries: Vec<StoreEntry>,
}

impl ClipStore {
    /// The entries, in store order.
    pub closed spec fn entries(self) -> Seq<StoreEntry> {
        self.entries@
    }

    /// Keys are distinct.
    pub open spec fn wf(self) -> bool {
        keys_unique(self.entries())
    }

    /// The record filed under `id`.
    pub open spec fn lookup(self, id: Seq<char>) -> Option<Clip> {
        lookup(self.entries(), id)
    }

    /// An empty library.
    pub fn new() -> (r: Self)
        ensures
            r.wf(),
            r.entries().len() == 0,
    {
        ClipStore { entries: Vec::new() }
    }

    fn find_key(&self, key: &str) -> (r: Option<usize>)
        requires
            self.wf(),
        ensures
            match r {
                Some(i) => i as int == key_index(self.entries(), key@) && i < self.entries().len(),
                None => key_index(self.entries(), key@) == -1,
            },
    {
        let mut i: usize = 0;
        while i < self.entries.len()
            invariant
                self.wf(),
                i <= self.entries@.len(),
                forall|j: int| 0 <= j < i ==> self.entries@[j].key@ != key@,
            decreases self.entries.len() - i,
        {
            if str_eq(self.entries[i].key.as_str(), key) {
                proof {
                    lemma_key_index_at(self.entries@, key@, i as int);
                }
                return Some(i);
            }
            i += 1;
        }
        proof {
            lemma_key_index(self.entries@, key@);
        }
        None
    }

    /// Files `clip` under its id, replacing what was filed there; gives back
    /// a copy of the record.
    pub fn upsert(&mut self, clip: Clip) -> (r: Clip)
        requires
            old(self).wf(),
        ensures
            final(self).wf(),
            final(self).entries() == upserted(old(self).entries(), clip),
            r.same_as(clip),
    {
        proof {
            lemma_key_index(self.entries@, clip.id@);
            lemma_upserted_unique(self.entries@, clip);
        }
        let r = clip.copy();
        match self.find_key(clip.id.as_str()) {
            Some(i) => {
                let old_entry = self.entries.remove(i);
                let entry = StoreEntry { key: old_entry.key, clip };
                self.entries.insert(i, entry);
                assert(self.entries@ =~= upserted(old(self).entries(), clip));
            },
            None => {
                let key = clip.id.clone();
                self.entries.push(StoreEntry { key, clip });
            },
        }
        r
    }

    /// The store rebuilt from the records `clips.json` held.
    pub fn from_clips(clips: Vec<Clip>) -> (r: Self)
        ensures
            r.wf(),
            r.entries() == loaded(clips@),
    {
        let mut store = ClipStore::new();
        let mut rest = clips;
        let ghost all = rest@;
        assert(all.len() == rest.len());
        // Records come off the back of a vector, so turn the list round first.
        let mut pending: Vec<Clip> = Vec::new();
        while rest.len() > 0
            invariant
                rest@ + pending@.reverse() =~= all,
                all.len() <= usize::MAX,
            decreases rest.len(),
        {
            let ghost before = pending@;
            let c = rest.pop().unwrap();
            pending.push(c);
            assert(pending@.reverse() =~= seq![c] + before.reverse());
        }
        let mut k: usize = 0;
        while pending.len() > 0
            invariant
                store.wf(),
                all.len() <= usize::MAX,
                k + pending@.len() == all.len(),
                pending@.reverse() =~= all.skip(k as int),
                store.entries() == loaded(all.take(k as int)),
            decreases pending.len(),
        {
            let ghost before = pending@;
            let c = pending.pop().unwrap();
            proof {
                assert(before.reverse()[0] == c);
                assert(all.skip(k as int)[0] == all[k as int]);
                assert(pending@ =~= before.drop_last());
                assert(before.drop_last().reverse() =~= before.reverse().drop_first());
                assert(all.skip(k as int).drop_first() =~= all.skip(k + 1));
                assert(all.take(k + 1).drop_last() =~= all.take(k as int));
            }
            let _ = store.upsert(c);
            k += 1;
        }
        assert(all.take(k as int) =~= all);
        store
    }
    /// A copy of the record filed under `id`.
    pub fn get(&self, id: &str) -> (r: Option<Clip>)
        requires
            self.wf(),
        ensures
            match (r, self.lookup(id@)) {
                (Some(a), Some(b)) => a.same_as(b),
                (None, None) => true,
                _ => false,
            },
    {
        match self.find_key(id) {
            Some(i) => Some(self.entries[i].clip.copy()),
            None => None,
        }
    }

    /// A copy of the first record (in store order) for the given file.
    pub fn by_file_path(&self, file_path: &str) -> (r: Option<Clip>)
        ensures
            match r {
                Some(c) => {
                    let i = path_index(self.entries(), file_path@);
                    0 <= i < self.entries().len() && c.same_as(self.entries()[i].clip)
                },
                None => path_index(self.entries(), file_path@) == -1,
            },
    {
        let mut i: usize = 0;
        while i < self.entries.len()
            invariant
                i <= self.entries@.len(),
                path_index(self.entries@.take(i as int), file_path@) == -1,
            decreases self.entries.len() - i,
        {
            proof {
                assert(self.entries@.take(i + 1).drop_last() =~= self.entries@.take(i as int));
            }
            if str_eq(self.entries[i].clip.file_path.as_str(), file_path) {
                proof {
                    lemma_path_index_take(self.entries@, file_path@, i + 1);
                }
                return Some(self.entries[i].clip.copy());
            }
            i += 1;
        }
        assert(self.entries@.take(i as int) =~= self.entries@);
        None
    }

    /// Drops the record filed under `id` and gives it back (its files are
    /// the caller's to delete).
    pub fn remove(&mut self, id: &str) -> (r: Option<Clip>)
        requires
            old(self).wf(),
        ensures
            final(self).wf(),
            final(self).entries() == removed(old(self).entries(), id@),
            r == lookup(old(self).entries(), id@),
    {
        proof {
            lemma_removed_unique(self.entries@, id@);
        }
        match self.find_key(id) {
            Some(i) => {
                let e = self.entries.remove(i);
                Some(e.clip)
            },
            None => None,
        }
    }

    /// Drops the records filed under each of `ids` in turn and gives back
    /// those it found, in that order.
    pub fn remove_many(&mut self, ids: &[String]) -> (r: Vec<Clip>)
        requires
            old(self).wf(),
        ensures
            final(self).wf(),
            final(self).entries() == removed_all(old(self).entries(), views(ids@)),
            r@ == taken_out(old(self).entries(), views(ids@)),
    {
        let ghost start = self.entries@;
        let mut out: Vec<Clip> = Vec::new();
        let mut i: usize = 0;
        while i < ids.len()
            invariant
                i <= ids@.len(),
                keys_unique(start),
                self.wf(),
                self.entries() == removed_all(start, views(ids@.take(i as int))),
                out@ == taken_out(start, views(ids@.take(i as int))),
            decreases ids.len() - i,
        {
            proof {
                let ks = views(ids@.take(i + 1));
                assert(ks.drop_last() =~= views(ids@.take(i as int)));
                assert(ks.last() == ids@[i as int]@);
            }
            match self.remove(ids[i].as_str()) {
                Some(c) => {
                    out.push(c);
                },
                None => {},
            }
            i += 1;
        }
        assert(ids@.take(i as int) =~= ids@);
        out
    }

    /// Drops the records whose files are gone (the caller has checked which)
    /// and gives them back so that their thumbnails can go too.
    pub fn remove_missing_files(&mut self, missing_ids: &[String]) -> (r: Vec<Clip>)
        requires
            old(self).wf(),
        ensures
            final(self).wf(),
            final(self).entries() == removed_all(old(self).entries(), views(missing_ids@)),
            r@ == taken_out(old(self).entries(), views(missing_ids@)),
    {
        self.remove_many(missing_ids)
    }

    /// The thumbnail paths of all records, in store order.
    pub fn thumbnail_paths(&self) -> (r: Vec<String>)
        ensures
            r@ == thumbnails(self.entries()),
    {
        let mut out: Vec<String> = Vec::new();
        let mut i: usize = 0;
        while i < self.entries.len()
            invariant
                i <= self.entries@.len(),
                out@ == thumbnails(self.entries@.take(i as int)),
            decreases self.entries.len() - i,
        {
            proof {
                assert(self.entries@.take(i + 1).drop_last() =~= self.entries@.take(i as int));
            }
            match &self.entries[i].clip.thumbnail_path {
                Some(t) => {
                    out.push(t.clone());
                },
                None => {},
            }
            i += 1;
        }
        assert(self.entries@.take(i as int) =~= self.entries@);
        out
    }

    /// Copies of all records, newest first (the order `clips.json` keeps).
    pub fn list(&self) -> (r: Vec<Clip>)
        ensures
            newest_first(r@),
            is_arrangement_of(r@, self.entries()),
    {
        let ghost es = self.entries@;
        let mut out: Vec<Clip> = Vec::new();
        let ghost mut src: Seq<int> = Seq::empty();
        let mut i: usize = 0;
        while i < self.entries.len()
            invariant
                es == self.entries@,
                i <= es.len(),
                out@.len() == i,
                src.len() == i,
                forall|k: int|
                    #![trigger src[k]]
                    0 <= k < i ==> 0 <= src[k] < i && out@[k].same_as(es[src[k]].clip),
                forall|a: int, b: int|
                    #![trigger src[a], src[b]]
                    0 <= a < i && 0 <= b < i && a != b ==> src[a] != src[b],
                newest_first(out@),
            decreases self.entries.len() - i,
        {
            let c = self.entries[i].clip.copy();
            let mut p: usize = 0;
            while p < out.len() && !str_lt(out[p].created_at.as_str(), c.created_at.as_str())
                invariant
                    p <= out@.len(),
                    forall|q: int| 0 <= q < p ==> !seq_lt(out@[q].created_at@, c.created_at@),
                decreases out.len() - p,
            {
                p += 1;
            }
            proof {
                assert forall|a: int, b: int|
                    0 <= a < b < out@.len() + 1 implies !seq_lt(
                    #[trigger] out@.insert(p as int, c)[a].created_at@,
                    #[trigger] out@.insert(p as int, c)[b].created_at@,
                ) by {
                    let r = out@.insert(p as int, c);
                    if a < p && b == p {
                    } else if a == p {
                        let x = out@[b - 1].created_at@;
                        let y = out@[p as int].created_at@;
                        assert(seq_lt(y, c.created_at@));
                        if p < b - 1 {
                            assert(!seq_lt(y, x));
                        }
                        lemma_seq_lt_total(x, y);
                        if x != y {
                            lemma_seq_lt_transitive(x, y, c.created_at@);
                        }
                        lemma_seq_lt_asymmetric(x, c.created_at@);
                    } else {
                        let a0 = if a < p {
                            a
                        } else {
                            a - 1
                        };
                        let b0 = if b < p {
                            b
                        } else {
                            b - 1
                        };
                        assert(r[a] == out@[a0]);
                        assert(r[b] == out@[b0]);
                    }
                }
            }
            out.insert(p, c);
            proof {
                let old_src = src;
                src = src.insert(p as int, i as int);
                assert forall|k: int| #![trigger src[k]] 0 <= k < i + 1 implies 0 <= src[k] < i + 1
                    && out@[k].same_as(es[src[k]].clip) by {
                    if k < p {
                        assert(src[k] == old_src[k]);
                    } else if k > p {
                        assert(src[k] == old_src[k - 1]);
                    }
                }
                assert forall|a: int, b: int|
                    #![trigger src[a], src[b]]
                    0 <= a < i + 1 && 0 <= b < i + 1 && a != b implies src[a] != src[b] by {
                    let a0 = if a < p {
                        a
                    } else {
                        a - 1
                    };
                    let b0 = if b < p {
                        b
                    } else {
                        b - 1
                    };
                    if a != p && b != p {
                        assert(src[a] == old_src[a0]);
                        assert(src[b] == old_src[b0]);
                    } else if a == p {
                        assert(src[b] == old_src[b0]);
                    } else {
                        assert(src[a] == old_src[a0]);
                    }
                }
            }
            i += 1;
        }
        assert(is_arrangement_of(out@, es)) by {
            assert(src.len() == out@.len());
        }
        out
    }
    /// Takes `tag` off every record that carries it and gives back copies of
    /// the records that changed, in store order.
    pub fn remove_tag_from_all_clips(&mut self, tag: &str) -> (r: Vec<Clip>)
        requires
            old(self).wf(),
        ensures
            final(self).wf(),
            final(self).entries().len() == old(self).entries().len(),
            forall|i: int|
                0 <= i < old(self).entries().len() ==> {
                    let before = #[trigger] old(self).entries()[i];
                    let after = final(self).entries()[i];
                    &&& after.key == before.key
                    &&& after.clip.same_but_tags(before.clip)
                    &&& after.clip.tags@ == without_tag(before.clip.tags@, tag@)
                },
            r@.len() == tagged_positions(old(self).entries(), tag@).len(),
            forall|k: int|
                0 <= k < r@.len() ==> #[trigger] r@[k].same_as(
                    final(self).entries()[tagged_positions(old(self).entries(), tag@)[k]].clip,
                ),
    {
        let ghost start = self.entries@;
        let mut out: Vec<Clip> = Vec::new();
        let mut i: usize = 0;
        while i < self.entries.len()
            invariant
                i <= self.entries@.len(),
                self.entries@.len() == start.len(),
                keys_unique(start),
                forall|j: int|
                    i <= j < start.len() ==> #[trigger] self.entries@[j] == start[j],
                forall|j: int|
                    0 <= j < i ==> {
                        let before = #[trigger] start[j];
                        let after = self.entries@[j];
                        &&& after.key == before.key
                        &&& after.clip.same_but_tags(before.clip)
                        &&& after.clip.tags@ == without_tag(before.clip.tags@, tag@)
                    },
                out@.len() == tagged_positions(start.take(i as int), tag@).len(),
                forall|k: int|
                    0 <= k < out@.len() ==> #[trigger] out@[k].same_as(
                        self.entries@[tagged_positions(start.take(i as int), tag@)[k]].clip,
                    ),
                forall|k: int|
                    0 <= k < out@.len() ==> 0 <= #[trigger] tagged_positions(
                        start.take(i as int),
                        tag@,
                    )[k] < i,
            decreases self.entries.len() - i,
        {
            let e = self.entries.remove(i);
            let mut clip = e.clip;
            let mut kept: Vec<String> = Vec::new();
            let mut t: usize = 0;
            while t < clip.tags.len()
                invariant
                    t <= clip.tags@.len(),
                    kept@ == without_tag(clip.tags@.take(t as int), tag@),
                decreases clip.tags.len() - t,
            {
                proof {
                    assert(clip.tags@.take(t + 1).drop_last() =~= clip.tags@.take(t as int));
                }
                if !str_eq(clip.tags[t].as_str(), tag) {
                    kept.push(clip.tags[t].clone());
                }
                t += 1;
            }
            assert(clip.tags@.take(t as int) =~= clip.tags@);
            proof {
                lemma_without_tag_len(clip.tags@, tag@);
            }
            let changed = kept.len() != clip.tags.len();
            let ghost old_clip = clip;
            clip.tags = kept;
            let copy = if changed {
                Some(clip.copy())
            } else {
                None
            };
            self.entries.insert(i, StoreEntry { key: e.key, clip });
            proof {
                assert(start.take(i + 1).drop_last() =~= start.take(i as int));
                assert(start.take(i + 1).last() == start[i as int]);
            }
            match copy {
                Some(c) => {
                    out.push(c);
                },
                None => {},
            }
            proof {
                let tp = tagged_positions(start.take(i + 1), tag@);
                assert forall|k: int| 0 <= k < out@.len() implies #[trigger] out@[k].same_as(
                    self.entries@[tp[k]].clip,
                ) by {
                    if k < out@.len() - 1 || !changed {
                        assert(tp[k] == tagged_positions(start.take(i as int), tag@)[k]);
                    }
                }
                assert forall|k: int| 0 <= k < out@.len() implies 0 <= #[trigger] tp[k] < i + 1 by {
                    if k < out@.len() - 1 || !changed {
                        assert(tp[k] == tagged_positions(start.take(i as int), tag@)[k]);
                    }
                }
            }
            i += 1;
        }
        proof {
            assert(start.take(i as int) =~= start);
            assert forall|a: int, b: int|
                #![trigger self.entries@[a], self.entries@[b]]
                0 <= a < self.entries@.len() && 0 <= b < self.entries@.len() && a != b
                implies self.entries@[a].key@ != self.entries@[b].key@ by {
                assert(start[a].key@ != start[b].key@);
            }
        }
        out
    }
    /// Replaces the record filed under `id` by what `f` makes of it, keeping
    /// the key, and gives back a copy of the new record.
    pub fn update<F: Fn(Clip) -> Clip>(&mut self, id: &str, f: F) -> (r: Option<Clip>)
        requires
            old(self).wf(),
            forall|c: Clip| f.requires((c,)),
        ensures
            final(self).wf(),
            edit_step(f, old(self).entries(), id@, final(self).entries()),
            match r {
                Some(c) => {
                    let i = key_index(old(self).entries(), id@);
                    i >= 0 && c.same_as(final(self).entries()[i].clip)
                },
                None => key_index(old(self).entries(), id@) == -1,
            },
    {
        match self.find_key(id) {
            Some(i) => {
                let e = self.entries.remove(i);
                let edited = f(e.clip);
                let copy = edited.copy();
                self.entries.insert(i, StoreEntry { key: e.key, clip: edited });
                proof {
                    let es = self.entries@;
                    assert(es =~= old(self).entries().update(
                        i as int,
                        StoreEntry { key: old(self).entries()[i as int].key, clip: es[i as int].clip },
                    ));
                    assert forall|a: int, b: int|
                        #![trigger es[a], es[b]]
                        0 <= a < es.len() && 0 <= b < es.len() && a != b implies es[a].key@
                        != es[b].key@ by {
                        assert(es[a].key == old(self).entries()[a].key);
                        assert(es[b].key == old(self).entries()[b].key);
                    }
                }
                Some(copy)
            },
            None => None,
        }
    }

    /// Applies `f` to the record filed under each of `ids` in turn (twice
    /// where an id comes twice) and gives back copies of the edited records,
    /// in that order.
    pub fn update_many<F: Fn(Clip) -> Clip>(&mut self, ids: &[String], f: F) -> (r: Vec<Clip>)
        requires
            old(self).wf(),
            forall|c: Clip| f.requires((c,)),
        ensures
            final(self).wf(),
            exists|states: Seq<Seq<StoreEntry>>|
                {
                    &&& edit_chain(f, states, views(ids@))
                    &&& states[0] == old(self).entries()
                    &&& states.last() == final(self).entries()
                    &&& r@.len() == edit_outputs(states, views(ids@), ids@.len()).len()
                    &&& forall|k: int|
                        0 <= k < r@.len() ==> #[trigger] r@[k].same_as(
                            edit_outputs(states, views(ids@), ids@.len())[k],
                        )
                },
    {
        let ghost keys = views(ids@);
        let ghost mut states: Seq<Seq<StoreEntry>> = seq![self.entries@];
        let mut out: Vec<Clip> = Vec::new();
        let mut i: usize = 0;
        while i < ids.len()
            invariant
                forall|c: Clip| f.requires((c,)),
                keys == views(ids@),
                i <= ids@.len(),
                self.wf(),
                states.len() == i + 1,
                states[0] == old(self).entries(),
                states.last() == self.entries(),
                forall|t: int|
                    0 <= t < i ==> edit_step(f, #[trigger] states[t], keys[t], states[t + 1]),
                out@.len() == edit_outputs(states, keys, i as nat).len(),
                forall|k: int|
                    0 <= k < out@.len() ==> #[trigger] out@[k].same_as(
                        edit_outputs(states, keys, i as nat)[k],
                    ),
            decreases ids.len() - i,
        {
            let ghost before = self.entries@;
            let ghost old_states = states;
            let res = self.update(ids[i].as_str(), &f);
            proof {
                states = states.push(self.entries@);
                assert(keys[i as int] == ids@[i as int]@);
                lemma_edit_outputs_extend(old_states, keys, states, keys, i as nat);
                assert forall|t: int| 0 <= t < i + 1 implies edit_step(
                    f,
                    #[trigger] states[t],
                    keys[t],
                    states[t + 1],
                ) by {
                    if t < i {
                        assert(states[t] == old_states[t]);
                        assert(states[t + 1] == old_states[t + 1]);
                    }
                }
            }
            match res {
                Some(c) => {
                    out.push(c);
                },
                None => {},
            }
            i += 1;
        }
        proof {
            assert(edit_chain(f, states, keys));
        }
        out
    }
}

} // verus!
