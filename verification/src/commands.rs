//! The library edits the frontend asks for: renaming, filing under a game,
//! favourites, tags, deleting, and the game lock.
use vstd::prelude::*;

use crate::clip::{Clip, opt_str_view};
use crate::jobs::edit_result;
use crate::sorted::{sort_strings, sorted_le, views};
use crate::store::{
    ClipStore, edit_chain, edit_outputs, edited, edits_each, is_arrangement_of, key_index,
    lemma_edit_by, lemma_edits_each, lookup, removed, StoreEntry, without_tag,
};
use crate::merge::contains_string;
use crate::tags::clone_strings;
use crate::tags::{merge_tags_from_clips, normalize_tag, normalized_tag, tags_without, TagRegistryStore};
use crate::obsws::{base64_encode, base64_standard};
use crate::text::{append_str, is_err_msg, owned, starts_with, str_eq, trim, trim_seq};

verus! {

/// A single-clip edit's answer: the edited record, or "clip not found"
/// where no record is filed under the id.
pub open spec fn edit_answer(before: Seq<StoreEntry>, id: Seq<char>, after: Seq<StoreEntry>, r: Result<
    Clip,
    String,
>) -> bool {
    match r {
        Ok(c) => edit_result(before, id, after, Some(c)),
        Err(e) => key_index(before, id) == -1 && e@ == "clip not found"@,
    }
}

fn answer(r: Option<Clip>) -> (a: Result<Clip, String>)
    ensures
        match r {
            Some(c) => a == Ok::<Clip, String>(c),
            None => a matches Err(e) && e@ == "clip not found"@,
        },
{
    match r {
        Some(c) => Ok(c),
        None => Err(owned("clip not found")),
    }
}

/// `new` is `old` with the display name.
pub open spec fn renamed(old: Clip, new: Clip, name: Seq<char>) -> bool {
    &&& new == Clip { display_name: new.display_name, ..old }
    &&& opt_str_view(new.display_name) == Some(name)
}

/// `rename_clip`: the trimmed name, which may not be empty.
pub fn rename_clip(store: &mut ClipStore, id: &str, display_name: &str) -> (r: Result<Clip, String>)
    requires
        old(store).wf(),
    ensures
        final(store).wf(),
        trim_seq(display_name@).len() == 0 ==> final(store).entries() == old(store).entries() && is_err_msg(r, "name cannot be empty"@),
        trim_seq(display_name@).len() > 0 ==> edited(
            old(store).entries(),
            id@,
            final(store).entries(),
            |a: Clip, b: Clip| renamed(a, b, trim_seq(display_name@)),
        ) && edit_answer(old(store).entries(), id@, final(store).entries(), r),
{
    let name = trim(display_name);
    if name.as_str().is_empty() {
        return Err(owned("name cannot be empty"));
    }
    let f = |c: Clip| -> (out: Clip)
        ensures
            renamed(c, out, name@),
        { Clip { display_name: Some(name.clone()), ..c } };
    let ghost before = store.entries();
    let r = store.update(id, f);
    proof {
        lemma_edit_by(f, before, id@, store.entries(), |a: Clip, b: Clip| renamed(a, b, name@));
    }
    answer(r)
}

/// `new` is `old` filed under the game.
pub open spec fn filed_under(old: Clip, new: Clip, game: Seq<char>) -> bool {
    &&& new == Clip { game_name: new.game_name, ..old }
    &&& opt_str_view(new.game_name) == Some(game)
}

/// `set_clip_game`: the trimmed game name, which may not be empty.
pub fn set_clip_game(store: &mut ClipStore, id: &str, game_name: &str) -> (r: Result<Clip, String>)
    requires
        old(store).wf(),
    ensures
        final(store).wf(),
        trim_seq(game_name@).len() == 0 ==> final(store).entries() == old(store).entries() && is_err_msg(r, "game name cannot be empty"@),
        trim_seq(game_name@).len() > 0 ==> edited(
            old(store).entries(),
            id@,
            final(store).entries(),
            |a: Clip, b: Clip| filed_under(a, b, trim_seq(game_name@)),
        ) && edit_answer(old(store).entries(), id@, final(store).entries(), r),
{
    let name = trim(game_name);
    if name.as_str().is_empty() {
        return Err(owned("game name cannot be empty"));
    }
    let f = |c: Clip| -> (out: Clip)
        ensures
            filed_under(c, out, name@),
        { Clip { game_name: Some(name.clone()), ..c } };
    let ghost before = store.entries();
    let r = store.update(id, f);
    proof {
        lemma_edit_by(f, before, id@, store.entries(), |a: Clip, b: Clip| filed_under(a, b, name@));
    }
    answer(r)
}

/// `set_clips_game`: every listed clip filed under the trimmed game name,
/// which may not be empty; the edited records come back.
pub fn set_clips_game(store: &mut ClipStore, ids: &[String], game_name: &str) -> (r: Result<
    Vec<Clip>,
    String,
>)
    requires
        old(store).wf(),
    ensures
        final(store).wf(),
        trim_seq(game_name@).len() == 0 ==> final(store).entries() == old(store).entries() && is_err_msg(r, "game name is required"@),
        trim_seq(game_name@).len() > 0 ==> r is Ok && edits_each(
            old(store).entries(),
            final(store).entries(),
            views(ids@),
            |a: Clip, b: Clip| filed_under(a, b, trim_seq(game_name@)),
            r->Ok_0@,
        ),
{
    let name = trim(game_name);
    if name.as_str().is_empty() {
        return Err(owned("game name is required"));
    }
    let f = |c: Clip| -> (out: Clip)
        ensures
            filed_under(c, out, name@),
        { Clip { game_name: Some(name.clone()), ..c } };
    let ghost before = store.entries();
    let r = store.update_many(ids, f);
    proof {
        lemma_edits_each(f, before, store.entries(), views(ids@), |a: Clip, b: Clip| filed_under(a, b, name@), r@);
    }
    Ok(r)
}

/// `new` is `old` with its favourite mark flipped.
pub open spec fn toggled(old: Clip, new: Clip) -> bool {
    new == Clip { is_favorite: !old.is_favorite, ..old }
}

pub fn flip_favorite(c: Clip) -> (r: Clip)
    ensures
        toggled(c, r),
{
    Clip { is_favorite: !c.is_favorite, ..c }
}

/// `toggle_favorite`.
pub fn toggle_favorite(store: &mut ClipStore, id: &str) -> (r: Result<Clip, String>)
    requires
        old(store).wf(),
    ensures
        final(store).wf(),
        edited(old(store).entries(), id@, final(store).entries(), |a: Clip, b: Clip| toggled(a, b)),
        edit_answer(old(store).entries(), id@, final(store).entries(), r),
{
    let ghost before = store.entries();
    let r = store.update(id, flip_favorite);
    proof {
        lemma_edit_by(flip_favorite, before, id@, store.entries(), |a: Clip, b: Clip| toggled(a, b));
    }
    answer(r)
}

/// `delete_clip`: the record is dropped and given back (its files are the
/// caller's to delete), or "clip not found".
pub fn delete_clip(store: &mut ClipStore, id: &str) -> (r: Result<Clip, String>)
    requires
        old(store).wf(),
    ensures
        final(store).wf(),
        final(store).entries() == removed(old(store).entries(), id@),
        match r {
            Ok(c) => lookup(old(store).entries(), id@) == Some(c),
            Err(e) => lookup(old(store).entries(), id@) is None && e@ == "clip not found"@,
        },
{
    match store.remove(id) {
        Some(c) => Ok(c),
        None => Err(owned("clip not found")),
    }
}

/// `open_external_url` opens only web addresses.
pub fn check_external_url(url: &str) -> (r: Result<(), String>)
    ensures
        match r {
            Ok(()) => starts_with(url@, "https://"@) || starts_with(url@, "http://"@),
            Err(e) => !(starts_with(url@, "https://"@) || starts_with(url@, "http://"@)) && e@
                == "only http/https URLs are supported"@,
        },
{
    let v = crate::text::chars_of(url);
    let a = crate::text::chars_of("https://");
    let b = crate::text::chars_of("http://");
    if crate::text::starts_with_chars(v.as_slice(), a.as_slice()) || crate::text::starts_with_chars(
        v.as_slice(),
        b.as_slice(),
    ) {
        Ok(())
    } else {
        Err(owned("only http/https URLs are supported"))
    }
}

/// `get_thumbnail_data_url`, once the file is read: an empty file is refused,
/// any other becomes a JPEG `data:` URL carrying the bytes in standard base64.
pub fn thumbnail_data_url(bytes: &[u8]) -> (r: Result<String, String>)
    requires
        bytes@.len() / 3 * 4 + 4 <= usize::MAX,
    ensures
        match r {
            Ok(u) => bytes@.len() > 0 && u@ == "data:image/jpeg;base64,"@ + base64_standard(
                bytes@,
            ),
            Err(e) => bytes@.len() == 0 && e@ == "thumbnail file is empty"@,
        },
{
    if bytes.len() == 0 {
        return Err(owned("thumbnail file is empty"));
    }
    let mut u = owned("data:image/jpeg;base64,");
    let b = base64_encode(bytes);
    append_str(&mut u, b.as_str());
    Ok(u)
}

/// `set_locked_game`: the trimmed name, which may not be empty, becomes the
/// remembered game.
pub fn set_locked_game(slot: &mut Option<String>, game_name: &str) -> (r: Result<String, String>)
    ensures
        trim_seq(game_name@).len() == 0 ==> *final(slot) == *old(slot) && is_err_msg(r, "game name is required"@),
        trim_seq(game_name@).len() > 0 ==> match (r, *final(slot)) {
            (Ok(n), Some(g)) => n@ == trim_seq(game_name@) && g@ == trim_seq(game_name@),
            _ => false,
        },
{
    let name = trim(game_name);
    if name.as_str().is_empty() {
        return Err(owned("game name is required"));
    }
    crate::game::remember_game_name(slot, name.as_str());
    proof {
        assert(trim_seq(name@) == name@) by {
            crate::text::lemma_trim_idempotent(game_name@);
        }
    }
    Ok(name)
}

// ------------------------------------------------------------ tags

/// `new` is `old` carrying the tag: unchanged where it already does, else
/// with the tag added and the tags sorted.
pub open spec fn tag_added(old: Clip, new: Clip, t: Seq<char>) -> bool {
    if views(old.tags@).contains(t) {
        new == old
    } else {
        &&& new == Clip { tags: new.tags, ..old }
        &&& sorted_le(views(new.tags@))
        &&& views(new.tags@).to_multiset() == views(old.tags@).push(t).to_multiset()
    }
}

/// `new` is `old` without the tag.
pub open spec fn tag_dropped(old: Clip, new: Clip, t: Seq<char>) -> bool {
    &&& new == Clip { tags: new.tags, ..old }
    &&& new.tags@ == without_tag(old.tags@, t)
}

pub fn with_tag(c: Clip, t: &String) -> (r: Clip)
    ensures
        tag_added(c, r, t@),
{
    if contains_string(&c.tags, t.as_str()) {
        return c;
    }
    let mut tags = clone_strings(&c.tags);
    let ghost before = tags@;
    tags.push(t.clone());
    proof {
        crate::sorted::lemma_views_push(before, tags@.last());
    }
    let sorted = sort_strings(tags);
    Clip { tags: sorted, ..c }
}

pub fn without_tag_clip(c: Clip, t: &String) -> (r: Clip)
    ensures
        tag_dropped(c, r, t@),
{
    let mut kept: Vec<String> = Vec::new();
    let mut i: usize = 0;
    while i < c.tags.len()
        invariant
            i <= c.tags@.len(),
            kept@ == without_tag(c.tags@.take(i as int), t@),
        decreases c.tags.len() - i,
    {
        proof {
            assert(c.tags@.take(i + 1).drop_last() =~= c.tags@.take(i as int));
        }
        if !str_eq(c.tags[i].as_str(), t.as_str()) {
            kept.push(c.tags[i].clone());
        }
        i += 1;
    }
    assert(c.tags@.take(i as int) =~= c.tags@);
    Clip { tags: kept, ..c }
}

/// `add_clip_tag`: the tag is normalized (see `normalize_tag`), made known
/// in the registry, and added to the clip.
pub fn add_clip_tag(store: &mut ClipStore, registry: &mut TagRegistryStore, id: &str, tag: &str) -> (r:
    Result<Clip, String>)
    requires
        old(store).wf(),
    ensures
        final(store).wf(),
        match normalize_tag_spec(tag@) {
            Err(m) => final(store).entries() == old(store).entries() && final(registry)@ == old(
                registry,
            )@ && is_err_msg(r, m),
            Ok(t) => {
                &&& registry_after_ensure(old(registry)@, final(registry)@, t)
                &&& edited(
                    old(store).entries(),
                    id@,
                    final(store).entries(),
                    |a: Clip, b: Clip| tag_added(a, b, t),
                )
                &&& edit_answer(old(store).entries(), id@, final(store).entries(), r)
            },
        },
{
    let t = match normalize_tag(tag) {
        Ok(t) => t,
        Err(e) => {
            return Err(e);
        },
    };
    let _ = registry.ensure_tag(t.as_str());
    let f = |c: Clip| -> (out: Clip)
        ensures
            tag_added(c, out, t@),
        { with_tag(c, &t) };
    let ghost before = store.entries();
    let r = store.update(id, f);
    proof {
        lemma_edit_by(f, before, id@, store.entries(), |a: Clip, b: Clip| tag_added(a, b, t@));
    }
    answer(r)
}

/// `remove_clip_tag`: the normalized tag taken off the clip.
pub fn remove_clip_tag(store: &mut ClipStore, id: &str, tag: &str) -> (r: Result<Clip, String>)
    requires
        old(store).wf(),
    ensures
        final(store).wf(),
        match normalize_tag_spec(tag@) {
            Err(m) => final(store).entries() == old(store).entries() && is_err_msg(r, m),
            Ok(t) => {
                &&& edited(
                    old(store).entries(),
                    id@,
                    final(store).entries(),
                    |a: Clip, b: Clip| tag_dropped(a, b, t),
                )
                &&& edit_answer(old(store).entries(), id@, final(store).entries(), r)
            },
        },
{
    let t = match normalize_tag(tag) {
        Ok(t) => t,
        Err(e) => {
            return Err(e);
        },
    };
    let f = |c: Clip| -> (out: Clip)
        ensures
            tag_dropped(c, out, t@),
        { without_tag_clip(c, &t) };
    let ghost before = store.entries();
    let r = store.update(id, f);
    proof {
        lemma_edit_by(f, before, id@, store.entries(), |a: Clip, b: Clip| tag_dropped(a, b, t@));
    }
    answer(r)
}

/// What `normalize_tag` answers for a tag.
pub open spec fn normalize_tag_spec(tag: Seq<char>) -> Result<Seq<char>, Seq<char>> {
    let n = normalized_tag(tag);
    if n.len() == 0 {
        Err("tag cannot be empty"@)
    } else if vstd::utf8::encode_utf8(n).len() > 32 {
        Err("tag too long (max 32)"@)
    } else {
        Ok(n)
    }
}

/// The registry after `ensure_tag` with the (already normalized) tag `t`.
pub open spec fn registry_after_ensure(before: Seq<Seq<char>>, after: Seq<Seq<char>>, t: Seq<char>) -> bool {
    let n = normalized_tag(t);
    if n.len() == 0 || before.contains(n) {
        after == before
    } else {
        sorted_le(after) && after.to_multiset() == before.to_multiset().insert(n)
    }
}

/// `add_tag_to_clips`: the normalized tag made known and added to each
/// listed clip; the edited records come back.
pub fn add_tag_to_clips(
    store: &mut ClipStore,
    registry: &mut TagRegistryStore,
    ids: &[String],
    tag: &str,
) -> (r: Result<Vec<Clip>, String>)
    requires
        old(store).wf(),
    ensures
        final(store).wf(),
        match normalize_tag_spec(tag@) {
            Err(m) => final(store).entries() == old(store).entries() && final(registry)@ == old(
                registry,
            )@ && is_err_msg(r, m),
            Ok(t) => {
                &&& registry_after_ensure(old(registry)@, final(registry)@, t)
                &&& r is Ok
                &&& edits_each(
                    old(store).entries(),
                    final(store).entries(),
                    views(ids@),
                    |a: Clip, b: Clip| tag_added(a, b, t),
                    r->Ok_0@,
                )
            },
        },
{
    let t = match normalize_tag(tag) {
        Ok(t) => t,
        Err(e) => {
            return Err(e);
        },
    };
    let _ = registry.ensure_tag(t.as_str());
    let f = |c: Clip| -> (out: Clip)
        ensures
            tag_added(c, out, t@),
        { with_tag(c, &t) };
    let ghost before = store.entries();
    let r = store.update_many(ids, f);
    proof {
        lemma_edits_each(f, before, store.entries(), views(ids@), |a: Clip, b: Clip| tag_added(a, b, t@), r@);
    }
    Ok(r)
}

/// `remove_tag_from_clips`: the normalized tag taken off each listed clip;
/// the edited records come back.
pub fn remove_tag_from_clips(store: &mut ClipStore, ids: &[String], tag: &str) -> (r: Result<
    Vec<Clip>,
    String,
>)
    requires
        old(store).wf(),
    ensures
        final(store).wf(),
        match normalize_tag_spec(tag@) {
            Err(m) => final(store).entries() == old(store).entries() && is_err_msg(r, m),
            Ok(t) => {
                &&& r is Ok
                &&& edits_each(
                    old(store).entries(),
                    final(store).entries(),
                    views(ids@),
                    |a: Clip, b: Clip| tag_dropped(a, b, t),
                    r->Ok_0@,
                )
            },
        },
{
    let t = match normalize_tag(tag) {
        Ok(t) => t,
        Err(e) => {
            return Err(e);
        },
    };
    let f = |c: Clip| -> (out: Clip)
        ensures
            tag_dropped(c, out, t@),
        { without_tag_clip(c, &t) };
    let ghost before = store.entries();
    let r = store.update_many(ids, f);
    proof {
        lemma_edits_each(f, before, store.entries(), views(ids@), |a: Clip, b: Clip| tag_dropped(a, b, t@), r@);
    }
    Ok(r)
}

/// All tags the user can pick from (`all_tags`): the registry's and those on
/// the clips, merged (see `merge_tags_from_clips`).
pub fn all_tags(store: &ClipStore, registry: &TagRegistryStore) -> (r: Vec<String>)
    ensures
        crate::sorted::strictly_sorted(views(r@)),
        exists|clips: Seq<Clip>|
            is_arrangement_of(clips, store.entries()) && views(r@).to_set()
                == crate::tags::merged_tag_set(registry@, views(all_clip_tags(clips))),
{
    let known = registry.list();
    let clips = store.list();
    let mut from_clips: Vec<String> = Vec::new();
    let mut i: usize = 0;
    while i < clips.len()
        invariant
            i <= clips@.len(),
            from_clips@ == all_clip_tags(clips@.take(i as int)),
        decreases clips.len() - i,
    {
        proof {
            assert(clips@.take(i + 1).drop_last() =~= clips@.take(i as int));
        }
        let ghost before = from_clips@;
        let mut j: usize = 0;
        while j < clips[i].tags.len()
            invariant
                i < clips@.len(),
                j <= clips@[i as int].tags@.len(),
                from_clips@ == before + clips@[i as int].tags@.take(j as int),
            decreases clips@[i as int].tags@.len() - j,
        {
            from_clips.push(clips[i].tags[j].clone());
            assert(clips@[i as int].tags@.take(j + 1) =~= clips@[i as int].tags@.take(j as int).push(
                clips@[i as int].tags@[j as int],
            ));
            j += 1;
        }
        assert(clips@[i as int].tags@.take(j as int) =~= clips@[i as int].tags@);
        i += 1;
    }
    assert(clips@.take(i as int) =~= clips@);
    let ghost cs = clips@;
    let r = merge_tags_from_clips(known, from_clips);
    assert(is_arrangement_of(cs, store.entries()));
    r
}

/// Every clip's tags, one clip after another.
pub open spec fn all_clip_tags(clips: Seq<Clip>) -> Seq<String>
    decreases clips.len(),
{
    if clips.len() == 0 {
        Seq::empty()
    } else {
        all_clip_tags(clips.drop_last()) + clips.last().tags@
    }
}

/// `create_tag`: the normalized tag made known; then the tags to pick from.
pub fn create_tag(store: &ClipStore, registry: &mut TagRegistryStore, tag: &str) -> (r: Result<
    Vec<String>,
    String,
>)
    ensures
        match normalize_tag_spec(tag@) {
            Err(m) => final(registry)@ == old(registry)@ && is_err_msg(r, m),
            Ok(t) => {
                &&& registry_after_ensure(old(registry)@, final(registry)@, t)
                &&& r is Ok
                &&& crate::sorted::strictly_sorted(views(r->Ok_0@))
                &&& exists|clips: Seq<Clip>|
                    is_arrangement_of(clips, store.entries()) && views(r->Ok_0@).to_set()
                        == crate::tags::merged_tag_set(final(registry)@, views(all_clip_tags(clips)))
            },
        },
{
    let t = match normalize_tag(tag) {
        Ok(t) => t,
        Err(e) => {
            return Err(e);
        },
    };
    let _ = registry.ensure_tag(t.as_str());
    Ok(all_tags(store, registry))
}

/// `delete_tag`: the normalized tag dropped from the registry and from every
/// clip; the changed records and then the tags to pick from come back.
pub fn delete_tag(store: &mut ClipStore, registry: &mut TagRegistryStore, tag: &str) -> (r: Result<
    (Vec<Clip>, Vec<String>),
    String,
>)
    requires
        old(store).wf(),
    ensures
        final(store).wf(),
        match normalize_tag_spec(tag@) {
            Err(m) => final(store).entries() == old(store).entries() && final(registry)@ == old(
                registry,
            )@ && is_err_msg(r, m),
            Ok(t) => {
                &&& final(registry)@ == tags_without(old(registry)@, t)
                &&& final(store).entries().len() == old(store).entries().len()
                &&& forall|i: int|
                    0 <= i < old(store).entries().len() ==> {
                        let before = #[trigger] old(store).entries()[i];
                        let after = final(store).entries()[i];
                        &&& after.key == before.key
                        &&& after.clip.same_but_tags(before.clip)
                        &&& after.clip.tags@ == without_tag(before.clip.tags@, t)
                    }
                &&& r is Ok
                &&& r->Ok_0.0@.len() == crate::store::tagged_positions(old(store).entries(), t).len()
                &&& forall|k: int|
                    0 <= k < r->Ok_0.0@.len() ==> #[trigger] r->Ok_0.0@[k].same_as(
                        final(store).entries()[crate::store::tagged_positions(
                            old(store).entries(),
                            t,
                        )[k]].clip,
                    )
                &&& crate::sorted::strictly_sorted(views(r->Ok_0.1@))
                &&& exists|clips: Seq<Clip>|
                    is_arrangement_of(clips, final(store).entries()) && views(r->Ok_0.1@).to_set()
                        == crate::tags::merged_tag_set(final(registry)@, views(all_clip_tags(clips)))
            },
        },
{
    let t = match normalize_tag(tag) {
        Ok(t) => t,
        Err(e) => {
            return Err(e);
        },
    };
    let ghost reg_before = registry@;
    let _ = registry.remove_tag(t.as_str());
    assert(registry@ == tags_without(reg_before, t@));
    let updated = store.remove_tag_from_all_clips(t.as_str());
    let tags = all_tags(store, registry);
    Ok((updated, tags))
}

/// `delete_clips`: the listed records dropped (see `ClipStore::remove_many`).
pub fn delete_clips(store: &mut ClipStore, ids: &[String]) -> (r: Vec<Clip>)
    requires
        old(store).wf(),
    ensures
        final(store).wf(),
        final(store).entries() == crate::store::removed_all(old(store).entries(), views(ids@)),
        r@ == crate::store::taken_out(old(store).entries(), views(ids@)),
{
    store.remove_many(ids)
}

} // verus!
