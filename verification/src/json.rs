//! JSON documents as the library reads and edits them (OBS scene
//! collections, the obs-websocket config and protocol messages). A number is
//! kept as its JSON text; an object's members keep their order, with no key
//! twice. `JsonView` is the same document over `Seq`s, for contracts.
use vstd::prelude::*;

use crate::text::{owned, str_eq};

verus! {

pub enum Json {
    Null,
    Bool(bool),
    /// The number's JSON text, e.g. `4455` or `0.5`.
    Number(String),
    Str(String),
    Array(Vec<Json>),
    Object(Vec<Member>),
}

pub struct Member {
    pub key: String,
    pub value: Json,
}

pub enum JsonView {
    Null,
    Bool(bool),
    Number(Seq<char>),
    Str(Seq<char>),
    Array(Seq<JsonView>),
    Object(Seq<(Seq<char>, JsonView)>),
}

pub open spec fn jv(j: Json) -> JsonView
    decreases j, 1int,
{
    match j {
        Json::Null => JsonView::Null,
        Json::Bool(b) => JsonView::Bool(b),
        Json::Number(n) => JsonView::Number(n@),
        Json::Str(s) => JsonView::Str(s@),
        Json::Array(v) => JsonView::Array(jv_seq(v@)),
        Json::Object(ms) => JsonView::Object(jv_members(ms@)),
    }
}

pub open spec fn jv_seq(s: Seq<Json>) -> Seq<JsonView>
    decreases s, 0int,
{
    if s.len() == 0 {
        Seq::empty()
    } else {
        jv_seq(s.drop_last()).push(jv(s.last()))
    }
}

pub open spec fn jv_members(s: Seq<Member>) -> Seq<(Seq<char>, JsonView)>
    decreases s, 0int,
{
    if s.len() == 0 {
        Seq::empty()
    } else {
        jv_members(s.drop_last()).push((s.last().key@, jv(s.last().value)))
    }
}

impl View for Json {
    type V = JsonView;

    open spec fn view(&self) -> JsonView {
        jv(*self)
    }
}

pub proof fn lemma_jv_seq(s: Seq<Json>)
    ensures
        jv_seq(s).len() == s.len(),
        forall|i: int| 0 <= i < s.len() ==> #[trigger] jv_seq(s)[i] == jv(s[i]),
    decreases s.len(),
{
    if s.len() > 0 {
        lemma_jv_seq(s.drop_last());
        assert forall|i: int| 0 <= i < s.len() implies #[trigger] jv_seq(s)[i] == jv(s[i]) by {
            if i < s.len() - 1 {
                assert(s.drop_last()[i] == s[i]);
            }
        }
    }
}

pub proof fn lemma_jv_members(s: Seq<Member>)
    ensures
        jv_members(s).len() == s.len(),
        forall|i: int|
            0 <= i < s.len() ==> #[trigger] jv_members(s)[i] == (s[i].key@, jv(s[i].value)),
    decreases s.len(),
{
    if s.len() > 0 {
        lemma_jv_members(s.drop_last());
        assert forall|i: int| 0 <= i < s.len() implies #[trigger] jv_members(s)[i] == (
            s[i].key@,
            jv(s[i].value),
        ) by {
            if i < s.len() - 1 {
                assert(s.drop_last()[i] == s[i]);
            }
        }
    }
}

/// Views agree element by element.
pub proof fn lemma_jv_seq_ext(a: Seq<Json>, b: Seq<JsonView>)
    requires
        a.len() == b.len(),
        forall|i: int| 0 <= i < a.len() ==> jv(a[i]) == b[i],
    ensures
        jv_seq(a) == b,
{
    lemma_jv_seq(a);
    assert(jv_seq(a) =~= b);
}

pub proof fn lemma_jv_members_ext(a: Seq<Member>, b: Seq<(Seq<char>, JsonView)>)
    requires
        a.len() == b.len(),
        forall|i: int| 0 <= i < a.len() ==> (a[i].key@, jv(a[i].value)) == b[i],
    ensures
        jv_members(a) == b,
{
    lemma_jv_members(a);
    assert(jv_members(a) =~= b);
}

// ------------------------------------------------------------ reading

/// Where the first member named `k` is, or -1.
pub open spec fn member_pos(ms: Seq<(Seq<char>, JsonView)>, k: Seq<char>) -> int
    decreases ms.len(),
{
    if ms.len() == 0 {
        -1
    } else if member_pos(ms.drop_last(), k) >= 0 {
        member_pos(ms.drop_last(), k)
    } else if ms.last().0 == k {
        ms.len() - 1
    } else {
        -1
    }
}

pub proof fn lemma_member_pos(ms: Seq<(Seq<char>, JsonView)>, k: Seq<char>)
    ensures
        -1 <= member_pos(ms, k) < ms.len(),
        member_pos(ms, k) >= 0 ==> ms[member_pos(ms, k)].0 == k,
        forall|j: int|
            0 <= j < ms.len() && (member_pos(ms, k) == -1 || j < member_pos(ms, k)) ==> #[trigger] ms[j].0
                != k,
    decreases ms.len(),
{
    if ms.len() > 0 {
        lemma_member_pos(ms.drop_last(), k);
        assert forall|j: int|
            0 <= j < ms.len() && (member_pos(ms, k) == -1 || j < member_pos(ms, k)) implies #[trigger] ms[j].0
            != k by {
            if j < ms.len() - 1 {
                assert(ms.drop_last()[j] == ms[j]);
            }
        }
    }
}

/// `v[k]` where `v` is an object with a member `k`.
pub open spec fn jfield(v: JsonView, k: Seq<char>) -> Option<JsonView> {
    match v {
        JsonView::Object(ms) => {
            let i = member_pos(ms, k);
            if i >= 0 {
                Some(ms[i].1)
            } else {
                None
            }
        },
        _ => None,
    }
}

/// `v[k].as_str()`.
pub open spec fn jfield_str(v: JsonView, k: Seq<char>) -> Option<Seq<char>> {
    match jfield(v, k) {
        Some(JsonView::Str(s)) => Some(s),
        _ => None,
    }
}

/// `v[k].as_bool()`.
pub open spec fn jfield_bool(v: JsonView, k: Seq<char>) -> Option<bool> {
    match jfield(v, k) {
        Some(JsonView::Bool(b)) => Some(b),
        _ => None,
    }
}

/// An object's member `k` set to `x`: replaced where it is, else added last.
pub open spec fn jset(v: JsonView, k: Seq<char>, x: JsonView) -> JsonView {
    match v {
        JsonView::Object(ms) => {
            let i = member_pos(ms, k);
            if i >= 0 {
                JsonView::Object(ms.update(i, (k, x)))
            } else {
                JsonView::Object(ms.push((k, x)))
            }
        },
        _ => v,
    }
}

/// The member `k` of an object.
pub fn get_field<'a>(j: &'a Json, k: &str) -> (r: Option<&'a Json>)
    ensures
        match r {
            Some(x) => jfield(j@, k@) == Some(x@),
            None => jfield(j@, k@) is None,
        },
{
    match j {
        Json::Object(ms) => {
            let ghost mv = jv_members(ms@);
            proof {
                lemma_jv_members(ms@);
                lemma_member_pos(mv, k@);
            }
            assert(j@ == JsonView::Object(mv));
            let mut i: usize = 0;
            while i < ms.len()
                invariant
                    j@ == JsonView::Object(mv),
                    mv == jv_members(ms@),
                    mv.len() == ms@.len(),
                    forall|q: int| 0 <= q < mv.len() ==> #[trigger] mv[q] == (ms@[q].key@, jv(ms@[q].value)),
                    i <= ms@.len(),
                    forall|q: int| 0 <= q < i ==> #[trigger] mv[q].0 != k@,
                    -1 <= member_pos(mv, k@) < mv.len(),
                    member_pos(mv, k@) >= 0 ==> mv[member_pos(mv, k@)].0 == k@,
                    forall|q: int|
                        0 <= q < mv.len() && (member_pos(mv, k@) == -1 || q < member_pos(mv, k@))
                            ==> #[trigger] mv[q].0 != k@,
                decreases ms.len() - i,
            {
                if str_eq(ms[i].key.as_str(), k) {
                    assert(mv[i as int].0 == k@);
                    assert(member_pos(mv, k@) == i);
                    assert(j@ == JsonView::Object(mv));
                    assert(mv[i as int].1 == ms@[i as int].value@);
                    return Some(&ms[i].value);
                }
                i += 1;
            }
            None
        },
        _ => None,
    }
}

/// The member `k` of an object, if it is a string.
pub fn get_str<'a>(j: &'a Json, k: &str) -> (r: Option<&'a String>)
    ensures
        match r {
            Some(s) => jfield_str(j@, k@) == Some(s@),
            None => jfield_str(j@, k@) is None,
        },
{
    match get_field(j, k) {
        Some(Json::Str(s)) => Some(s),
        _ => None,
    }
}

/// The member `k` of an object, if it is a boolean.
pub fn get_bool(j: &Json, k: &str) -> (r: Option<bool>)
    ensures
        r == jfield_bool(j@, k@),
{
    match get_field(j, k) {
        Some(Json::Bool(b)) => Some(*b),
        _ => None,
    }
}

/// Sets member `k` of an object to `x` (`v[k] = x`).
pub fn set_field(j: Json, k: &str, x: Json) -> (r: Json)
    requires
        j@ is Object,
    ensures
        r@ == jset(j@, k@, x@),
        r is Object,
{
    match j {
        Json::Object(mut ms) => {
            let ghost before = ms@;
            let ghost mv = jv_members(before);
            proof {
                lemma_jv_members(before);
                lemma_member_pos(mv, k@);
            }
            let mut i: usize = 0;
            while i < ms.len() && !str_eq(ms[i].key.as_str(), k)
                invariant
                    ms@ == before,
                    mv == jv_members(before),
                    mv.len() == before.len(),
                    forall|q: int| 0 <= q < mv.len() ==> #[trigger] mv[q] == (before[q].key@, jv(before[q].value)),
                    i <= before.len(),
                    forall|q: int| 0 <= q < i ==> #[trigger] mv[q].0 != k@,
                    -1 <= member_pos(mv, k@) < mv.len(),
                    member_pos(mv, k@) >= 0 ==> mv[member_pos(mv, k@)].0 == k@,
                    forall|q: int|
                        0 <= q < mv.len() && (member_pos(mv, k@) == -1 || q < member_pos(mv, k@))
                            ==> #[trigger] mv[q].0 != k@,
                decreases ms.len() - i,
            {
                i += 1;
            }
            if i < ms.len() {
                assert(mv[i as int].0 == k@);
                assert(member_pos(mv, k@) == i);
                let old = ms.remove(i);
                let ghost xv = x@;
                ms.insert(i, Member { key: old.key, value: x });
                proof {
                    lemma_jv_members_ext(ms@, mv.update(i as int, (k@, xv)));
                }
                Json::Object(ms)
            } else {
                assert(member_pos(mv, k@) == -1);
                let ghost xv = x@;
                ms.push(Member { key: owned(k), value: x });
                proof {
                    lemma_jv_members_ext(ms@, mv.push((k@, xv)));
                }
                Json::Object(ms)
            }
        },
        _ => j,
    }
}

// ------------------------------------------------------------ building

pub fn jstr(s: &str) -> (r: Json)
    ensures
        r@ == JsonView::Str(s@),
{
    Json::Str(owned(s))
}

pub fn jnum(text: &str) -> (r: Json)
    ensures
        r@ == JsonView::Number(text@),
{
    Json::Number(owned(text))
}

pub fn member(k: &str, v: Json) -> (m: Member)
    ensures
        m.key@ == k@,
        m.value == v,
{
    Member { key: owned(k), value: v }
}

/// An object of the given members.
pub fn jobject(ms: Vec<Member>) -> (r: Json)
    ensures
        r@ == JsonView::Object(jv_members(ms@)),
{
    Json::Object(ms)
}

/// A deep copy.
pub fn jclone(j: &Json) -> (r: Json)
    ensures
        r@ == j@,
    decreases j,
{
    match j {
        Json::Null => Json::Null,
        Json::Bool(b) => Json::Bool(*b),
        Json::Number(n) => Json::Number(n.clone()),
        Json::Str(s) => Json::Str(s.clone()),
        Json::Array(v) => {
            let mut out: Vec<Json> = Vec::new();
            let mut i: usize = 0;
            while i < v.len()
                invariant
                    *j == Json::Array(*v),
                    i <= v@.len(),
                    out@.len() == i,
                    forall|q: int| 0 <= q < i ==> #[trigger] jv(out@[q]) == jv(v@[q]),
                decreases v.len() - i,
            {
                assert(decreases_to!(*j => (*j)->Array_0));
                assert(decreases_to!(*v => v@));
                assert(decreases_to!(v@ => v@[i as int]));
                let c = jclone(&v[i]);
                out.push(c);
                i += 1;
            }
            proof {
                lemma_jv_seq(v@);
                lemma_jv_seq_ext(out@, jv_seq(v@));
            }
            Json::Array(out)
        },
        Json::Object(ms) => {
            let mut out: Vec<Member> = Vec::new();
            let mut i: usize = 0;
            while i < ms.len()
                invariant
                    *j == Json::Object(*ms),
                    i <= ms@.len(),
                    out@.len() == i,
                    forall|q: int|
                        0 <= q < i ==> (#[trigger] out@[q]).key@ == ms@[q].key@ && jv(out@[q].value)
                            == jv(ms@[q].value),
                decreases ms.len() - i,
            {
                assert(decreases_to!(*j => (*j)->Object_0));
                assert(decreases_to!(*ms => ms@));
                assert(decreases_to!(ms@ => ms@[i as int]));
                assert(decreases_to!(ms@[i as int] => ms@[i as int].value));
                let c = jclone(&ms[i].value);
                out.push(Member { key: ms[i].key.clone(), value: c });
                i += 1;
            }
            proof {
                lemma_jv_members(ms@);
                lemma_jv_members_ext(out@, jv_members(ms@));
            }
            Json::Object(out)
        },
    }
}

} // verus!
