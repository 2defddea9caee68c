//! User settings: a JSON object with member access and a deep merge.
//!
//! Objects behave as `serde_json`'s maps do: members are kept sorted by
//! name, each name once; putting a member under a name that is there
//! replaces its value.

use vstd::prelude::*;
use crate::json::{Json, JsonV, jv, jv_items, jv_members};
use crate::mcp::shapes::{btree_insert, lemma_btree_insert_at, lemma_jv_items, lemma_jv_members, names_sorted, sorted_put};
use crate::order::{lemma_lt_irreflexive, text_lt};
use crate::text::str_eq;

verus! {

/// A value with every object's members sorted by name: the value
/// `serde_json` holds for a document (later members win over earlier ones
/// of the same name).
pub open spec fn sorted_form(j: JsonV) -> JsonV
    decreases j,
{
    match j {
        JsonV::Object(ms) => JsonV::Object(sorted_members(ms)),
        JsonV::Array(a) => JsonV::Array(sorted_items(a)),
        _ => j,
    }
}

/// The items of an array in sorted form.
pub open spec fn sorted_items(a: Seq<JsonV>) -> Seq<JsonV>
    decreases a,
{
    if a.len() == 0 {
        Seq::empty()
    } else {
        sorted_items(a.subrange(0, a.len() - 1)).push(sorted_form(a[a.len() - 1]))
    }
}

/// The members of an object in sorted form.
pub open spec fn sorted_members(ms: Seq<(Seq<char>, JsonV)>) -> Seq<(Seq<char>, JsonV)>
    decreases ms,
{
    if ms.len() == 0 {
        Seq::empty()
    } else {
        btree_insert(
            sorted_members(ms.subrange(0, ms.len() - 1)),
            ms[ms.len() - 1].0,
            sorted_form(ms[ms.len() - 1].1),
        )
    }
}

/// Whether every object of a value has its members sorted by name.
pub open spec fn canon(j: JsonV) -> bool
    decreases j,
{
    match j {
        JsonV::Object(ms) => names_sorted(ms) && canon_members(ms),
        JsonV::Array(a) => canon_items(a),
        _ => true,
    }
}

/// Whether every item is in sorted form.
pub open spec fn canon_items(a: Seq<JsonV>) -> bool
    decreases a,
{
    a.len() == 0 || (canon_items(a.subrange(0, a.len() - 1)) && canon(a[a.len() - 1]))
}

/// Whether every member's value is in sorted form.
pub open spec fn canon_members(ms: Seq<(Seq<char>, JsonV)>) -> bool
    decreases ms,
{
    ms.len() == 0 || (canon_members(ms.subrange(0, ms.len() - 1)) && canon(ms[ms.len() - 1].1))
}

/// The value of the member named `k`.
pub open spec fn lookup(ms: Seq<(Seq<char>, JsonV)>, k: Seq<char>) -> Option<JsonV>
    decreases ms.len(),
{
    if ms.len() == 0 {
        None
    } else if ms[0].0 == k {
        Some(ms[0].1)
    } else {
        lookup(ms.drop_first(), k)
    }
}

/// `other` merged into `base`: objects member by member, recursively; any
/// other value of `other` replaces `base`.
pub open spec fn merged(base: JsonV, other: JsonV) -> JsonV
    decreases other,
{
    match (base, other) {
        (JsonV::Object(bm), JsonV::Object(om)) => JsonV::Object(merge_members(bm, om)),
        _ => other,
    }
}

/// The members of `om` merged, one after another, into `bm`.
pub open spec fn merge_members(bm: Seq<(Seq<char>, JsonV)>, om: Seq<(Seq<char>, JsonV)>) -> Seq<(Seq<char>, JsonV)>
    decreases om,
{
    if om.len() == 0 {
        bm
    } else {
        let acc = merge_members(bm, om.subrange(0, om.len() - 1));
        let k = om[om.len() - 1].0;
        let v = om[om.len() - 1].1;
        btree_insert(
            acc,
            k,
            match lookup(acc, k) {
                Some(b) => merged(b, v),
                None => v,
            },
        )
    }
}

/// The members without the one named `k`.
pub open spec fn without_member(ms: Seq<(Seq<char>, JsonV)>, k: Seq<char>) -> Seq<(Seq<char>, JsonV)>
    decreases ms.len(),
{
    if ms.len() == 0 {
        ms
    } else if ms[0].0 == k {
        without_member(ms.drop_first(), k)
    } else {
        seq![ms[0]] + without_member(ms.drop_first(), k)
    }
}

/// A copy of a document.
pub fn copy_json(v: &Json) -> (r: Json)
    ensures
        r@ == v@,
    decreases v,
{
    match v {
        Json::Null => Json::Null,
        Json::Bool(b) => Json::Bool(*b),
        Json::Number(n) => Json::Number(n.clone()),
        Json::Str(s) => Json::Str(s.clone()),
        Json::Array(items) => {
            let mut out: Vec<Json> = Vec::new();
            let mut i: usize = 0;
            while i < items.len()
                invariant
                    i <= items@.len(),
                    *v == Json::Array(*items),
                    out@.len() == i,
                    forall|q: int| 0 <= q < i ==> (#[trigger] out@[q])@ == items@[q]@,
                decreases items.len() - i,
            {
                proof {
                    assert(decreases_to!(*v => (*v)->Array_0));
                    assert(decreases_to!((*v)->Array_0 => (*v)->Array_0@));
                    assert(decreases_to!(items@ => items@[i as int]));
                }
                out.push(copy_json(&items[i]));
                i = i + 1;
            }
            proof {
                lemma_jv_items(out@);
                lemma_jv_items(items@);
                assert(jv_items(out@) =~= jv_items(items@));
            }
            Json::Array(out)
        },
        Json::Object(ms) => {
            let mut out: Vec<(String, Json)> = Vec::new();
            let mut i: usize = 0;
            while i < ms.len()
                invariant
                    i <= ms@.len(),
                    *v == Json::Object(*ms),
                    out@.len() == i,
                    forall|q: int| 0 <= q < i ==> (#[trigger] out@[q]).0@ == ms@[q].0@ && out@[q].1@ == ms@[q].1@,
                decreases ms.len() - i,
            {
                proof {
                    assert(decreases_to!(*v => (*v)->Object_0));
                    assert(decreases_to!((*v)->Object_0 => (*v)->Object_0@));
                    assert(decreases_to!(ms@ => ms@[i as int]));
                    assert(decreases_to!(ms@[i as int] => ms@[i as int].1));
                }
                let c = copy_json(&ms[i].1);
                out.push((ms[i].0.clone(), c));
                i = i + 1;
            }
            proof {
                lemma_jv_members(out@);
                lemma_jv_members(ms@);
                assert(jv_members(out@) =~= jv_members(ms@));
            }
            Json::Object(out)
        },
    }
}


/// Every member's value is in sorted form, one by one.
pub proof fn lemma_canon_members(ms: Seq<(Seq<char>, JsonV)>)
    ensures
        canon_members(ms) <==> forall|i: int| 0 <= i < ms.len() ==> canon(#[trigger] ms[i].1),
    decreases ms.len(),
{
    if ms.len() > 0 {
        let d = ms.subrange(0, ms.len() - 1);
        lemma_canon_members(d);
        if canon_members(ms) {
            assert forall|i: int| 0 <= i < ms.len() implies canon(#[trigger] ms[i].1) by {
                if i < ms.len() - 1 {
                    assert(d[i] == ms[i]);
                }
            }
        }
        if forall|i: int| 0 <= i < ms.len() ==> canon(#[trigger] ms[i].1) {
            assert forall|i: int| 0 <= i < d.len() implies canon(#[trigger] d[i].1) by {
                assert(d[i] == ms[i]);
            }
        }
    }
}

/// Every item is in sorted form, one by one.
pub proof fn lemma_canon_items(a: Seq<JsonV>)
    ensures
        canon_items(a) <==> forall|i: int| 0 <= i < a.len() ==> canon(#[trigger] a[i]),
    decreases a.len(),
{
    if a.len() > 0 {
        let d = a.subrange(0, a.len() - 1);
        lemma_canon_items(d);
        if canon_items(a) {
            assert forall|i: int| 0 <= i < a.len() implies canon(#[trigger] a[i]) by {
                if i < a.len() - 1 {
                    assert(d[i] == a[i]);
                }
            }
        }
        if forall|i: int| 0 <= i < a.len() ==> canon(#[trigger] a[i]) {
            assert forall|i: int| 0 <= i < d.len() implies canon(#[trigger] d[i]) by {
                assert(d[i] == a[i]);
            }
        }
    }
}

/// The value of a member is the one at the first position with its name.
pub proof fn lemma_lookup_at(ms: Seq<(Seq<char>, JsonV)>, k: Seq<char>, p: int)
    requires
        0 <= p <= ms.len(),
        forall|q: int| 0 <= q < p ==> (#[trigger] ms[q]).0 != k,
        p < ms.len() ==> ms[p].0 == k,
    ensures
        lookup(ms, k) == if p < ms.len() {
            Some(ms[p].1)
        } else {
            None::<JsonV>
        },
    decreases p,
{
    if ms.len() > 0 && p > 0 {
        let d = ms.drop_first();
        assert forall|q: int| 0 <= q < p - 1 implies (#[trigger] d[q]).0 != k by {
            assert(d[q] == ms[q + 1]);
        }
        lemma_lookup_at(d, k, p - 1);
    }
}

/// Inserting a value in sorted form keeps every value in sorted form.
proof fn lemma_canon_insert(s: Seq<(Seq<char>, JsonV)>, k: Seq<char>, v: JsonV, p: int)
    requires
        names_sorted(s),
        canon_members(s),
        canon(v),
        0 <= p <= s.len(),
        forall|q: int| 0 <= q < p ==> text_lt(#[trigger] s[q].0, k),
        p < s.len() ==> !text_lt(s[p].0, k),
    ensures
        canon_members(btree_insert(s, k, v)),
        names_sorted(btree_insert(s, k, v)),
{
    lemma_btree_insert_at(s, k, v, p);
    lemma_canon_members(s);
    let t = btree_insert(s, k, v);
    assert forall|i: int| 0 <= i < t.len() implies canon(#[trigger] t[i].1) by {
        if p < s.len() && s[p].0 == k {
            if i != p {
                assert(t[i] == s[i]);
            }
        } else {
            if i < p {
                assert(t[i] == s[i]);
            } else if i > p {
                assert(t[i] == s[i - 1]);
            }
        }
    }
    lemma_canon_members(t);
}

/// Where `k` goes among sorted members: past every smaller name.
fn insert_position(acc: &Vec<(String, Json)>, k: &str) -> (p: usize)
    ensures
        p <= acc@.len(),
        forall|q: int| 0 <= q < p ==> text_lt(#[trigger] jv_members(acc@)[q].0, k@),
        p < acc@.len() ==> !text_lt(jv_members(acc@)[p as int].0, k@),
{
    proof {
        lemma_jv_members(acc@);
    }
    let mut p: usize = 0;
    while p < acc.len() && crate::order::text_less(acc[p].0.as_str(), k)
        invariant
            p <= acc@.len(),
            jv_members(acc@).len() == acc@.len(),
            forall|i: int| 0 <= i < acc@.len() ==> #[trigger] jv_members(acc@)[i] == (acc@[i].0@, jv(acc@[i].1)),
            forall|q: int| 0 <= q < p ==> text_lt(#[trigger] jv_members(acc@)[q].0, k@),
        decreases acc.len() - p,
    {
        p = p + 1;
    }
    p
}

/// A copy of a document with every object's members sorted by name.
pub fn sorted_copy(v: &Json) -> (r: Json)
    ensures
        r@ == sorted_form(v@),
        canon(r@),
    decreases v,
{
    match v {
        Json::Null => {
            let r = Json::Null;
            proof {
                assert(r@ == JsonV::Null);
            }
            r
        },
        Json::Bool(b) => {
            let r = Json::Bool(*b);
            proof {
                assert(r@ == JsonV::Bool(*b));
            }
            r
        },
        Json::Number(n) => {
            let r = Json::Number(n.clone());
            proof {
                assert(r@ == JsonV::Number(n@));
            }
            r
        },
        Json::Str(t) => {
            let r = Json::Str(t.clone());
            proof {
                assert(r@ == JsonV::Str(t@));
            }
            r
        },
        Json::Array(items) => {
            let ghost iv = jv_items(items@);
            proof {
                lemma_jv_items(items@);
            }
            let mut out: Vec<Json> = Vec::new();
            let mut i: usize = 0;
            proof {
                assert(iv.subrange(0, 0) =~= Seq::<JsonV>::empty());
                lemma_jv_items(out@);
            }
            while i < items.len()
                invariant
                    i <= items@.len(),
                    *v == Json::Array(*items),
                    iv == jv_items(items@),
                    iv.len() == items@.len(),
                    forall|q: int| 0 <= q < items@.len() ==> #[trigger] iv[q] == jv(items@[q]),
                    jv_items(out@) == sorted_items(iv.subrange(0, i as int)),
                    forall|q: int| 0 <= q < out@.len() ==> canon(#[trigger] out@[q]@),
                    out@.len() == i,
                decreases items.len() - i,
            {
                proof {
                    assert(decreases_to!(*v => (*v)->Array_0));
                    assert(decreases_to!((*v)->Array_0 => (*v)->Array_0@));
                    assert(decreases_to!(items@ => items@[i as int]));
                }
                let n = sorted_copy(&items[i]);
                let ghost before = out@;
                out.push(n);
                proof {
                    lemma_jv_items(before);
                    lemma_jv_items(out@);
                    assert(iv.subrange(0, i + 1).subrange(0, i as int) =~= iv.subrange(0, i as int));
                    assert(iv.subrange(0, i + 1)[i as int] == iv[i as int]);
                    assert(jv_items(out@) =~= jv_items(before).push(n@));
                    assert forall|q: int| 0 <= q < out@.len() implies canon(#[trigger] out@[q]@) by {
                        if q < i {
                            assert(out@[q] == before[q]);
                        }
                    }
                }
                i = i + 1;
            }
            proof {
                assert(iv.subrange(0, items@.len() as int) =~= iv);
                lemma_jv_items(out@);
                lemma_canon_items(jv_items(out@));
                assert forall|q: int| 0 <= q < jv_items(out@).len() implies canon(#[trigger] jv_items(out@)[q]) by {
                    assert(jv_items(out@)[q] == out@[q]@);
                }
            }
            let r = Json::Array(out);
            proof {
                assert(r@ == JsonV::Array(jv_items(out@)));
            }
            r
        },
        Json::Object(ms) => {
            let ghost mv = jv_members(ms@);
            proof {
                lemma_jv_members(ms@);
            }
            let mut acc: Vec<(String, Json)> = Vec::new();
            let mut i: usize = 0;
            proof {
                assert(mv.subrange(0, 0) =~= Seq::<(Seq<char>, JsonV)>::empty());
                lemma_jv_members(acc@);
            }
            while i < ms.len()
                invariant
                    i <= ms@.len(),
                    *v == Json::Object(*ms),
                    mv == jv_members(ms@),
                    mv.len() == ms@.len(),
                    forall|q: int| 0 <= q < ms@.len() ==> #[trigger] mv[q] == (ms@[q].0@, jv(ms@[q].1)),
                    jv_members(acc@) == sorted_members(mv.subrange(0, i as int)),
                    names_sorted(jv_members(acc@)),
                    canon_members(jv_members(acc@)),
                decreases ms.len() - i,
            {
                proof {
                    assert(mv.subrange(0, i + 1).subrange(0, i as int) =~= mv.subrange(0, i as int));
                    assert(mv.subrange(0, i + 1)[i as int] == mv[i as int]);
                    assert(decreases_to!(*v => (*v)->Object_0));
                    assert(decreases_to!((*v)->Object_0 => (*v)->Object_0@));
                    assert(decreases_to!(ms@ => ms@[i as int]));
                    assert(decreases_to!(ms@[i as int] => ms@[i as int].1));
                }
                let n = sorted_copy(&ms[i].1);
                let p = insert_position(&acc, ms[i].0.as_str());
                proof {
                    lemma_jv_members(acc@);
                    lemma_canon_insert(jv_members(acc@), ms@[i as int].0@, n@, p as int);
                }
                sorted_put(&mut acc, ms[i].0.clone(), n);
                i = i + 1;
            }
            proof {
                assert(mv.subrange(0, ms@.len() as int) =~= mv);
            }
            let r = Json::Object(acc);
            proof {
                assert(r@ == JsonV::Object(jv_members(acc@)));
            }
            r
        },
    }
}

/// The position of the member named `k` among sorted members, if any.
fn member_position(acc: &Vec<(String, Json)>, k: &str) -> (r: Option<usize>)
    requires
        names_sorted(jv_members(acc@)),
    ensures
        match r {
            Some(p) => p < acc@.len() && jv_members(acc@)[p as int].0 == k@ && lookup(jv_members(acc@), k@) == Some(
                jv_members(acc@)[p as int].1,
            ),
            None => lookup(jv_members(acc@), k@) is None,
        },
{
    proof {
        lemma_jv_members(acc@);
    }
    let mut p: usize = 0;
    while p < acc.len()
        invariant
            p <= acc@.len(),
            jv_members(acc@).len() == acc@.len(),
            forall|i: int| 0 <= i < acc@.len() ==> #[trigger] jv_members(acc@)[i] == (acc@[i].0@, jv(acc@[i].1)),
            forall|q: int| 0 <= q < p ==> (#[trigger] jv_members(acc@)[q]).0 != k@,
        decreases acc.len() - p,
    {
        if str_eq(acc[p].0.as_str(), k) {
            proof {
                lemma_lookup_at(jv_members(acc@), k@, p as int);
            }
            return Some(p);
        }
        p = p + 1;
    }
    proof {
        lemma_lookup_at(jv_members(acc@), k@, p as int);
    }
    None
}

/// Merges `other` into `base`: objects member by member, recursively;
/// any other value of `other` replaces `base`.
pub fn deep_merge(base: &mut Json, other: &Json)
    requires
        canon(old(base)@),
        canon(other@),
    ensures
        final(base)@ == merged(old(base)@, other@),
        canon(final(base)@),
    decreases other,
{
    let mut taken = Json::Null;
    std::mem::swap(&mut taken, base);
    match (taken, other) {
        (Json::Object(mut bm), Json::Object(om)) => {
            let ghost b0 = jv_members(bm@);
            let ghost ov = jv_members(om@);
            proof {
                lemma_jv_members(om@);
                lemma_canon_members(ov);
                assert(ov.subrange(0, 0) =~= Seq::<(Seq<char>, JsonV)>::empty());
            }
            let mut i: usize = 0;
            while i < om.len()
                invariant
                    i <= om@.len(),
                    *other == Json::Object(*om),
                    ov == jv_members(om@),
                    ov.len() == om@.len(),
                    forall|q: int| 0 <= q < om@.len() ==> #[trigger] ov[q] == (om@[q].0@, jv(om@[q].1)),
                    forall|q: int| 0 <= q < ov.len() ==> canon(#[trigger] ov[q].1),
                    jv_members(bm@) == merge_members(b0, ov.subrange(0, i as int)),
                    names_sorted(jv_members(bm@)),
                    canon_members(jv_members(bm@)),
                decreases om.len() - i,
            {
                let ghost acc = jv_members(bm@);
                let ghost kv = om@[i as int].0@;
                let ghost vv = jv(om@[i as int].1);
                proof {
                    assert(ov.subrange(0, i + 1).subrange(0, i as int) =~= ov.subrange(0, i as int));
                    assert(ov.subrange(0, i + 1)[i as int] == ov[i as int]);
                    assert(ov[i as int] == (kv, vv));
                    assert(canon(ov[i as int].1));
                    assert(merge_members(b0, ov.subrange(0, i + 1)) == btree_insert(
                        acc,
                        kv,
                        match lookup(acc, kv) {
                            Some(b) => merged(b, vv),
                            None => vv,
                        },
                    ));
                    assert(decreases_to!(*other => (*other)->Object_0));
                    assert(decreases_to!((*other)->Object_0 => (*other)->Object_0@));
                    assert(decreases_to!(om@ => om@[i as int]));
                    assert(decreases_to!(om@[i as int] => om@[i as int].1));
                    lemma_jv_members(bm@);
                    lemma_canon_members(acc);
                }
                match member_position(&bm, om[i].0.as_str()) {
                    Some(p) => {
                        let ghost a0 = bm@;
                        let mut entry = bm.remove(p);
                        proof {
                            assert(entry == a0[p as int]);
                            assert(canon(jv(entry.1)));
                        }
                        deep_merge(&mut entry.1, &om[i].1);
                        let ghost mval = entry.1@;
                        bm.insert(p, entry);
                        proof {
                            lemma_jv_members(bm@);
                            assert(forall|q: int| 0 <= q < p ==> text_lt(#[trigger] acc[q].0, kv)) by {
                                assert forall|q: int| 0 <= q < p implies text_lt(#[trigger] acc[q].0, kv) by {
                                    assert(acc[p as int].0 == kv);
                                }
                            }
                            lemma_lt_irreflexive(kv);
                            lemma_canon_insert(acc, kv, mval, p as int);
                            lemma_btree_insert_at(acc, kv, mval, p as int);
                            assert forall|q: int| 0 <= q < bm@.len() implies #[trigger] jv_members(bm@)[q] == acc.update(
                                p as int,
                                (kv, mval),
                            )[q] by {
                                if q < p {
                                    assert(bm@[q] == a0[q]);
                                } else if q > p {
                                    assert(bm@[q] == a0[q]);
                                }
                            }
                            assert(jv_members(bm@) =~= acc.update(p as int, (kv, mval)));
                        }
                    },
                    None => {
                        let p = insert_position(&bm, om[i].0.as_str());
                        let c = copy_json(&om[i].1);
                        proof {
                            lemma_jv_members(bm@);
                            lemma_canon_insert(acc, kv, c@, p as int);
                        }
                        sorted_put(&mut bm, om[i].0.clone(), c);
                    },
                }
                i = i + 1;
            }
            proof {
                assert(ov.subrange(0, om@.len() as int) =~= ov);
            }
            *base = Json::Object(bm);
        },
        (_, _) => {
            *base = copy_json(other);
        },
    }
}


/// The members of an object value; nothing for another value.
pub open spec fn members_of(v: JsonV) -> Seq<(Seq<char>, JsonV)> {
    match v {
        JsonV::Object(ms) => ms,
        _ => Seq::empty(),
    }
}

/// The names of members.
pub open spec fn names_of(ms: Seq<(Seq<char>, JsonV)>) -> Seq<Seq<char>> {
    ms.map_values(|m: (Seq<char>, JsonV)| m.0)
}

/// Settings: a JSON object, empty by default.
#[derive(Debug)]
pub struct Settings(Json);

impl View for Settings {
    type V = JsonV;

    closed spec fn view(&self) -> JsonV {
        self.0@
    }
}

impl Settings {
    #[verifier::type_invariant]
    spec fn inv(self) -> bool {
        self.0 is Object && canon(self.0@)
    }

    /// The members.
    pub open spec fn members(&self) -> Seq<(Seq<char>, JsonV)> {
        members_of(self@)
    }

    /// No settings.
    pub fn new() -> (s: Settings)
        ensures
            s@ == JsonV::Object(Seq::empty()),
    {
        let s = Settings(Json::Object(Vec::new()));
        proof {
            assert(jv_members(Seq::<(String, Json)>::empty()) =~= Seq::<(Seq<char>, JsonV)>::empty());
            assert(s@ == JsonV::Object(Seq::empty()));
        }
        s
    }

    /// The settings held by an object; no settings for any other value.
    pub fn from_value(value: Json) -> (s: Settings)
        ensures
            s@ == if value is Object {
                sorted_form(value@)
            } else {
                JsonV::Object(Seq::empty())
            },
    {
        if value.is_object() {
            let c = sorted_copy(&value);
            let s = Settings(c);
            s
        } else {
            Settings::new()
        }
    }

    /// The value of a setting.
    pub fn get_raw(&self, key: &str) -> (r: Option<&Json>)
        ensures
            match r {
                Some(v) => lookup(self.members(), key@) == Some(v@),
                None => lookup(self.members(), key@) is None,
            },
    {
        proof {
            use_type_invariant(self);
        }
        match &self.0 {
            Json::Object(ms) => {
                proof {
                    lemma_jv_members(ms@);
                }
                match member_position(ms, key) {
                    Some(p) => Some(&ms[p].1),
                    None => None,
                }
            },
            _ => None,
        }
    }

    /// Sets a setting, replacing its value if it is there.
    pub fn set(&mut self, key: &str, value: Json)
        ensures
            final(self)@ == JsonV::Object(btree_insert(old(self).members(), key@, sorted_form(value@))),
    {
        proof {
            use_type_invariant(&*self);
        }
        let c = sorted_copy(&value);
        let mut taken = Json::Object(Vec::new());
        proof {
            assert(jv_members(Seq::<(String, Json)>::empty()) =~= Seq::<(Seq<char>, JsonV)>::empty());
        }
        std::mem::swap(&mut taken, &mut self.0);
        match taken {
            Json::Object(mut ms) => {
                let p = insert_position(&ms, key);
                proof {
                    lemma_jv_members(ms@);
                    lemma_canon_insert(jv_members(ms@), key@, c@, p as int);
                }
                sorted_put(&mut ms, key.to_string(), c);
                self.0 = Json::Object(ms);
            },
            other => {
                self.0 = other;
            },
        }
    }

    /// Removes a setting, giving its value.
    pub fn remove(&mut self, key: &str) -> (r: Option<Json>)
        ensures
            match r {
                Some(v) => lookup(old(self).members(), key@) == Some(v@),
                None => lookup(old(self).members(), key@) is None,
            },
            final(self)@ == JsonV::Object(without_member(old(self).members(), key@)),
    {
        proof {
            use_type_invariant(&*self);
        }
        let mut taken = Json::Object(Vec::new());
        proof {
            assert(jv_members(Seq::<(String, Json)>::empty()) =~= Seq::<(Seq<char>, JsonV)>::empty());
        }
        std::mem::swap(&mut taken, &mut self.0);
        match taken {
            Json::Object(mut ms) => {
                let ghost m0 = jv_members(ms@);
                proof {
                    lemma_jv_members(ms@);
                }
                match member_position(&ms, key) {
                    Some(p) => {
                        let ghost a0 = ms@;
                        let (_, v) = ms.remove(p);
                        proof {
                            lemma_without_at(m0, key@, p as int);
                            lemma_jv_members(ms@);
                            assert(jv_members(ms@) =~= m0.remove(p as int));
                            lemma_canon_members(m0);
                            lemma_canon_members(jv_members(ms@));
                        }
                        self.0 = Json::Object(ms);
                        Some(v)
                    },
                    None => {
                        proof {
                            lemma_without_absent(m0, key@);
                        }
                        self.0 = Json::Object(ms);
                        None
                    },
                }
            },
            other => {
                self.0 = other;
                None
            },
        }
    }

    /// Whether a setting is there.
    pub fn contains(&self, key: &str) -> (r: bool)
        ensures
            r == lookup(self.members(), key@) is Some,
    {
        self.get_raw(key).is_some()
    }

    /// The names of the settings, in order.
    pub fn keys(&self) -> (r: Vec<String>)
        ensures
            r@.map_values(|k: String| k@) == names_of(self.members()),
    {
        proof {
            use_type_invariant(self);
        }
        let mut out: Vec<String> = Vec::new();
        match &self.0 {
            Json::Object(ms) => {
                proof {
                    lemma_jv_members(ms@);
                }
                let mut i: usize = 0;
                while i < ms.len()
                    invariant
                        i <= ms@.len(),
                        out@.len() == i,
                        forall|q: int| 0 <= q < i ==> (#[trigger] out@[q])@ == ms@[q].0@,
                    decreases ms.len() - i,
                {
                    out.push(ms[i].0.clone());
                    i = i + 1;
                }
                proof {
                    assert(out@.map_values(|k: String| k@) =~= names_of(jv_members(ms@)));
                }
            },
            _ => {},
        }
        out
    }

    /// Whether there are no settings.
    pub fn is_empty(&self) -> (r: bool)
        ensures
            r == (self.members().len() == 0),
    {
        proof {
            use_type_invariant(self);
        }
        match &self.0 {
            Json::Object(ms) => {
                proof {
                    lemma_jv_members(ms@);
                }
                ms.len() == 0
            },
            _ => true,
        }
    }

    /// The settings as a JSON value.
    pub fn as_value(&self) -> (r: &Json)
        ensures
            r@ == self@,
    {
        &self.0
    }

    /// The settings as a JSON value.
    pub fn into_value(self) -> (r: Json)
        ensures
            r@ == self@,
    {
        self.0
    }

    /// Merges `other` into these settings: objects member by member,
    /// recursively; any other value of `other` replaces the one here
    /// (arrays are replaced, not joined).
    pub fn merge(&mut self, other: &Settings)
        ensures
            final(self)@ == merged(old(self)@, other@),
    {
        proof {
            use_type_invariant(&*self);
            use_type_invariant(other);
        }
        let mut taken = Json::Object(Vec::new());
        proof {
            assert(jv_members(Seq::<(String, Json)>::empty()) =~= Seq::<(Seq<char>, JsonV)>::empty());
        }
        std::mem::swap(&mut taken, &mut self.0);
        deep_merge(&mut taken, &other.0);
        proof {
            assert(taken is Object) by {
                assert(merged(old(self)@, other@) is Object);
            }
        }
        self.0 = taken;
    }
}

proof fn lemma_without_at(ms: Seq<(Seq<char>, JsonV)>, k: Seq<char>, p: int)
    requires
        names_sorted(ms),
        0 <= p < ms.len(),
        ms[p].0 == k,
    ensures
        without_member(ms, k) == ms.remove(p),
    decreases ms.len(),
{
    if p == 0 {
        assert(ms.drop_first() =~= ms.remove(0));
        assert forall|q: int| 0 <= q < ms.drop_first().len() implies (#[trigger] ms.drop_first()[q]).0 != k by {
            assert(ms.drop_first()[q] == ms[q + 1]);
            lemma_lt_irreflexive(k);
        }
        lemma_without_none(ms.drop_first(), k);
    } else {
        let d = ms.drop_first();
        assert(names_sorted(d)) by {
            assert forall|i: int, j: int| 0 <= i < j < d.len() implies text_lt(#[trigger] d[i].0, #[trigger] d[j].0) by {
                assert(d[i] == ms[i + 1] && d[j] == ms[j + 1]);
            }
        }
        lemma_lt_irreflexive(k);
        assert(ms[0].0 != k);
        lemma_without_at(d, k, p - 1);
        assert(seq![ms[0]] + d.remove(p - 1) =~= ms.remove(p));
    }
}

proof fn lemma_without_none(ms: Seq<(Seq<char>, JsonV)>, k: Seq<char>)
    requires
        forall|q: int| 0 <= q < ms.len() ==> (#[trigger] ms[q]).0 != k,
    ensures
        without_member(ms, k) == ms,
    decreases ms.len(),
{
    if ms.len() > 0 {
        let d = ms.drop_first();
        assert forall|q: int| 0 <= q < d.len() implies (#[trigger] d[q]).0 != k by {
            assert(d[q] == ms[q + 1]);
        }
        lemma_without_none(d, k);
        assert(ms[0].0 != k);
        assert(seq![ms[0]] + d =~= ms);
    }
}

proof fn lemma_without_absent(ms: Seq<(Seq<char>, JsonV)>, k: Seq<char>)
    requires
        lookup(ms, k) is None,
    ensures
        without_member(ms, k) == ms,
        forall|q: int| 0 <= q < ms.len() ==> (#[trigger] ms[q]).0 != k,
    decreases ms.len(),
{
    if ms.len() > 0 {
        let d = ms.drop_first();
        lemma_without_absent(d, k);
        assert forall|q: int| 0 <= q < ms.len() implies (#[trigger] ms[q]).0 != k by {
            if q > 0 {
                assert(ms[q] == d[q - 1]);
            }
        }
        assert(seq![ms[0]] + d =~= ms);
    }
}


/// After putting `(k, v)`, the member `k` reads `v` and every other member
/// reads as before.
pub proof fn law_put_then_lookup(s: Seq<(Seq<char>, JsonV)>, k: Seq<char>, v: JsonV, k2: Seq<char>)
    ensures
        lookup(btree_insert(s, k, v), k2) == if k2 == k {
            Some(v)
        } else {
            lookup(s, k2)
        },
    decreases s.len(),
{
    if s.len() == 0 {
        assert(seq![(k, v)].drop_first() =~= Seq::<(Seq<char>, JsonV)>::empty());
        assert(lookup(Seq::<(Seq<char>, JsonV)>::empty(), k2) is None);
    } else if s[0].0 == k {
        assert(s.update(0, (k, v)).drop_first() =~= s.drop_first());
        assert(s.update(0, (k, v))[0] == (k, v));
    } else if text_lt(k, s[0].0) {
        assert((seq![(k, v)] + s).drop_first() =~= s);
    } else {
        law_put_then_lookup(s.drop_first(), k, v, k2);
        assert((seq![s[0]] + btree_insert(s.drop_first(), k, v)).drop_first() =~= btree_insert(s.drop_first(), k, v));
    }
}

/// After removing the member `k`, it reads as absent and every other
/// member reads as before.
pub proof fn law_remove_then_lookup(s: Seq<(Seq<char>, JsonV)>, k: Seq<char>, k2: Seq<char>)
    ensures
        lookup(without_member(s, k), k2) == if k2 == k {
            None
        } else {
            lookup(s, k2)
        },
    decreases s.len(),
{
    if s.len() > 0 {
        law_remove_then_lookup(s.drop_first(), k, k2);
        if s[0].0 != k {
            assert((seq![s[0]] + without_member(s.drop_first(), k)).drop_first() =~= without_member(s.drop_first(), k));
        }
    }
}

proof fn lemma_lookup_push(s: Seq<(Seq<char>, JsonV)>, x: (Seq<char>, JsonV), k: Seq<char>)
    ensures
        lookup(s.push(x), k) == match lookup(s, k) {
            Some(v) => Some(v),
            None => if x.0 == k {
                Some(x.1)
            } else {
                None
            },
        },
    decreases s.len(),
{
    if s.len() > 0 {
        assert(s.push(x).drop_first() =~= s.drop_first().push(x));
        assert(s.push(x)[0] == s[0]);
        lemma_lookup_push(s.drop_first(), x, k);
        if s[0].0 == k {
            assert(lookup(s.push(x), k) == Some(s[0].1));
            assert(lookup(s, k) == Some(s[0].1));
        } else {
            assert(lookup(s.push(x), k) == lookup(s.drop_first().push(x), k));
            assert(lookup(s, k) == lookup(s.drop_first(), k));
        }
    } else {
        assert(s.push(x).drop_first() =~= Seq::<(Seq<char>, JsonV)>::empty());
        assert(s.push(x)[0] == x);
        assert(lookup(Seq::<(Seq<char>, JsonV)>::empty(), k) is None);
    }
}

/// Merging settings works member by member: a member of `other` is merged
/// into the member of the same name, or added; the other members stay as
/// they were.
pub proof fn law_merge_members(bm: Seq<(Seq<char>, JsonV)>, om: Seq<(Seq<char>, JsonV)>, k: Seq<char>)
    requires
        names_sorted(om),
    ensures
        lookup(merge_members(bm, om), k) == match lookup(om, k) {
            Some(v) => Some(
                match lookup(bm, k) {
                    Some(b) => merged(b, v),
                    None => v,
                },
            ),
            None => lookup(bm, k),
        },
    decreases om.len(),
{
    if om.len() > 0 {
        let d = om.subrange(0, om.len() - 1);
        let last = om[om.len() - 1];
        assert(names_sorted(d)) by {
            assert forall|i: int, j: int| 0 <= i < j < d.len() implies text_lt(#[trigger] d[i].0, #[trigger] d[j].0) by {
                assert(d[i] == om[i] && d[j] == om[j]);
            }
        }
        assert(d.push(last) =~= om);
        lemma_lookup_push(d, last, k);
        lemma_lookup_push(d, last, last.0);
        law_merge_members(bm, d, k);
        law_merge_members(bm, d, last.0);
        let acc = merge_members(bm, d);
        let val = match lookup(acc, last.0) {
            Some(b) => merged(b, last.1),
            None => last.1,
        };
        law_put_then_lookup(acc, last.0, val, k);
        if lookup(d, last.0) is Some {
            let p = choose|p: int| 0 <= p < d.len() && d[p].0 == last.0;
            lemma_lookup_some(d, last.0);
            assert(text_lt(om[p].0, om[om.len() - 1].0));
            lemma_lt_irreflexive(last.0);
        }
    }
}

proof fn lemma_lookup_some(s: Seq<(Seq<char>, JsonV)>, k: Seq<char>)
    requires
        lookup(s, k) is Some,
    ensures
        exists|p: int| 0 <= p < s.len() && s[p].0 == k,
    decreases s.len(),
{
    if s[0].0 == k {
        assert(s[0].0 == k);
    } else {
        lemma_lookup_some(s.drop_first(), k);
        let p = choose|p: int| 0 <= p < s.drop_first().len() && s.drop_first()[p].0 == k;
        assert(s[p + 1].0 == k);
    }
}

} // verus!
