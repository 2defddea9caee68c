//! The shape of an inline schema: the schema without descriptions, titles
//! and extensions, its members sorted by name, as compact JSON text.

use vstd::prelude::*;
use vstd::std_specs::hash::DefaultHasherAdditionalSpecFns;
use std::hash::Hasher;
use crate::json::{Json, JsonV, jv, jv_items, jv_members};
use crate::order::{lemma_lt_irreflexive, lemma_lt_total, lemma_lt_transitive, text_less, text_lt};
use crate::text::{chars_of, chars_start, starts_with_spec, str_eq, uppercase, uppercase_chars};

verus! {

/// Whether a member survives normalization: not a description, a title or
/// an `x-` extension.
pub open spec fn kept_key(k: Seq<char>) -> bool {
    k != "description"@ && k != "title"@ && !starts_with_spec(k, "x-"@)
}

/// Puts `(k, v)` into members sorted by name, replacing the value of a
/// member named `k` (a `BTreeMap` insert).
pub open spec fn btree_insert(s: Seq<(Seq<char>, JsonV)>, k: Seq<char>, v: JsonV) -> Seq<(Seq<char>, JsonV)>
    decreases s.len(),
{
    if s.len() == 0 {
        seq![(k, v)]
    } else if s[0].0 == k {
        s.update(0, (k, v))
    } else if text_lt(k, s[0].0) {
        seq![(k, v)] + s
    } else {
        seq![s[0]] + btree_insert(s.drop_first(), k, v)
    }
}

/// A value without descriptions, titles and extensions, its members sorted
/// by name (the later of two equal names wins).
pub open spec fn norm(j: JsonV) -> JsonV
    decreases j,
{
    match j {
        JsonV::Object(ms) => JsonV::Object(norm_members(ms)),
        JsonV::Array(a) => JsonV::Array(norm_items(a)),
        _ => j,
    }
}

/// The normalized items of an array.
pub open spec fn norm_items(a: Seq<JsonV>) -> Seq<JsonV>
    decreases a,
{
    if a.len() == 0 {
        Seq::empty()
    } else {
        norm_items(a.subrange(0, a.len() - 1)).push(norm(a[a.len() - 1]))
    }
}

/// The normalized members of an object, sorted by name.
pub open spec fn norm_members(ms: Seq<(Seq<char>, JsonV)>) -> Seq<(Seq<char>, JsonV)>
    decreases ms,
{
    if ms.len() == 0 {
        Seq::empty()
    } else {
        let acc = norm_members(ms.subrange(0, ms.len() - 1));
        if kept_key(ms[ms.len() - 1].0) {
            btree_insert(acc, ms[ms.len() - 1].0, norm(ms[ms.len() - 1].1))
        } else {
            acc
        }
    }
}

/// Member names in strictly increasing order.
pub open spec fn names_sorted(s: Seq<(Seq<char>, JsonV)>) -> bool {
    forall|i: int, j: int| 0 <= i < j < s.len() ==> text_lt(#[trigger] s[i].0, #[trigger] s[j].0)
}

/// The values of array items, one by one.
pub proof fn lemma_jv_items(s: Seq<Json>)
    ensures
        jv_items(s).len() == s.len(),
        forall|i: int| 0 <= i < s.len() ==> #[trigger] jv_items(s)[i] == jv(s[i]),
    decreases s.len(),
{
    if s.len() > 0 {
        lemma_jv_items(s.subrange(0, s.len() - 1));
    }
}

/// The values of object members, one by one.
pub proof fn lemma_jv_members(s: Seq<(String, Json)>)
    ensures
        jv_members(s).len() == s.len(),
        forall|i: int| 0 <= i < s.len() ==> #[trigger] jv_members(s)[i] == (s[i].0@, jv(s[i].1)),
    decreases s.len(),
{
    if s.len() > 0 {
        lemma_jv_members(s.subrange(0, s.len() - 1));
    }
}

pub proof fn lemma_btree_insert_at(s: Seq<(Seq<char>, JsonV)>, k: Seq<char>, v: JsonV, p: int)
    requires
        names_sorted(s),
        0 <= p <= s.len(),
        forall|q: int| 0 <= q < p ==> text_lt(#[trigger] s[q].0, k),
        p < s.len() ==> !text_lt(s[p].0, k),
    ensures
        btree_insert(s, k, v) == if p < s.len() && s[p].0 == k {
            s.update(p, (k, v))
        } else {
            s.insert(p, (k, v))
        },
        names_sorted(btree_insert(s, k, v)),
    decreases s.len(),
{
    if s.len() == 0 {
        assert(seq![(k, v)] =~= s.insert(0, (k, v)));
    } else if p == 0 {
        if s[0].0 == k {
            assert forall|i: int, j: int| 0 <= i < j < s.len() implies text_lt(#[trigger] s.update(0, (k, v))[i].0, #[trigger] s.update(0, (k, v))[j].0) by {
                assert(s[i].0 == s.update(0, (k, v))[i].0);
            }
        } else {
            lemma_lt_total(s[0].0, k);
            assert(seq![(k, v)] + s =~= s.insert(0, (k, v)));
            let t = s.insert(0, (k, v));
            assert forall|i: int, j: int| 0 <= i < j < t.len() implies text_lt(#[trigger] t[i].0, #[trigger] t[j].0) by {
                if i == 0 {
                    if j > 1 {
                        lemma_lt_transitive(k, s[0].0, s[j - 1].0);
                    }
                } else {
                    assert(t[i] == s[i - 1] && t[j] == s[j - 1]);
                }
            }
        }
    } else {
        let d = s.drop_first();
        assert(names_sorted(d)) by {
            assert forall|i: int, j: int| 0 <= i < j < d.len() implies text_lt(#[trigger] d[i].0, #[trigger] d[j].0) by {
                assert(d[i] == s[i + 1] && d[j] == s[j + 1]);
            }
        }
        assert forall|q: int| 0 <= q < p - 1 implies text_lt(#[trigger] d[q].0, k) by {
            assert(d[q] == s[q + 1]);
        }
        lemma_btree_insert_at(d, k, v, p - 1);
        lemma_lt_irreflexive(k);
        assert(s[0].0 != k);
        if text_lt(k, s[0].0) {
            lemma_lt_transitive(k, s[0].0, k);
        }
        let r = btree_insert(d, k, v);
        if p < s.len() && s[p].0 == k {
            assert(seq![s[0]] + d.update(p - 1, (k, v)) =~= s.update(p, (k, v)));
        } else {
            assert(seq![s[0]] + d.insert(p - 1, (k, v)) =~= s.insert(p, (k, v)));
        }
        let t = seq![s[0]] + r;
        assert forall|i: int, j: int| 0 <= i < j < t.len() implies text_lt(#[trigger] t[i].0, #[trigger] t[j].0) by {
            if i == 0 {
                assert(t[j] == r[j - 1]);
                if p < s.len() && s[p].0 == k {
                    assert(r[j - 1] == d.update(p - 1, (k, v))[j - 1]);
                    if j - 1 != p - 1 {
                        assert(r[j - 1] == d[j - 1]);
                        assert(d[j - 1] == s[j]);
                    } else {
                        assert(s[p].0 == k);
                    }
                } else {
                    assert(r[j - 1] == d.insert(p - 1, (k, v))[j - 1]);
                    if j - 1 < p - 1 {
                        assert(r[j - 1] == d[j - 1]);
                        assert(d[j - 1] == s[j]);
                    } else if j - 1 > p - 1 {
                        assert(r[j - 1] == d[j - 2]);
                        assert(d[j - 2] == s[j - 1]);
                    }
                }
            } else {
                assert(t[i] == r[i - 1] && t[j] == r[j - 1]);
            }
        }
    }
}

/// Puts `(k, v)` into members sorted by name, replacing the value of a
/// member named `k`.
pub fn sorted_put(acc: &mut Vec<(String, Json)>, k: String, v: Json)
    requires
        names_sorted(jv_members(old(acc)@)),
    ensures
        jv_members(final(acc)@) == btree_insert(jv_members(old(acc)@), k@, v@),
        names_sorted(jv_members(final(acc)@)),
{
    let ghost s = jv_members(acc@);
    proof {
        lemma_jv_members(acc@);
    }
    let mut p: usize = 0;
    while p < acc.len() && text_less(acc[p].0.as_str(), k.as_str())
        invariant
            p <= acc@.len(),
            s == jv_members(acc@),
            s.len() == acc@.len(),
            forall|i: int| 0 <= i < acc@.len() ==> #[trigger] s[i] == (acc@[i].0@, jv(acc@[i].1)),
            forall|q: int| 0 <= q < p ==> text_lt(#[trigger] s[q].0, k@),
        decreases acc.len() - p,
    {
        p = p + 1;
    }
    proof {
        lemma_btree_insert_at(s, k@, v@, p as int);
    }
    let ghost a0 = acc@;
    if p < acc.len() && str_eq(acc[p].0.as_str(), k.as_str()) {
        acc.set(p, (k, v));
        proof {
            lemma_jv_members(acc@);
            assert(jv_members(acc@) =~= s.update(p as int, (k@, v@)));
        }
    } else {
        let ghost kv = k@;
        let ghost vv = v@;
        acc.insert(p, (k, v));
        proof {
            lemma_jv_members(acc@);
            assert(acc@ == a0.insert(p as int, acc@[p as int]));
            assert forall|i: int| 0 <= i < acc@.len() implies #[trigger] jv_members(acc@)[i] == s.insert(p as int, (kv, vv))[i] by {
                if i < p {
                    assert(acc@[i] == a0[i]);
                } else if i > p {
                    assert(acc@[i] == a0[i - 1]);
                }
            }
            assert(jv_members(acc@) =~= s.insert(p as int, (kv, vv)));
        }
    }
}

/// A copy of a value without descriptions, titles and `x-` extensions, its
/// members sorted by name.
pub fn normalize(v: &Json) -> (r: Json)
    ensures
        r@ == norm(v@),
    decreases v,
{
    match v {
        Json::Null => Json::Null,
        Json::Bool(b) => Json::Bool(*b),
        Json::Number(n) => Json::Number(n.clone()),
        Json::Str(s) => Json::Str(s.clone()),
        Json::Array(items) => {
            let ghost iv = jv_items(items@);
            proof {
                lemma_jv_items(items@);
            }
            let mut out: Vec<Json> = Vec::new();
            let mut i: usize = 0;
            proof {
                assert(iv.subrange(0, 0) =~= Seq::<JsonV>::empty());
                lemma_jv_items(out@);
            }
            while i < items.len()
                invariant
                    i <= items@.len(),
                    *v == Json::Array(*items),
                    iv == jv_items(items@),
                    iv.len() == items@.len(),
                    forall|q: int| 0 <= q < items@.len() ==> #[trigger] iv[q] == jv(items@[q]),
                    jv_items(out@) == norm_items(iv.subrange(0, i as int)),
                decreases items.len() - i,
            {
                proof {
                    assert((*v)->Array_0 == *items);
                    assert(decreases_to!(*v => (*v)->Array_0));
                    assert(decreases_to!((*v)->Array_0 => (*v)->Array_0@));
                    assert(decreases_to!(items@ => items@[i as int]));
                    assert(decreases_to!(*v => items@[i as int]));
                }
                let n = normalize(&items[i]);
                let ghost before = out@;
                out.push(n);
                proof {
                    lemma_jv_items(before);
                    lemma_jv_items(out@);
                    assert(iv.subrange(0, i + 1).subrange(0, i as int) =~= iv.subrange(0, i as int));
                    assert(iv.subrange(0, i + 1)[i as int] == iv[i as int]);
                    assert(jv_items(out@) =~= jv_items(before).push(n@));
                }
                i = i + 1;
            }
            proof {
                assert(iv.subrange(0, items@.len() as int) =~= iv);
            }
            Json::Array(out)
        },
        Json::Object(ms) => {
            let ghost mv = jv_members(ms@);
            proof {
                lemma_jv_members(ms@);
            }
            let mut acc: Vec<(String, Json)> = Vec::new();
            let mut i: usize = 0;
            proof {
                assert(mv.subrange(0, 0) =~= Seq::<(Seq<char>, JsonV)>::empty());
                lemma_jv_members(acc@);
            }
            while i < ms.len()
                invariant
                    i <= ms@.len(),
                    *v == Json::Object(*ms),
                    mv == jv_members(ms@),
                    mv.len() == ms@.len(),
                    forall|q: int| 0 <= q < ms@.len() ==> #[trigger] mv[q] == (ms@[q].0@, jv(ms@[q].1)),
                    jv_members(acc@) == norm_members(mv.subrange(0, i as int)),
                    names_sorted(jv_members(acc@)),
                decreases ms.len() - i,
            {
                proof {
                    assert(mv.subrange(0, i + 1).subrange(0, i as int) =~= mv.subrange(0, i as int));
                    assert(mv.subrange(0, i + 1)[i as int] == mv[i as int]);
                }
                let name = chars_of(ms[i].0.as_str());
                let keep = !str_eq(ms[i].0.as_str(), "description") && !str_eq(ms[i].0.as_str(), "title") && !chars_start(
                    name.as_slice(),
                    "x-",
                );
                if keep {
                    proof {
                        assert((*v)->Object_0 == *ms);
                        assert(decreases_to!(*v => (*v)->Object_0));
                        assert(decreases_to!((*v)->Object_0 => (*v)->Object_0@));
                        assert(decreases_to!(ms@ => ms@[i as int]));
                        assert(decreases_to!(ms@[i as int] => ms@[i as int].1));
                        assert(decreases_to!(*v => ms@[i as int].1));
                    }
                    let n = normalize(&ms[i].1);
                    sorted_put(&mut acc, ms[i].0.clone(), n);
                }
                i = i + 1;
            }
            proof {
                assert(mv.subrange(0, ms@.len() as int) =~= mv);
            }
            Json::Object(acc)
        },
    }
}


#[verifier::external_type_specification]
#[verifier::external_body]
pub struct ExJsonValue(serde_json::Value);

/// The compact JSON text of a value, as `serde_json::to_string` writes it.
pub uninterp spec fn compact_json(v: JsonV) -> Seq<char>;

/// The `serde_json` value of a document: one for one, numbers from their
/// text.
#[verifier::external_body]
pub(crate) fn serde_value(v: &Json) -> serde_json::Value {
    match v {
        Json::Null => serde_json::Value::Null,
        Json::Bool(b) => serde_json::Value::Bool(*b),
        Json::Number(n) => n.parse::<serde_json::Number>().map(serde_json::Value::Number).unwrap_or(serde_json::Value::Null),
        Json::Str(s) => serde_json::Value::String(s.clone()),
        Json::Array(a) => serde_json::Value::Array(a.iter().map(serde_value).collect()),
        Json::Object(ms) => serde_json::Value::Object(ms.iter().map(|(k, x)| (k.clone(), serde_value(x))).collect()),
    }
}

/// `serde_json::to_string` of a document. Claims only that the text is a
/// function of the document's value (`compact_json`); what the text is, is
/// `serde_json`'s to say.
#[verifier::external_body]
fn compact_text(v: &Json) -> (res: String)
    ensures
        res@ == compact_json(v@),
{
    serde_json::to_string(&serde_value(v)).unwrap_or_default()
}

/// The JSON text of a value's shape: the value without descriptions,
/// titles and `x-` extensions, members sorted by name, written compactly.
pub fn normalize_for_hash(v: &Json) -> (res: String)
    ensures
        res@ == compact_json(norm(v@)),
{
    let n = normalize(v);
    compact_text(&n)
}

/// The hash std's default hasher gives a text: `Hash` for `str` writes its
/// bytes, then the byte `0xff`.
pub open spec fn text_hash(bytes: Seq<u8>) -> u64 {
    std::collections::hash_map::DefaultHasher::spec_finish(seq![bytes, seq![0xffu8]])
}

/// The hash of a text under std's default hasher, as `str`'s `Hash` feeds it.
pub fn shape_hash(text: &str) -> (h: u64)
    ensures
        h == text_hash(vstd::utf8::encode_utf8(text@)),
{
    let mut hasher = std::collections::hash_map::DefaultHasher::new();
    hasher.write(text.as_bytes());
    let mut end: Vec<u8> = Vec::new();
    end.push(0xffu8);
    hasher.write(end.as_slice());
    proof {
        assert(end@ =~= seq![0xffu8]);
        assert(hasher@ =~= seq![vstd::utf8::encode_utf8(text@), seq![0xffu8]]);
    }
    hasher.finish()
}

/// One step of turning `snake_case` or `kebab-case` into `PascalCase`: the
/// text so far and whether the next letter starts a word.
pub open spec fn pascal_step(acc: (Seq<char>, bool), c: char) -> (Seq<char>, bool) {
    if c == '_' || c == '-' {
        (acc.0, true)
    } else if acc.1 {
        (acc.0 + uppercase(seq![c]), false)
    } else {
        (acc.0.push(c), false)
    }
}

/// The scan of `s` for `pascal`.
pub open spec fn pascal_scan(s: Seq<char>) -> (Seq<char>, bool)
    decreases s.len(),
{
    if s.len() == 0 {
        (Seq::empty(), true)
    } else {
        pascal_step(pascal_scan(s.drop_last()), s.last())
    }
}

/// `s` split at `_` and `-`, each word's first letter uppercased, joined.
pub open spec fn pascal(s: Seq<char>) -> Seq<char> {
    pascal_scan(s).0
}

/// `snake_case` or `kebab-case` to `PascalCase`: words split at `_` and
/// `-`, each starting with its first letter uppercased.
pub fn pascal_case(s: &str) -> (res: String)
    ensures
        res@ == pascal(s@),
{
    let cs = chars_of(s);
    let mut out: Vec<char> = Vec::new();
    let mut start = true;
    let mut i: usize = 0;
    proof {
        assert(cs@.take(0) =~= Seq::<char>::empty());
    }
    while i < cs.len()
        invariant
            i <= cs@.len(),
            cs@ == s@,
            (out@, start) == pascal_scan(cs@.take(i as int)),
        decreases cs.len() - i,
    {
        let c = cs[i];
        proof {
            assert(cs@.take(i + 1).drop_last() =~= cs@.take(i as int));
            assert(cs@.take(i + 1).last() == c);
        }
        if c == '_' || c == '-' {
            start = true;
        } else if start {
            let mut one: Vec<char> = Vec::new();
            one.push(c);
            proof {
                assert(one@ =~= seq![c]);
            }
            let up = uppercase_chars(one.as_slice());
            let mut j: usize = 0;
            let ghost o0 = out@;
            while j < up.len()
                invariant
                    j <= up@.len(),
                    out@ == o0 + up@.take(j as int),
                decreases up.len() - j,
            {
                out.push(up[j]);
                proof {
                    assert(up@.take(j + 1) =~= up@.take(j as int).push(up@[j as int]));
                    assert(out@ =~= o0 + up@.take(j + 1));
                }
                j = j + 1;
            }
            proof {
                assert(up@.take(up@.len() as int) =~= up@);
            }
            start = false;
        } else {
            out.push(c);
            start = false;
        }
        i = i + 1;
    }
    proof {
        assert(cs@.take(cs@.len() as int) =~= cs@);
    }
    crate::text::string_from_chars(out.as_slice())
}

} // verus!
