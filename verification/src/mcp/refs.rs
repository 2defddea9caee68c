//! The references a registry schema makes, found by walking the whole document.

use vstd::prelude::*;
use crate::json::{Json, member};
use crate::mcp::graph::{EdgeKind, normalize_ref, registry_ref};
use crate::schemas::refs::{lemma_member_pos, member_index, member_pos};
use crate::text::{chars_is, chars_of, chars_start, owned, starts_with_spec};

verus! {

/// The edge of kind `k` made by the `$ref` member among `ms`, unless the
/// reference is within the file.
pub open spec fn member_ref(ms: Seq<(String, Json)>, current: Seq<char>, k: EdgeKind) -> Seq<(Seq<char>, EdgeKind)> {
    match member(ms, "$ref"@) {
        Some(Json::Str(r)) => if !starts_with_spec(r@, "#"@) {
            seq![(registry_ref(current, r@), k)]
        } else {
            Seq::empty()
        },
        _ => Seq::empty(),
    }
}

/// The edge of kind `k` made by the `$ref` of a value, when it is an object.
pub open spec fn value_ref(v: Json, current: Seq<char>, k: EdgeKind) -> Seq<(Seq<char>, EdgeKind)> {
    match v {
        Json::Object(ms) => member_ref(ms@, current, k),
        _ => Seq::empty(),
    }
}

/// Whether a member key is handled on its own rather than by the general walk.
pub open spec fn handled_key(k: Seq<char>) -> bool {
    ||| k == "$ref"@
    ||| k == "allOf"@
    ||| k == "oneOf"@
    ||| k == "anyOf"@
    ||| k == "items"@
    ||| k == "additionalProperties"@
    ||| k == "properties"@
}

/// Every reference in a schema document, in the order of the walk: an
/// object's own `$ref`; the items of its `allOf`, `oneOf` and `anyOf` (each
/// item's `$ref` under that keyword, then everything inside the item); its
/// `items` and `additionalProperties` likewise; its properties likewise; then
/// everything inside its other members. The items of an array are walked in
/// turn. References within the file (`#...`) make no edge.
pub open spec fn doc_refs(j: Json, cur: Seq<char>) -> Seq<(Seq<char>, EdgeKind)>
    decreases j, 1nat,
{
    match j {
        Json::Object(ms) => {
            proof {
                assert(decreases_to!(j => j->Object_0));
            }
            obj_refs(ms@, cur)
        },
        Json::Array(a) => {
            proof {
                assert(decreases_to!(j => j->Array_0));
            }
            arr_refs(a@, cur)
        },
        _ => Seq::empty(),
    }
}

/// The references of an object's members.
pub open spec fn obj_refs(ms: Seq<(String, Json)>, cur: Seq<char>) -> Seq<(Seq<char>, EdgeKind)>
    decreases ms, 1nat,
{
    member_ref(ms, cur, EdgeKind::Ref) + listed_refs(ms, "allOf"@, cur, EdgeKind::AllOf) + listed_refs(
        ms,
        "oneOf"@,
        cur,
        EdgeKind::OneOf,
    ) + listed_refs(ms, "anyOf"@, cur, EdgeKind::AnyOf) + sub_refs(ms, "items"@, cur, EdgeKind::Items) + sub_refs(
        ms,
        "additionalProperties"@,
        cur,
        EdgeKind::AdditionalProperties,
    ) + property_refs(ms, cur) + other_refs(ms, cur)
}

/// The references under a keyword whose value is an array of schemas.
pub open spec fn listed_refs(ms: Seq<(String, Json)>, key: Seq<char>, cur: Seq<char>, k: EdgeKind) -> Seq<(Seq<char>, EdgeKind)>
    decreases ms, 0nat,
{
    match member_pos(ms, key) {
        Some(i) => if 0 <= i < ms.len() && ms[i].1 is Array {
            proof {
                assert(decreases_to!(ms => ms[i]));
                assert(decreases_to!(ms[i] => ms[i].1));
                assert(decreases_to!(ms[i].1 => ms[i].1->Array_0));
            }
            tagged_items(ms[i].1->Array_0@, cur, k)
        } else {
            Seq::empty()
        },
        None => Seq::empty(),
    }
}

/// The references under a keyword whose value is one schema.
pub open spec fn sub_refs(ms: Seq<(String, Json)>, key: Seq<char>, cur: Seq<char>, k: EdgeKind) -> Seq<(Seq<char>, EdgeKind)>
    decreases ms, 0nat,
{
    match member_pos(ms, key) {
        Some(i) => if 0 <= i < ms.len() {
            proof {
                assert(decreases_to!(ms => ms[i]));
                assert(decreases_to!(ms[i] => ms[i].1));
            }
            value_ref(ms[i].1, cur, k) + doc_refs(ms[i].1, cur)
        } else {
            Seq::empty()
        },
        None => Seq::empty(),
    }
}

/// The references under `properties`, when it is an object.
pub open spec fn property_refs(ms: Seq<(String, Json)>, cur: Seq<char>) -> Seq<(Seq<char>, EdgeKind)>
    decreases ms, 0nat,
{
    match member_pos(ms, "properties"@) {
        Some(i) => if 0 <= i < ms.len() && ms[i].1 is Object {
            proof {
                assert(decreases_to!(ms => ms[i]));
                assert(decreases_to!(ms[i] => ms[i].1));
                assert(decreases_to!(ms[i].1 => ms[i].1->Object_0));
            }
            tagged_members(ms[i].1->Object_0@, cur)
        } else {
            Seq::empty()
        },
        None => Seq::empty(),
    }
}

/// For each item: its `$ref` as an edge of kind `k`, then its references.
pub open spec fn tagged_items(a: Seq<Json>, cur: Seq<char>, k: EdgeKind) -> Seq<(Seq<char>, EdgeKind)>
    decreases a, 0nat,
{
    if a.len() == 0 {
        Seq::empty()
    } else {
        proof {
            assert(decreases_to!(a => a[a.len() - 1]));
            assert(decreases_to!(a => a.subrange(0, a.len() - 1)));
        }
        tagged_items(a.drop_last(), cur, k) + value_ref(a.last(), cur, k) + doc_refs(a.last(), cur)
    }
}

/// For each property: its `$ref` as a property edge, then its references.
pub open spec fn tagged_members(ps: Seq<(String, Json)>, cur: Seq<char>) -> Seq<(Seq<char>, EdgeKind)>
    decreases ps, 0nat,
{
    if ps.len() == 0 {
        Seq::empty()
    } else {
        proof {
            assert(decreases_to!(ps => ps[ps.len() - 1]));
            assert(decreases_to!(ps[ps.len() - 1] => ps[ps.len() - 1].1));
            assert(decreases_to!(ps => ps.subrange(0, ps.len() - 1)));
        }
        tagged_members(ps.drop_last(), cur) + value_ref(ps.last().1, cur, EdgeKind::Property) + doc_refs(
            ps.last().1,
            cur,
        )
    }
}

/// The references inside the members not handled on their own.
pub open spec fn other_refs(ms: Seq<(String, Json)>, cur: Seq<char>) -> Seq<(Seq<char>, EdgeKind)>
    decreases ms, 0nat,
{
    if ms.len() == 0 {
        Seq::empty()
    } else {
        proof {
            assert(decreases_to!(ms => ms[ms.len() - 1]));
            assert(decreases_to!(ms[ms.len() - 1] => ms[ms.len() - 1].1));
            assert(decreases_to!(ms => ms.subrange(0, ms.len() - 1)));
        }
        other_refs(ms.drop_last(), cur) + if handled_key(ms.last().0@) {
            Seq::empty()
        } else {
            doc_refs(ms.last().1, cur)
        }
    }
}

/// The references inside the items of an array.
pub open spec fn arr_refs(a: Seq<Json>, cur: Seq<char>) -> Seq<(Seq<char>, EdgeKind)>
    decreases a, 0nat,
{
    if a.len() == 0 {
        Seq::empty()
    } else {
        proof {
            assert(decreases_to!(a => a[a.len() - 1]));
            assert(decreases_to!(a => a.subrange(0, a.len() - 1)));
        }
        arr_refs(a.drop_last(), cur) + doc_refs(a.last(), cur)
    }
}

/// Pending edges as plain values: source schema, target and kind.
pub open spec fn pending_view(v: Seq<(String, String, EdgeKind)>) -> Seq<(Seq<char>, Seq<char>, EdgeKind)> {
    v.map_values(|p: (String, String, EdgeKind)| (p.0@, p.1@, p.2))
}

/// Edges from the schema `sid`.
pub open spec fn from_schema(sid: Seq<char>, s: Seq<(Seq<char>, EdgeKind)>) -> Seq<(Seq<char>, Seq<char>, EdgeKind)> {
    s.map_values(|p: (Seq<char>, EdgeKind)| (sid, p.0, p.1))
}

proof fn lemma_from_schema_concat(sid: Seq<char>, a: Seq<(Seq<char>, EdgeKind)>, b: Seq<(Seq<char>, EdgeKind)>)
    ensures
        from_schema(sid, a + b) == from_schema(sid, a) + from_schema(sid, b),
{
    assert(from_schema(sid, a + b) =~= from_schema(sid, a) + from_schema(sid, b));
}

/// Appends the edge of kind `k` made by the `$ref` of `v`.
fn push_value_ref(v: &Json, schema_id: &str, current_path: &str, k: EdgeKind, refs: &mut Vec<(String, String, EdgeKind)>)
    ensures
        pending_view(final(refs)@) == pending_view(old(refs)@) + from_schema(schema_id@, value_ref(*v, current_path@, k)),
{
    let ghost start = pending_view(refs@);
    if let Json::Object(ms) = v {
        if let Some(i) = member_index(ms, "$ref") {
            if let Json::Str(r) = &ms[i].1 {
                proof {
                    lemma_member_pos(ms@, "$ref"@);
                }
                let rv = chars_of(r.as_str());
                if !chars_start(&rv, "#") {
                    let target = normalize_ref(r.as_str(), current_path);
                    refs.push((owned(schema_id), target, k));
                    proof {
                        assert(pending_view(refs@) =~= start + from_schema(schema_id@, value_ref(*v, current_path@, k)));
                    }
                    return;
                }
            }
        }
        proof {
            lemma_member_pos(ms@, "$ref"@);
        }
    }
    proof {
        assert(pending_view(refs@) =~= start + from_schema(schema_id@, value_ref(*v, current_path@, k)));
    }
}

/// Whether a member key is handled on its own.
fn is_handled_key(k: &str) -> (res: bool)
    ensures
        res == handled_key(k@),
{
    let v = chars_of(k);
    chars_is(&v, "$ref") || chars_is(&v, "allOf") || chars_is(&v, "oneOf") || chars_is(&v, "anyOf") || chars_is(
        &v,
        "items",
    ) || chars_is(&v, "additionalProperties") || chars_is(&v, "properties")
}

/// Appends every reference in a schema document as an edge from `schema_id`,
/// in the order of the walk (see `doc_refs`), each target resolved from
/// `current_path`.
pub fn collect_refs(json: &Json, schema_id: &str, current_path: &str, refs: &mut Vec<(String, String, EdgeKind)>)
    ensures
        pending_view(final(refs)@) == pending_view(old(refs)@) + from_schema(schema_id@, doc_refs(*json, current_path@)),
    decreases json, 1nat,
{
    let ghost start = pending_view(refs@);
    let ghost sid = schema_id@;
    let ghost cur = current_path@;
    match json {
        Json::Array(a) => {
            let mut j: usize = 0;
            proof {
                assert(a@.take(0) =~= Seq::<Json>::empty());
                assert(pending_view(refs@) =~= start + from_schema(sid, arr_refs(a@.take(0), cur)));
            }
            while j < a.len()
                invariant
                    j <= a.len(),
                    *json is Array,
                    json->Array_0 == *a,
                    sid == schema_id@,
                    cur == current_path@,
                    pending_view(refs@) == start + from_schema(sid, arr_refs(a@.take(j as int), cur)),
                decreases a.len() - j,
            {
                proof {
                    assert(decreases_to!(*json => json->Array_0));
                    assert(decreases_to!(json->Array_0 => a@));
                    assert(decreases_to!(a@ => a@[j as int]));
                }
                collect_refs(&a[j], schema_id, current_path, refs);
                proof {
                    let t = a@.take(j as int + 1);
                    assert(t.drop_last() =~= a@.take(j as int));
                    assert(t.last() == a@[j as int]);
                    lemma_from_schema_concat(sid, arr_refs(a@.take(j as int), cur), doc_refs(a@[j as int], cur));
                }
                j = j + 1;
            }
            proof {
                assert(a@.take(a@.len() as int) =~= a@);
            }
        },
        Json::Object(ms) => {
            collect_object_refs(json, ms, schema_id, current_path, refs);
        },
        _ => {
            proof {
                assert(pending_view(refs@) =~= start + from_schema(sid, doc_refs(*json, cur)));
            }
        },
    }
}

/// Appends the references of an object schema.
fn collect_object_refs(
    json: &Json,
    ms: &Vec<(String, Json)>,
    schema_id: &str,
    current_path: &str,
    refs: &mut Vec<(String, String, EdgeKind)>,
)
    requires
        *json == Json::Object(*ms),
    ensures
        pending_view(final(refs)@) == pending_view(old(refs)@) + from_schema(schema_id@, obj_refs(ms@, current_path@)),
    decreases json, 0nat,
{
    let ghost start = pending_view(refs@);
    let ghost sid = schema_id@;
    let ghost cur = current_path@;
    let ghost msv = ms@;
    // the object's own reference
    push_value_ref(json, schema_id, current_path, EdgeKind::Ref, refs);
    let ghost mut acc: Seq<(Seq<char>, EdgeKind)> = member_ref(msv, cur, EdgeKind::Ref);
    // allOf, oneOf, anyOf
    let mut c: usize = 0;
    while c < 3
        invariant
            c <= 3,
            *json == Json::Object(*ms),
            msv == ms@,
            sid == schema_id@,
            cur == current_path@,
            pending_view(refs@) == start + from_schema(sid, acc),
            acc == member_ref(msv, cur, EdgeKind::Ref)
                + (if c >= 1 { listed_refs(msv, "allOf"@, cur, EdgeKind::AllOf) } else { Seq::empty() })
                + (if c >= 2 { listed_refs(msv, "oneOf"@, cur, EdgeKind::OneOf) } else { Seq::empty() })
                + (if c >= 3 { listed_refs(msv, "anyOf"@, cur, EdgeKind::AnyOf) } else { Seq::empty() }),
        decreases 3 - c,
    {
        let (key, kind) = if c == 0 {
            ("allOf", EdgeKind::AllOf)
        } else if c == 1 {
            ("oneOf", EdgeKind::OneOf)
        } else {
            ("anyOf", EdgeKind::AnyOf)
        };
        let ghost before = acc;
        if let Some(i) = member_index(ms, key) {
            if let Json::Array(a) = &ms[i].1 {
                let mut j: usize = 0;
                proof {
                    assert(tagged_items(a@.take(0), cur, kind) =~= Seq::<(Seq<char>, EdgeKind)>::empty());
                    assert(before + tagged_items(a@.take(0), cur, kind) =~= before);
                }
                while j < a.len()
                    invariant
                        j <= a.len(),
                        i < ms.len(),
                        ms[i as int].1 is Array,
                        ms[i as int].1->Array_0 == *a,
                        *json == Json::Object(*ms),
                        sid == schema_id@,
                        cur == current_path@,
                        pending_view(refs@) == start + from_schema(sid, before + tagged_items(a@.take(j as int), cur, kind)),
                    decreases a.len() - j,
                {
                    proof {
                        assert(decreases_to!(*json => json->Object_0));
                        assert(decreases_to!(json->Object_0 => ms@));
                        assert(decreases_to!(ms@ => ms@[i as int]));
                        assert(decreases_to!(ms@[i as int] => ms@[i as int].1));
                        assert(decreases_to!(ms@[i as int].1 => ms@[i as int].1->Array_0));
                        assert(decreases_to!(ms@[i as int].1->Array_0 => a@));
                        assert(decreases_to!(a@ => a@[j as int]));
                    }
                    let ghost mid = before + tagged_items(a@.take(j as int), cur, kind);
                    push_value_ref(&a[j], schema_id, current_path, kind, refs);
                    collect_refs(&a[j], schema_id, current_path, refs);
                    proof {
                        let t = a@.take(j as int + 1);
                        assert(t.drop_last() =~= a@.take(j as int));
                        assert(t.last() == a@[j as int]);
                        let vr = value_ref(a@[j as int], cur, kind);
                        let dr = doc_refs(a@[j as int], cur);
                        lemma_from_schema_concat(sid, mid, vr);
                        lemma_from_schema_concat(sid, mid + vr, dr);
                        assert(mid + vr + dr =~= before + tagged_items(t, cur, kind));
                    }
                    j = j + 1;
                }
                proof {
                    assert(a@.take(a@.len() as int) =~= a@);
                }
            }
        }
        proof {
            lemma_member_pos(msv, key@);
            reveal_strlit("allOf");
            reveal_strlit("oneOf");
            reveal_strlit("anyOf");
            let piece = listed_refs(msv, key@, cur, kind);
            if !(pending_view(refs@) == start + from_schema(sid, before + piece)) {
                assert(pending_view(refs@) =~= start + from_schema(sid, before));
                assert(piece =~= Seq::<(Seq<char>, EdgeKind)>::empty());
                assert(before + piece =~= before);
            }
            acc = before + piece;
        }
        c = c + 1;
    }
    // items and additionalProperties
    let mut c2: usize = 0;
    while c2 < 2
        invariant
            c2 <= 2,
            *json == Json::Object(*ms),
            msv == ms@,
            sid == schema_id@,
            cur == current_path@,
            pending_view(refs@) == start + from_schema(sid, acc),
            acc == member_ref(msv, cur, EdgeKind::Ref) + listed_refs(msv, "allOf"@, cur, EdgeKind::AllOf)
                + listed_refs(msv, "oneOf"@, cur, EdgeKind::OneOf) + listed_refs(msv, "anyOf"@, cur, EdgeKind::AnyOf)
                + (if c2 >= 1 { sub_refs(msv, "items"@, cur, EdgeKind::Items) } else { Seq::empty() })
                + (if c2 >= 2 { sub_refs(msv, "additionalProperties"@, cur, EdgeKind::AdditionalProperties) } else { Seq::empty() }),
        decreases 2 - c2,
    {
        let (key, kind) = if c2 == 0 {
            ("items", EdgeKind::Items)
        } else {
            ("additionalProperties", EdgeKind::AdditionalProperties)
        };
        let ghost before = acc;
        if let Some(i) = member_index(ms, key) {
            proof {
                assert(decreases_to!(*json => json->Object_0));
                assert(decreases_to!(json->Object_0 => ms@));
                assert(decreases_to!(ms@ => ms@[i as int]));
                assert(decreases_to!(ms@[i as int] => ms@[i as int].1));
            }
            push_value_ref(&ms[i].1, schema_id, current_path, kind, refs);
            collect_refs(&ms[i].1, schema_id, current_path, refs);
            proof {
                let vr = value_ref(ms@[i as int].1, cur, kind);
                let dr = doc_refs(ms@[i as int].1, cur);
                lemma_from_schema_concat(sid, before, vr);
                lemma_from_schema_concat(sid, before + vr, dr);
                lemma_from_schema_concat(sid, before, vr + dr);
                assert(before + vr + dr =~= before + (vr + dr));
                lemma_member_pos(msv, key@);
                reveal_strlit("items");
                reveal_strlit("additionalProperties");
                assert(sub_refs(msv, key@, cur, kind) == vr + dr);
                assert(pending_view(refs@) =~= start + from_schema(sid, before + sub_refs(msv, key@, cur, kind)));
            }
        }
        proof {
            lemma_member_pos(msv, key@);
            reveal_strlit("items");
            reveal_strlit("additionalProperties");
            let piece = sub_refs(msv, key@, cur, kind);
            if !(pending_view(refs@) == start + from_schema(sid, before + piece)) {
                assert(pending_view(refs@) =~= start + from_schema(sid, before));
                assert(piece =~= Seq::<(Seq<char>, EdgeKind)>::empty());
                assert(before + piece =~= before);
            }
            acc = before + piece;
        }
        c2 = c2 + 1;
    }
    // properties
    let ghost before_props = acc;
    if let Some(i) = member_index(ms, "properties") {
        if let Json::Object(ps) = &ms[i].1 {
            let mut j: usize = 0;
            proof {
                assert(tagged_members(ps@.take(0), cur) =~= Seq::<(Seq<char>, EdgeKind)>::empty());
                assert(before_props + tagged_members(ps@.take(0), cur) =~= before_props);
            }
            while j < ps.len()
                invariant
                    j <= ps.len(),
                    i < ms.len(),
                    ms[i as int].1 is Object,
                    ms[i as int].1->Object_0 == *ps,
                    *json == Json::Object(*ms),
                    sid == schema_id@,
                    cur == current_path@,
                    pending_view(refs@) == start + from_schema(sid, before_props + tagged_members(ps@.take(j as int), cur)),
                decreases ps.len() - j,
            {
                proof {
                    assert(decreases_to!(*json => json->Object_0));
                    assert(decreases_to!(json->Object_0 => ms@));
                    assert(decreases_to!(ms@ => ms@[i as int]));
                    assert(decreases_to!(ms@[i as int] => ms@[i as int].1));
                    assert(decreases_to!(ms@[i as int].1 => ms@[i as int].1->Object_0));
                    assert(decreases_to!(ms@[i as int].1->Object_0 => ps@));
                    assert(decreases_to!(ps@ => ps@[j as int]));
                    assert(decreases_to!(ps@[j as int] => ps@[j as int].1));
                }
                let ghost mid = before_props + tagged_members(ps@.take(j as int), cur);
                push_value_ref(&ps[j].1, schema_id, current_path, EdgeKind::Property, refs);
                collect_refs(&ps[j].1, schema_id, current_path, refs);
                proof {
                    let t = ps@.take(j as int + 1);
                    assert(t.drop_last() =~= ps@.take(j as int));
                    assert(t.last() == ps@[j as int]);
                    let vr = value_ref(ps@[j as int].1, cur, EdgeKind::Property);
                    let dr = doc_refs(ps@[j as int].1, cur);
                    lemma_from_schema_concat(sid, mid, vr);
                    lemma_from_schema_concat(sid, mid + vr, dr);
                    assert(mid + vr + dr =~= before_props + tagged_members(t, cur));
                }
                j = j + 1;
            }
            proof {
                assert(ps@.take(ps@.len() as int) =~= ps@);
            }
        }
    }
    proof {
        lemma_member_pos(msv, "properties"@);
        let piece = property_refs(msv, cur);
        if !(pending_view(refs@) == start + from_schema(sid, before_props + piece)) {
            assert(pending_view(refs@) =~= start + from_schema(sid, before_props));
            assert(piece =~= Seq::<(Seq<char>, EdgeKind)>::empty());
            assert(before_props + piece =~= before_props);
        }
    }
    // the other members
    let ghost before_rest = before_props + property_refs(msv, cur);
    let mut j: usize = 0;
    proof {
        assert(other_refs(ms@.take(0), cur) =~= Seq::<(Seq<char>, EdgeKind)>::empty());
        assert(before_rest + other_refs(ms@.take(0), cur) =~= before_rest);
    }
    while j < ms.len()
        invariant
            j <= ms.len(),
            msv == ms@,
            *json == Json::Object(*ms),
            sid == schema_id@,
            cur == current_path@,
            pending_view(refs@) == start + from_schema(sid, before_rest + other_refs(ms@.take(j as int), cur)),
        decreases ms.len() - j,
    {
        let ghost mid = before_rest + other_refs(ms@.take(j as int), cur);
        proof {
            let t = ms@.take(j as int + 1);
            assert(t.drop_last() =~= ms@.take(j as int));
            assert(t.last() == ms@[j as int]);
        }
        if !is_handled_key(ms[j].0.as_str()) {
            proof {
                assert(decreases_to!(*json => json->Object_0));
                assert(decreases_to!(json->Object_0 => ms@));
                assert(decreases_to!(ms@ => ms@[j as int]));
                assert(decreases_to!(ms@[j as int] => ms@[j as int].1));
            }
            collect_refs(&ms[j].1, schema_id, current_path, refs);
            proof {
                let dr = doc_refs(ms@[j as int].1, cur);
                lemma_from_schema_concat(sid, mid, dr);
                assert(mid + dr =~= before_rest + other_refs(ms@.take(j as int + 1), cur));
            }
        } else {
            proof {
                assert(mid =~= before_rest + other_refs(ms@.take(j as int + 1), cur));
            }
        }
        j = j + 1;
    }
    proof {
        assert(ms@.take(ms@.len() as int) =~= ms@);
        assert(before_rest + other_refs(msv, cur) =~= obj_refs(msv, cur));
    }
}

} // verus!
