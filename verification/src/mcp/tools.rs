//! The queries that agents put to the schema registry.
//!
//! Each query answers with a plain response value; the server at the edge of
//! the program turns the response into JSON text.

use vstd::prelude::*;
use crate::json::{Json, json_get, json_str};
use crate::mcp::graph::{ClosureNode, GeneratedArtifact, LintWarning, SchemaNode, SearchResult, artifact_key, opt_view};
use crate::mcp::registry::{
    SchemaGraph, artifact_id_of, closure_view, expected_type_name, found_count, found_nodes, lookup_all, others, ids_of_kind, import_lines, kind_set, last_pos, matches_of, neighbour_ids,
    result_view, results_of, resolved, sort_by_score, text_groups, texts, warning_view,
};
use crate::order::{keyed_view, lemma_sort_keyed_map, map_keyed, sort_by_keys, sort_keyed, strictly_sorted, texts_of};
use crate::assoc::assoc;
use crate::mcp::shapes::{norm, normalize_for_hash, pascal, pascal_case, shape_hash, text_hash, compact_json};
use crate::text::{concat2, decimal, join, lemma_join_push, str_eq, usize_to_string};

verus! {

/// A query resolved to a schema id, or kept as it is when nothing matches.
pub open spec fn resolve_or(ns: Seq<SchemaNode>, q: Seq<char>) -> Seq<char> {
    match resolved(ns, q) {
        Some(r) => r,
        None => q,
    }
}

/// The ids that the schema `id` references (`outgoing`) or is referenced by.
pub open spec fn neighbours_of(g: SchemaGraph, id: Seq<char>, outgoing: bool) -> Seq<Seq<char>> {
    match last_pos(g.ids(), id) {
        Some(v) => neighbour_ids(g.ids(), g.edges(), v, outgoing),
        None => Seq::empty(),
    }
}


/// The search results for `q`, best first, at most `limit` of them.
pub open spec fn search_of(g: SchemaGraph, q: Seq<char>, limit: int) -> Seq<(Seq<char>, Option<Seq<char>>, Option<Seq<char>>, Seq<char>, i64)> {
    let sorted = sort_by_score(matches_of(g.nodes(), q, g.nodes().len() as int));
    results_of(g.nodes(), sorted.take(if limit < sorted.len() { limit } else { sorted.len() as int }))
}

/// The schema `id` finds, if any.
pub open spec fn node_of(g: SchemaGraph, id: Seq<char>) -> Option<SchemaNode> {
    match last_pos(g.ids(), id) {
        Some(j) => Some(g.nodes()[j]),
        None => None,
    }
}

/// A service reference: the service, the schema id and its kind.
pub open spec fn service_ref(g: SchemaGraph, id: Seq<char>) -> Option<(Seq<char>, Seq<char>, Option<Seq<char>>)> {
    match node_of(g, id) {
        Some(n) => match n.service {
            Some(s) => Some((s@, id, opt_view(n.kind))),
            None => None,
        },
        None => None,
    }
}

/// The service references of the schemas `ids`, in order.
pub open spec fn service_refs(g: SchemaGraph, ids: Seq<Seq<char>>) -> Seq<(Seq<char>, Seq<char>, Option<Seq<char>>)>
    decreases ids.len(),
{
    if ids.len() == 0 {
        Seq::empty()
    } else {
        service_refs(g, ids.drop_last()) + match service_ref(g, ids.last()) {
            Some(r) => seq![r],
            None => Seq::empty(),
        }
    }
}

/// The services that reference a schema: its own first, then those of the
/// schemas that reference it.
pub open spec fn services_of(g: SchemaGraph, id: Seq<char>) -> Seq<(Seq<char>, Seq<char>, Option<Seq<char>>)> {
    (match service_ref(g, id) {
        Some(r) => seq![r],
        None => Seq::empty(),
    }) + service_refs(g, neighbours_of(g, id, false))
}

/// A service reference as plain values.
pub open spec fn service_view(r: ServiceRef) -> (Seq<char>, Seq<char>, Option<Seq<char>>) {
    (r.service@, r.schema_id@, opt_view(r.kind))
}


/// The ids of the schemas that their ids find, in node order.
pub open spec fn all_ids_of(g: SchemaGraph) -> Seq<Seq<char>> {
    found_nodes(g.nodes(), g.nodes().len() as int).map_values(|n: SchemaNode| n.id@)
}

/// Whether the schema `id` is generated as a tagged union.
pub open spec fn node_has_union(g: SchemaGraph, id: Seq<char>) -> bool {
    match node_of(g, id) {
        Some(n) => match n.codegen {
            Some(c) => c.enum_repr is Some,
            None => false,
        },
        None => false,
    }
}

/// `a -> b`.
pub open spec fn edge_text(a: Seq<char>, b: Seq<char>) -> Seq<char> {
    a + " -> "@ + b
}

/// The report entry of reference cycle `idx`: a group of several schemas, or
/// a single schema that references itself. Plain values: index, members,
/// suggested edge to box, whether a member is a union (for groups), and
/// whether it is a self reference.
pub open spec fn cycle_entry(g: SchemaGraph, idx: int, group: Seq<Seq<char>>) -> Option<
    (int, Seq<Seq<char>>, Seq<char>, Option<bool>, bool),
> {
    if group.len() > 1 {
        Some(
            (
                idx,
                group,
                edge_text(group[0], group[1]),
                Some(exists|k: int| 0 <= k < group.len() && node_has_union(g, #[trigger] group[k])),
                false,
            ),
        )
    } else if group.len() == 1 && neighbours_of(g, group[0], true).contains(group[0]) {
        Some((idx, group, edge_text(group[0], group[0]), None, true))
    } else {
        None
    }
}

/// The report entries of the first `n` cycle groups.
pub open spec fn cycle_entries(g: SchemaGraph, groups: Seq<Seq<Seq<char>>>, n: int) -> Seq<
    (int, Seq<Seq<char>>, Seq<char>, Option<bool>, bool),
>
    decreases n,
{
    if n <= 0 {
        Seq::empty()
    } else {
        cycle_entries(g, groups, n - 1) + match cycle_entry(g, n - 1, groups[n - 1]) {
            Some(e) => seq![e],
            None => Seq::empty(),
        }
    }
}

/// A cycle report entry as plain values.
pub open spec fn cycle_view(c: CycleReport) -> (int, Seq<Seq<char>>, Seq<char>, Option<bool>, bool) {
    (c.scc_id as int, texts(c.members@), c.suggested_box_edge@, c.has_unions, c.self_referential)
}

/// Inserts `x` after the entries of degree at least its own.
pub open spec fn insert_by_degree(s: Seq<(int, nat)>, x: (int, nat)) -> Seq<(int, nat)>
    decreases s.len(),
{
    if s.len() == 0 || s.last().1 >= x.1 {
        s.push(x)
    } else {
        insert_by_degree(s.drop_last(), x).push(s.last())
    }
}

/// The entries by descending degree, equal degrees in their first order.
pub open spec fn sort_by_degree(s: Seq<(int, nat)>) -> Seq<(int, nat)>
    decreases s.len(),
{
    if s.len() == 0 {
        s
    } else {
        insert_by_degree(sort_by_degree(s.drop_last()), s.last())
    }
}

/// Each id's position with its in-degree.
pub open spec fn in_degrees(g: SchemaGraph, ids: Seq<Seq<char>>) -> Seq<(int, nat)> {
    Seq::new(ids.len(), |k: int| (k, neighbours_of(g, ids[k], false).len()))
}

/// The `n` schemas most referenced, most referenced first (schemas equally
/// referenced in node order): id, in-degree and out-degree.
pub open spec fn hubs_of(g: SchemaGraph, n: int) -> Seq<(Seq<char>, nat, nat)> {
    let ids = all_ids_of(g);
    let sorted = sort_by_degree(in_degrees(g, ids));
    sorted.take(if n < sorted.len() { n } else { sorted.len() as int }).map_values(
        |e: (int, nat)| (ids[e.0], e.1, neighbours_of(g, ids[e.0], true).len()),
    )
}

/// The kind of the schema `id`, if it is known and has one.
pub open spec fn kind_of(g: SchemaGraph, id: Seq<char>) -> Option<Seq<char>> {
    match node_of(g, id) {
        Some(n) => opt_view(n.kind),
        None => None,
    }
}

/// The derives suggested for a type referenced `in_degree` times.
pub open spec fn hub_derives(in_degree: nat) -> Seq<Seq<char>> {
    if in_degree >= 3 {
        seq!["Eq"@, "Hash"@]
    } else {
        Seq::empty()
    }
}


proof fn lemma_insert_degree_elems(s: Seq<(int, nat)>, x: (int, nat))
    ensures
        insert_by_degree(s, x).len() == s.len() + 1,
        forall|q: int| 0 <= q < s.len() + 1 ==> #[trigger] insert_by_degree(s, x)[q] == x || s.contains(insert_by_degree(s, x)[q]),
    decreases s.len(),
{
    if s.len() == 0 || s.last().1 >= x.1 {
        assert forall|q: int| 0 <= q < s.len() + 1 implies #[trigger] insert_by_degree(s, x)[q] == x || s.contains(insert_by_degree(s, x)[q]) by {
            if q < s.len() {
                assert(s.push(x)[q] == s[q]);
            }
        }
    } else {
        lemma_insert_degree_elems(s.drop_last(), x);
        let r = insert_by_degree(s.drop_last(), x);
        assert forall|q: int| 0 <= q < s.len() + 1 implies #[trigger] insert_by_degree(s, x)[q] == x || s.contains(insert_by_degree(s, x)[q]) by {
            if q < s.len() {
                assert(r.push(s.last())[q] == r[q]);
                if r[q] != x {
                    let j = choose|j: int| 0 <= j < s.drop_last().len() && s.drop_last()[j] == r[q];
                    assert(s[j] == r[q]);
                }
            } else {
                assert(s[s.len() - 1] == s.last());
            }
        }
    }
}

proof fn lemma_sort_degree_elems(s: Seq<(int, nat)>)
    ensures
        sort_by_degree(s).len() == s.len(),
        forall|q: int| 0 <= q < s.len() ==> s.contains(#[trigger] sort_by_degree(s)[q]),
    decreases s.len(),
{
    if s.len() > 0 {
        lemma_sort_degree_elems(s.drop_last());
        let t = sort_by_degree(s.drop_last());
        lemma_insert_degree_elems(t, s.last());
        assert forall|q: int| 0 <= q < s.len() implies s.contains(#[trigger] sort_by_degree(s)[q]) by {
            let y = sort_by_degree(s)[q];
            if y == s.last() {
                assert(s[s.len() - 1] == y);
            } else {
                assert(t.contains(y));
                let j = choose|j: int| 0 <= j < t.len() && t[j] == y;
                let m = choose|m: int| 0 <= m < s.drop_last().len() && s.drop_last()[m] == t[j];
                assert(s[m] == y);
            }
        }
    }
}


/// The first cycle group of several schemas that contains `id`, from `i` on.
pub open spec fn cycle_from(cycles: Seq<Seq<Seq<char>>>, id: Seq<char>, i: int) -> Option<int>
    decreases cycles.len() - i,
{
    if i < 0 || i >= cycles.len() {
        None
    } else if cycles[i].contains(id) && cycles[i].len() > 1 {
        Some(i)
    } else {
        cycle_from(cycles, id, i + 1)
    }
}

/// The ids of a group other than `id`, in order.
pub open spec fn others_than(group: Seq<Seq<char>>, id: Seq<char>) -> Seq<Seq<char>>
    decreases group.len(),
{
    if group.len() == 0 {
        Seq::empty()
    } else {
        others_than(group.drop_last(), id) + if group.last() == id {
            Seq::empty()
        } else {
            seq![group.last()]
        }
    }
}

/// The document of the schema `id`, if it is known.
pub open spec fn raw_of(g: SchemaGraph, id: Seq<char>) -> Option<Json> {
    match last_pos(g.ids(), id) {
        Some(j) => Some(g.raws()[j]),
        None => None,
    }
}

/// The member `key` of the document of the schema `id`.
pub open spec fn raw_member(g: SchemaGraph, id: Seq<char>, key: Seq<char>) -> Option<Json> {
    match raw_of(g, id) {
        Some(r) => json_get(r, key),
        None => None,
    }
}

/// The text of a string, or `default`.
pub open spec fn str_or(v: Option<Json>, default: Seq<char>) -> Seq<char> {
    match json_str(v) {
        Some(s) => s,
        None => default,
    }
}

/// The member `key` of an optional value.
pub open spec fn opt_member(v: Option<Json>, key: Seq<char>) -> Option<Json> {
    match v {
        Some(x) => json_get(x, key),
        None => None,
    }
}

/// A reason in a boxing explanation, as plain values: 0 for cycle
/// membership (with its detail, cycle index and members), 1 for a self
/// reference, 2 for an explicit setting (with its value), 3 for no need.
pub open spec fn reason_view(r: BoxingReason) -> (int, Seq<char>, int, Seq<Seq<char>>, Option<Json>) {
    match r {
        BoxingReason::SccMembership { detail, scc_id, members } => (0, detail@, scc_id as int, texts(members@), None),
        BoxingReason::SelfReference => (1, Seq::empty(), 0, Seq::empty(), None),
        BoxingReason::ExplicitOverride { value } => (2, Seq::empty(), 0, Seq::empty(), Some(*value)),
        BoxingReason::NoBoxingNeeded => (3, Seq::empty(), 0, Seq::empty(), None),
    }
}

/// The reasons why the schema `id` is boxed or not.
pub open spec fn boxing_reasons(g: SchemaGraph, id: Seq<char>) -> Seq<(int, Seq<char>, int, Seq<Seq<char>>, Option<Json>)> {
    let cycles = g.cycles();
    let self_ref = neighbours_of(g, id, true).contains(id);
    let ov = raw_member(g, id, "x-familiar-rust-recursion"@);
    let should_box = cycle_from(cycles, id, 0) is Some || self_ref;
    (match cycle_from(cycles, id, 0) {
        Some(c) => seq![
            (
                0,
                "This type is part of a cycle with: "@ + join(others_than(cycles[c], id), ", "@),
                c,
                cycles[c],
                None,
            ),
        ],
        None => if self_ref {
            seq![(1, Seq::<char>::empty(), 0, Seq::<Seq<char>>::empty(), None)]
        } else {
            Seq::empty()
        },
    }) + (match ov {
        Some(v) => seq![(2, Seq::<char>::empty(), 0, Seq::<Seq<char>>::empty(), Some(v))],
        None => Seq::empty(),
    }) + (if should_box {
        Seq::empty()
    } else {
        seq![(3, Seq::<char>::empty(), 0, Seq::<Seq<char>>::empty(), None)]
    })
}

/// Whether some cycle group of several schemas contains `id`.
pub open spec fn in_some_cycle(g: SchemaGraph, id: Seq<char>) -> bool {
    exists|c: int| 0 <= c < g.cycles().len() && g.cycles()[c].contains(id) && (#[trigger] g.cycles()[c]).len() > 1
}

/// The members of an object whose names start with `prefix`, in order.
pub open spec fn prefixed_members(ms: Seq<(String, Json)>, prefix: Seq<char>) -> Seq<(Seq<char>, Json)>
    decreases ms.len(),
{
    if ms.len() == 0 {
        Seq::empty()
    } else {
        prefixed_members(ms.drop_last(), prefix) + if prefix.len() <= ms.last().0@.len() && ms.last().0@.subrange(
            0,
            prefix.len() as int,
        ) == prefix {
            seq![(ms.last().0@, ms.last().1)]
        } else {
            Seq::empty()
        }
    }
}

/// The `x-familiar-rust-` settings of a document.
pub open spec fn rust_policies(raw: Option<Json>) -> Seq<(Seq<char>, Json)> {
    match raw {
        Some(Json::Object(ms)) => prefixed_members(ms@, "x-familiar-rust-"@),
        _ => Seq::empty(),
    }
}

/// Adds `x` to the group `k`, making the group where there is none yet.
pub open spec fn add_to_group<K, T>(gs: Seq<(K, Seq<T>)>, k: K, x: T) -> Seq<(K, Seq<T>)>
    decreases gs.len(),
{
    if gs.len() == 0 {
        seq![(k, seq![x])]
    } else if gs[0].0 == k {
        gs.update(0, (k, gs[0].1.push(x)))
    } else {
        seq![gs[0]] + add_to_group(gs.drop_first(), k, x)
    }
}

/// The ids `ids` of known schemas grouped by kind (`unknown` for none),
/// groups in order of first appearance.
pub open spec fn group_by_kind(g: SchemaGraph, ids: Seq<Seq<char>>) -> Seq<(Seq<char>, Seq<Seq<char>>)>
    decreases ids.len(),
{
    if ids.len() == 0 {
        Seq::empty()
    } else {
        let rest = group_by_kind(g, ids.drop_last());
        match node_of(g, ids.last()) {
            Some(n) => add_to_group(
                rest,
                match n.kind {
                    Some(k) => k@,
                    None => "unknown"@,
                },
                ids.last(),
            ),
            None => rest,
        }
    }
}

/// Groups as plain values.
pub open spec fn groups_view(v: Seq<(String, Vec<String>)>) -> Seq<(Seq<char>, Seq<Seq<char>>)> {
    v.map_values(|e: (String, Vec<String>)| (e.0@, texts(e.1@)))
}

proof fn lemma_add_to_group_at<K, T>(gs: Seq<(K, Seq<T>)>, k: K, x: T, p: int)
    requires
        0 <= p <= gs.len(),
        forall|q: int| 0 <= q < p ==> (#[trigger] gs[q]).0 != k,
        p < gs.len() ==> gs[p].0 == k,
    ensures
        add_to_group(gs, k, x) == if p < gs.len() {
            gs.update(p, (k, gs[p].1.push(x)))
        } else {
            gs.push((k, seq![x]))
        },
    decreases gs.len(),
{
    if gs.len() == 0 {
        assert(seq![(k, seq![x])] =~= gs.push((k, seq![x])));
    } else if p == 0 {
    } else {
        lemma_add_to_group_at(gs.drop_first(), k, x, p - 1);
        if p < gs.len() {
            assert(seq![gs[0]] + gs.drop_first().update(p - 1, (k, gs.drop_first()[p - 1].1.push(x))) =~= gs.update(
                p,
                (k, gs[p].1.push(x)),
            ));
        } else {
            assert(seq![gs[0]] + gs.drop_first().push((k, seq![x])) =~= gs.push((k, seq![x])));
        }
    }
}


proof fn lemma_cycle_from_bound(cycles: Seq<Seq<Seq<char>>>, id: Seq<char>, i: int)
    requires
        0 <= i,
    ensures
        match cycle_from(cycles, id, i) {
            Some(c) => i <= c < cycles.len() && cycles[c].contains(id) && cycles[c].len() > 1,
            None => true,
        },
    decreases cycles.len() - i,
{
    if i < cycles.len() {
        lemma_cycle_from_bound(cycles, id, i + 1);
    }
}

proof fn lemma_cycle_from(cycles: Seq<Seq<Seq<char>>>, id: Seq<char>, i: int)
    requires
        0 <= i,
    ensures
        (cycle_from(cycles, id, i) is Some) == exists|c: int| i <= c < cycles.len() && cycles[c].contains(id) && (
        #[trigger] cycles[c]).len() > 1,
    decreases cycles.len() - i,
{
    if i < cycles.len() {
        lemma_cycle_from(cycles, id, i + 1);
        if cycles[i].contains(id) && cycles[i].len() > 1 {
        } else {
            assert forall|c: int| i <= c < cycles.len() && cycles[c].contains(id) && (#[trigger] cycles[c]).len() > 1 implies i + 1 <= c by {
            }
        }
    }
}


/// Whether a property's type supports `Eq` and `Hash`: no bare number, no
/// object without properties, no map.
pub open spec fn prop_eq_hash_safe(p: Json) -> bool {
    &&& !(json_str(json_get(p, "type"@)) == Some("number"@) && json_get(p, "format"@) is None)
    &&& !(json_str(json_get(p, "type"@)) == Some("object"@) && json_get(p, "properties"@) is None)
    &&& json_get(p, "additionalProperties"@) is None
}

/// Whether every property of a schema supports `Eq` and `Hash`.
pub open spec fn eq_hash_safe(schema: Json) -> bool {
    match json_get(schema, "properties"@) {
        Some(Json::Object(ms)) => forall|k: int| 0 <= k < ms@.len() ==> prop_eq_hash_safe(#[trigger] ms@[k].1),
        _ => true,
    }
}

/// The texts of the string items of an array, in order.
pub open spec fn str_items(items: Seq<Json>) -> Seq<Seq<char>>
    decreases items.len(),
{
    if items.len() == 0 {
        Seq::empty()
    } else {
        str_items(items.drop_last()) + match items.last() {
            Json::Str(s) => seq![s@],
            _ => Seq::empty(),
        }
    }
}

/// The string items of an array member, if the member is an array.
pub open spec fn str_list(v: Option<Json>) -> Option<Seq<Seq<char>>> {
    match v {
        Some(Json::Array(a)) => Some(str_items(a@)),
        _ => None,
    }
}

/// `r` with each of `adds` appended that it does not hold yet.
pub open spec fn add_missing(r: Seq<Seq<char>>, adds: Seq<Seq<char>>) -> Seq<Seq<char>>
    decreases adds.len(),
{
    if adds.len() == 0 {
        r
    } else {
        let s = add_missing(r, adds.drop_last());
        if s.contains(adds.last()) {
            s
        } else {
            s.push(adds.last())
        }
    }
}

/// `r` without any of `excs`.
pub open spec fn remove_all(r: Seq<Seq<char>>, excs: Seq<Seq<char>>) -> Seq<Seq<char>>
    decreases excs.len(),
{
    if excs.len() == 0 {
        r
    } else {
        others_than(remove_all(r, excs.drop_last()), excs.last())
    }
}

/// The derives every generated type has.
pub open spec fn default_derives() -> Seq<Seq<char>> {
    seq!["Debug"@, "Clone"@, "Serialize"@, "Deserialize"@, "JsonSchema"@]
}

/// The derives the registry graph suggests for a type referenced
/// `in_degree` times whose fields are `safe` for `Eq` and `Hash`.
pub open spec fn graph_suggestions(in_degree: nat, safe: bool) -> Seq<Seq<char>> {
    if in_degree >= 3 && safe {
        seq!["Eq"@, "Hash"@]
    } else {
        Seq::empty()
    }
}

/// The derives of a type: an explicit list, or the defaults with additions,
/// without exclusions, and with the graph's suggestions where the policy
/// allows them.
pub open spec fn final_derives(
    full: Option<Seq<Seq<char>>>,
    additions: Seq<Seq<char>>,
    exclusions: Seq<Seq<char>>,
    policy: Seq<char>,
    suggests: Seq<Seq<char>>,
) -> Seq<Seq<char>> {
    match full {
        Some(f) => f,
        None => {
            let r = remove_all(add_missing(default_derives(), additions), exclusions);
            if policy == "allow_graph_suggestions"@ {
                add_missing(r, suggests)
            } else {
                r
            }
        },
    }
}


/// The id of the first search result titled `name`.
pub open spec fn titled(rs: Seq<(Seq<char>, Option<Seq<char>>, Option<Seq<char>>, Seq<char>, i64)>, name: Seq<char>) -> Option<Seq<char>>
    decreases rs.len(),
{
    if rs.len() == 0 {
        None
    } else if rs[0].1 == Some(name) {
        Some(rs[0].0)
    } else {
        titled(rs.drop_first(), name)
    }
}

/// A definition embedded in a schema, as plain values: its category (0:
/// only embedded, 1: duplicates a standalone schema, 2: refers to its own
/// schema), the schema, the definition's name and the standalone schema.
pub open spec fn def_entry(g: SchemaGraph, parent: Seq<char>, raw: Json, name: Seq<char>) -> (int, Seq<char>, Seq<char>, Option<Seq<char>>) {
    if name == str_or(json_get(raw, "title"@), Seq::empty()) {
        (2, parent, name, None)
    } else {
        match titled(search_of(g, name, 5), name) {
            Some(sid) => (1, parent, name, Some(sid)),
            None => (0, parent, name, None),
        }
    }
}

/// The entries of the definitions `ms` of a schema.
pub open spec fn defs_of(g: SchemaGraph, parent: Seq<char>, raw: Json, ms: Seq<(String, Json)>) -> Seq<(int, Seq<char>, Seq<char>, Option<Seq<char>>)>
    decreases ms.len(),
{
    if ms.len() == 0 {
        Seq::empty()
    } else {
        defs_of(g, parent, raw, ms.drop_last()).push(def_entry(g, parent, raw, ms.last().0@))
    }
}

/// The entries of the definitions embedded in the schema `id`.
pub open spec fn schema_defs(g: SchemaGraph, id: Seq<char>) -> Seq<(int, Seq<char>, Seq<char>, Option<Seq<char>>)> {
    match raw_of(g, id) {
        Some(raw) => match json_get(raw, "definitions"@) {
            Some(Json::Object(ms)) => defs_of(g, id, raw, ms@),
            _ => Seq::empty(),
        },
        None => Seq::empty(),
    }
}

/// The entries of the definitions embedded in the schemas `ids`, in order.
pub open spec fn all_defs(g: SchemaGraph, ids: Seq<Seq<char>>) -> Seq<(int, Seq<char>, Seq<char>, Option<Seq<char>>)>
    decreases ids.len(),
{
    if ids.len() == 0 {
        Seq::empty()
    } else {
        all_defs(g, ids.drop_last()) + schema_defs(g, ids.last())
    }
}

/// The entries of category `c`, as schema, name and standalone schema.
pub open spec fn of_category(es: Seq<(int, Seq<char>, Seq<char>, Option<Seq<char>>)>, c: int) -> Seq<(Seq<char>, Seq<char>, Option<Seq<char>>)>
    decreases es.len(),
{
    if es.len() == 0 {
        Seq::empty()
    } else {
        of_category(es.drop_last(), c) + if es.last().0 == c {
            seq![(es.last().1, es.last().2, es.last().3)]
        } else {
            Seq::empty()
        }
    }
}

/// Entries keyed by `schema/name`.
pub open spec fn keyed_defs(es: Seq<(Seq<char>, Seq<char>, Option<Seq<char>>)>) -> Seq<
    ((Seq<char>, Seq<char>), (Seq<char>, Seq<char>, Option<Seq<char>>)),
> {
    es.map_values(|e: (Seq<char>, Seq<char>, Option<Seq<char>>)| ((e.0 + "/"@ + e.1, Seq::<char>::empty()), e))
}

/// Entries sorted by `schema/name`, equal keys in their first order.
pub open spec fn sorted_defs(es: Seq<(Seq<char>, Seq<char>, Option<Seq<char>>)>) -> Seq<(Seq<char>, Seq<char>, Option<Seq<char>>)> {
    sort_keyed(keyed_defs(es)).map_values(
        |e: ((Seq<char>, Seq<char>), (Seq<char>, Seq<char>, Option<Seq<char>>))| e.1,
    )
}

/// An embedded definition as plain values.
pub open spec fn def_view(d: EmbeddedDef) -> (Seq<char>, Seq<char>, Option<Seq<char>>) {
    (d.parent_schema@, d.definition_name@, opt_view(d.standalone_schema))
}


/// Artifacts grouped by language, groups in order of first appearance.
pub open spec fn group_by_lang(arts: Seq<GeneratedArtifact>) -> Seq<(Seq<char>, Seq<GeneratedArtifact>)>
    decreases arts.len(),
{
    if arts.len() == 0 {
        Seq::empty()
    } else {
        add_to_group(group_by_lang(arts.drop_last()), arts.last().lang@, arts.last())
    }
}

/// Artifact groups as plain values.
pub open spec fn art_groups_view(v: Seq<(String, Vec<GeneratedArtifact>)>) -> Seq<(Seq<char>, Seq<GeneratedArtifact>)> {
    v.map_values(|e: (String, Vec<GeneratedArtifact>)| (e.0@, e.1@))
}

/// The ids of the schemas that have an artifact in `lang`.
pub open spec fn ids_with_artifacts(g: SchemaGraph, lang: Seq<char>) -> Seq<Seq<char>> {
    g.paired_artifacts(g.lang_artifact_ids(lang)).map_values(|p: (Seq<char>, GeneratedArtifact)| p.0)
}

/// The known schemas among `ids` without an artifact in `lang`: id, kind
/// and title.
pub open spec fn missing_artifacts(g: SchemaGraph, ids: Seq<Seq<char>>, lang: Seq<char>) -> Seq<
    (Seq<char>, Option<Seq<char>>, Option<Seq<char>>),
>
    decreases ids.len(),
{
    if ids.len() == 0 {
        Seq::empty()
    } else {
        missing_artifacts(g, ids.drop_last(), lang) + if !ids_with_artifacts(g, lang).contains(ids.last()) && node_of(
            g,
            ids.last(),
        ) is Some {
            seq![(ids.last(), kind_of(g, ids.last()), opt_view(node_of(g, ids.last())->0.title))]
        } else {
            Seq::empty()
        }
    }
}

/// Missing artifacts sorted by kind (none first), then id.
pub open spec fn sorted_missing(es: Seq<(Seq<char>, Option<Seq<char>>, Option<Seq<char>>)>) -> Seq<
    (Seq<char>, Option<Seq<char>>, Option<Seq<char>>),
> {
    sort_keyed(
        es.map_values(
            |e: (Seq<char>, Option<Seq<char>>, Option<Seq<char>>)|
                ((
                    match e.1 {
                        Some(k) => k,
                        None => Seq::<char>::empty(),
                    },
                    e.0,
                ), e),
        ),
    ).map_values(|e: ((Seq<char>, Seq<char>), (Seq<char>, Option<Seq<char>>, Option<Seq<char>>))| e.1)
}

/// A missing artifact as plain values.
pub open spec fn missing_view(m: MissingArtifact) -> (Seq<char>, Option<Seq<char>>, Option<Seq<char>>) {
    (m.id@, opt_view(m.kind), opt_view(m.title))
}


/// Whether a property is an inline object: properties of its own and no
/// `$ref`.
pub open spec fn inline_object(p: Json) -> bool {
    json_get(p, "$ref"@) is None && json_get(p, "properties"@) is Some
}

/// The hash of a property's shape.
pub open spec fn prop_shape_hash(p: Json) -> u64 {
    text_hash(vstd::utf8::encode_utf8(compact_json(norm(p@))))
}

/// The inline object properties among `ms` of the schema `id`: schema,
/// property and shape hash.
pub open spec fn prop_occurrences(id: Seq<char>, ms: Seq<(String, Json)>) -> Seq<(Seq<char>, Seq<char>, u64)>
    decreases ms.len(),
{
    if ms.len() == 0 {
        Seq::empty()
    } else {
        prop_occurrences(id, ms.drop_last()) + if inline_object(ms.last().1) {
            seq![(id, ms.last().0@, prop_shape_hash(ms.last().1))]
        } else {
            Seq::empty()
        }
    }
}

/// The inline object properties of the schema `id`.
pub open spec fn schema_occurrences(g: SchemaGraph, id: Seq<char>) -> Seq<(Seq<char>, Seq<char>, u64)> {
    match raw_of(g, id) {
        Some(raw) => match json_get(raw, "properties"@) {
            Some(Json::Object(ms)) => prop_occurrences(id, ms@),
            _ => Seq::empty(),
        },
        None => Seq::empty(),
    }
}

/// The inline object properties of the schemas `ids`, in order.
pub open spec fn all_occurrences(g: SchemaGraph, ids: Seq<Seq<char>>) -> Seq<(Seq<char>, Seq<char>, u64)>
    decreases ids.len(),
{
    if ids.len() == 0 {
        Seq::empty()
    } else {
        all_occurrences(g, ids.drop_last()) + schema_occurrences(g, ids.last())
    }
}

/// Occurrences grouped by shape hash, groups in order of first appearance.
pub open spec fn hash_groups(occ: Seq<(Seq<char>, Seq<char>, u64)>) -> Seq<(u64, Seq<(Seq<char>, Seq<char>)>)>
    decreases occ.len(),
{
    if occ.len() == 0 {
        Seq::empty()
    } else {
        add_to_group(hash_groups(occ.drop_last()), occ.last().2, (occ.last().0, occ.last().1))
    }
}

/// The text after the last `/`, or all of it.
pub open spec fn last_segment(s: Seq<char>) -> Seq<char>
    decreases s.len(),
{
    if s.len() == 0 {
        s
    } else if s.last() == '/' {
        Seq::empty()
    } else {
        last_segment(s.drop_last()).push(s.last())
    }
}

/// The hoist candidates: groups of more than one occurrence, each with its
/// hash, occurrences and suggested type name.
pub open spec fn hoist_of(gs: Seq<(u64, Seq<(Seq<char>, Seq<char>)>)>) -> Seq<(u64, Seq<(Seq<char>, Seq<char>)>, Seq<char>)>
    decreases gs.len(),
{
    if gs.len() == 0 {
        Seq::empty()
    } else {
        hoist_of(gs.drop_last()) + if gs.last().1.len() > 1 {
            seq![(gs.last().0, gs.last().1, last_segment(gs.last().1[0].0) + pascal(gs.last().1[0].1))]
        } else {
            Seq::empty()
        }
    }
}

/// Occurrence pairs as plain values.
pub open spec fn pairs_view(v: Seq<(String, String)>) -> Seq<(Seq<char>, Seq<char>)> {
    v.map_values(|p: (String, String)| (p.0@, p.1@))
}

/// Hash groups as plain values.
pub open spec fn hgroups_view(v: Seq<(u64, Vec<(String, String)>)>) -> Seq<(u64, Seq<(Seq<char>, Seq<char>)>)> {
    v.map_values(|e: (u64, Vec<(String, String)>)| (e.0, pairs_view(e.1@)))
}

/// A hoist candidate as plain values.
pub open spec fn candidate_view(c: HoistCandidate) -> (u64, Seq<(Seq<char>, Seq<char>)>, Seq<char>) {
    (c.shape_hash, pairs_view(c.occurrences@), c.suggested_name@)
}

proof fn lemma_last_segment_skip(s: Seq<char>, i: int)
    requires
        0 <= i <= s.len(),
        forall|q: int| i <= q < s.len() ==> s[q] != '/',
    ensures
        last_segment(s) == last_segment(s.take(i)) + s.skip(i),
    decreases s.len() - i,
{
    if i == s.len() {
        assert(s.take(i) =~= s);
        assert(s.skip(i) =~= Seq::<char>::empty());
    } else {
        lemma_last_segment_skip(s, i + 1);
        assert(s.take(i + 1).drop_last() =~= s.take(i));
        assert(s.take(i + 1).last() == s[i]);
        assert(s.skip(i) =~= seq![s[i]] + s.skip(i + 1));
        assert(last_segment(s.take(i)).push(s[i]) + s.skip(i + 1) =~= last_segment(s.take(i)) + s.skip(i));
    }
}

/// The registry's counters.
pub struct StatusResponse {
    pub bundle_hash: String,
    pub schema_count: usize,
    pub edge_count: usize,
    pub scc_count: usize,
    pub artifact_count: usize,
}

/// The answer to a resolution query.
pub struct ResolveResponse {
    pub resolved: bool,
    pub id: Option<String>,
    pub query: String,
    pub error: Option<String>,
}

/// The raw document of a schema, or why there is none.
pub enum RawSchemaResponse<'a> {
    Found { id: String, schema: &'a Json },
    NotFound { error: String },
}

/// A schema's metadata with its reference counts, and on request its
/// document and its dependencies.
pub struct TypeResponse<'a> {
    pub node: &'a SchemaNode,
    pub refs_out_count: usize,
    pub refs_in_count: usize,
    pub schema: Option<&'a Json>,
    pub closure: Option<Vec<ClosureNode>>,
}

/// A schema's metadata, or why there is none.
pub enum TypeLookup<'a> {
    Found(TypeResponse<'a>),
    NotFound { error: String },
}

/// A schema id with a list of related ids.
pub struct IdList {
    pub id: String,
    pub items: Vec<String>,
}

/// The answer to a search.
pub struct SearchResponse {
    pub query: String,
    pub results: Vec<SearchResult>,
}

/// The schemas of one kind, or every kind.
pub enum KindsResponse {
    OfKind { kind: String, schemas: Vec<String> },
    All { kinds: Vec<String> },
}

/// The dependencies or dependents of a schema, with the registry's cycles.
pub struct ClosureResponse {
    pub id: String,
    pub direction: String,
    pub depth: Option<usize>,
    pub nodes: Vec<ClosureNode>,
    pub scc_groups: Vec<Vec<String>>,
}

/// The import lines for a schema's type and its dependencies.
pub struct ImportsResponse {
    pub id: String,
    pub lang: String,
    pub imports: Vec<String>,
}

/// The union lint's findings for a schema.
pub struct LintResponse {
    pub id: String,
    pub warnings: Vec<LintWarning>,
}


/// A service that references a schema.
pub struct ServiceRef {
    pub service: String,
    pub schema_id: String,
    pub kind: Option<String>,
}

/// The services that reference a schema.
pub struct ServicesResponse {
    pub id: String,
    /// Each service once.
    pub services: Vec<String>,
    pub references: Vec<ServiceRef>,
}

/// A copy of an optional string.
pub fn copy_opt(o: &Option<String>) -> (r: Option<String>)
    ensures
        opt_view(r) == opt_view(*o),
{
    match o {
        Some(s) => Some(s.clone()),
        None => None,
    }
}

/// Whether `v` holds `s`.
fn holds(v: &Vec<String>, s: &str) -> (res: bool)
    ensures
        res == texts(v@).contains(s@),
{
    let mut i: usize = 0;
    while i < v.len()
        invariant
            i <= v.len(),
            forall|k: int| 0 <= k < i ==> (#[trigger] v@[k])@ != s@,
        decreases v.len() - i,
    {
        if str_eq(v[i].as_str(), s) {
            proof {
                assert(texts(v@)[i as int] == s@);
            }
            return true;
        }
        i = i + 1;
    }
    proof {
        if texts(v@).contains(s@) {
            let k = choose|k: int| 0 <= k < texts(v@).len() && texts(v@)[k] == s@;
            assert(v@[k]@ == s@);
        }
    }
    false
}


/// A reference cycle to break by boxing.
pub struct CycleReport {
    pub scc_id: usize,
    pub members: Vec<String>,
    pub size: usize,
    pub suggested_box_edge: String,
    /// Whether a member is a tagged union; reported for groups only.
    pub has_unions: Option<bool>,
    pub self_referential: bool,
}

/// The reference cycles of the registry.
pub struct SccReport {
    pub total_sccs: usize,
    pub cycles: Vec<CycleReport>,
}

/// A heavily referenced schema.
pub struct HubEntry {
    pub id: String,
    pub in_degree: usize,
    pub out_degree: usize,
    pub kind: Option<String>,
    pub suggested_derives: Vec<String>,
}

/// The most referenced schemas.
pub struct HubReport {
    pub top_n: usize,
    pub hubs: Vec<HubEntry>,
}

fn insert_degree(v: &mut Vec<(usize, usize)>, x: (usize, usize))
    ensures
        final(v)@.map_values(|e: (usize, usize)| (e.0 as int, e.1 as nat)) == insert_by_degree(
            old(v)@.map_values(|e: (usize, usize)| (e.0 as int, e.1 as nat)),
            (x.0 as int, x.1 as nat),
        ),
    decreases old(v)@.len(),
{
    let ghost before = v@.map_values(|e: (usize, usize)| (e.0 as int, e.1 as nat));
    if v.len() == 0 || v[v.len() - 1].1 >= x.1 {
        v.push(x);
        proof {
            assert(v@.map_values(|e: (usize, usize)| (e.0 as int, e.1 as nat)) =~= before.push((x.0 as int, x.1 as nat)));
        }
    } else {
        let y = v.pop().unwrap();
        proof {
            assert(v@.map_values(|e: (usize, usize)| (e.0 as int, e.1 as nat)) =~= before.drop_last());
        }
        insert_degree(v, x);
        let ghost mid = v@.map_values(|e: (usize, usize)| (e.0 as int, e.1 as nat));
        v.push(y);
        proof {
            assert(v@.map_values(|e: (usize, usize)| (e.0 as int, e.1 as nat)) =~= mid.push((y.0 as int, y.1 as nat)));
        }
    }
}

/// A copy of a list of strings.
pub fn copy_strings(v: &Vec<String>) -> (res: Vec<String>)
    ensures
        texts(res@) == texts(v@),
{
    let mut res: Vec<String> = Vec::new();
    let mut j: usize = 0;
    while j < v.len()
        invariant
            j <= v.len(),
            res@.len() == j,
            forall|k: int| 0 <= k < j ==> (#[trigger] res@[k])@ == v@[k]@,
        decreases v.len() - j,
    {
        res.push(v[j].clone());
        j = j + 1;
    }
    proof {
        assert(texts(res@) =~= texts(v@));
    }
    res
}


/// A reason in a boxing explanation.
pub enum BoxingReason<'a> {
    /// The type is part of a reference cycle.
    SccMembership { detail: String, scc_id: usize, members: Vec<String> },
    /// The type references itself.
    SelfReference,
    /// The schema sets `x-familiar-rust-recursion`.
    ExplicitOverride { value: &'a Json },
    /// The type is not recursive.
    NoBoxingNeeded,
}

/// Why a type is boxed, or not.
pub struct BoxingExplanation<'a> {
    pub id: String,
    pub should_box: bool,
    pub box_reason: String,
    pub strategy: String,
    pub explanation: Vec<BoxingReason<'a>>,
}

/// The settings that shape a type's generated code.
pub struct PolicyReport<'a> {
    pub id: String,
    /// The schema's `x-familiar-rust-*` members.
    pub explicit_policies: Vec<(String, &'a Json)>,
    pub in_cycle: bool,
    pub in_degree: usize,
    pub out_degree: usize,
    pub is_hub: bool,
    pub kind: Option<String>,
    pub service: Option<String>,
    pub derive_policy: String,
    pub default_impl: String,
    pub recursion_strategy: String,
    pub impl_modules: Option<&'a Json>,
}

/// What a change to a schema would reach.
pub struct ImpactReport {
    pub id: String,
    pub base_version: String,
    pub direct_dependents: usize,
    pub transitive_dependents: usize,
    /// The direct dependents by kind.
    pub by_kind: Vec<(String, Vec<String>)>,
    /// The first twenty direct dependents.
    pub dependents: Vec<String>,
    pub would_affect: String,
}

/// Adds `x` to the group `k` of `groups`.
fn add_grouped(groups: &mut Vec<(String, Vec<String>)>, k: String, x: String)
    ensures
        groups_view(final(groups)@) == add_to_group(groups_view(old(groups)@), k@, x@),
{
    let ghost gv = groups_view(groups@);
    let mut p: usize = 0;
    while p < groups.len() && !str_eq(groups[p].0.as_str(), k.as_str())
        invariant
            p <= groups@.len(),
            gv == groups_view(groups@),
            forall|q: int| 0 <= q < p ==> (#[trigger] gv[q]).0 != k@,
        decreases groups.len() - p,
    {
        p = p + 1;
    }
    proof {
        lemma_add_to_group_at(gv, k@, x@, p as int);
    }
    if p < groups.len() {
        let mut entry = groups.remove(p);
        let ghost ev = entry.1@;
        entry.1.push(x);
        groups.insert(p, entry);
        proof {
            assert(texts(entry.1@) =~= texts(ev).push(x@));
            assert(groups_view(groups@) =~= gv.update(p as int, (k@, gv[p as int].1.push(x@))));
        }
    } else {
        let mut v: Vec<String> = Vec::new();
        v.push(x);
        groups.push((k, v));
        proof {
            assert(texts(v@) =~= seq![x@]);
            assert(groups_view(groups@) =~= gv.push((k@, seq![x@])));
        }
    }
}


/// Why a type has the derives it has.
pub struct DerivesExplanation {
    pub id: String,
    pub policy: String,
    pub final_derives: Vec<String>,
    pub defaults: Vec<String>,
    pub full_override: Option<Vec<String>>,
    pub additions: Vec<String>,
    pub exclusions: Vec<String>,
    pub graph_suggests: Vec<String>,
    pub graph_reason: String,
    pub graph_applied: bool,
}

/// Whether every property of a schema supports `Eq` and `Hash`: none is a
/// number without a format, an object without properties, or a map.
pub fn is_eq_hash_safe(schema: &Json) -> (res: bool)
    ensures
        res == eq_hash_safe(*schema),
{
    match schema.get("properties") {
        Some(Json::Object(ms)) => {
            let mut i: usize = 0;
            while i < ms.len()
                invariant
                    i <= ms@.len(),
                    json_get(*schema, "properties"@) == Some(Json::Object(*ms)),
                    forall|k: int| 0 <= k < i ==> prop_eq_hash_safe(#[trigger] ms@[k].1),
                decreases ms.len() - i,
            {
                let p = &ms[i].1;
                let ty = p.get("type");
                let is_number = match ty {
                    Some(Json::Str(t)) => str_eq(t.as_str(), "number"),
                    _ => false,
                };
                let is_object = match ty {
                    Some(Json::Str(t)) => str_eq(t.as_str(), "object"),
                    _ => false,
                };
                if is_number && p.get("format").is_none() {
                    proof {
                        assert(!prop_eq_hash_safe(ms@[i as int].1));
                        let pm = json_get(*schema, "properties"@)->Some_0->Object_0;
                        assert(pm@ == ms@);
                        assert(!prop_eq_hash_safe(pm@[i as int].1));
                    }
                    return false;
                }
                if is_object && p.get("properties").is_none() {
                    proof {
                        assert(!prop_eq_hash_safe(ms@[i as int].1));
                        let pm = json_get(*schema, "properties"@)->Some_0->Object_0;
                        assert(pm@ == ms@);
                        assert(!prop_eq_hash_safe(pm@[i as int].1));
                    }
                    return false;
                }
                if p.get("additionalProperties").is_some() {
                    proof {
                        assert(!prop_eq_hash_safe(ms@[i as int].1));
                        let pm = json_get(*schema, "properties"@)->Some_0->Object_0;
                        assert(pm@ == ms@);
                        assert(!prop_eq_hash_safe(pm@[i as int].1));
                    }
                    return false;
                }
                i = i + 1;
            }
            true
        },
        _ => true,
    }
}

/// The texts of the string items of an array.
fn string_items(items: &Vec<Json>) -> (res: Vec<String>)
    ensures
        texts(res@) == str_items(items@),
{
    let mut res: Vec<String> = Vec::new();
    let mut i: usize = 0;
    proof {
        assert(items@.take(0) =~= Seq::<Json>::empty());
    }
    while i < items.len()
        invariant
            i <= items@.len(),
            texts(res@) == str_items(items@.take(i as int)),
        decreases items.len() - i,
    {
        proof {
            assert(items@.take(i + 1).drop_last() =~= items@.take(i as int));
            assert(items@.take(i + 1).last() == items@[i as int]);
        }
        match &items[i] {
            Json::Str(s) => {
                let ghost before = texts(res@);
                res.push(s.clone());
                proof {
                    assert(texts(res@) =~= before.push(s@));
                }
            },
            _ => {},
        }
        i = i + 1;
    }
    proof {
        assert(items@.take(items@.len() as int) =~= items@);
    }
    res
}

/// The string items of `v` when it is an array.
fn string_list(v: Option<&Json>) -> (res: Option<Vec<String>>)
    ensures
        match res {
            Some(l) => str_list(match v {
                Some(x) => Some(*x),
                None => None,
            }) == Some(texts(l@)),
            None => str_list(match v {
                Some(x) => Some(*x),
                None => None,
            }) is None,
        },
{
    match v {
        Some(Json::Array(a)) => Some(string_items(a)),
        _ => None,
    }
}

/// Appends each of `adds` that `r` does not hold yet.
fn append_missing(r: &mut Vec<String>, adds: &Vec<String>)
    ensures
        texts(final(r)@) == add_missing(texts(old(r)@), texts(adds@)),
{
    let ghost r0 = texts(r@);
    let mut i: usize = 0;
    proof {
        assert(texts(adds@).take(0) =~= Seq::<Seq<char>>::empty());
    }
    while i < adds.len()
        invariant
            i <= adds@.len(),
            texts(r@) == add_missing(r0, texts(adds@).take(i as int)),
        decreases adds.len() - i,
    {
        proof {
            assert(texts(adds@).take(i + 1).drop_last() =~= texts(adds@).take(i as int));
            assert(texts(adds@).take(i + 1).last() == adds@[i as int]@);
        }
        if !holds(r, adds[i].as_str()) {
            let ghost before = texts(r@);
            r.push(adds[i].clone());
            proof {
                assert(texts(r@) =~= before.push(adds@[i as int]@));
            }
        }
        i = i + 1;
    }
    proof {
        assert(texts(adds@).take(adds@.len() as int) =~= texts(adds@));
    }
}

/// `r` without the items equal to `x`.
fn without(r: &Vec<String>, x: &str) -> (res: Vec<String>)
    ensures
        texts(res@) == others_than(texts(r@), x@),
{
    let mut res: Vec<String> = Vec::new();
    let mut i: usize = 0;
    proof {
        assert(texts(r@).take(0) =~= Seq::<Seq<char>>::empty());
    }
    while i < r.len()
        invariant
            i <= r@.len(),
            texts(res@) == others_than(texts(r@).take(i as int), x@),
        decreases r.len() - i,
    {
        proof {
            assert(texts(r@).take(i + 1).drop_last() =~= texts(r@).take(i as int));
            assert(texts(r@).take(i + 1).last() == r@[i as int]@);
        }
        if !str_eq(r[i].as_str(), x) {
            let ghost before = texts(res@);
            res.push(r[i].clone());
            proof {
                assert(texts(res@) =~= before.push(r@[i as int]@));
            }
        }
        i = i + 1;
    }
    proof {
        assert(texts(r@).take(r@.len() as int) =~= texts(r@));
    }
    res
}


/// A definition embedded in a schema.
pub struct EmbeddedDef {
    pub parent_schema: String,
    pub definition_name: String,
    /// The standalone schema it duplicates.
    pub standalone_schema: Option<String>,
}

/// The definitions embedded in schemas, by what to do with them.
pub struct EmbeddedDefinitions {
    /// To extract into standalone schemas; sorted by `schema/name`.
    pub embedded_only: Vec<EmbeddedDef>,
    /// To replace by a reference to the standalone schema; sorted by `schema/name`.
    pub duplicates: Vec<EmbeddedDef>,
    /// Recursive types, kept local.
    pub self_referential: Vec<EmbeddedDef>,
}

/// Sorts embedded definitions by `schema/name`.
fn sort_defs(v: Vec<EmbeddedDef>) -> (res: Vec<EmbeddedDef>)
    ensures
        res@.map_values(|d: EmbeddedDef| def_view(d)) == sorted_defs(v@.map_values(|d: EmbeddedDef| def_view(d))),
{
    let ghost dv = v@.map_values(|d: EmbeddedDef| def_view(d));
    let mut keyed: Vec<((String, String), EmbeddedDef)> = Vec::new();
    let mut rest = v;
    let n = rest.len();
    let mut i: usize = 0;
    proof {
        assert(rest@.map_values(|d: EmbeddedDef| def_view(d)) =~= dv.skip(0));
    }
    while i < n
        invariant
            i <= n,
            n == dv.len(),
            rest@.map_values(|d: EmbeddedDef| def_view(d)) == dv.skip(i as int),
            map_keyed(keyed_view(keyed@), |d: EmbeddedDef| def_view(d)) == keyed_defs(dv.take(i as int)),
        decreases n - i,
    {
        let ghost r0 = rest@;
        proof {
            assert(r0.map_values(|d: EmbeddedDef| def_view(d)).len() == r0.len());
        }
        let d = rest.remove(0);
        let mut key = concat2(d.parent_schema.as_str(), "/");
        key.append(d.definition_name.as_str());
        let empty = String::new();
        proof {
            assert(empty@ == Seq::<char>::empty());
        }
        let ghost before = keyed@;
        keyed.push(((key, empty), d));
        proof {
            assert(d == r0[0]);
            assert(dv.skip(i as int)[0] == def_view(d));
            assert(dv[i as int] == def_view(d));
            assert(rest@ =~= r0.subrange(1, r0.len() as int));
            assert forall|q: int| 0 <= q < rest@.len() implies rest@.map_values(|d: EmbeddedDef| def_view(d))[q]
                == dv.skip(i + 1)[q] && #[trigger] rest@[q] == rest@[q] by {
                assert(rest@[q] == r0[q + 1]);
                assert(r0.map_values(|d: EmbeddedDef| def_view(d))[q + 1] == dv.skip(i as int)[q + 1]);
            }
            assert(rest@.map_values(|d: EmbeddedDef| def_view(d)) =~= dv.skip(i + 1));
            assert(dv.take(i + 1) =~= dv.take(i as int).push(def_view(d)));
            
            assert(keyed_view(keyed@) =~= keyed_view(before).push(((key@, Seq::<char>::empty()), d)));
            assert(map_keyed(keyed_view(keyed@), |d: EmbeddedDef| def_view(d)) =~= map_keyed(keyed_view(before), |d: EmbeddedDef| def_view(d)).push(
                ((key@, Seq::<char>::empty()), def_view(d)),
            ));
            assert(keyed_defs(dv.take(i + 1)) =~= keyed_defs(dv.take(i as int)).push(
                ((def_view(d).0 + "/"@ + def_view(d).1, Seq::<char>::empty()), def_view(d)),
            ));
            assert(map_keyed(keyed_view(keyed@), |d: EmbeddedDef| def_view(d)) =~= keyed_defs(dv.take(i + 1)));
        }
        i = i + 1;
    }
    proof {
        assert(dv.take(n as int) =~= dv);
    }
    let sorted = sort_by_keys(keyed);
    let ghost kv = keyed_view(sorted@);
    proof {
        lemma_sort_keyed_map(keyed_view(keyed@), |d: EmbeddedDef| def_view(d));
    }
    let mut out: Vec<EmbeddedDef> = Vec::new();
    let mut rest2 = sorted;
    let m = rest2.len();
    let mut j: usize = 0;
    proof {
        assert(kv.skip(0) =~= kv);
    }
    while j < m
        invariant
            j <= m,
            m == kv.len(),
            keyed_view(rest2@) == kv.skip(j as int),
            out@.map_values(|d: EmbeddedDef| def_view(d)) == kv.take(j as int).map_values(
                |e: ((Seq<char>, Seq<char>), EmbeddedDef)| def_view(e.1),
            ),
        decreases m - j,
    {
        let ghost r0 = rest2@;
        proof {
            assert(keyed_view(r0).len() == r0.len());
        }
        let e = rest2.remove(0);
        let ghost before = out@.map_values(|d: EmbeddedDef| def_view(d));
        out.push(e.1);
        proof {
            assert(e == r0[0]);
            assert(kv[j as int] == keyed_view(r0)[0]);
            assert(rest2@ =~= r0.subrange(1, r0.len() as int));
            assert forall|q: int| 0 <= q < rest2@.len() implies #[trigger] keyed_view(rest2@)[q] == kv.skip(j + 1)[q] by {
                assert(rest2@[q] == r0[q + 1]);
                assert(keyed_view(r0)[q + 1] == kv.skip(j as int)[q + 1]);
            }
            assert(keyed_view(rest2@) =~= kv.skip(j + 1));
            assert(kv.take(j + 1) =~= kv.take(j as int).push(kv[j as int]));
            assert(out@.map_values(|d: EmbeddedDef| def_view(d)) =~= before.push(def_view(e.1)));
        }
        j = j + 1;
    }
    proof {
        assert(kv.take(m as int) =~= kv);
        assert(kv.map_values(|e: ((Seq<char>, Seq<char>), EmbeddedDef)| def_view(e.1)) =~= map_keyed(
            kv,
            |d: EmbeddedDef| def_view(d),
        ).map_values(|e: ((Seq<char>, Seq<char>), (Seq<char>, Seq<char>, Option<Seq<char>>))| e.1));
    }
    out
}


/// The artifacts generated from a schema.
pub struct ArtifactsResponse {
    pub id: String,
    pub artifacts: Vec<GeneratedArtifact>,
}

/// A schema without an artifact in some language.
pub struct MissingArtifact {
    pub id: String,
    pub kind: Option<String>,
    pub title: Option<String>,
}

/// The schemas without an artifact in a language.
pub struct MissingArtifacts {
    pub lang: String,
    pub total_schemas: usize,
    /// Sorted by kind, then id.
    pub missing: Vec<MissingArtifact>,
}

/// The artifacts a change to a schema affects, by language.
pub struct AffectedArtifacts {
    pub schema_id: String,
    pub total_affected: usize,
    pub by_language: Vec<(String, Vec<GeneratedArtifact>)>,
}

/// The schemas an artifact is generated from.
pub struct ArtifactDependencies<'a> {
    pub artifact_id: String,
    pub dependencies: Vec<&'a SchemaNode>,
}

/// The artifacts in the same file as an artifact.
pub struct ColocatedArtifacts {
    pub artifact_id: String,
    pub file: Option<String>,
    pub colocated: Vec<GeneratedArtifact>,
}

/// The artifacts in a file, each with the schema it is generated from.
pub struct FileArtifacts {
    pub file: String,
    pub artifacts: Vec<(GeneratedArtifact, Option<String>)>,
}

/// The registry's counters, with artifacts per language.
pub struct GraphStats {
    pub schemas: usize,
    pub edges: usize,
    pub sccs: usize,
    pub artifacts: usize,
    /// Per language: artifacts, and schemas in all.
    pub coverage: Vec<(String, (usize, usize))>,
}

/// Adds `x` to the group `k` of `groups`.
fn add_art_grouped(groups: &mut Vec<(String, Vec<GeneratedArtifact>)>, k: String, x: GeneratedArtifact)
    ensures
        art_groups_view(final(groups)@) == add_to_group(art_groups_view(old(groups)@), k@, x),
{
    let ghost gv = art_groups_view(groups@);
    let mut p: usize = 0;
    while p < groups.len() && !str_eq(groups[p].0.as_str(), k.as_str())
        invariant
            p <= groups@.len(),
            gv == art_groups_view(groups@),
            forall|q: int| 0 <= q < p ==> (#[trigger] gv[q]).0 != k@,
        decreases groups.len() - p,
    {
        p = p + 1;
    }
    proof {
        lemma_add_to_group_at(gv, k@, x, p as int);
    }
    if p < groups.len() {
        let mut entry = groups.remove(p);
        entry.1.push(x);
        groups.insert(p, entry);
        proof {
            assert(art_groups_view(groups@) =~= gv.update(p as int, (k@, gv[p as int].1.push(x))));
        }
    } else {
        let mut v: Vec<GeneratedArtifact> = Vec::new();
        v.push(x);
        groups.push((k, v));
        proof {
            assert(v@ =~= seq![x]);
            assert(art_groups_view(groups@) =~= gv.push((k@, seq![x])));
        }
    }
}


/// Inline object schemas of the same shape, to hoist into one named type.
pub struct HoistCandidate {
    pub shape_hash: u64,
    /// Schema and property of each occurrence.
    pub occurrences: Vec<(String, String)>,
    pub suggested_name: String,
}

/// The text after the last `/`, or all of it.
pub fn last_segment_of(s: &str) -> (res: String)
    ensures
        res@ == last_segment(s@),
{
    let cs = crate::text::chars_of(s);
    let mut i: usize = cs.len();
    while i > 0 && cs[i - 1] != '/'
        invariant
            i <= cs@.len(),
            cs@ == s@,
            forall|q: int| i <= q < cs@.len() ==> cs@[q] != '/',
        decreases i,
    {
        i = i - 1;
    }
    proof {
        lemma_last_segment_skip(cs@, i as int);
        if i > 0 {
            assert(cs@.take(i as int).last() == '/');
        }
        assert(cs@.skip(i as int) =~= cs@.subrange(i as int, cs@.len() as int));
    }
    let tail = crate::text::sub_chars(cs.as_slice(), i, cs.len());
    crate::text::string_from_chars(tail.as_slice())
}

/// Adds `x` to the group of hash `k`.
fn add_hash_grouped(groups: &mut Vec<(u64, Vec<(String, String)>)>, k: u64, x: (String, String))
    ensures
        hgroups_view(final(groups)@) == add_to_group(hgroups_view(old(groups)@), k, (x.0@, x.1@)),
{
    let ghost gv = hgroups_view(groups@);
    let mut p: usize = 0;
    while p < groups.len() && groups[p].0 != k
        invariant
            p <= groups@.len(),
            gv == hgroups_view(groups@),
            forall|q: int| 0 <= q < p ==> (#[trigger] gv[q]).0 != k,
        decreases groups.len() - p,
    {
        p = p + 1;
    }
    proof {
        lemma_add_to_group_at(gv, k, (x.0@, x.1@), p as int);
    }
    let ghost xv = (x.0@, x.1@);
    if p < groups.len() {
        let mut entry = groups.remove(p);
        let ghost ev = entry.1@;
        entry.1.push(x);
        groups.insert(p, entry);
        proof {
            assert(pairs_view(entry.1@) =~= pairs_view(ev).push(xv));
            assert(hgroups_view(groups@) =~= gv.update(p as int, (k, gv[p as int].1.push(xv))));
        }
    } else {
        let mut v: Vec<(String, String)> = Vec::new();
        v.push(x);
        groups.push((k, v));
        proof {
            assert(pairs_view(v@) =~= seq![xv]);
            assert(hgroups_view(groups@) =~= gv.push((k, seq![xv])));
        }
    }
}

/// A copy of a list of id groups.
pub fn copy_groups(groups: &Vec<Vec<String>>) -> (res: Vec<Vec<String>>)
    ensures
        text_groups(res@) == text_groups(groups@),
{
    let mut res: Vec<Vec<String>> = Vec::new();
    let mut i: usize = 0;
    while i < groups.len()
        invariant
            i <= groups.len(),
            res@.len() == i,
            forall|k: int| 0 <= k < i ==> texts((#[trigger] res@[k])@) == texts(groups@[k]@),
        decreases groups.len() - i,
    {
        let g = &groups[i];
        let mut c: Vec<String> = Vec::new();
        let mut j: usize = 0;
        while j < g.len()
            invariant
                j <= g.len(),
                c@.len() == j,
                forall|k: int| 0 <= k < j ==> (#[trigger] c@[k])@ == g@[k]@,
            decreases g.len() - j,
        {
            let s = g[j].clone();
            c.push(s);
            j = j + 1;
        }
        proof {
            assert(texts(c@) =~= texts(g@));
        }
        res.push(c);
        i = i + 1;
    }
    proof {
        assert(text_groups(res@) =~= text_groups(groups@));
    }
    res
}

/// The registry's query server.
pub struct SchemaTools {
    graph: SchemaGraph,
}

impl SchemaTools {
    /// The registry queried.
    pub closed spec fn g(&self) -> SchemaGraph {
        self.graph
    }

    #[verifier::type_invariant]
    spec fn inv(self) -> bool {
        self.graph.wf()
    }

    /// A server over `graph`.
    pub fn new(graph: SchemaGraph) -> (t: SchemaTools)
        requires
            graph.wf(),
        ensures
            t.g() == graph,
    {
        SchemaTools { graph }
    }

    /// The registry queried.
    pub fn graph(&self) -> (r: &SchemaGraph)
        ensures
            *r == self.g(),
            r.wf(),
    {
        proof {
            use_type_invariant(self);
        }
        &self.graph
    }

    /// The schema id a query resolves to, or the query itself.
    pub fn resolve_id(&self, id: &str) -> (res: String)
        ensures
            res@ == resolve_or(self.g().nodes(), id@),
    {
        let g = self.graph();
        match g.resolve(id) {
            Some(r) => r,
            None => id.to_string(),
        }
    }

    /// The registry's digest and counters.
    pub fn status(&self) -> (r: StatusResponse)
        ensures
            r.bundle_hash@ == self.g().bundle(),
            r.schema_count == found_count(self.g().ids(), self.g().ids().len() as int),
            r.edge_count == self.g().edges().len(),
            r.scc_count == self.g().cycles().len(),
            r.artifact_count == self.g().artifact_count_spec(),
    {
        let g = self.graph();
        StatusResponse {
            bundle_hash: g.bundle_hash().to_string(),
            schema_count: g.schema_count(),
            edge_count: g.edge_count(),
            scc_count: g.scc_count(),
            artifact_count: g.artifact_count(),
        }
    }

    /// Resolve a name, path or id to a schema id.
    pub fn resolve(&self, query: String) -> (r: ResolveResponse)
        ensures
            r.query@ == query@,
            r.resolved == resolved(self.g().nodes(), query@) is Some,
            opt_view(r.id) == resolved(self.g().nodes(), query@),
            opt_view(r.error) == (if resolved(self.g().nodes(), query@) is Some {
                None
            } else {
                Some("No schema found matching query: "@ + query@)
            }),
    {
        let g = self.graph();
        match g.resolve(query.as_str()) {
            Some(id) => ResolveResponse { resolved: true, id: Some(id), query, error: None },
            None => {
                let error = concat2("No schema found matching query: ", query.as_str());
                ResolveResponse { resolved: false, id: None, query, error: Some(error) }
            },
        }
    }

    /// The raw document of a schema.
    pub fn schema_raw(&self, id: &str) -> (r: RawSchemaResponse)
        ensures
            match last_pos(self.g().ids(), resolve_or(self.g().nodes(), id@)) {
                Some(j) => r matches RawSchemaResponse::Found { id: rid, schema } && rid@ == resolve_or(
                    self.g().nodes(),
                    id@,
                ) && schema == &self.g().raws()[j],
                None => r matches RawSchemaResponse::NotFound { error } && error@ == "Schema not found: "@ + id@,
            },
    {
        let g = self.graph();
        let rid = self.resolve_id(id);
        match g.get_raw(rid.as_str()) {
            Some(raw) => RawSchemaResponse::Found { id: rid, schema: raw },
            None => RawSchemaResponse::NotFound { error: concat2("Schema not found: ", id) },
        }
    }

    /// The ids a schema references.
    pub fn get_refs(&self, id: &str) -> (r: IdList)
        ensures
            r.id@ == resolve_or(self.g().nodes(), id@),
            texts(r.items@) == neighbours_of(self.g(), resolve_or(self.g().nodes(), id@), true),
    {
        let g = self.graph();
        let rid = self.resolve_id(id);
        let items = g.refs_out(rid.as_str());
        IdList { id: rid, items }
    }

    /// The ids that reference a schema.
    pub fn get_dependents(&self, id: &str) -> (r: IdList)
        ensures
            r.id@ == resolve_or(self.g().nodes(), id@),
            texts(r.items@) == neighbours_of(self.g(), resolve_or(self.g().nodes(), id@), false),
    {
        let g = self.graph();
        let rid = self.resolve_id(id);
        let items = g.refs_in(rid.as_str());
        IdList { id: rid, items }
    }

    /// The union lint's findings for a schema.
    pub fn lint_unions(&self, id: &str) -> (r: LintResponse)
        ensures
            r.id@ == resolve_or(self.g().nodes(), id@),
            r.warnings@.map_values(|w: LintWarning| warning_view(w)) == match last_pos(
                self.g().ids(),
                resolve_or(self.g().nodes(), id@),
            ) {
                Some(j) => crate::mcp::registry::union_warnings(self.g().raws()[j]),
                None => Seq::empty(),
            },
    {
        let g = self.graph();
        let rid = self.resolve_id(id);
        let warnings = g.lint_unions(rid.as_str());
        LintResponse { id: rid, warnings }
    }

    /// The dependencies (`out`, the default) or dependents (`in`) of a
    /// schema, up to `depth` edges away, with the registry's cycles.
    pub fn closure(&self, id: &str, direction: Option<String>, depth: Option<usize>) -> (r: ClosureResponse)
        ensures
            r.id@ == resolve_or(self.g().nodes(), id@),
            r.direction@ == match direction {
                Some(d) => d@,
                None => "out"@,
            },
            r.depth == depth,
            r.nodes@.map_values(|c: ClosureNode| closure_view(c)) == self.g().closure_of(
                resolve_or(self.g().nodes(), id@),
                r.direction@ != "in"@,
                depth,
            ),
            text_groups(r.scc_groups@) == self.g().cycles(),
    {
        let g = self.graph();
        let rid = self.resolve_id(id);
        let dir = match direction {
            Some(d) => d,
            None => "out".to_string(),
        };
        let outgoing = !str_eq(dir.as_str(), "in");
        let nodes = g.closure(rid.as_str(), outgoing, depth);
        let scc_groups = copy_groups(g.scc_groups());
        ClosureResponse { id: rid, direction: dir, depth, nodes, scc_groups }
    }

    /// A schema's metadata and reference counts; with `include_schema` its
    /// document, with `include_closure` its dependencies.
    pub fn get_type(&self, id: &str, include_schema: Option<bool>, include_closure: Option<bool>) -> (r: TypeLookup)
        ensures
            match last_pos(self.g().ids(), resolve_or(self.g().nodes(), id@)) {
                Some(j) => r matches TypeLookup::Found(t) && t.node == &self.g().nodes()[j] && t.refs_out_count
                    == neighbours_of(self.g(), resolve_or(self.g().nodes(), id@), true).len() && t.refs_in_count
                    == neighbours_of(self.g(), resolve_or(self.g().nodes(), id@), false).len() && t.schema == (if include_schema
                    == Some(true) {
                    Some(&self.g().raws()[j])
                } else {
                    None
                }) && (if include_closure == Some(true) {
                    t.closure matches Some(c) && c@.map_values(|c: ClosureNode| closure_view(c)) == self.g().closure_of(
                        resolve_or(self.g().nodes(), id@),
                        true,
                        None,
                    )
                } else {
                    t.closure is None
                }),
                None => r matches TypeLookup::NotFound { error } && error@ == "Schema not found: "@ + id@,
            },
    {
        let g = self.graph();
        let rid = self.resolve_id(id);
        let node = match g.get(rid.as_str()) {
            Some(n) => n,
            None => {
                return TypeLookup::NotFound { error: concat2("Schema not found: ", id) };
            },
        };
        let refs_out = g.refs_out(rid.as_str());
        let refs_in = g.refs_in(rid.as_str());
        proof {
            assert(texts(refs_out@).len() == refs_out@.len());
            assert(texts(refs_in@).len() == refs_in@.len());
        }
        let schema = if include_schema == Some(true) {
            g.get_raw(rid.as_str())
        } else {
            None
        };
        let closure = if include_closure == Some(true) {
            Some(g.closure(rid.as_str(), true, None))
        } else {
            None
        };
        TypeLookup::Found(
            TypeResponse { node, refs_out_count: refs_out.len(), refs_in_count: refs_in.len(), schema, closure },
        )
    }

    /// The schemas matching a query, best first, at most `limit` (10 when
    /// not given).
    pub fn search(&self, query: String, limit: Option<usize>) -> (r: SearchResponse)
        ensures
            r.query@ == query@,
            r.results@.map_values(|x: SearchResult| result_view(x)) == search_of(
                self.g(),
                query@,
                match limit {
                    Some(l) => l as int,
                    None => 10,
                },
            ),
    {
        let g = self.graph();
        let n = match limit {
            Some(l) => l,
            None => 10,
        };
        let results = g.search(query.as_str(), n);
        SearchResponse { query, results }
    }

    /// The schemas of one kind, or every kind when none is given.
    pub fn list_kinds(&self, kind: Option<String>) -> (r: KindsResponse)
        ensures
            match kind {
                Some(k) => r matches KindsResponse::OfKind { kind: rk, schemas } && rk@ == k@ && texts(schemas@)
                    == ids_of_kind(self.g().nodes(), k@, self.g().nodes().len() as int),
                None => r matches KindsResponse::All { kinds } && strictly_sorted(texts_of(kinds@)) && texts_of(
                    kinds@,
                ).to_set() == kind_set(self.g().nodes()),
            },
    {
        let g = self.graph();
        match kind {
            Some(k) => {
                let schemas = g.list_by_kind(k.as_str());
                KindsResponse::OfKind { kind: k, schemas }
            },
            None => KindsResponse::All { kinds: g.all_kinds() },
        }
    }

    /// The import lines for a schema and the schemas it refers to directly.
    pub fn imports_for(&self, id: &str, lang: String) -> (r: ImportsResponse)
        ensures
            r.id@ == resolve_or(self.g().nodes(), id@),
            r.lang@ == lang@,
            strictly_sorted(texts_of(r.imports@)),
            texts_of(r.imports@).to_set() == import_lines(
                self.g().import_nodes(resolve_or(self.g().nodes(), id@)),
                lang@,
            ).to_set(),
    {
        let g = self.graph();
        let rid = self.resolve_id(id);
        let imports = g.imports_for(rid.as_str(), lang.as_str());
        ImportsResponse { id: rid, lang, imports }
    }

    fn service_ref_of(&self, id: &str) -> (r: Option<ServiceRef>)
        ensures
            match r {
                Some(x) => service_ref(self.g(), id@) == Some(service_view(x)),
                None => service_ref(self.g(), id@) is None,
            },
    {
        let g = self.graph();
        match g.get(id) {
            Some(node) => match &node.service {
                Some(svc) => Some(ServiceRef { service: svc.clone(), schema_id: id.to_string(), kind: copy_opt(&node.kind) }),
                None => None,
            },
            None => None,
        }
    }

    /// The services that reference a schema, directly or through the schemas
    /// that reference it; each service once in `services`.
    pub fn services_for_schema(&self, id: &str) -> (r: ServicesResponse)
        ensures
            r.id@ == resolve_or(self.g().nodes(), id@),
            r.references@.map_values(|x: ServiceRef| service_view(x)) == services_of(
                self.g(),
                resolve_or(self.g().nodes(), id@),
            ),
            texts(r.services@).no_duplicates(),
            texts(r.services@).to_set() == services_of(self.g(), resolve_or(self.g().nodes(), id@)).map_values(
                |x: (Seq<char>, Seq<char>, Option<Seq<char>>)| x.0,
            ).to_set(),
    {
        let g = self.graph();
        let rid = self.resolve_id(id);
        let deps = g.refs_in(rid.as_str());
        let ghost dv = texts(deps@);
        let mut references: Vec<ServiceRef> = Vec::new();
        match self.service_ref_of(rid.as_str()) {
            Some(x) => references.push(x),
            None => {},
        }
        let ghost own = references@.map_values(|x: ServiceRef| service_view(x));
        proof {
            assert(own =~= (match service_ref(self.g(), rid@) {
                Some(r) => seq![r],
                None => Seq::empty(),
            }));
            assert(dv.take(0) =~= Seq::<Seq<char>>::empty());
        }
        let mut i: usize = 0;
        while i < deps.len()
            invariant
                i <= deps@.len(),
                dv == texts(deps@),
                references@.map_values(|x: ServiceRef| service_view(x)) == own + service_refs(self.g(), dv.take(i as int)),
            decreases deps.len() - i,
        {
            let ghost before = references@;
            let sr = self.service_ref_of(deps[i].as_str());
            proof {
                assert(dv.take(i + 1).drop_last() =~= dv.take(i as int));
                assert(dv.take(i + 1).last() == deps@[i as int]@);
                assert(service_refs(self.g(), dv.take(i + 1)) == service_refs(self.g(), dv.take(i as int)) + match service_ref(
                    self.g(),
                    deps@[i as int]@,
                ) {
                    Some(r) => seq![r],
                    None => Seq::empty(),
                });
            }
            match sr {
                Some(x) => {
                    references.push(x);
                    proof {
                        assert(references@.map_values(|x: ServiceRef| service_view(x)) =~= before.map_values(
                            |x: ServiceRef| service_view(x),
                        ).push(service_view(x)));
                    }
                },
                None => {},
            }
            proof {
                assert(references@.map_values(|x: ServiceRef| service_view(x)) =~= own + service_refs(self.g(), dv.take(i + 1)));
            }
            i = i + 1;
        }
        proof {
            assert(dv.take(deps@.len() as int) =~= dv);
        }
        let ghost all = references@.map_values(|x: ServiceRef| service_view(x));
        let mut services: Vec<String> = Vec::new();
        let mut k: usize = 0;
        while k < references.len()
            invariant
                k <= references@.len(),
                all == references@.map_values(|x: ServiceRef| service_view(x)),
                texts(services@).no_duplicates(),
                texts(services@).to_set() == all.take(k as int).map_values(
                    |x: (Seq<char>, Seq<char>, Option<Seq<char>>)| x.0,
                ).to_set(),
            decreases references.len() - k,
        {
            let ghost sv = texts(services@);
            let ghost prev = all.take(k as int).map_values(|x: (Seq<char>, Seq<char>, Option<Seq<char>>)| x.0);
            let ghost next = all.take(k + 1).map_values(|x: (Seq<char>, Seq<char>, Option<Seq<char>>)| x.0);
            proof {
                assert(next =~= prev.push(references@[k as int].service@));
                prev.lemma_push_to_set_commute(references@[k as int].service@);
            }
            if !holds(&services, references[k].service.as_str()) {
                services.push(references[k].service.clone());
                proof {
                    assert(texts(services@) =~= sv.push(references@[k as int].service@));
                    sv.lemma_push_to_set_commute(references@[k as int].service@);
                }
            } else {
                proof {
                    assert(sv.to_set().contains(references@[k as int].service@));
                    assert(sv.to_set().insert(references@[k as int].service@) =~= sv.to_set());
                }
            }
            k = k + 1;
        }
        proof {
            assert(all.take(references@.len() as int) =~= all);
        }
        ServicesResponse { id: rid, services, references }
    }

    fn has_union(&self, group: &Vec<String>) -> (res: bool)
        ensures
            res == exists|k: int| 0 <= k < group@.len() && node_has_union(self.g(), #[trigger] texts(group@)[k]),
    {
        let g = self.graph();
        let mut i: usize = 0;
        while i < group.len()
            invariant
                i <= group.len(),
                g.wf(),
                *g == self.g(),
                forall|k: int| 0 <= k < i ==> !node_has_union(self.g(), #[trigger] texts(group@)[k]),
            decreases group.len() - i,
        {
            match g.get(group[i].as_str()) {
                Some(n) => match &n.codegen {
                    Some(c) => {
                        if c.enum_repr.is_some() {
                            proof {
                                assert(node_has_union(self.g(), texts(group@)[i as int]));
                            }
                            return true;
                        }
                    },
                    None => {},
                },
                None => {},
            }
            proof {
                assert(!node_has_union(self.g(), texts(group@)[i as int]));
            }
            i = i + 1;
        }
        false
    }

    /// The reference cycles: every group of several schemas, and every
    /// schema that references itself, with the edge to box.
    pub fn scc_report(&self) -> (r: SccReport)
        ensures
            r.total_sccs == self.g().cycles().len(),
            r.cycles@.map_values(|c: CycleReport| cycle_view(c)) == cycle_entries(
                self.g(),
                self.g().cycles(),
                self.g().cycles().len() as int,
            ),
            forall|k: int| 0 <= k < r.cycles@.len() ==> (#[trigger] r.cycles@[k]).size == r.cycles@[k].members@.len(),
    {
        let g = self.graph();
        let groups = g.scc_groups();
        let ghost cs = self.g().cycles();
        let mut cycles: Vec<CycleReport> = Vec::new();
        let mut idx: usize = 0;
        while idx < groups.len()
            invariant
                idx <= groups@.len(),
                g.wf(),
                *g == self.g(),
                cs == text_groups(groups@),
                cs == self.g().cycles(),
                cycles@.map_values(|c: CycleReport| cycle_view(c)) == cycle_entries(self.g(), cs, idx as int),
                forall|k: int| 0 <= k < cycles@.len() ==> (#[trigger] cycles@[k]).size == cycles@[k].members@.len(),
            decreases groups.len() - idx,
        {
            let group = &groups[idx];
            let ghost gv = texts(group@);
            proof {
                assert(cs[idx as int] == gv);
                assert(gv.len() == group@.len());
            }
            let ghost before = cycles@;
            if group.len() > 1 {
                let has_unions = self.has_union(group);
                let mut edge = concat2(group[0].as_str(), " -> ");
                edge.append(group[1].as_str());
                let members = copy_strings(group);
                let c = CycleReport {
                    scc_id: idx,
                    members,
                    size: group.len(),
                    suggested_box_edge: edge,
                    has_unions: Some(has_unions),
                    self_referential: false,
                };
                proof {
                    assert(gv[0] == group@[0]@ && gv[1] == group@[1]@);
                    assert(cycle_view(c) == cycle_entry(self.g(), idx as int, gv)->0);
                }
                cycles.push(c);
            } else if group.len() == 1 {
                let id = &group[0];
                let outs = g.refs_out(id.as_str());
                if holds(&outs, id.as_str()) {
                    let mut edge = concat2(id.as_str(), " -> ");
                    edge.append(id.as_str());
                    let members = copy_strings(group);
                    let c = CycleReport {
                        scc_id: idx,
                        members,
                        size: 1,
                        suggested_box_edge: edge,
                        has_unions: None,
                        self_referential: true,
                    };
                    proof {
                        assert(gv[0] == group@[0]@);
                        assert(cycle_view(c) == cycle_entry(self.g(), idx as int, gv)->0);
                    }
                    cycles.push(c);
                } else {
                    proof {
                        assert(gv[0] == group@[0]@);
                    }
                }
            }
            proof {
                assert(cycles@.map_values(|c: CycleReport| cycle_view(c)) =~= cycle_entries(self.g(), cs, idx + 1));
            }
            idx = idx + 1;
        }
        SccReport { total_sccs: groups.len(), cycles }
    }

    /// The `top_n` (10 when not given) most referenced schemas, with the
    /// derives suggested for them.
    pub fn hub_report(&self, top_n: Option<usize>) -> (r: HubReport)
        ensures
            r.top_n == match top_n {
                Some(n) => n,
                None => 10,
            },
            r.hubs@.map_values(|h: HubEntry| (h.id@, h.in_degree as nat, h.out_degree as nat)) == hubs_of(
                self.g(),
                r.top_n as int,
            ),
            forall|k: int| 0 <= k < r.hubs@.len() ==> opt_view((#[trigger] r.hubs@[k]).kind) == kind_of(self.g(), r.hubs@[k].id@)
                && texts(r.hubs@[k].suggested_derives@) == hub_derives(r.hubs@[k].in_degree as nat),
    {
        let g = self.graph();
        let n = match top_n {
            Some(n) => n,
            None => 10,
        };
        let ids = g.all_ids();
        let ghost iv = texts(ids@);
        let ghost degs = in_degrees(self.g(), iv);
        let mut sorted: Vec<(usize, usize)> = Vec::new();
        let mut i: usize = 0;
        proof {
            assert(degs.take(0) =~= Seq::<(int, nat)>::empty());
        }
        while i < ids.len()
            invariant
                i <= ids@.len(),
                g.wf(),
                *g == self.g(),
                iv == texts(ids@),
                iv == all_ids_of(self.g()),
                degs == in_degrees(self.g(), iv),
                sorted@.map_values(|e: (usize, usize)| (e.0 as int, e.1 as nat)) == sort_by_degree(degs.take(i as int)),
            decreases ids.len() - i,
        {
            let ins = g.refs_in(ids[i].as_str());
            proof {
                assert(texts(ins@).len() == ins@.len());
                assert(iv[i as int] == ids@[i as int]@);
                assert(degs.take(i + 1).drop_last() =~= degs.take(i as int));
                assert(degs.take(i + 1).last() == (i as int, ins@.len() as nat));
            }
            insert_degree(&mut sorted, (i, ins.len()));
            i = i + 1;
        }
        proof {
            assert(degs.take(ids@.len() as int) =~= degs);
            lemma_sort_degree_elems(degs);
            assert forall|q: int| 0 <= q < sorted@.len() implies 0 <= (#[trigger] sorted@[q]).0 < iv.len() by {
                let e = sort_by_degree(degs)[q];
                assert(sorted@.map_values(|e: (usize, usize)| (e.0 as int, e.1 as nat))[q] == e);
                let j = choose|j: int| 0 <= j < degs.len() && degs[j] == e;
            }
        }
        let ghost sv = sorted@.map_values(|e: (usize, usize)| (e.0 as int, e.1 as nat));
        let count = if n < sorted.len() {
            n
        } else {
            sorted.len()
        };
        let mut hubs: Vec<HubEntry> = Vec::new();
        let mut k: usize = 0;
        while k < count
            invariant
                k <= count,
                g.wf(),
                *g == self.g(),
                count <= sorted@.len(),
                sv == sorted@.map_values(|e: (usize, usize)| (e.0 as int, e.1 as nat)),
                sv == sort_by_degree(in_degrees(self.g(), iv)),
                iv == texts(ids@),
                count == (if n < sv.len() { n as int } else { sv.len() as int }),
                forall|q: int| 0 <= q < sv.len() ==> 0 <= (#[trigger] sv[q]).0 < iv.len(),
                hubs@.map_values(|h: HubEntry| (h.id@, h.in_degree as nat, h.out_degree as nat)) == sv.take(k as int).map_values(
                    |e: (int, nat)| (iv[e.0], e.1, neighbours_of(self.g(), iv[e.0], true).len()),
                ),
                forall|q: int| 0 <= q < hubs@.len() ==> opt_view((#[trigger] hubs@[q]).kind) == kind_of(self.g(), hubs@[q].id@)
                    && texts(hubs@[q].suggested_derives@) == hub_derives(hubs@[q].in_degree as nat),
            decreases count - k,
        {
            let e = sorted[k];
            proof {
                assert(sv[k as int] == (e.0 as int, e.1 as nat));
            }
            let id = ids[e.0].clone();
            let outs = g.refs_out(id.as_str());
            proof {
                assert(texts(outs@).len() == outs@.len());
            }
            let kind = match g.get(id.as_str()) {
                Some(node) => copy_opt(&node.kind),
                None => None,
            };
            let mut derives: Vec<String> = Vec::new();
            if e.1 >= 3 {
                derives.push("Eq".to_string());
                derives.push("Hash".to_string());
                proof {
                    assert(texts(derives@) =~= seq!["Eq"@, "Hash"@]);
                }
            } else {
                proof {
                    assert(texts(derives@) =~= Seq::<Seq<char>>::empty());
                }
            }
            let ghost before = hubs@;
            hubs.push(HubEntry { id, in_degree: e.1, out_degree: outs.len(), kind, suggested_derives: derives });
            proof {
                assert(sv.take(k + 1) =~= sv.take(k as int).push(sv[k as int]));
                assert(hubs@.map_values(|h: HubEntry| (h.id@, h.in_degree as nat, h.out_degree as nat)) =~= before.map_values(
                    |h: HubEntry| (h.id@, h.in_degree as nat, h.out_degree as nat),
                ).push((iv[e.0 as int], e.1 as nat, neighbours_of(self.g(), iv[e.0 as int], true).len())));
            }
            k = k + 1;
        }
        HubReport { top_n: n, hubs }
    }

    /// The first cycle group of several schemas that contains `id`.
    fn find_cycle(&self, id: &str) -> (res: Option<usize>)
        ensures
            match res {
                Some(c) => cycle_from(self.g().cycles(), id@, 0) == Some(c as int),
                None => cycle_from(self.g().cycles(), id@, 0) is None,
            },
    {
        let g = self.graph();
        let groups = g.scc_groups();
        let ghost cs = self.g().cycles();
        let mut i: usize = 0;
        while i < groups.len()
            invariant
                i <= groups@.len(),
                cs == text_groups(groups@),
                cs == self.g().cycles(),
                cycle_from(cs, id@, 0) == cycle_from(cs, id@, i as int),
            decreases groups.len() - i,
        {
            proof {
                assert(cs[i as int] == texts(groups@[i as int]@));
            }
            if groups[i].len() > 1 && holds(&groups[i], id) {
                return Some(i);
            }
            i = i + 1;
        }
        None
    }

    /// Why a type is boxed: the cycle it is part of, a self reference, or an
    /// explicit setting.
    pub fn explain_boxing(&self, id: &str) -> (r: BoxingExplanation)
        ensures
            r.id@ == resolve_or(self.g().nodes(), id@),
            r.should_box == (cycle_from(self.g().cycles(), r.id@, 0) is Some || neighbours_of(self.g(), r.id@, true).contains(
                r.id@,
            )),
            r.box_reason@ == match cycle_from(self.g().cycles(), r.id@, 0) {
                Some(c) => "Part of SCC #"@ + decimal(c as nat) + " with "@ + decimal(self.g().cycles()[c].len()) + " members"@,
                None => if r.should_box {
                    "Self-referential type"@
                } else {
                    Seq::empty()
                },
            },
            r.strategy@ == str_or(
                opt_member(raw_member(self.g(), r.id@, "x-familiar-rust-recursion"@), "strategy"@),
                if r.should_box {
                    "box"@
                } else {
                    "none"@
                },
            ),
            r.explanation@.map_values(|x: BoxingReason| reason_view(x)) == boxing_reasons(self.g(), r.id@),
    {
        let g = self.graph();
        let rid = self.resolve_id(id);
        let groups = g.scc_groups();
        let ghost cs = self.g().cycles();
        let in_scc = self.find_cycle(rid.as_str());
        let outs = g.refs_out(rid.as_str());
        let self_ref = holds(&outs, rid.as_str());
        let over: Option<&Json> = match g.get_raw(rid.as_str()) {
            Some(raw) => raw.get("x-familiar-rust-recursion"),
            None => None,
        };
        let mut explanation: Vec<BoxingReason> = Vec::new();
        let mut should_box = false;
        let mut box_reason = String::new();
        proof {
            assert(box_reason@ == Seq::<char>::empty());
        }
        match in_scc {
            Some(c) => {
                proof {
                    lemma_cycle_from_bound(cs, rid@, 0);
                    assert(cs.len() == groups@.len());
                }
                let group = &groups[c];
                proof {
                    assert(cs[c as int] == texts(group@));
                }
                should_box = true;
                let mut b = concat2("Part of SCC #", usize_to_string(c).as_str());
                b.append(" with ");
                b.append(usize_to_string(group.len()).as_str());
                b.append(" members");
                box_reason = b;
                let mut parts: Vec<String> = Vec::new();
                let mut j: usize = 0;
                proof {
                    assert(texts(group@).take(0) =~= Seq::<Seq<char>>::empty());
                }
                while j < group.len()
                    invariant
                        j <= group@.len(),
                        texts(parts@) == others_than(texts(group@).take(j as int), rid@),
                    decreases group.len() - j,
                {
                    proof {
                        assert(texts(group@).take(j + 1).drop_last() =~= texts(group@).take(j as int));
                        assert(texts(group@).take(j + 1).last() == group@[j as int]@);
                    }
                    if !str_eq(group[j].as_str(), rid.as_str()) {
                        let ghost before = texts(parts@);
                        parts.push(group[j].clone());
                        proof {
                            assert(texts(parts@) =~= before.push(group@[j as int]@));
                        }
                    }
                    j = j + 1;
                }
                proof {
                    assert(texts(group@).take(group@.len() as int) =~= texts(group@));
                }
                let mut detail = "This type is part of a cycle with: ".to_string();
                let mut k: usize = 0;
                let ghost head = detail@;
                proof {
                    assert(head == "This type is part of a cycle with: "@);
                    assert(texts(parts@).take(0) =~= Seq::<Seq<char>>::empty());
                }
                while k < parts.len()
                    invariant
                        k <= parts@.len(),
                        detail@ == head + join(texts(parts@).take(k as int), ", "@),
                    decreases parts.len() - k,
                {
                    proof {
                        assert(texts(parts@).take(k + 1) =~= texts(parts@).take(k as int).push(parts@[k as int]@));
                        lemma_join_push(texts(parts@).take(k as int), ", "@, parts@[k as int]@);
                    }
                    if k > 0 {
                        detail.append(", ");
                    }
                    detail.append(parts[k].as_str());
                    k = k + 1;
                }
                proof {
                    assert(texts(parts@).take(parts@.len() as int) =~= texts(parts@));
                }
                let members = copy_strings(group);
                explanation.push(BoxingReason::SccMembership { detail, scc_id: c, members });
            },
            None => {
                if self_ref {
                    should_box = true;
                    box_reason = "Self-referential type".to_string();
                    explanation.push(BoxingReason::SelfReference);
                }
            },
        }
        let ghost first = explanation@.map_values(|x: BoxingReason| reason_view(x));
        match over {
            Some(v) => explanation.push(BoxingReason::ExplicitOverride { value: v }),
            None => {},
        }
        let ghost second = explanation@.map_values(|x: BoxingReason| reason_view(x));
        if !should_box {
            explanation.push(BoxingReason::NoBoxingNeeded);
        }
        let strategy = match over {
            Some(v) => match v.get("strategy") {
                Some(Json::Str(s)) => s.clone(),
                _ => if should_box {
                    "box".to_string()
                } else {
                    "none".to_string()
                },
            },
            None => if should_box {
                "box".to_string()
            } else {
                "none".to_string()
            },
        };
        proof {
            assert(explanation@.map_values(|x: BoxingReason| reason_view(x)) =~= boxing_reasons(self.g(), rid@));
        }
        BoxingExplanation { id: rid, should_box, box_reason, strategy, explanation }
    }

    /// Every setting that shapes the code generated for a type.
    pub fn policy_for(&self, id: &str) -> (r: PolicyReport)
        ensures
            r.id@ == resolve_or(self.g().nodes(), id@),
            r.explicit_policies@.map_values(|p: (String, &Json)| (p.0@, *p.1)) == rust_policies(raw_of(self.g(), r.id@)),
            r.in_cycle == in_some_cycle(self.g(), r.id@),
            r.in_degree == neighbours_of(self.g(), r.id@, false).len(),
            r.out_degree == neighbours_of(self.g(), r.id@, true).len(),
            r.is_hub == (r.in_degree >= 3),
            opt_view(r.kind) == kind_of(self.g(), r.id@),
            opt_view(r.service) == match node_of(self.g(), r.id@) {
                Some(n) => opt_view(n.service),
                None => None,
            },
            r.derive_policy@ == str_or(raw_member(self.g(), r.id@, "x-familiar-rust-derive-policy"@), "strict"@),
            r.default_impl@ == str_or(raw_member(self.g(), r.id@, "x-familiar-rust-default"@), "derived"@),
            r.recursion_strategy@ == str_or(
                opt_member(raw_member(self.g(), r.id@, "x-familiar-rust-recursion"@), "strategy"@),
                if r.in_cycle {
                    "box"@
                } else {
                    "none"@
                },
            ),
            match r.impl_modules {
                Some(v) => raw_member(self.g(), r.id@, "x-familiar-rust-impl-ids"@) == Some(*v),
                None => raw_member(self.g(), r.id@, "x-familiar-rust-impl-ids"@) is None,
            },
    {
        let g = self.graph();
        let rid = self.resolve_id(id);
        let raw = g.get_raw(rid.as_str());
        let mut policies: Vec<(String, &Json)> = Vec::new();
        match raw {
            Some(Json::Object(ms)) => {
                let mut i: usize = 0;
                proof {
                    assert(ms@.take(0) =~= Seq::<(String, Json)>::empty());
                }
                while i < ms.len()
                    invariant
                        i <= ms@.len(),
                        policies@.map_values(|p: (String, &Json)| (p.0@, *p.1)) == prefixed_members(
                            ms@.take(i as int),
                            "x-familiar-rust-"@,
                        ),
                    decreases ms.len() - i,
                {
                    proof {
                        assert(ms@.take(i + 1).drop_last() =~= ms@.take(i as int));
                        assert(ms@.take(i + 1).last() == ms@[i as int]);
                    }
                    let name = crate::text::chars_of(ms[i].0.as_str());
                    let ghost before = policies@.map_values(|p: (String, &Json)| (p.0@, *p.1));
                    if crate::text::chars_start(name.as_slice(), "x-familiar-rust-") {
                        policies.push((ms[i].0.clone(), &ms[i].1));
                        proof {
                            assert(policies@.map_values(|p: (String, &Json)| (p.0@, *p.1)) =~= before.push(
                                (ms@[i as int].0@, ms@[i as int].1),
                            ));
                        }
                    }
                    i = i + 1;
                }
                proof {
                    assert(ms@.take(ms@.len() as int) =~= ms@);
                }
            },
            _ => {},
        }
        let in_cycle = match self.find_cycle(rid.as_str()) {
            Some(_) => true,
            None => false,
        };
        proof {
            lemma_cycle_from(self.g().cycles(), rid@, 0);
        }
        let ins = g.refs_in(rid.as_str());
        let outs = g.refs_out(rid.as_str());
        proof {
            assert(texts(ins@).len() == ins@.len());
            assert(texts(outs@).len() == outs@.len());
        }
        let (kind, service) = match g.get(rid.as_str()) {
            Some(n) => (copy_opt(&n.kind), copy_opt(&n.service)),
            None => (None, None),
        };
        let member = |key: &str| -> (m: Option<&Json>)
            ensures
                match m {
                    Some(v) => raw_member(self.g(), rid@, key@) == Some(*v),
                    None => raw_member(self.g(), rid@, key@) is None,
                },
            {
                match raw {
                    Some(r) => r.get(key),
                    None => None,
                }
            };
        let derive_policy = match member("x-familiar-rust-derive-policy") {
            Some(Json::Str(s)) => s.clone(),
            _ => "strict".to_string(),
        };
        let default_impl = match member("x-familiar-rust-default") {
            Some(Json::Str(s)) => s.clone(),
            _ => "derived".to_string(),
        };
        let recursion_strategy = match member("x-familiar-rust-recursion") {
            Some(v) => match v.get("strategy") {
                Some(Json::Str(s)) => s.clone(),
                _ => if in_cycle {
                    "box".to_string()
                } else {
                    "none".to_string()
                },
            },
            None => if in_cycle {
                "box".to_string()
            } else {
                "none".to_string()
            },
        };
        let impl_modules = member("x-familiar-rust-impl-ids");
        PolicyReport {
            id: rid,
            explicit_policies: policies,
            in_cycle,
            in_degree: ins.len(),
            out_degree: outs.len(),
            is_hub: ins.len() >= 3,
            kind,
            service,
            derive_policy,
            default_impl,
            recursion_strategy,
            impl_modules,
        }
    }

    /// What a change to a schema would reach in the current version: its
    /// direct dependents, by kind, and how many schemas depend on it at all.
    pub fn impact(&self, id: &str, base_version: Option<String>) -> (r: ImpactReport)
        ensures
            r.id@ == resolve_or(self.g().nodes(), id@),
            r.base_version@ == match base_version {
                Some(b) => b@,
                None => "current"@,
            },
            r.direct_dependents == neighbours_of(self.g(), r.id@, false).len(),
            r.transitive_dependents == self.g().closure_of(r.id@, false, None).len(),
            groups_view(r.by_kind@) == group_by_kind(self.g(), neighbours_of(self.g(), r.id@, false)),
            texts(r.dependents@) == neighbours_of(self.g(), r.id@, false).take(
                if neighbours_of(self.g(), r.id@, false).len() < 20 {
                    neighbours_of(self.g(), r.id@, false).len() as int
                } else {
                    20
                },
            ),
            r.would_affect@ == decimal(r.transitive_dependents as nat) + " schemas total (showing first 20)"@,
    {
        let g = self.graph();
        let rid = self.resolve_id(id);
        let deps = g.refs_in(rid.as_str());
        let ghost dv = texts(deps@);
        let closure = g.closure(rid.as_str(), false, None);
        proof {
            assert(closure@.map_values(|c: ClosureNode| closure_view(c)).len() == closure@.len());
        }
        let mut by_kind: Vec<(String, Vec<String>)> = Vec::new();
        let mut i: usize = 0;
        proof {
            assert(dv.take(0) =~= Seq::<Seq<char>>::empty());
            assert(groups_view(by_kind@) =~= Seq::<(Seq<char>, Seq<Seq<char>>)>::empty());
        }
        while i < deps.len()
            invariant
                i <= deps@.len(),
                g.wf(),
                *g == self.g(),
                dv == texts(deps@),
                groups_view(by_kind@) == group_by_kind(self.g(), dv.take(i as int)),
            decreases deps.len() - i,
        {
            proof {
                assert(dv.take(i + 1).drop_last() =~= dv.take(i as int));
                assert(dv.take(i + 1).last() == deps@[i as int]@);
            }
            match g.get(deps[i].as_str()) {
                Some(n) => {
                    let k = match &n.kind {
                        Some(k) => k.clone(),
                        None => "unknown".to_string(),
                    };
                    add_grouped(&mut by_kind, k, deps[i].clone());
                },
                None => {},
            }
            i = i + 1;
        }
        proof {
            assert(dv.take(deps@.len() as int) =~= dv);
        }
        let shown = if deps.len() < 20 {
            deps.len()
        } else {
            20
        };
        let mut dependents: Vec<String> = Vec::new();
        let mut k: usize = 0;
        while k < shown
            invariant
                k <= shown,
                shown <= deps@.len(),
                dependents@.len() == k,
                forall|q: int| 0 <= q < k ==> (#[trigger] dependents@[q])@ == deps@[q]@,
            decreases shown - k,
        {
            dependents.push(deps[k].clone());
            k = k + 1;
        }
        proof {
            assert(texts(dependents@) =~= dv.take(shown as int));
        }
        let total = closure.len();
        let would_affect = concat2(usize_to_string(total).as_str(), " schemas total (showing first 20)");
        let version = match base_version {
            Some(b) => b,
            None => "current".to_string(),
        };
        ImpactReport {
            id: rid,
            base_version: version,
            direct_dependents: deps.len(),
            transitive_dependents: total,
            by_kind,
            dependents,
            would_affect,
        }
    }

    /// Why a type has the derives it has: the defaults, the schema's explicit
    /// list, additions and exclusions, and the graph's suggestions.
    pub fn explain_derives(&self, id: &str) -> (r: DerivesExplanation)
        ensures
            r.id@ == resolve_or(self.g().nodes(), id@),
            r.policy@ == str_or(raw_member(self.g(), r.id@, "x-familiar-rust-derive-policy"@), "strict"@),
            texts(r.defaults@) == default_derives(),
            match r.full_override {
                Some(f) => str_list(raw_member(self.g(), r.id@, "x-familiar-rust-derives"@)) == Some(texts(f@)),
                None => str_list(raw_member(self.g(), r.id@, "x-familiar-rust-derives"@)) is None,
            },
            texts(r.additions@) == match str_list(raw_member(self.g(), r.id@, "x-familiar-rust-derive-add"@)) {
                Some(l) => l,
                None => Seq::empty(),
            },
            texts(r.exclusions@) == match str_list(raw_member(self.g(), r.id@, "x-familiar-rust-derive-exclude"@)) {
                Some(l) => l,
                None => Seq::empty(),
            },
            texts(r.graph_suggests@) == graph_suggestions(
                neighbours_of(self.g(), r.id@, false).len(),
                match raw_of(self.g(), r.id@) {
                    Some(raw) => eq_hash_safe(raw),
                    None => false,
                },
            ),
            r.graph_reason@ == if neighbours_of(self.g(), r.id@, false).len() >= 3 {
                if texts(r.graph_suggests@).len() > 0 {
                    "High in-degree ("@ + decimal(neighbours_of(self.g(), r.id@, false).len()) + ") and all fields support Eq/Hash"@
                } else {
                    "High in-degree ("@ + decimal(neighbours_of(self.g(), r.id@, false).len())
                        + ") but fields contain f64/HashMap/Value - Eq/Hash not safe"@
                }
            } else {
                Seq::empty()
            },
            texts(r.final_derives@) == final_derives(
                match r.full_override {
                    Some(f) => Some(texts(f@)),
                    None => None,
                },
                texts(r.additions@),
                texts(r.exclusions@),
                r.policy@,
                texts(r.graph_suggests@),
            ),
            r.graph_applied == (r.policy@ == "allow_graph_suggestions"@ && r.graph_suggests@.len() > 0),
    {
        let g = self.graph();
        let rid = self.resolve_id(id);
        let raw = g.get_raw(rid.as_str());
        let member = |key: &str| -> (m: Option<&Json>)
            ensures
                match m {
                    Some(v) => raw_member(self.g(), rid@, key@) == Some(*v),
                    None => raw_member(self.g(), rid@, key@) is None,
                },
            {
                match raw {
                    Some(x) => x.get(key),
                    None => None,
                }
            };
        let mut defaults: Vec<String> = Vec::new();
        defaults.push("Debug".to_string());
        defaults.push("Clone".to_string());
        defaults.push("Serialize".to_string());
        defaults.push("Deserialize".to_string());
        defaults.push("JsonSchema".to_string());
        proof {
            assert(texts(defaults@) =~= default_derives());
        }
        let policy = match member("x-familiar-rust-derive-policy") {
            Some(Json::Str(p)) => p.clone(),
            _ => "strict".to_string(),
        };
        let full_override = string_list(member("x-familiar-rust-derives"));
        let additions = match string_list(member("x-familiar-rust-derive-add")) {
            Some(l) => l,
            None => {
                let e: Vec<String> = Vec::new();
                proof {
                    assert(texts(e@) =~= Seq::<Seq<char>>::empty());
                }
                e
            },
        };
        let exclusions = match string_list(member("x-familiar-rust-derive-exclude")) {
            Some(l) => l,
            None => {
                let e: Vec<String> = Vec::new();
                proof {
                    assert(texts(e@) =~= Seq::<Seq<char>>::empty());
                }
                e
            },
        };
        let ins = g.refs_in(rid.as_str());
        proof {
            assert(texts(ins@).len() == ins@.len());
        }
        let in_degree = ins.len();
        let mut graph_suggests: Vec<String> = Vec::new();
        let mut graph_reason = String::new();
        proof {
            assert(graph_reason@ == Seq::<char>::empty());
            assert(texts(graph_suggests@) =~= Seq::<Seq<char>>::empty());
        }
        if in_degree >= 3 {
            let safe = match raw {
                Some(x) => is_eq_hash_safe(x),
                None => false,
            };
            let count = usize_to_string(in_degree);
            if safe {
                graph_suggests.push("Eq".to_string());
                graph_suggests.push("Hash".to_string());
                proof {
                    assert(texts(graph_suggests@) =~= seq!["Eq"@, "Hash"@]);
                }
                let mut reason = concat2("High in-degree (", count.as_str());
                reason.append(") and all fields support Eq/Hash");
                graph_reason = reason;
            } else {
                let mut reason = concat2("High in-degree (", count.as_str());
                reason.append(") but fields contain f64/HashMap/Value - Eq/Hash not safe");
                graph_reason = reason;
            }
        }
        let final_list = match &full_override {
            Some(full) => copy_strings(full),
            None => {
                let mut result = copy_strings(&defaults);
                append_missing(&mut result, &additions);
                let mut j: usize = 0;
                let ghost base = texts(result@);
                proof {
                    assert(texts(exclusions@).take(0) =~= Seq::<Seq<char>>::empty());
                }
                while j < exclusions.len()
                    invariant
                        j <= exclusions@.len(),
                        texts(result@) == remove_all(base, texts(exclusions@).take(j as int)),
                    decreases exclusions.len() - j,
                {
                    proof {
                        assert(texts(exclusions@).take(j + 1).drop_last() =~= texts(exclusions@).take(j as int));
                        assert(texts(exclusions@).take(j + 1).last() == exclusions@[j as int]@);
                    }
                    result = without(&result, exclusions[j].as_str());
                    j = j + 1;
                }
                proof {
                    assert(texts(exclusions@).take(exclusions@.len() as int) =~= texts(exclusions@));
                }
                if str_eq(policy.as_str(), "allow_graph_suggestions") {
                    append_missing(&mut result, &graph_suggests);
                }
                result
            },
        };
        let graph_applied = str_eq(policy.as_str(), "allow_graph_suggestions") && graph_suggests.len() > 0;
        DerivesExplanation {
            id: rid,
            policy,
            final_derives: final_list,
            defaults,
            full_override,
            additions,
            exclusions,
            graph_suggests,
            graph_reason,
            graph_applied,
        }
    }

    fn titled_result(&self, name: &String) -> (res: Option<String>)
        ensures
            opt_view(res) == titled(search_of(self.g(), name@, 5), name@),
    {
        let g = self.graph();
        let results = g.search(name.as_str(), 5);
        let ghost rv = results@.map_values(|x: SearchResult| result_view(x));
        let mut i: usize = 0;
        proof {
            assert(rv.skip(0) =~= rv);
        }
        while i < results.len()
            invariant
                i <= results@.len(),
                rv == results@.map_values(|x: SearchResult| result_view(x)),
                rv == search_of(self.g(), name@, 5),
                titled(rv, name@) == titled(rv.skip(i as int), name@),
            decreases results.len() - i,
        {
            proof {
                assert(rv.skip(i as int)[0] == rv[i as int]);
                assert(rv.skip(i as int).drop_first() =~= rv.skip(i + 1));
            }
            match &results[i].title {
                Some(t) => {
                    if str_eq(t.as_str(), name.as_str()) {
                        let found = results[i].id.clone();
                        proof {
                            assert(rv[i as int] == result_view(results@[i as int]));
                            assert(rv[i as int].1 == Some(name@));
                            assert(rv.skip(i as int)[0] == rv[i as int]);
                            assert(titled(rv.skip(i as int), name@) == Some(rv[i as int].0));
                            assert(found@ == rv[i as int].0);
                        }
                        return Some(found);
                    }
                },
                None => {},
            }
            i = i + 1;
        }
        proof {
            assert(rv.skip(i as int).len() == 0);
        }
        None
    }

    /// The definitions embedded in schemas (`#/definitions/`), by what to do
    /// with them: extract those found nowhere else, point those that
    /// duplicate a standalone schema at it, keep those naming their own
    /// schema.
    pub fn find_embedded_definitions(&self) -> (r: EmbeddedDefinitions)
        ensures
            r.embedded_only@.map_values(|d: EmbeddedDef| def_view(d)) == sorted_defs(
                of_category(all_defs(self.g(), all_ids_of(self.g())), 0),
            ),
            r.duplicates@.map_values(|d: EmbeddedDef| def_view(d)) == sorted_defs(
                of_category(all_defs(self.g(), all_ids_of(self.g())), 1),
            ),
            r.self_referential@.map_values(|d: EmbeddedDef| def_view(d)) == of_category(
                all_defs(self.g(), all_ids_of(self.g())),
                2,
            ),
    {
        let g = self.graph();
        let ids = g.all_ids();
        let ghost iv = texts(ids@);
        let mut only: Vec<EmbeddedDef> = Vec::new();
        let mut dups: Vec<EmbeddedDef> = Vec::new();
        let mut selfs: Vec<EmbeddedDef> = Vec::new();
        let mut i: usize = 0;
        proof {
            assert(iv.take(0) =~= Seq::<Seq<char>>::empty());
        }
        while i < ids.len()
            invariant
                i <= ids@.len(),
                g.wf(),
                *g == self.g(),
                iv == texts(ids@),
                only@.map_values(|d: EmbeddedDef| def_view(d)) == of_category(all_defs(self.g(), iv.take(i as int)), 0),
                dups@.map_values(|d: EmbeddedDef| def_view(d)) == of_category(all_defs(self.g(), iv.take(i as int)), 1),
                selfs@.map_values(|d: EmbeddedDef| def_view(d)) == of_category(all_defs(self.g(), iv.take(i as int)), 2),
            decreases ids.len() - i,
        {
            let sid = &ids[i];
            let ghost prefix = all_defs(self.g(), iv.take(i as int));
            proof {
                assert(iv.take(i + 1).drop_last() =~= iv.take(i as int));
                assert(iv.take(i + 1).last() == sid@);
            }
            let ghost here: Seq<(int, Seq<char>, Seq<char>, Option<Seq<char>>)> = Seq::empty();
            match g.get_raw(sid.as_str()) {
                Some(raw) => {
                    match raw.get("definitions") {
                        Some(Json::Object(ms)) => {
                            let parent_title: String = match raw.get("title") {
                                Some(Json::Str(t)) => t.clone(),
                                _ => String::new(),
                            };
                            let mut k: usize = 0;
                            proof {
                                assert(ms@.take(0) =~= Seq::<(String, Json)>::empty());
                            }
                            while k < ms.len()
                                invariant
                                    k <= ms@.len(),
                                    g.wf(),
                                    *g == self.g(),
                                    parent_title@ == str_or(json_get(*raw, "title"@), Seq::empty()),
                                    only@.map_values(|d: EmbeddedDef| def_view(d)) == of_category(
                                        prefix + defs_of(self.g(), sid@, *raw, ms@.take(k as int)),
                                        0,
                                    ),
                                    dups@.map_values(|d: EmbeddedDef| def_view(d)) == of_category(
                                        prefix + defs_of(self.g(), sid@, *raw, ms@.take(k as int)),
                                        1,
                                    ),
                                    selfs@.map_values(|d: EmbeddedDef| def_view(d)) == of_category(
                                        prefix + defs_of(self.g(), sid@, *raw, ms@.take(k as int)),
                                        2,
                                    ),
                                decreases ms.len() - k,
                            {
                                let name = &ms[k].0;
                                let ghost es0 = prefix + defs_of(self.g(), sid@, *raw, ms@.take(k as int));
                                let ghost e = def_entry(self.g(), sid@, *raw, name@);
                                proof {
                                    assert(ms@.take(k + 1).drop_last() =~= ms@.take(k as int));
                                    assert(ms@.take(k + 1).last() == ms@[k as int]);
                                    assert(prefix + defs_of(self.g(), sid@, *raw, ms@.take(k + 1)) =~= es0.push(e));
                                    assert(es0.push(e).drop_last() =~= es0);
                                }
                                let is_self = str_eq(name.as_str(), parent_title.as_str());
                                if is_self {
                                    let ghost b = selfs@.map_values(|d: EmbeddedDef| def_view(d));
                                    selfs.push(EmbeddedDef { parent_schema: sid.clone(), definition_name: name.clone(), standalone_schema: None });
                                    proof {
                                        assert(selfs@.map_values(|d: EmbeddedDef| def_view(d)) =~= b.push((sid@, name@, None)));
                                    }
                                } else {
                                    match self.titled_result(name) {
                                        Some(standalone) => {
                                            let ghost b = dups@.map_values(|d: EmbeddedDef| def_view(d));
                                            let ghost sv = standalone@;
                                            dups.push(
                                                EmbeddedDef {
                                                    parent_schema: sid.clone(),
                                                    definition_name: name.clone(),
                                                    standalone_schema: Some(standalone),
                                                },
                                            );
                                            proof {
                                                assert(dups@.map_values(|d: EmbeddedDef| def_view(d)) =~= b.push((sid@, name@, Some(sv))));
                                            }
                                        },
                                        None => {
                                            let ghost b = only@.map_values(|d: EmbeddedDef| def_view(d));
                                            only.push(
                                                EmbeddedDef {
                                                    parent_schema: sid.clone(),
                                                    definition_name: name.clone(),
                                                    standalone_schema: None,
                                                },
                                            );
                                            proof {
                                                assert(only@.map_values(|d: EmbeddedDef| def_view(d)) =~= b.push((sid@, name@, None)));
                                            }
                                        },
                                    }
                                }
                                k = k + 1;
                            }
                            proof {
                                assert(ms@.take(ms@.len() as int) =~= ms@);
                                assert(schema_defs(self.g(), sid@) == defs_of(self.g(), sid@, *raw, ms@));
                            }
                        },
                        _ => {
                            proof {
                                assert(schema_defs(self.g(), sid@) =~= Seq::empty());
                                assert(prefix + schema_defs(self.g(), sid@) =~= prefix);
                            }
                        },
                    }
                },
                None => {
                    proof {
                        assert(schema_defs(self.g(), sid@) =~= Seq::empty());
                        assert(prefix + schema_defs(self.g(), sid@) =~= prefix);
                    }
                },
            }
            i = i + 1;
        }
        proof {
            assert(iv.take(ids@.len() as int) =~= iv);
        }
        let embedded_only = sort_defs(only);
        let duplicates = sort_defs(dups);
        EmbeddedDefinitions { embedded_only, duplicates, self_referential: selfs }
    }

    /// The artifacts generated from a schema, or only the one in `lang`.
    pub fn get_artifacts(&self, id: &str, lang: Option<String>) -> (r: ArtifactsResponse)
        ensures
            r.id@ == resolve_or(self.g().nodes(), id@),
            r.artifacts@ == match lang {
                Some(l) => match assoc(self.g().artifact_table(), artifact_key(l@, expected_type_name(self.g().nodes(), r.id@))) {
                    Some(a) => seq![a],
                    None => Seq::empty(),
                },
                None => lookup_all(self.g().artifact_table(), self.g().schema_artifact_ids(r.id@)),
            },
    {
        let g = self.graph();
        let rid = self.resolve_id(id);
        let artifacts = match lang {
            Some(l) => {
                let mut v: Vec<GeneratedArtifact> = Vec::new();
                match g.get_artifact(rid.as_str(), l.as_str()) {
                    Some(a) => {
                        v.push(a.copy());
                        proof {
                            assert(v@ =~= seq![*a]);
                        }
                    },
                    None => {
                        proof {
                            assert(v@ =~= Seq::<GeneratedArtifact>::empty());
                        }
                    },
                }
                v
            },
            None => g.get_artifacts(rid.as_str()),
        };
        ArtifactsResponse { id: rid, artifacts }
    }

    /// The known schemas without an artifact in `lang`, sorted by kind,
    /// then id.
    pub fn schemas_without_artifacts(&self, lang: String) -> (r: MissingArtifacts)
        ensures
            r.lang@ == lang@,
            r.total_schemas == all_ids_of(self.g()).len(),
            r.missing@.map_values(|m: MissingArtifact| missing_view(m)) == sorted_missing(
                missing_artifacts(self.g(), all_ids_of(self.g()), lang@),
            ),
    {
        let g = self.graph();
        let ids = g.all_ids();
        let ghost iv = texts(ids@);
        let pairs = g.schemas_with_artifacts(lang.as_str());
        let mut with: Vec<String> = Vec::new();
        let mut p: usize = 0;
        while p < pairs.len()
            invariant
                p <= pairs@.len(),
                with@.len() == p,
                forall|q: int| 0 <= q < p ==> (#[trigger] with@[q])@ == pairs@[q].0@,
            decreases pairs.len() - p,
        {
            with.push(pairs[p].0.clone());
            p = p + 1;
        }
        proof {
            assert(texts(with@) =~= ids_with_artifacts(self.g(), lang@));
        }
        let mut keyed: Vec<((String, String), MissingArtifact)> = Vec::new();
        let mut i: usize = 0;
        proof {
            assert(iv.take(0) =~= Seq::<Seq<char>>::empty());
        }
        while i < ids.len()
            invariant
                i <= ids@.len(),
                g.wf(),
                *g == self.g(),
                iv == texts(ids@),
                texts(with@) == ids_with_artifacts(self.g(), lang@),
                map_keyed(keyed_view(keyed@), |m: MissingArtifact| missing_view(m)) == missing_artifacts(
                    self.g(),
                    iv.take(i as int),
                    lang@,
                ).map_values(
                    |e: (Seq<char>, Option<Seq<char>>, Option<Seq<char>>)|
                        ((
                            match e.1 {
                                Some(k) => k,
                                None => Seq::<char>::empty(),
                            },
                            e.0,
                        ), e),
                ),
            decreases ids.len() - i,
        {
            proof {
                assert(iv.take(i + 1).drop_last() =~= iv.take(i as int));
                assert(iv.take(i + 1).last() == ids@[i as int]@);
            }
            let ghost before = keyed@;
            let ghost fkey = |e: (Seq<char>, Option<Seq<char>>, Option<Seq<char>>)|
                ((
                    match e.1 {
                        Some(k) => k,
                        None => Seq::<char>::empty(),
                    },
                    e.0,
                ), e);
            let ghost prev = missing_artifacts(self.g(), iv.take(i as int), lang@);
            proof {
                assert(missing_artifacts(self.g(), iv.take(i + 1), lang@) == prev + if !ids_with_artifacts(self.g(), lang@).contains(
                    ids@[i as int]@,
                ) && node_of(self.g(), ids@[i as int]@) is Some {
                    seq![(ids@[i as int]@, kind_of(self.g(), ids@[i as int]@), opt_view(node_of(self.g(), ids@[i as int]@)->0.title))]
                } else {
                    Seq::empty()
                });
            }
            if !holds(&with, ids[i].as_str()) {
                match g.get(ids[i].as_str()) {
                    Some(node) => {
                        let kind = copy_opt(&node.kind);
                        let title = copy_opt(&node.title);
                        let key = match &node.kind {
                            Some(k) => k.clone(),
                            None => String::new(),
                        };
                        let m = MissingArtifact { id: ids[i].clone(), kind, title };
                        keyed.push(((key, ids[i].clone()), m));
                        proof {
                            assert(keyed_view(keyed@) =~= keyed_view(before).push(((key@, ids@[i as int]@), m)));
                            let e = (ids@[i as int]@, kind_of(self.g(), ids@[i as int]@), opt_view(node_of(self.g(), ids@[i as int]@)->0.title));
                            assert(missing_view(m) == e);
                            assert(map_keyed(keyed_view(keyed@), |m: MissingArtifact| missing_view(m)) =~= map_keyed(
                                keyed_view(before),
                                |m: MissingArtifact| missing_view(m),
                            ).push(fkey(e)));
                            assert((prev + seq![e]).map_values(fkey) =~= prev.map_values(fkey).push(fkey(e)));
                        }
                    },
                    None => {
                        proof {
                            assert(prev + Seq::empty() =~= prev);
                        }
                    },
                }
            } else {
                proof {
                    assert(prev + Seq::empty() =~= prev);
                }
            }
            i = i + 1;
        }
        proof {
            assert(iv.take(ids@.len() as int) =~= iv);
        }
        let sorted = sort_by_keys(keyed);
        proof {
            lemma_sort_keyed_map(keyed_view(keyed@), |m: MissingArtifact| missing_view(m));
        }
        let ghost kv = keyed_view(sorted@);
        let mut out: Vec<MissingArtifact> = Vec::new();
        let mut rest = sorted;
        let n = rest.len();
        let mut j: usize = 0;
        proof {
            assert(kv.skip(0) =~= kv);
        }
        while j < n
            invariant
                j <= n,
                n == kv.len(),
                keyed_view(rest@) == kv.skip(j as int),
                out@.map_values(|m: MissingArtifact| missing_view(m)) == kv.take(j as int).map_values(
                    |e: ((Seq<char>, Seq<char>), MissingArtifact)| missing_view(e.1),
                ),
            decreases n - j,
        {
            let ghost r0 = rest@;
            proof {
                assert(keyed_view(r0).len() == r0.len());
            }
            let e = rest.remove(0);
            let ghost before = out@.map_values(|m: MissingArtifact| missing_view(m));
            out.push(e.1);
            proof {
                assert(e == r0[0]);
                assert(kv[j as int] == keyed_view(r0)[0]);
                assert(rest@ =~= r0.subrange(1, r0.len() as int));
                assert forall|q: int| 0 <= q < rest@.len() implies #[trigger] keyed_view(rest@)[q] == kv.skip(j + 1)[q] by {
                    assert(rest@[q] == r0[q + 1]);
                    assert(keyed_view(r0)[q + 1] == kv.skip(j as int)[q + 1]);
                }
                assert(keyed_view(rest@) =~= kv.skip(j + 1));
                assert(kv.take(j + 1) =~= kv.take(j as int).push(kv[j as int]));
                assert(out@.map_values(|m: MissingArtifact| missing_view(m)) =~= before.push(missing_view(e.1)));
            }
            j = j + 1;
        }
        proof {
            assert(kv.take(n as int) =~= kv);
            assert(kv.map_values(|e: ((Seq<char>, Seq<char>), MissingArtifact)| missing_view(e.1)) =~= map_keyed(
                kv,
                |m: MissingArtifact| missing_view(m),
            ).map_values(|e: ((Seq<char>, Seq<char>), (Seq<char>, Option<Seq<char>>, Option<Seq<char>>))| e.1));
            assert(texts(ids@).len() == ids@.len());
        }
        MissingArtifacts { lang, total_schemas: ids.len(), missing: out }
    }

    /// The artifacts a change to a schema affects, grouped by language.
    pub fn affected_artifacts(&self, id: &str) -> (r: AffectedArtifacts)
        ensures
            r.schema_id@ == resolve_or(self.g().nodes(), id@),
            r.total_affected == (lookup_all(self.g().artifact_table(), self.g().schema_artifact_ids(r.schema_id@))
                + self.g().entry_artifacts(self.g().closure_of(r.schema_id@, false, None))).len(),
            art_groups_view(r.by_language@) == group_by_lang(
                lookup_all(self.g().artifact_table(), self.g().schema_artifact_ids(r.schema_id@)) + self.g().entry_artifacts(
                    self.g().closure_of(r.schema_id@, false, None),
                ),
            ),
    {
        let g = self.graph();
        let rid = self.resolve_id(id);
        let affected = g.affected_artifacts(rid.as_str());
        let mut groups: Vec<(String, Vec<GeneratedArtifact>)> = Vec::new();
        let mut i: usize = 0;
        proof {
            assert(affected@.take(0) =~= Seq::<GeneratedArtifact>::empty());
            assert(art_groups_view(groups@) =~= Seq::<(Seq<char>, Seq<GeneratedArtifact>)>::empty());
        }
        while i < affected.len()
            invariant
                i <= affected@.len(),
                art_groups_view(groups@) == group_by_lang(affected@.take(i as int)),
            decreases affected.len() - i,
        {
            proof {
                assert(affected@.take(i + 1).drop_last() =~= affected@.take(i as int));
                assert(affected@.take(i + 1).last() == affected@[i as int]);
            }
            add_art_grouped(&mut groups, affected[i].lang.clone(), affected[i].copy());
            i = i + 1;
        }
        proof {
            assert(affected@.take(affected@.len() as int) =~= affected@);
        }
        AffectedArtifacts { schema_id: rid, total_affected: affected.len(), by_language: groups }
    }

    /// The schemas an artifact is generated from: its own, then those it
    /// depends on.
    pub fn artifact_dependencies(&self, artifact_id: String) -> (r: ArtifactDependencies)
        ensures
            r.artifact_id@ == artifact_id@,
            r.dependencies@.map_values(|n: &SchemaNode| *n) == match self.g().artifact_schema(artifact_id@) {
                Some(sid) => (match last_pos(self.g().ids(), sid) {
                    Some(j) => seq![self.g().nodes()[j]],
                    None => Seq::empty(),
                }) + self.g().dep_nodes(self.g().closure_of(sid, true, None)),
                None => Seq::empty(),
            },
    {
        let g = self.graph();
        let dependencies = g.artifact_dependencies(artifact_id.as_str());
        ArtifactDependencies { artifact_id, dependencies }
    }

    /// The other artifacts in the file of an artifact.
    pub fn colocated_artifacts(&self, artifact_id: String) -> (r: ColocatedArtifacts)
        ensures
            r.artifact_id@ == artifact_id@,
            opt_view(r.file) == match assoc(self.g().artifact_table(), artifact_id@) {
                Some(a) => Some(a.file@),
                None => None,
            },
            r.colocated@ == match assoc(self.g().artifact_table(), artifact_id@) {
                Some(a) => others(lookup_all(self.g().artifact_table(), self.g().file_artifact_ids(a.file@)), artifact_id@),
                None => Seq::empty(),
            },
    {
        let g = self.graph();
        let colocated = g.colocated_artifacts(artifact_id.as_str());
        let file = match g.get_artifact_by_id(artifact_id.as_str()) {
            Some(a) => Some(a.file.clone()),
            None => None,
        };
        ColocatedArtifacts { artifact_id, file, colocated }
    }

    /// The artifacts in a file, each with the schema it is generated from.
    pub fn file_artifacts(&self, file: String) -> (r: FileArtifacts)
        ensures
            r.file@ == file@,
            r.artifacts@.map_values(|e: (GeneratedArtifact, Option<String>)| e.0) == lookup_all(
                self.g().artifact_table(),
                self.g().file_artifact_ids(file@),
            ),
            forall|k: int| 0 <= k < r.artifacts@.len() ==> opt_view((#[trigger] r.artifacts@[k]).1) == self.g().artifact_schema(
                artifact_id_of(r.artifacts@[k].0),
            ),
    {
        let g = self.graph();
        let arts = g.get_file_artifacts(file.as_str());
        let mut out: Vec<(GeneratedArtifact, Option<String>)> = Vec::new();
        let mut i: usize = 0;
        while i < arts.len()
            invariant
                i <= arts@.len(),
                *g == self.g(),
                out@.len() == i,
                forall|k: int| 0 <= k < i ==> (#[trigger] out@[k]).0 == arts@[k] && opt_view(out@[k].1) == self.g().artifact_schema(
                    artifact_id_of(arts@[k]),
                ),
            decreases arts.len() - i,
        {
            let aid = arts[i].artifact_id();
            let schema = match g.get_artifact_schema(aid.as_str()) {
                Some(sc) => Some(sc.to_string()),
                None => None,
            };
            out.push((arts[i].copy(), schema));
            i = i + 1;
        }
        proof {
            assert(out@.map_values(|e: (GeneratedArtifact, Option<String>)| e.0) =~= arts@);
        }
        FileArtifacts { file, artifacts: out }
    }

    /// The registry's counters, with the artifacts per language.
    pub fn graph_stats(&self) -> (r: GraphStats)
        ensures
            r.schemas == found_count(self.g().ids(), self.g().ids().len() as int),
            r.edges == self.g().edges().len(),
            r.sccs == self.g().cycles().len(),
            r.artifacts == self.g().artifact_count_spec(),
            r.coverage@.len() == self.g().lang_table().len(),
            forall|i: int| 0 <= i < r.coverage@.len() ==> (#[trigger] r.coverage@[i]).0@ == self.g().lang_table()[i].0
                && r.coverage@[i].1.0 == self.g().lang_table()[i].1 && r.coverage@[i].1.1 == r.schemas,
    {
        let g = self.graph();
        GraphStats {
            schemas: g.schema_count(),
            edges: g.edge_count(),
            sccs: g.scc_count(),
            artifacts: g.artifact_count(),
            coverage: g.artifact_coverage(),
        }
    }

    /// Inline object schemas that occur in more than one place with the same
    /// shape: proposals of types to hoist, with a suggested name.
    pub fn hoist_candidates(&self) -> (r: Vec<HoistCandidate>)
        ensures
            r@.map_values(|c: HoistCandidate| candidate_view(c)) == hoist_of(
                hash_groups(all_occurrences(self.g(), all_ids_of(self.g()))),
            ),
    {
        let g = self.graph();
        let ids = g.all_ids();
        let ghost iv = texts(ids@);
        let mut groups: Vec<(u64, Vec<(String, String)>)> = Vec::new();
        let mut i: usize = 0;
        proof {
            assert(iv.take(0) =~= Seq::<Seq<char>>::empty());
            assert(hgroups_view(groups@) =~= Seq::<(u64, Seq<(Seq<char>, Seq<char>)>)>::empty());
        }
        while i < ids.len()
            invariant
                i <= ids@.len(),
                g.wf(),
                *g == self.g(),
                iv == texts(ids@),
                hgroups_view(groups@) == hash_groups(all_occurrences(self.g(), iv.take(i as int))),
            decreases ids.len() - i,
        {
            let sid = &ids[i];
            let ghost prefix = all_occurrences(self.g(), iv.take(i as int));
            proof {
                assert(iv.take(i + 1).drop_last() =~= iv.take(i as int));
                assert(iv.take(i + 1).last() == sid@);
            }
            match g.get_raw(sid.as_str()) {
                Some(raw) => match raw.get("properties") {
                    Some(Json::Object(ms)) => {
                        let mut k: usize = 0;
                        proof {
                            assert(ms@.take(0) =~= Seq::<(String, Json)>::empty());
                            assert(prefix + prop_occurrences(sid@, ms@.take(0)) =~= prefix);
                        }
                        while k < ms.len()
                            invariant
                                k <= ms@.len(),
                                hgroups_view(groups@) == hash_groups(prefix + prop_occurrences(sid@, ms@.take(k as int))),
                            decreases ms.len() - k,
                        {
                            let ghost before = prefix + prop_occurrences(sid@, ms@.take(k as int));
                            proof {
                                assert(ms@.take(k + 1).drop_last() =~= ms@.take(k as int));
                                assert(ms@.take(k + 1).last() == ms@[k as int]);
                            }
                            let p = &ms[k].1;
                            if p.get("$ref").is_none() && p.get("properties").is_some() {
                                let text = normalize_for_hash(p);
                                let h = shape_hash(text.as_str());
                                add_hash_grouped(&mut groups, h, (sid.clone(), ms[k].0.clone()));
                                proof {
                                    let o = (sid@, ms@[k as int].0@, prop_shape_hash(ms@[k as int].1));
                                    assert(prefix + prop_occurrences(sid@, ms@.take(k + 1)) =~= before.push(o));
                                    assert(before.push(o).drop_last() =~= before);
                                }
                            } else {
                                proof {
                                    assert(prefix + prop_occurrences(sid@, ms@.take(k + 1)) =~= before);
                                }
                            }
                            k = k + 1;
                        }
                        proof {
                            assert(ms@.take(ms@.len() as int) =~= ms@);
                        }
                    },
                    _ => {
                        proof {
                            assert(prefix + schema_occurrences(self.g(), sid@) =~= prefix);
                        }
                    },
                },
                None => {
                    proof {
                        assert(prefix + schema_occurrences(self.g(), sid@) =~= prefix);
                    }
                },
            }
            i = i + 1;
        }
        proof {
            assert(iv.take(ids@.len() as int) =~= iv);
        }
        let ghost gv = hgroups_view(groups@);
        let mut out: Vec<HoistCandidate> = Vec::new();
        let mut j: usize = 0;
        proof {
            assert(gv.take(0) =~= Seq::<(u64, Seq<(Seq<char>, Seq<char>)>)>::empty());
        }
        while j < groups.len()
            invariant
                j <= groups@.len(),
                gv == hgroups_view(groups@),
                out@.map_values(|c: HoistCandidate| candidate_view(c)) == hoist_of(gv.take(j as int)),
            decreases groups.len() - j,
        {
            let occ = &groups[j].1;
            proof {
                assert(gv.take(j + 1).drop_last() =~= gv.take(j as int));
                assert(gv.take(j + 1).last() == gv[j as int]);
                assert(pairs_view(occ@).len() == occ@.len());
            }
            if occ.len() > 1 {
                let mut name = last_segment_of(occ[0].0.as_str());
                let tail = pascal_case(occ[0].1.as_str());
                name.append(tail.as_str());
                let mut copy: Vec<(String, String)> = Vec::new();
                let mut q: usize = 0;
                while q < occ.len()
                    invariant
                        q <= occ@.len(),
                        copy@.len() == q,
                        forall|t: int| 0 <= t < q ==> (#[trigger] copy@[t]).0@ == occ@[t].0@ && copy@[t].1@ == occ@[t].1@,
                    decreases occ.len() - q,
                {
                    copy.push((occ[q].0.clone(), occ[q].1.clone()));
                    q = q + 1;
                }
                proof {
                    assert(pairs_view(copy@) =~= pairs_view(occ@));
                }
                let ghost before = out@.map_values(|c: HoistCandidate| candidate_view(c));
                let c = HoistCandidate { shape_hash: groups[j].0, occurrences: copy, suggested_name: name };
                out.push(c);
                proof {
                    assert(out@.map_values(|c: HoistCandidate| candidate_view(c)) =~= before.push(candidate_view(c)));
                }
            }
            j = j + 1;
        }
        proof {
            assert(gv.take(groups@.len() as int) =~= gv);
        }
        out
    }
}

} // verus!
