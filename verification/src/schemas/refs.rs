//! Typed references between JSON Schemas, and how a `$ref` path resolves.

use vstd::prelude::*;
use crate::json::{Json, json_get, member, parse_text, text_value};
use crate::drift::schema::{after_last, extract_ref_name};
use crate::text::{
    chars_of, chars_eq, chars_is, chars_start, join, lemma_join_push, split_chars, split_on, starts_with_spec,
    string_from_chars, views_of, owned,
};

verus! {

/// The kinds of relationship an edge of the schema graph records.
#[derive(Debug, Clone, Copy, PartialEq, Eq, Hash, Structural)]
pub enum EdgeKind {
    /// A `$ref` to another file.
    TypeRef,
    /// A `$ref` within the same file (`#/definitions/X` or `#/$defs/X`).
    LocalRef,
    /// `allOf` composition.
    Extends,
    /// A `oneOf` variant.
    VariantOf,
    /// An `anyOf` option.
    UnionOf,
    /// The element type of an array (`items`).
    ItemType,
    /// The value type of a map (`additionalProperties`).
    ValueType,
    /// The type of a property.
    FieldType,
    /// A system runs on a node (`x-familiar-service`).
    RunsOn,
    /// A node consumes from a queue.
    UsesQueue,
    /// A system requires a component (`x-familiar-depends`).
    Requires,
    /// A system reads an entity (`x-familiar-reads`).
    Reads,
    /// A system writes an entity (`x-familiar-writes`).
    Writes,
    /// A component connects to a resource (`x-familiar-resources`).
    ConnectsTo,
    /// A system's input (`x-familiar-input`).
    Input,
    /// A system's output (`x-familiar-output`).
    Output,
}

/// The short label of an edge kind.
pub open spec fn edge_label(k: EdgeKind) -> Seq<char> {
    match k {
        EdgeKind::TypeRef => "ref"@,
        EdgeKind::LocalRef => "local"@,
        EdgeKind::Extends => "extends"@,
        EdgeKind::VariantOf => "variant"@,
        EdgeKind::UnionOf => "union"@,
        EdgeKind::ItemType => "item"@,
        EdgeKind::ValueType => "value"@,
        EdgeKind::FieldType => "field"@,
        EdgeKind::RunsOn => "runs_on"@,
        EdgeKind::UsesQueue => "uses_queue"@,
        EdgeKind::Requires => "requires"@,
        EdgeKind::Reads => "reads"@,
        EdgeKind::Writes => "writes"@,
        EdgeKind::ConnectsTo => "connects_to"@,
        EdgeKind::Input => "input"@,
        EdgeKind::Output => "output"@,
    }
}

/// Distinct edge kinds have distinct labels, so the edges of a DOT graph
/// stay told apart.
pub proof fn law_edge_labels_distinct(a: EdgeKind, b: EdgeKind)
    requires
        a != b,
    ensures
        edge_label(a) != edge_label(b),
{
    reveal_strlit("ref");
    reveal_strlit("local");
    reveal_strlit("extends");
    reveal_strlit("variant");
    reveal_strlit("union");
    reveal_strlit("item");
    reveal_strlit("value");
    reveal_strlit("field");
    reveal_strlit("runs_on");
    reveal_strlit("uses_queue");
    reveal_strlit("requires");
    reveal_strlit("reads");
    reveal_strlit("writes");
    reveal_strlit("connects_to");
    reveal_strlit("input");
    reveal_strlit("output");
    if edge_label(a) == edge_label(b) {
        assert(edge_label(a).len() == edge_label(b).len());
        assert(edge_label(a)[0] == edge_label(b)[0]);
    }
}

/// The display colour of an edge kind.
pub open spec fn edge_color(k: EdgeKind) -> Seq<char> {
    match k {
        EdgeKind::TypeRef => "#666666"@,
        EdgeKind::LocalRef => "#AAAAAA"@,
        EdgeKind::Extends => "#4CAF50"@,
        EdgeKind::VariantOf => "#FF9800"@,
        EdgeKind::UnionOf => "#FFC107"@,
        EdgeKind::ItemType => "#9C27B0"@,
        EdgeKind::ValueType => "#E91E63"@,
        EdgeKind::FieldType => "#9E9E9E"@,
        EdgeKind::RunsOn => "#2196F3"@,
        EdgeKind::UsesQueue => "#673AB7"@,
        EdgeKind::Requires => "#FF5722"@,
        EdgeKind::Reads => "#00BCD4"@,
        EdgeKind::Writes => "#F44336"@,
        EdgeKind::ConnectsTo => "#03A9F4"@,
        EdgeKind::Input => "#8BC34A"@,
        EdgeKind::Output => "#FF5722"@,
    }
}

impl EdgeKind {
    /// A short label for the edge kind.
    pub fn label(&self) -> (res: &'static str)
        ensures
            res@ == edge_label(*self),
    {
        match self {
            EdgeKind::TypeRef => "ref",
            EdgeKind::LocalRef => "local",
            EdgeKind::Extends => "extends",
            EdgeKind::VariantOf => "variant",
            EdgeKind::UnionOf => "union",
            EdgeKind::ItemType => "item",
            EdgeKind::ValueType => "value",
            EdgeKind::FieldType => "field",
            EdgeKind::RunsOn => "runs_on",
            EdgeKind::UsesQueue => "uses_queue",
            EdgeKind::Requires => "requires",
            EdgeKind::Reads => "reads",
            EdgeKind::Writes => "writes",
            EdgeKind::ConnectsTo => "connects_to",
            EdgeKind::Input => "input",
            EdgeKind::Output => "output",
        }
    }

    /// A display colour for the edge kind.
    pub fn color(&self) -> (res: &'static str)
        ensures
            res@ == edge_color(*self),
    {
        match self {
            EdgeKind::TypeRef => "#666666",
            EdgeKind::LocalRef => "#AAAAAA",
            EdgeKind::Extends => "#4CAF50",
            EdgeKind::VariantOf => "#FF9800",
            EdgeKind::UnionOf => "#FFC107",
            EdgeKind::ItemType => "#9C27B0",
            EdgeKind::ValueType => "#E91E63",
            EdgeKind::FieldType => "#9E9E9E",
            EdgeKind::RunsOn => "#2196F3",
            EdgeKind::UsesQueue => "#673AB7",
            EdgeKind::Requires => "#FF5722",
            EdgeKind::Reads => "#00BCD4",
            EdgeKind::Writes => "#F44336",
            EdgeKind::ConnectsTo => "#03A9F4",
            EdgeKind::Input => "#8BC34A",
            EdgeKind::Output => "#FF5722",
        }
    }

    /// Whether the edge records schema composition.
    pub fn is_composition(&self) -> (res: bool)
        ensures
            res == (*self is Extends || *self is VariantOf || *self is UnionOf || *self is ItemType
                || *self is ValueType || *self is FieldType),
    {
        match self {
            EdgeKind::Extends | EdgeKind::VariantOf | EdgeKind::UnionOf | EdgeKind::ItemType
            | EdgeKind::ValueType | EdgeKind::FieldType => true,
            _ => false,
        }
    }

    /// Whether the edge records an infrastructure relationship.
    pub fn is_infrastructure(&self) -> (res: bool)
        ensures
            res == (*self is RunsOn || *self is UsesQueue || *self is Requires || *self is Reads || *self is Writes
                || *self is ConnectsTo || *self is Input || *self is Output),
    {
        match self {
            EdgeKind::RunsOn | EdgeKind::UsesQueue | EdgeKind::Requires | EdgeKind::Reads | EdgeKind::Writes
            | EdgeKind::ConnectsTo | EdgeKind::Input | EdgeKind::Output => true,
            _ => false,
        }
    }
}

// ---------------------------------------------------------------------------
// Resolving `$ref` paths
// ---------------------------------------------------------------------------

/// The pieces of a path that name something: empty pieces and `.` left out.
pub open spec fn kept_parts(ps: Seq<Seq<char>>) -> Seq<Seq<char>>
    decreases ps.len(),
{
    if ps.len() == 0 {
        Seq::empty()
    } else {
        let r = kept_parts(ps.drop_last());
        if ps.last().len() == 0 || ps.last() == "."@ {
            r
        } else {
            r.push(ps.last())
        }
    }
}

/// The pieces of the directory that holds `current` (its path's parent).
pub open spec fn dir_parts(current: Seq<char>) -> Seq<Seq<char>> {
    let k = kept_parts(split_on(current, '/'));
    if k.len() == 0 {
        k
    } else {
        k.drop_last()
    }
}

/// Walks `parts` onto `stack`: `..` goes up one level (not above the start),
/// empty pieces and `.` stay, any other piece goes down.
pub open spec fn resolve_parts(stack: Seq<Seq<char>>, parts: Seq<Seq<char>>) -> Seq<Seq<char>>
    decreases parts.len(),
{
    if parts.len() == 0 {
        stack
    } else {
        let p = parts[0];
        let next = if p == ".."@ {
            if stack.len() > 0 {
                stack.drop_last()
            } else {
                stack
            }
        } else if p.len() == 0 || p == "."@ {
            stack
        } else {
            stack.push(p)
        };
        resolve_parts(next, parts.drop_first())
    }
}

/// Where a `$ref` written in the schema at `current` points: nowhere (empty)
/// for a reference within the file; for a reference that starts with `../`,
/// the path reached from `current`'s directory, with `..` resolved; any other
/// reference as written.
pub open spec fn normalized_ref(current: Seq<char>, r: Seq<char>) -> Seq<char> {
    if starts_with_spec(r, "#"@) {
        Seq::empty()
    } else if starts_with_spec(r, "../"@) {
        join(resolve_parts(Seq::empty(), dir_parts(current) + split_on(r, '/')), "/"@)
    } else {
        r
    }
}

/// The pieces of `ps` that name something.
pub(crate) fn keep_parts(ps: &Vec<Vec<char>>) -> (res: Vec<Vec<char>>)
    ensures
        views_of(res@) == kept_parts(views_of(ps@)),
{
    let mut out: Vec<Vec<char>> = Vec::new();
    let mut i: usize = 0;
    while i < ps.len()
        invariant
            i <= ps.len(),
            views_of(out@) == kept_parts(views_of(ps@).take(i as int)),
        decreases ps.len() - i,
    {
        proof {
            let t = views_of(ps@).take(i as int + 1);
            assert(t.drop_last() =~= views_of(ps@).take(i as int));
            assert(t.last() == ps@[i as int]@);
        }
        let p = &ps[i];
        if p.len() == 0 || chars_is(p, ".") {
        } else {
            let ghost before = views_of(out@);
            let copy = crate::text::sub_chars(p, 0, p.len());
            proof {
                assert(p@.subrange(0, p@.len() as int) =~= p@);
            }
            out.push(copy);
            proof {
                assert(views_of(out@) =~= before.push(p@));
            }
        }
        i = i + 1;
    }
    proof {
        assert(views_of(ps@).take(ps@.len() as int) =~= views_of(ps@));
    }
    out
}

/// Resolving two lists of pieces one after the other.
proof fn lemma_resolve_concat(stack: Seq<Seq<char>>, a: Seq<Seq<char>>, b: Seq<Seq<char>>)
    ensures
        resolve_parts(stack, a + b) == resolve_parts(resolve_parts(stack, a), b),
    decreases a.len(),
{
    if a.len() == 0 {
        assert(a + b =~= b);
    } else {
        assert((a + b)[0] == a[0]);
        assert((a + b).drop_first() =~= a.drop_first() + b);
        let p = a[0];
        let next = if p == ".."@ {
            if stack.len() > 0 {
                stack.drop_last()
            } else {
                stack
            }
        } else if p.len() == 0 || p == "."@ {
            stack
        } else {
            stack.push(p)
        };
        lemma_resolve_concat(next, a.drop_first(), b);
    }
}

/// Walks `parts` onto `stack`.
fn resolve_onto(stack: &mut Vec<Vec<char>>, parts: &Vec<Vec<char>>)
    ensures
        views_of(final(stack)@) == resolve_parts(views_of(old(stack)@), views_of(parts@)),
{
    let ghost all = views_of(parts@);
    let ghost start = views_of(stack@);
    let mut i: usize = 0;
    proof {
        assert(all.skip(0) =~= all);
    }
    while i < parts.len()
        invariant
            all == views_of(parts@),
            i <= parts.len(),
            resolve_parts(start, all) == resolve_parts(views_of(stack@), all.skip(i as int)),
        decreases parts.len() - i,
    {
        let p: &Vec<char> = &parts[i];
        proof {
            assert(all[i as int] == p@);
            assert(all.skip(i as int)[0] == all[i as int]);
            assert(all.skip(i as int).drop_first() =~= all.skip(i as int + 1));
        }
        if chars_is(p, "..") {
            if stack.len() > 0 {
                let ghost before = views_of(stack@);
                stack.pop();
                proof {
                    assert(views_of(stack@) =~= before.drop_last());
                }
            }
        } else if p.len() == 0 || chars_is(p, ".") {
        } else {
            let ghost before = views_of(stack@);
            let copy = crate::text::sub_chars(p, 0, p.len());
            proof {
                assert(p@.subrange(0, p@.len() as int) =~= p@);
            }
            stack.push(copy);
            proof {
                assert(views_of(stack@) =~= before.push(p@));
            }
        }
        i = i + 1;
    }
    proof {
        assert(all.skip(parts.len() as int) =~= Seq::<Seq<char>>::empty());
    }
}

/// Where a `$ref` written in the schema at `current_path` points; empty for a
/// reference within the same file.
pub fn normalize_ref(current_path: &str, ref_path: &str) -> (res: String)
    ensures
        res@ == normalized_ref(current_path@, ref_path@),
{
    let r = chars_of(ref_path);
    if chars_start(&r, "#") {
        return String::new();
    }
    if !chars_start(&r, "../") {
        return owned(ref_path);
    }
    let cur = chars_of(current_path);
    let cur_parts = split_chars(&cur, '/');
    let mut dir = keep_parts(&cur_parts);
    if dir.len() > 0 {
        dir.pop();
    }
    let ref_parts = split_chars(&r, '/');
    proof {
        assert(views_of(dir@) == dir_parts(current_path@));
    }
    walk_path(&dir, &ref_parts)
}

/// The path reached by walking `dir`, then `parts`, from the root, its pieces
/// joined with `/`.
pub(crate) fn walk_path(dir: &Vec<Vec<char>>, parts: &Vec<Vec<char>>) -> (res: String)
    ensures
        res@ == join(resolve_parts(Seq::empty(), views_of(dir@) + views_of(parts@)), "/"@),
{
    let mut stack: Vec<Vec<char>> = Vec::new();
    proof {
        assert(views_of(stack@) =~= Seq::<Seq<char>>::empty());
    }
    resolve_onto(&mut stack, dir);
    resolve_onto(&mut stack, parts);
    proof {
        lemma_resolve_concat(Seq::empty(), views_of(dir@), views_of(parts@));
    }
    let mut out = String::new();
    let mut k: usize = 0;
    while k < stack.len()
        invariant
            k <= stack.len(),
            out@ == join(views_of(stack@).take(k as int), "/"@),
        decreases stack.len() - k,
    {
        let piece = string_from_chars(&stack[k]);
        if k > 0 {
            out.append("/");
        }
        out.append(piece.as_str());
        proof {
            lemma_join_push(views_of(stack@).take(k as int), "/"@, stack@[k as int]@);
            assert(views_of(stack@).take(k as int).push(stack@[k as int]@) =~= views_of(stack@).take(k as int + 1));
        }
        k = k + 1;
    }
    proof {
        assert(views_of(stack@).take(stack@.len() as int) =~= views_of(stack@));
    }
    out
}

// ---------------------------------------------------------------------------
// References made by composition
// ---------------------------------------------------------------------------

/// References with their kinds, as character sequences.
pub open spec fn refs_view(v: Seq<(String, EdgeKind)>) -> Seq<(Seq<char>, EdgeKind)> {
    v.map_values(|p: (String, EdgeKind)| (p.0@, p.1))
}

/// A plain reference found under a composition keyword takes that keyword's kind.
pub open spec fn promote(refs: Seq<(Seq<char>, EdgeKind)>, k: EdgeKind) -> Seq<(Seq<char>, EdgeKind)> {
    refs.map_values(
        |p: (Seq<char>, EdgeKind)|
            (p.0, if p.1 is TypeRef || p.1 is LocalRef {
                k
            } else {
                p.1
            }),
    )
}

/// The position of the first member named `key`.
pub open spec fn member_pos(ms: Seq<(String, Json)>, key: Seq<char>) -> Option<int>
    decreases ms.len(),
{
    if ms.len() == 0 {
        None
    } else if ms[0].0@ == key {
        Some(0)
    } else {
        match member_pos(ms.drop_first(), key) {
            Some(i) => Some(i + 1),
            None => None,
        }
    }
}

/// `member_pos` finds the member that `member` returns.
pub proof fn lemma_member_pos(ms: Seq<(String, Json)>, key: Seq<char>)
    ensures
        match member_pos(ms, key) {
            Some(i) => 0 <= i < ms.len() && member(ms, key) == Some(ms[i].1),
            None => member(ms, key) is None,
        },
    decreases ms.len(),
{
    if ms.len() > 0 && ms[0].0@ != key {
        lemma_member_pos(ms.drop_first(), key);
    }
}

/// The edge a `$ref` makes from the schema at `base`: a local definition
/// (`#/definitions/X` or `#/$defs/X`) becomes `base#X`; a reference to another
/// file becomes its resolved path, unless that is empty; other local
/// references make none.
pub open spec fn ref_target(base: Seq<char>, r: Seq<char>) -> Seq<(Seq<char>, EdgeKind)> {
    if starts_with_spec(r, "#/definitions/"@) || starts_with_spec(r, "#/$defs/"@) {
        seq![(base + "#"@ + after_last(r, '/'), EdgeKind::LocalRef)]
    } else if !starts_with_spec(r, "#"@) && normalized_ref(base, r).len() > 0 {
        seq![(normalized_ref(base, r), EdgeKind::TypeRef)]
    } else {
        Seq::empty()
    }
}

/// Whether a member key is left out of the walk into other nested schemas:
/// extensions, definitions and the keywords handled on their own.
pub open spec fn skipped_key(k: Seq<char>) -> bool {
    ||| starts_with_spec(k, "x-familiar"@)
    ||| k == "definitions"@
    ||| k == "$defs"@
    ||| k == "properties"@
    ||| k == "items"@
    ||| k == "allOf"@
    ||| k == "oneOf"@
    ||| k == "anyOf"@
    ||| k == "additionalProperties"@
}

/// The references a schema makes, in order. `limit` is how many more levels of
/// `properties` may be entered (`None`: no limit). An object with a string
/// `$ref` makes just that reference; otherwise its `allOf`, `oneOf` and `anyOf`
/// items, its `items`, its object `additionalProperties`, its `properties`
/// (within the limit) and its other nested object members (not at the limit)
/// are searched in that order.
pub open spec fn type_refs(j: Json, base: Seq<char>, limit: Option<nat>) -> Seq<(Seq<char>, EdgeKind)>
    decreases j, 0nat,
{
    match j {
        Json::Object(ms) => {
            proof {
                assert(decreases_to!(j => j->Object_0));
            }
            object_refs(ms@, base, limit)
        },
        _ => Seq::empty(),
    }
}

/// The references made by an object's members.
pub open spec fn object_refs(ms: Seq<(String, Json)>, base: Seq<char>, limit: Option<nat>) -> Seq<(Seq<char>, EdgeKind)>
    decreases ms, 1nat,
{
    match member_pos(ms, "$ref"@) {
        Some(i) if 0 <= i < ms.len() && ms[i].1 is Str => ref_target(base, ms[i].1->Str_0@),
        _ => combinator_part(ms, "allOf"@, base, limit, EdgeKind::Extends) + combinator_part(
            ms,
            "oneOf"@,
            base,
            limit,
            EdgeKind::VariantOf,
        ) + combinator_part(ms, "anyOf"@, base, limit, EdgeKind::UnionOf) + items_part(ms, base, limit)
            + add_props_part(ms, base, limit) + props_part(ms, base, limit) + rest_refs(ms, base, limit),
    }
}

/// The references under one composition keyword of an object, promoted to `k`.
pub open spec fn combinator_part(ms: Seq<(String, Json)>, key: Seq<char>, base: Seq<char>, limit: Option<nat>, k: EdgeKind) -> Seq<(Seq<char>, EdgeKind)>
    decreases ms, 0nat,
{
    match member_pos(ms, key) {
        Some(i) => if 0 <= i < ms.len() && ms[i].1 is Array {
            proof {
                assert(decreases_to!(ms => ms[i]));
                assert(decreases_to!(ms[i] => ms[i].1));
                assert(decreases_to!(ms[i].1 => ms[i].1->Array_0));
            }
            items_refs(ms[i].1->Array_0@, base, limit, k)
        } else {
            Seq::empty()
        },
        None => Seq::empty(),
    }
}

/// The references made by an object's `items`, as item types.
pub open spec fn items_part(ms: Seq<(String, Json)>, base: Seq<char>, limit: Option<nat>) -> Seq<(Seq<char>, EdgeKind)>
    decreases ms, 0nat,
{
    match member_pos(ms, "items"@) {
        Some(i) => if 0 <= i < ms.len() {
            proof {
                assert(decreases_to!(ms => ms[i]));
                assert(decreases_to!(ms[i] => ms[i].1));
            }
            promote(type_refs(ms[i].1, base, limit), EdgeKind::ItemType)
        } else {
            Seq::empty()
        },
        None => Seq::empty(),
    }
}

/// The references made by an object's `additionalProperties` schema, as value types.
pub open spec fn add_props_part(ms: Seq<(String, Json)>, base: Seq<char>, limit: Option<nat>) -> Seq<(Seq<char>, EdgeKind)>
    decreases ms, 0nat,
{
    match member_pos(ms, "additionalProperties"@) {
        Some(i) => if 0 <= i < ms.len() && ms[i].1 is Object {
            proof {
                assert(decreases_to!(ms => ms[i]));
                assert(decreases_to!(ms[i] => ms[i].1));
            }
            promote(type_refs(ms[i].1, base, limit), EdgeKind::ValueType)
        } else {
            Seq::empty()
        },
        None => Seq::empty(),
    }
}

/// The references made by an object's `properties`, one level down, unless at the limit.
pub open spec fn props_part(ms: Seq<(String, Json)>, base: Seq<char>, limit: Option<nat>) -> Seq<(Seq<char>, EdgeKind)>
    decreases ms, 0nat,
{
    if limit == Some(0nat) {
        Seq::empty()
    } else {
        match member_pos(ms, "properties"@) {
            Some(i) => if 0 <= i < ms.len() && ms[i].1 is Object {
                proof {
                    assert(decreases_to!(ms => ms[i]));
                    assert(decreases_to!(ms[i] => ms[i].1));
                    assert(decreases_to!(ms[i].1 => ms[i].1->Object_0));
                }
                props_refs(
                    ms[i].1->Object_0@,
                    base,
                    match limit {
                        Some(r) => Some((r - 1) as nat),
                        None => None,
                    },
                )
            } else {
                Seq::empty()
            },
            None => Seq::empty(),
        }
    }
}

/// The references made by the items of a composition array, promoted to `k`.
pub open spec fn items_refs(a: Seq<Json>, base: Seq<char>, limit: Option<nat>, k: EdgeKind) -> Seq<(Seq<char>, EdgeKind)>
    decreases a, 0nat,
{
    if a.len() == 0 {
        Seq::empty()
    } else {
        proof {
            assert(decreases_to!(a => a[a.len() - 1]));
            assert(decreases_to!(a => a.subrange(0, a.len() - 1)));
        }
        items_refs(a.drop_last(), base, limit, k) + promote(type_refs(a.last(), base, limit), k)
    }
}

/// The references made by an object's properties, as field types.
pub open spec fn props_refs(ps: Seq<(String, Json)>, base: Seq<char>, limit: Option<nat>) -> Seq<(Seq<char>, EdgeKind)>
    decreases ps, 0nat,
{
    if ps.len() == 0 {
        Seq::empty()
    } else {
        proof {
            assert(decreases_to!(ps => ps[ps.len() - 1]));
            assert(decreases_to!(ps[ps.len() - 1] => ps[ps.len() - 1].1));
            assert(decreases_to!(ps => ps.subrange(0, ps.len() - 1)));
        }
        props_refs(ps.drop_last(), base, limit) + promote(type_refs(ps.last().1, base, limit), EdgeKind::FieldType)
    }
}

/// The references made by the other nested object members.
pub open spec fn rest_refs(ms: Seq<(String, Json)>, base: Seq<char>, limit: Option<nat>) -> Seq<(Seq<char>, EdgeKind)>
    decreases ms, 0nat,
{
    if ms.len() == 0 {
        Seq::empty()
    } else {
        proof {
            assert(decreases_to!(ms => ms[ms.len() - 1]));
            assert(decreases_to!(ms[ms.len() - 1] => ms[ms.len() - 1].1));
            assert(decreases_to!(ms => ms.subrange(0, ms.len() - 1)));
        }
        rest_refs(ms.drop_last(), base, limit) + if skipped_key(ms.last().0@) || !(ms.last().1 is Object) || limit
            == Some(0nat) {
            Seq::empty()
        } else {
            type_refs(ms.last().1, base, limit)
        }
    }
}

/// How many more levels of properties may be entered, for a depth limit
/// (`0`: none) and the current depth.
pub open spec fn levels_left(depth: usize, current_depth: usize) -> Option<nat> {
    if depth == 0 {
        None
    } else if current_depth >= depth {
        Some(0nat)
    } else {
        Some((depth - current_depth) as nat)
    }
}

/// Appends `sub`, each plain reference promoted to `k`.
fn append_promoted(out: &mut Vec<(String, EdgeKind)>, sub: Vec<(String, EdgeKind)>, k: EdgeKind)
    ensures
        refs_view(final(out)@) == refs_view(old(out)@) + promote(refs_view(sub@), k),
{
    let ghost start = refs_view(out@);
    let mut rest = sub;
    let ghost all = rest@;
    let mut i: usize = 0;
    assert(all.len() == rest.len());
    while rest.len() > 0
        invariant
            i + rest@.len() == all.len(),
            all.len() <= usize::MAX,
            rest@ == all.skip(i as int),
            refs_view(out@) == start + promote(refs_view(all.take(i as int)), k),
        decreases rest.len(),
    {
        let (target, kind) = rest.remove(0);
        let nk = match kind {
            EdgeKind::TypeRef | EdgeKind::LocalRef => k,
            other => other,
        };
        let ghost before = refs_view(out@);
        out.push((target, nk));
        proof {
            assert(all[i as int] == (target, kind));
            assert(rest@ =~= all.skip(i as int + 1));
            assert(refs_view(out@) =~= before.push((target@, nk)));
            assert(promote(refs_view(all.take(i as int + 1)), k) =~= promote(refs_view(all.take(i as int)), k).push(
                (target@, nk),
            ));
        }
        i = i + 1;
    }
    proof {
        assert(all.take(i as int) =~= all);
    }
}

/// Appends `sub` unchanged.
fn append_refs(out: &mut Vec<(String, EdgeKind)>, sub: Vec<(String, EdgeKind)>)
    ensures
        refs_view(final(out)@) == refs_view(old(out)@) + refs_view(sub@),
{
    let ghost start = refs_view(out@);
    let mut rest = sub;
    let ghost all = rest@;
    let mut i: usize = 0;
    assert(all.len() == rest.len());
    while rest.len() > 0
        invariant
            i + rest@.len() == all.len(),
            all.len() <= usize::MAX,
            rest@ == all.skip(i as int),
            refs_view(out@) == start + refs_view(all.take(i as int)),
        decreases rest.len(),
    {
        let item = rest.remove(0);
        let ghost before = refs_view(out@);
        let ghost iv = (item.0@, item.1);
        out.push(item);
        proof {
            assert(all[i as int].0@ == iv.0 && all[i as int].1 == iv.1);
            assert(rest@ =~= all.skip(i as int + 1));
            assert(refs_view(out@) =~= before.push(iv));
            assert(refs_view(all.take(i as int + 1)) =~= refs_view(all.take(i as int)).push(iv));
        }
        i = i + 1;
    }
    proof {
        assert(all.take(i as int) =~= all);
    }
}

proof fn lemma_member_pos_found(ms: Seq<(String, Json)>, key: Seq<char>, i: int)
    requires
        0 <= i < ms.len(),
        ms[i].0@ == key,
        forall|j: int| 0 <= j < i ==> (#[trigger] ms[j]).0@ != key,
    ensures
        member_pos(ms, key) == Some(i),
    decreases i,
{
    if i > 0 {
        assert forall|j: int| 0 <= j < i - 1 implies (#[trigger] ms.drop_first()[j]).0@ != key by {
            assert(ms.drop_first()[j] == ms[j + 1]);
        }
        lemma_member_pos_found(ms.drop_first(), key, i - 1);
    }
}

proof fn lemma_member_pos_absent(ms: Seq<(String, Json)>, key: Seq<char>)
    requires
        forall|j: int| 0 <= j < ms.len() ==> (#[trigger] ms[j]).0@ != key,
    ensures
        member_pos(ms, key) is None,
    decreases ms.len(),
{
    if ms.len() > 0 {
        assert forall|j: int| 0 <= j < ms.len() - 1 implies (#[trigger] ms.drop_first()[j]).0@ != key by {
            assert(ms.drop_first()[j] == ms[j + 1]);
        }
        lemma_member_pos_absent(ms.drop_first(), key);
    }
}

/// The position of the first member named `key`.
pub fn member_index(ms: &Vec<(String, Json)>, key: &str) -> (res: Option<usize>)
    ensures
        match res {
            Some(i) => member_pos(ms@, key@) == Some(i as int) && i < ms.len(),
            None => member_pos(ms@, key@) is None,
        },
{
    let mut i: usize = 0;
    while i < ms.len()
        invariant
            i <= ms.len(),
            forall|j: int| 0 <= j < i ==> (#[trigger] ms@[j]).0@ != key@,
        decreases ms.len() - i,
    {
        if crate::text::str_eq(ms[i].0.as_str(), key) {
            proof {
                lemma_member_pos_found(ms@, key@, i as int);
            }
            return Some(i);
        }
        i = i + 1;
    }
    proof {
        lemma_member_pos_absent(ms@, key@);
    }
    None
}

/// Whether a member key is left out of the walk into other nested schemas.
fn is_skipped_key(k: &str) -> (res: bool)
    ensures
        res == skipped_key(k@),
{
    let v = chars_of(k);
    chars_start(&v, "x-familiar") || chars_is(&v, "definitions") || chars_is(&v, "$defs") || chars_is(&v, "properties")
        || chars_is(&v, "items") || chars_is(&v, "allOf") || chars_is(&v, "oneOf") || chars_is(&v, "anyOf")
        || chars_is(&v, "additionalProperties")
}

/// The edge made by the `$ref` string `r` in the schema at `base`.
fn ref_edge(base: &str, r: &str) -> (res: Vec<(String, EdgeKind)>)
    ensures
        refs_view(res@) == ref_target(base@, r@),
{
    let v = chars_of(r);
    if chars_start(&v, "#/definitions/") || chars_start(&v, "#/$defs/") {
        let mut id = owned(base);
        id.append("#");
        let name = extract_ref_name(r);
        id.append(name.as_str());
        let res = vec![(id, EdgeKind::LocalRef)];
        proof {
            assert(refs_view(res@) =~= ref_target(base@, r@));
        }
        res
    } else if !chars_start(&v, "#") {
        let n = normalize_ref(base, r);
        if !n.as_str().is_empty() {
            let res = vec![(n, EdgeKind::TypeRef)];
            proof {
                assert(refs_view(res@) =~= ref_target(base@, r@));
            }
            res
        } else {
            let res: Vec<(String, EdgeKind)> = Vec::new();
            proof {
                assert(refs_view(res@) =~= ref_target(base@, r@));
            }
            res
        }
    } else {
        let res: Vec<(String, EdgeKind)> = Vec::new();
        proof {
            assert(refs_view(res@) =~= ref_target(base@, r@));
        }
        res
    }
}

/// Every reference a schema makes, with its kind: `$ref`s to local definitions
/// and other files, and the composition keywords around them. `depth` limits
/// how many levels of `properties` are entered (`0`: no limit); the walk starts
/// at `current_depth`.
pub fn extract_all_type_refs(schema: &Json, base_path: &str, depth: usize, current_depth: usize) -> (res: Vec<(String, EdgeKind)>)
    ensures
        refs_view(res@) == type_refs(*schema, base_path@, levels_left(depth, current_depth)),
    decreases schema,
{
    let ghost limit = levels_left(depth, current_depth);
    let ms = match schema {
        Json::Object(ms) => ms,
        _ => {
            let res: Vec<(String, EdgeKind)> = Vec::new();
            proof {
                assert(refs_view(res@) =~= Seq::<(Seq<char>, EdgeKind)>::empty());
            }
            return res;
        },
    };
    proof {
        assert(decreases_to!(*schema => schema->Object_0));
        assert(decreases_to!(schema->Object_0 => ms@));
    }
    let at_depth_limit = depth > 0 && current_depth >= depth;
    assert(at_depth_limit == (limit == Some(0nat)));
    if let Some(i) = member_index(ms, "$ref") {
        if let Json::Str(r) = &ms[i].1 {
            return ref_edge(base_path, r.as_str());
        }
    }
    let ghost msv = ms@;
    let ghost base = base_path@;
    let mut out: Vec<(String, EdgeKind)> = Vec::new();
    proof {
        assert(refs_view(out@) =~= Seq::<(Seq<char>, EdgeKind)>::empty());
    }
    // allOf, oneOf, anyOf
    let ghost mut acc: Seq<(Seq<char>, EdgeKind)> = Seq::empty();
    let mut c: usize = 0;
    while c < 3
        invariant
            c <= 3,
            msv == ms@,
            base == base_path@,
            limit == levels_left(depth, current_depth),
            *schema is Object,
            schema->Object_0 == *ms,
            refs_view(out@) == acc,
            acc == (if c >= 1 { combinator_part(msv, "allOf"@, base, limit, EdgeKind::Extends) } else { Seq::empty() })
                + (if c >= 2 { combinator_part(msv, "oneOf"@, base, limit, EdgeKind::VariantOf) } else { Seq::empty() })
                + (if c >= 3 { combinator_part(msv, "anyOf"@, base, limit, EdgeKind::UnionOf) } else { Seq::empty() }),
        decreases 3 - c,
    {
        let (key, kind) = if c == 0 {
            ("allOf", EdgeKind::Extends)
        } else if c == 1 {
            ("oneOf", EdgeKind::VariantOf)
        } else {
            ("anyOf", EdgeKind::UnionOf)
        };
        let ghost before = acc;
        if let Some(i) = member_index(ms, key) {
            if let Json::Array(a) = &ms[i].1 {
                let mut j: usize = 0;
                while j < a.len()
                    invariant
                        j <= a.len(),
                        i < ms.len(),
                        ms[i as int].1 is Array,
                        ms[i as int].1->Array_0 == *a,
                        *schema is Object,
                        schema->Object_0 == *ms,
                        base == base_path@,
                        limit == levels_left(depth, current_depth),
                        refs_view(out@) == before + items_refs(a@.take(j as int), base, limit, kind),
                    decreases a.len() - j,
                {
                    proof {
                        assert(decreases_to!(*schema => schema->Object_0));
                        assert(decreases_to!(schema->Object_0 => ms@));
                        assert(decreases_to!(ms@ => ms@[i as int]));
                        assert(decreases_to!(ms@[i as int] => ms@[i as int].1));
                        assert(decreases_to!(ms@[i as int].1 => ms@[i as int].1->Array_0));
                        assert(decreases_to!(ms@[i as int].1->Array_0 => a@));
                        assert(decreases_to!(a@ => a@[j as int]));
                        let t = a@.take(j as int + 1);
                        assert(t.drop_last() =~= a@.take(j as int));
                        assert(t.last() == a@[j as int]);
                    }
                    let sub = extract_all_type_refs(&a[j], base_path, depth, current_depth);
                    append_promoted(&mut out, sub, kind);
                    proof {
                        assert(before + items_refs(a@.take(j as int), base, limit, kind) + promote(
                            type_refs(a@[j as int], base, limit),
                            kind,
                        ) =~= before + items_refs(a@.take(j as int + 1), base, limit, kind));
                    }
                    j = j + 1;
                }
                proof {
                    assert(a@.take(a@.len() as int) =~= a@);
                    lemma_member_pos(msv, key@);
                }
            }
        }
        proof {
            lemma_member_pos(msv, key@);
            acc = refs_view(out@);
            reveal_strlit("allOf");
            reveal_strlit("oneOf");
            reveal_strlit("anyOf");
            assert(acc =~= before + combinator_part(msv, key@, base, limit, kind));
        }
        c = c + 1;
    }
    // items
    let ghost before_items = refs_view(out@);
    if let Some(i) = member_index(ms, "items") {
        proof {
            assert(decreases_to!(*schema => schema->Object_0));
            assert(decreases_to!(schema->Object_0 => ms@));
            assert(decreases_to!(ms@ => ms@[i as int]));
            assert(decreases_to!(ms@[i as int] => ms@[i as int].1));
        }
        let sub = extract_all_type_refs(&ms[i].1, base_path, depth, current_depth);
        append_promoted(&mut out, sub, EdgeKind::ItemType);
    }
    proof {
        lemma_member_pos(msv, "items"@);
        assert(refs_view(out@) =~= before_items + items_part(msv, base, limit));
    }
    // additionalProperties
    let ghost before_add = refs_view(out@);
    if let Some(i) = member_index(ms, "additionalProperties") {
        if ms[i].1.is_object() {
            proof {
                assert(decreases_to!(*schema => schema->Object_0));
                assert(decreases_to!(schema->Object_0 => ms@));
                assert(decreases_to!(ms@ => ms@[i as int]));
                assert(decreases_to!(ms@[i as int] => ms@[i as int].1));
            }
            let sub = extract_all_type_refs(&ms[i].1, base_path, depth, current_depth);
            append_promoted(&mut out, sub, EdgeKind::ValueType);
        }
    }
    proof {
        lemma_member_pos(msv, "additionalProperties"@);
        assert(refs_view(out@) =~= before_add + add_props_part(msv, base, limit));
    }
    // properties, one level down
    let ghost before_props = refs_view(out@);
    if !at_depth_limit {
        if let Some(i) = member_index(ms, "properties") {
            if let Json::Object(ps) = &ms[i].1 {
                let next: usize = if depth == 0 {
                    current_depth
                } else {
                    current_depth + 1
                };
                let ghost next_limit = levels_left(depth, next);
                assert(next_limit == match limit {
                    Some(r) => Some((r - 1) as nat),
                    None => None,
                });
                let mut j: usize = 0;
                while j < ps.len()
                    invariant
                        j <= ps.len(),
                        i < ms.len(),
                        ms[i as int].1 is Object,
                        ms[i as int].1->Object_0 == *ps,
                        *schema is Object,
                        schema->Object_0 == *ms,
                        base == base_path@,
                        next_limit == levels_left(depth, next),
                        refs_view(out@) == before_props + props_refs(ps@.take(j as int), base, next_limit),
                    decreases ps.len() - j,
                {
                    proof {
                        assert(decreases_to!(*schema => schema->Object_0));
                        assert(decreases_to!(schema->Object_0 => ms@));
                        assert(decreases_to!(ms@ => ms@[i as int]));
                        assert(decreases_to!(ms@[i as int] => ms@[i as int].1));
                        assert(decreases_to!(ms@[i as int].1 => ms@[i as int].1->Object_0));
                        assert(decreases_to!(ms@[i as int].1->Object_0 => ps@));
                        assert(decreases_to!(ps@ => ps@[j as int]));
                        assert(decreases_to!(ps@[j as int] => ps@[j as int].1));
                        let t = ps@.take(j as int + 1);
                        assert(t.drop_last() =~= ps@.take(j as int));
                        assert(t.last() == ps@[j as int]);
                    }
                    let sub = extract_all_type_refs(&ps[j].1, base_path, depth, next);
                    append_promoted(&mut out, sub, EdgeKind::FieldType);
                    proof {
                        assert(before_props + props_refs(ps@.take(j as int), base, next_limit) + promote(
                            type_refs(ps@[j as int].1, base, next_limit),
                            EdgeKind::FieldType,
                        ) =~= before_props + props_refs(ps@.take(j as int + 1), base, next_limit));
                    }
                    j = j + 1;
                }
                proof {
                    assert(ps@.take(ps@.len() as int) =~= ps@);
                }
            }
        }
    }
    proof {
        lemma_member_pos(msv, "properties"@);
        assert(refs_view(out@) =~= before_props + props_part(msv, base, limit));
    }
    // other nested schemas
    let ghost before_rest = refs_view(out@);
    let mut j: usize = 0;
    while j < ms.len()
        invariant
            j <= ms.len(),
            msv == ms@,
            *schema is Object,
            schema->Object_0 == *ms,
            base == base_path@,
            limit == levels_left(depth, current_depth),
            at_depth_limit == (limit == Some(0nat)),
            refs_view(out@) == before_rest + rest_refs(ms@.take(j as int), base, limit),
        decreases ms.len() - j,
    {
        proof {
            let t = ms@.take(j as int + 1);
            assert(t.drop_last() =~= ms@.take(j as int));
            assert(t.last() == ms@[j as int]);
        }
        if !is_skipped_key(ms[j].0.as_str()) && ms[j].1.is_object() && !at_depth_limit {
            proof {
                assert(decreases_to!(*schema => schema->Object_0));
                assert(decreases_to!(schema->Object_0 => ms@));
                assert(decreases_to!(ms@ => ms@[j as int]));
                assert(decreases_to!(ms@[j as int] => ms@[j as int].1));
            }
            let sub = extract_all_type_refs(&ms[j].1, base_path, depth, current_depth);
            append_refs(&mut out, sub);
            proof {
                assert(before_rest + rest_refs(ms@.take(j as int), base, limit) + type_refs(ms@[j as int].1, base, limit)
                    =~= before_rest + rest_refs(ms@.take(j as int + 1), base, limit));
            }
        } else {
            proof {
                assert(before_rest + rest_refs(ms@.take(j as int), base, limit) =~= before_rest + rest_refs(
                    ms@.take(j as int + 1),
                    base,
                    limit,
                ));
            }
        }
        j = j + 1;
    }
    proof {
        assert(ms@.take(ms@.len() as int) =~= ms@);
        lemma_member_pos(msv, "$ref"@);
        assert(refs_view(out@) =~= type_refs(*schema, base, limit));
    }
    out
}


// ---------------------------------------------------------------------------
// References made by x-familiar-* extensions
// ---------------------------------------------------------------------------

/// The `$ref` string of an object of the form `{ "$ref": "..." }`.
pub open spec fn ref_of_value(v: Json) -> Option<Seq<char>> {
    match json_get(v, "$ref"@) {
        Some(Json::Str(s)) => Some(s@),
        _ => None,
    }
}

/// The `$ref` string of an object of the form `{ "$ref": "..." }`.
pub fn extract_ref_from_value(value: &Json) -> (res: Option<String>)
    ensures
        opt_string_view(res) == ref_of_value(*value),
{
    match value.get("$ref") {
        Some(Json::Str(s)) => Some(s.clone()),
        _ => None,
    }
}

/// The view of an optional string.
pub open spec fn opt_string_view(o: Option<String>) -> Option<Seq<char>> {
    match o {
        Some(s) => Some(s@),
        None => None,
    }
}

/// The reference of the extension `key` when its value is a single `{ "$ref" }` object.
pub open spec fn single_ext_ref(v: Json, key: Seq<char>, k: EdgeKind) -> Seq<(Seq<char>, EdgeKind)> {
    match json_get(v, key) {
        Some(x) => match ref_of_value(x) {
            Some(r) => seq![(r, k)],
            None => Seq::empty(),
        },
        None => Seq::empty(),
    }
}

/// The references of an array of `{ "$ref" }` objects, in order.
pub open spec fn item_ext_refs(a: Seq<Json>, k: EdgeKind) -> Seq<(Seq<char>, EdgeKind)>
    decreases a.len(),
{
    if a.len() == 0 {
        Seq::empty()
    } else {
        item_ext_refs(a.drop_last(), k) + match ref_of_value(a.last()) {
            Some(r) => seq![(r, k)],
            None => Seq::empty(),
        }
    }
}

/// The references of the extension `key` when its value is an array.
pub open spec fn array_ext_refs(v: Json, key: Seq<char>, k: EdgeKind) -> Seq<(Seq<char>, EdgeKind)> {
    match json_get(v, key) {
        Some(Json::Array(a)) => item_ext_refs(a@, k),
        _ => Seq::empty(),
    }
}

/// The references a schema's `x-familiar-*` extensions make, in this order:
/// service (runs on), depends (requires), resources (connects to), reads,
/// writes, input, output, systems (type reference), components (requires),
/// consumers (uses queue), config (type reference).
pub open spec fn extension_refs(v: Json) -> Seq<(Seq<char>, EdgeKind)> {
    single_ext_ref(v, "x-familiar-service"@, EdgeKind::RunsOn)
        + array_ext_refs(v, "x-familiar-depends"@, EdgeKind::Requires)
        + array_ext_refs(v, "x-familiar-resources"@, EdgeKind::ConnectsTo)
        + array_ext_refs(v, "x-familiar-reads"@, EdgeKind::Reads)
        + array_ext_refs(v, "x-familiar-writes"@, EdgeKind::Writes)
        + single_ext_ref(v, "x-familiar-input"@, EdgeKind::Input)
        + single_ext_ref(v, "x-familiar-output"@, EdgeKind::Output)
        + array_ext_refs(v, "x-familiar-systems"@, EdgeKind::TypeRef)
        + array_ext_refs(v, "x-familiar-components"@, EdgeKind::Requires)
        + array_ext_refs(v, "x-familiar-consumers"@, EdgeKind::UsesQueue)
        + single_ext_ref(v, "x-familiar-config"@, EdgeKind::TypeRef)
}

/// Appends the reference of the extension `key` when it is a single `{ "$ref" }` object.
fn push_single_ext(out: &mut Vec<(String, EdgeKind)>, json: &Json, key: &str, k: EdgeKind)
    ensures
        refs_view(final(out)@) == refs_view(old(out)@) + single_ext_ref(*json, key@, k),
{
    let ghost before = refs_view(out@);
    if let Some(x) = json.get(key) {
        if let Some(r) = extract_ref_from_value(x) {
            let ghost rv = r@;
            out.push((r, k));
            proof {
                assert(refs_view(out@) =~= before.push((rv, k)));
                assert(before.push((rv, k)) =~= before + seq![(rv, k)]);
            }
            return;
        }
    }
    proof {
        assert(refs_view(out@) =~= before + single_ext_ref(*json, key@, k));
    }
}

/// Appends the references of the extension `key` when it is an array.
fn push_array_ext(out: &mut Vec<(String, EdgeKind)>, json: &Json, key: &str, k: EdgeKind)
    ensures
        refs_view(final(out)@) == refs_view(old(out)@) + array_ext_refs(*json, key@, k),
{
    let ghost before = refs_view(out@);
    if let Some(Json::Array(a)) = json.get(key) {
        let mut i: usize = 0;
        while i < a.len()
            invariant
                i <= a.len(),
                refs_view(out@) == before + item_ext_refs(a@.take(i as int), k),
            decreases a.len() - i,
        {
            proof {
                let t = a@.take(i as int + 1);
                assert(t.drop_last() =~= a@.take(i as int));
                assert(t.last() == a@[i as int]);
            }
            let ghost mid = refs_view(out@);
            if let Some(r) = extract_ref_from_value(&a[i]) {
                let ghost rv = r@;
                out.push((r, k));
                proof {
                    assert(refs_view(out@) =~= mid.push((rv, k)));
                    assert(before + item_ext_refs(a@.take(i as int + 1), k) =~= mid + seq![(rv, k)]);
                }
            } else {
                proof {
                    assert(before + item_ext_refs(a@.take(i as int + 1), k) =~= mid);
                }
            }
            i = i + 1;
        }
        proof {
            assert(a@.take(a@.len() as int) =~= a@);
        }
        return;
    }
    proof {
        assert(refs_view(out@) =~= before + array_ext_refs(*json, key@, k));
    }
}

/// The typed references a schema's `x-familiar-*` extensions make.
pub fn extract_typed_refs(json: &Json) -> (res: Vec<(String, EdgeKind)>)
    ensures
        refs_view(res@) == extension_refs(*json),
{
    let mut out: Vec<(String, EdgeKind)> = Vec::new();
    proof {
        assert(refs_view(out@) =~= Seq::<(Seq<char>, EdgeKind)>::empty());
    }
    push_single_ext(&mut out, json, "x-familiar-service", EdgeKind::RunsOn);
    push_array_ext(&mut out, json, "x-familiar-depends", EdgeKind::Requires);
    push_array_ext(&mut out, json, "x-familiar-resources", EdgeKind::ConnectsTo);
    push_array_ext(&mut out, json, "x-familiar-reads", EdgeKind::Reads);
    push_array_ext(&mut out, json, "x-familiar-writes", EdgeKind::Writes);
    push_single_ext(&mut out, json, "x-familiar-input", EdgeKind::Input);
    push_single_ext(&mut out, json, "x-familiar-output", EdgeKind::Output);
    push_array_ext(&mut out, json, "x-familiar-systems", EdgeKind::TypeRef);
    push_array_ext(&mut out, json, "x-familiar-components", EdgeKind::Requires);
    push_array_ext(&mut out, json, "x-familiar-consumers", EdgeKind::UsesQueue);
    push_single_ext(&mut out, json, "x-familiar-config", EdgeKind::TypeRef);
    proof {
        assert(refs_view(out@) =~= extension_refs(*json));
    }
    out
}

// ---------------------------------------------------------------------------
// Every `$ref` string of a document
// ---------------------------------------------------------------------------

/// The number of values in a document, counting nested ones.
pub open spec fn json_size(j: Json) -> nat
    decreases j, 1nat,
{
    match j {
        Json::Object(ms) => {
            proof {
                assert(decreases_to!(j => j->Object_0));
            }
            1 + members_size(ms@)
        },
        Json::Array(a) => {
            proof {
                assert(decreases_to!(j => j->Array_0));
            }
            1 + values_size(a@)
        },
        _ => 1,
    }
}

/// The sizes of the values, added up.
pub open spec fn values_size(a: Seq<Json>) -> nat
    decreases a, 0nat,
{
    if a.len() == 0 {
        0
    } else {
        proof {
            assert(decreases_to!(a => a[a.len() - 1]));
            assert(decreases_to!(a => a.subrange(0, a.len() - 1)));
        }
        values_size(a.drop_last()) + json_size(a.last())
    }
}

/// The sizes of the member values, added up.
pub open spec fn members_size(ms: Seq<(String, Json)>) -> nat
    decreases ms, 0nat,
{
    if ms.len() == 0 {
        0
    } else {
        proof {
            assert(decreases_to!(ms => ms[ms.len() - 1]));
            assert(decreases_to!(ms[ms.len() - 1] => ms[ms.len() - 1].1));
            assert(decreases_to!(ms => ms.subrange(0, ms.len() - 1)));
        }
        members_size(ms.drop_last()) + json_size(ms.last().1)
    }
}

/// The member values of an object, in order.
pub open spec fn member_values(ms: Seq<(String, Json)>) -> Seq<Json> {
    ms.map_values(|m: (String, Json)| m.1)
}

pub proof fn lemma_values_size_concat(a: Seq<Json>, b: Seq<Json>)
    ensures
        values_size(a + b) == values_size(a) + values_size(b),
    decreases b.len(),
{
    if b.len() == 0 {
        assert(a + b =~= a);
    } else {
        assert((a + b).drop_last() =~= a + b.drop_last());
        assert((a + b).last() == b.last());
        lemma_values_size_concat(a, b.drop_last());
    }
}

pub proof fn lemma_member_values_size(ms: Seq<(String, Json)>)
    ensures
        values_size(member_values(ms)) == members_size(ms),
    decreases ms.len(),
{
    if ms.len() > 0 {
        assert(member_values(ms).drop_last() =~= member_values(ms.drop_last()));
        lemma_member_values_size(ms.drop_last());
    }
}

/// The `$ref` string of an object's members, as a list of at most one.
pub open spec fn own_ref(ms: Seq<(String, Json)>) -> Seq<Seq<char>> {
    match member(ms, "$ref"@) {
        Some(Json::Str(r)) => seq![r@],
        _ => Seq::empty(),
    }
}

/// The `$ref` strings met by a depth-first walk with an explicit stack:
/// the top value is taken; an object gives its own `$ref` string, then its
/// member values go on the stack in order; an array's items go on the stack
/// in order.
pub open spec fn stack_refs(stack: Seq<Json>) -> Seq<Seq<char>>
    decreases values_size(stack),
{
    if stack.len() == 0 {
        Seq::empty()
    } else {
        let v = stack.last();
        let rest = stack.drop_last();
        proof {
            assert(stack =~= rest + seq![v]);
            lemma_values_size_concat(rest, seq![v]);
            assert(seq![v].drop_last() =~= Seq::<Json>::empty());
            assert(seq![v].last() == v);
            assert(values_size(seq![v]) == json_size(v));
            assert(values_size(stack) == values_size(rest) + json_size(v));
        }
        match v {
            Json::Object(ms) => {
                proof {
                    lemma_values_size_concat(rest, member_values(ms@));
                    lemma_member_values_size(ms@);
                    assert(json_size(v) == 1 + members_size(ms@));
                    assert(values_size(rest + member_values(ms@)) < values_size(stack));
                }
                own_ref(ms@) + stack_refs(rest + member_values(ms@))
            },
            Json::Array(a) => {
                proof {
                    lemma_values_size_concat(rest, a@);
                    assert(json_size(v) == 1 + values_size(a@));
                    assert(values_size(rest + a@) < values_size(stack));
                }
                stack_refs(rest + a@)
            },
            _ => stack_refs(rest),
        }
    }
}

/// Every `$ref` string in a parsed schema document, in the order of a
/// depth-first walk with an explicit stack (see `stack_refs`).
pub fn document_refs(json: &Json) -> (refs: Vec<String>)
    ensures
        texts_view(refs@) == stack_refs(seq![*json]),
{
    let mut refs: Vec<String> = Vec::new();
    let mut stack: Vec<&Json> = vec![json];
    let ghost total = stack_refs(seq![*json]);
    proof {
        assert(stack@.map_values(|r: &Json| *r) =~= seq![*json]);
        assert(texts_view(refs@) =~= Seq::<Seq<char>>::empty());
    }
    while stack.len() > 0
        invariant
            total == texts_view(refs@) + stack_refs(stack@.map_values(|r: &Json| *r)),
        decreases values_size(stack@.map_values(|r: &Json| *r)),
    {
        let ghost sv = stack@.map_values(|r: &Json| *r);
        let v = stack.pop().unwrap();
        let ghost rest = stack@.map_values(|r: &Json| *r);
        proof {
            assert(sv.drop_last() =~= rest);
            assert(sv.last() == *v);
            assert(sv =~= rest + seq![*v]);
            lemma_values_size_concat(rest, seq![*v]);
            assert(seq![*v].drop_last() =~= Seq::<Json>::empty());
            assert(seq![*v].last() == *v);
            assert(values_size(sv) == values_size(rest) + json_size(*v));
        }
        match v {
            Json::Object(ms) => {
                let ghost before = texts_view(refs@);
                if let Some(i) = member_index(ms, "$ref") {
                    if let Json::Str(r) = &ms[i].1 {
                        refs.push(r.clone());
                    }
                }
                proof {
                    lemma_member_pos(ms@, "$ref"@);
                    assert(texts_view(refs@) =~= before + own_ref(ms@));
                }
                let mut k: usize = 0;
                while k < ms.len()
                    invariant
                        k <= ms@.len(),
                        stack@.map_values(|r: &Json| *r) == rest + member_values(ms@).take(k as int),
                    decreases ms@.len() - k,
                {
                    let ghost cur = stack@.map_values(|r: &Json| *r);
                    stack.push(&ms[k].1);
                    proof {
                        assert(stack@.map_values(|r: &Json| *r) =~= cur.push(ms@[k as int].1));
                        assert(member_values(ms@).take(k as int + 1) =~= member_values(ms@).take(k as int).push(ms@[k as int].1));
                    }
                    k = k + 1;
                }
                proof {
                    assert(member_values(ms@).take(ms@.len() as int) =~= member_values(ms@));
                    lemma_values_size_concat(rest, member_values(ms@));
                    lemma_member_values_size(ms@);
                    assert(json_size(*v) == 1 + members_size(ms@));
                }
            },
            Json::Array(a) => {
                let mut k: usize = 0;
                while k < a.len()
                    invariant
                        k <= a@.len(),
                        stack@.map_values(|r: &Json| *r) == rest + a@.take(k as int),
                    decreases a@.len() - k,
                {
                    let ghost cur = stack@.map_values(|r: &Json| *r);
                    stack.push(&a[k]);
                    proof {
                        assert(stack@.map_values(|r: &Json| *r) =~= cur.push(a@[k as int]));
                        assert(a@.take(k as int + 1) =~= a@.take(k as int).push(a@[k as int]));
                    }
                    k = k + 1;
                }
                proof {
                    assert(a@.take(a@.len() as int) =~= a@);
                    lemma_values_size_concat(rest, a@);
                    assert(json_size(*v) == 1 + values_size(a@));
                }
            },
            _ => {},
        }
    }
    proof {
        assert(texts_view(refs@) + Seq::<Seq<char>>::empty() =~= texts_view(refs@));
    }
    refs
}

/// Strings as plain texts.
pub open spec fn texts_view(v: Seq<String>) -> Seq<Seq<char>> {
    v.map_values(|s: String| s@)
}

/// Every `$ref` string in a schema text (see `document_refs`); nothing when
/// the text is not JSON.
pub fn extract_refs(content: &str) -> (refs: Vec<String>)
    ensures
        match text_value(content@) {
            Err(_) => refs@.len() == 0,
            Ok(v) => exists|j: Json| j@ == v && #[trigger] texts_view(refs@) == stack_refs(seq![j]),
        },
{
    match parse_text(content) {
        Ok(j) => {
            let refs = document_refs(&j);
            proof {
                assert(texts_view(refs@) == stack_refs(seq![j]));
            }
            refs
        },
        Err(_) => Vec::new(),
    }
}

} // verus!
