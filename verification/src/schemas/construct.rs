//! Building the schema graph from the parsed schema files of a directory.
//!
//! Every file becomes a node, and so does every local definition
//! (`definitions` or `$defs`) as `path#Name`. Then each file's references
//! become typed edges: those of its `x-familiar-*` extensions, those of its
//! composition (see `extract_all_type_refs`), and those of each local
//! definition. An edge is made only where both ends are nodes; a composition
//! or definition edge is not made twice between the same two nodes.

use vstd::prelude::*;
use crate::json::{Json, json_get, json_str, doc_views, parse_files, parsed_views};
use crate::schemas::graph::{SchemaGraph, SchemaNode, first_hash, has_edge_between, node_pos};
use crate::schemas::refs::{
    EdgeKind, extension_refs, extract_all_type_refs, extract_typed_refs, levels_left, normalize_ref, normalized_ref,
    refs_view, type_refs,
};
use crate::text::{owned, str_eq};

verus! {

/// A node as plain values: id, file, definition, kind, title.
pub open spec fn node_view(n: SchemaNode) -> (Seq<char>, Seq<char>, Option<Seq<char>>, Option<Seq<char>>, Option<Seq<char>>) {
    (
        n.id@,
        n.file_path@,
        match n.definition {
            Some(d) => Some(d@),
            None => None,
        },
        match n.kind {
            Some(k) => Some(k@),
            None => None,
        },
        match n.title {
            Some(t) => Some(t@),
            None => None,
        },
    )
}

/// The nodes as plain values.
pub open spec fn node_views(ns: Seq<SchemaNode>) -> Seq<(Seq<char>, Seq<char>, Option<Seq<char>>, Option<Seq<char>>, Option<Seq<char>>)> {
    ns.map_values(|n: SchemaNode| node_view(n))
}

/// Whether some node has the id.
pub open spec fn has_view(vs: Seq<(Seq<char>, Seq<char>, Option<Seq<char>>, Option<Seq<char>>, Option<Seq<char>>)>, id: Seq<char>) -> bool {
    exists|i: int| 0 <= i < vs.len() && (#[trigger] vs[i]).0 == id
}

/// Adds a node unless one has its id.
pub open spec fn add_view(
    vs: Seq<(Seq<char>, Seq<char>, Option<Seq<char>>, Option<Seq<char>>, Option<Seq<char>>)>,
    v: (Seq<char>, Seq<char>, Option<Seq<char>>, Option<Seq<char>>, Option<Seq<char>>),
) -> Seq<(Seq<char>, Seq<char>, Option<Seq<char>>, Option<Seq<char>>, Option<Seq<char>>)> {
    if has_view(vs, v.0) {
        vs
    } else {
        vs.push(v)
    }
}

/// Adds the nodes in turn.
pub open spec fn add_views(
    vs: Seq<(Seq<char>, Seq<char>, Option<Seq<char>>, Option<Seq<char>>, Option<Seq<char>>)>,
    more: Seq<(Seq<char>, Seq<char>, Option<Seq<char>>, Option<Seq<char>>, Option<Seq<char>>)>,
) -> Seq<(Seq<char>, Seq<char>, Option<Seq<char>>, Option<Seq<char>>, Option<Seq<char>>)>
    decreases more.len(),
{
    if more.len() == 0 {
        vs
    } else {
        add_view(add_views(vs, more.drop_last()), more.last())
    }
}

/// The node of a schema file: its id is its path (split at the first `#`,
/// were there one); its kind and title are read from the document.
pub open spec fn file_view(p: Seq<char>, j: Json) -> (Seq<char>, Seq<char>, Option<Seq<char>>, Option<Seq<char>>, Option<Seq<char>>) {
    (
        p,
        if p.contains('#') { p.subrange(0, first_hash(p)) } else { p },
        if p.contains('#') { Some(p.subrange(first_hash(p) + 1, p.len() as int)) } else { None },
        json_str(json_get(j, "x-familiar-kind"@)),
        json_str(json_get(j, "title"@)),
    )
}

/// The node of a local definition of the file `p`: kind `definition` unless
/// it sets its own.
pub open spec fn def_view(p: Seq<char>, m: (String, Json)) -> (Seq<char>, Seq<char>, Option<Seq<char>>, Option<Seq<char>>, Option<Seq<char>>) {
    (
        p + "#"@ + m.0@,
        p,
        Some(m.0@),
        match json_str(json_get(m.1, "x-familiar-kind"@)) {
            Some(k) => Some(k),
            None => Some("definition"@),
        },
        json_str(json_get(m.1, "title"@)),
    )
}

/// The local definitions of a document: those under `definitions`, then
/// those under `$defs`.
pub open spec fn def_members(j: Json) -> Seq<(String, Json)> {
    (match json_get(j, "definitions"@) {
        Some(Json::Object(ms)) => ms@,
        _ => Seq::empty(),
    }) + (match json_get(j, "$defs"@) {
        Some(Json::Object(ms)) => ms@,
        _ => Seq::empty(),
    })
}

/// The nodes a file asks for: itself, then its local definitions.
pub open spec fn file_node_views(p: Seq<char>, j: Json) -> Seq<(Seq<char>, Seq<char>, Option<Seq<char>>, Option<Seq<char>>, Option<Seq<char>>)> {
    seq![file_view(p, j)] + def_members(j).map_values(|m: (String, Json)| def_view(p, m))
}

/// The nodes of the graph after the first pass over the files.
pub open spec fn phase_one(files: Seq<(String, Json)>) -> Seq<(Seq<char>, Seq<char>, Option<Seq<char>>, Option<Seq<char>>, Option<Seq<char>>)>
    decreases files.len(),
{
    if files.len() == 0 {
        Seq::empty()
    } else {
        add_views(phase_one(files.drop_last()), file_node_views(files.last().0@, files.last().1))
    }
}

/// The number of nodes the files ask for, counting repeats.
pub open spec fn node_requests(files: Seq<(String, Json)>) -> nat
    decreases files.len(),
{
    if files.len() == 0 {
        0
    } else {
        node_requests(files.drop_last()) + file_node_views(files.last().0@, files.last().1).len()
    }
}

// ---------------------------------------------------------------------------
// Edge requests
// ---------------------------------------------------------------------------

/// The edges an extension reference list asks for from `p`: each reference
/// resolved from `p`, unless it resolves to nothing.
pub open spec fn infra_requests(p: Seq<char>, refs: Seq<(Seq<char>, EdgeKind)>) -> Seq<(Seq<char>, Seq<char>, EdgeKind, bool)>
    decreases refs.len(),
{
    if refs.len() == 0 {
        Seq::empty()
    } else {
        infra_requests(p, refs.drop_last()) + if normalized_ref(p, refs.last().0).len() > 0 {
            seq![(p, normalized_ref(p, refs.last().0), refs.last().1, false)]
        } else {
            Seq::empty()
        }
    }
}

/// The edges composition references ask for from `src`, each made once.
pub open spec fn comp_requests(src: Seq<char>, refs: Seq<(Seq<char>, EdgeKind)>) -> Seq<(Seq<char>, Seq<char>, EdgeKind, bool)> {
    refs.map_values(|r: (Seq<char>, EdgeKind)| (src, r.0, r.1, true))
}

/// The edges the local definitions of the file `p` ask for.
pub open spec fn def_requests(p: Seq<char>, ms: Seq<(String, Json)>, depth: usize) -> Seq<(Seq<char>, Seq<char>, EdgeKind, bool)>
    decreases ms.len(),
{
    if ms.len() == 0 {
        Seq::empty()
    } else {
        def_requests(p, ms.drop_last(), depth) + comp_requests(
            p + "#"@ + ms.last().0@,
            type_refs(ms.last().1, p, levels_left(depth, 0)),
        )
    }
}

/// The edges a file asks for: extension references, composition
/// references, then those of its local definitions.
pub open spec fn file_requests(p: Seq<char>, j: Json, depth: usize) -> Seq<(Seq<char>, Seq<char>, EdgeKind, bool)> {
    infra_requests(p, extension_refs(j)) + comp_requests(p, type_refs(j, p, levels_left(depth, 0))) + def_requests(
        p,
        def_members(j),
        depth,
    )
}

/// The edges the files ask for, in order.
pub open spec fn phase_two(files: Seq<(String, Json)>, depth: usize) -> Seq<(Seq<char>, Seq<char>, EdgeKind, bool)>
    decreases files.len(),
{
    if files.len() == 0 {
        Seq::empty()
    } else {
        phase_two(files.drop_last(), depth) + file_requests(files.last().0@, files.last().1, depth)
    }
}

/// The edges after the requests: a request makes an edge when both ends are
/// nodes, unless it is to be made once and such an edge exists.
pub open spec fn apply_requests(
    ns: Seq<SchemaNode>,
    es: Seq<(int, int, EdgeKind)>,
    reqs: Seq<(Seq<char>, Seq<char>, EdgeKind, bool)>,
) -> Seq<(int, int, EdgeKind)>
    decreases reqs.len(),
{
    if reqs.len() == 0 {
        es
    } else {
        let before = apply_requests(ns, es, reqs.drop_last());
        let r = reqs.last();
        match (node_pos(ns, r.0), node_pos(ns, r.1)) {
            (Some(a), Some(b)) => if r.3 && has_edge_between(before, a, b) {
                before
            } else {
                before.push((a, b, r.2))
            },
            _ => before,
        }
    }
}

// ---------------------------------------------------------------------------
// Building
// ---------------------------------------------------------------------------

proof fn lemma_pos_has(ns: Seq<SchemaNode>, id: Seq<char>)
    ensures
        (node_pos(ns, id) is Some) == has_view(node_views(ns), id),
{
    if has_view(node_views(ns), id) {
        let i = choose|i: int| 0 <= i < node_views(ns).len() && (#[trigger] node_views(ns)[i]).0 == id;
        assert(ns[i].id@ == id);
    }
    if node_pos(ns, id) is Some {
        let i = choose|i: int| 0 <= i < ns.len() && (#[trigger] ns[i]).id@ == id;
        assert(node_views(ns)[i].0 == id);
    }
}

proof fn lemma_add_views_concat(
    vs: Seq<(Seq<char>, Seq<char>, Option<Seq<char>>, Option<Seq<char>>, Option<Seq<char>>)>,
    a: Seq<(Seq<char>, Seq<char>, Option<Seq<char>>, Option<Seq<char>>, Option<Seq<char>>)>,
    b: Seq<(Seq<char>, Seq<char>, Option<Seq<char>>, Option<Seq<char>>, Option<Seq<char>>)>,
)
    ensures
        add_views(vs, a + b) == add_views(add_views(vs, a), b),
    decreases b.len(),
{
    if b.len() == 0 {
        assert(a + b =~= a);
    } else {
        assert((a + b).drop_last() =~= a + b.drop_last());
        assert((a + b).last() == b.last());
        lemma_add_views_concat(vs, a, b.drop_last());
    }
}

proof fn lemma_add_views_len(
    vs: Seq<(Seq<char>, Seq<char>, Option<Seq<char>>, Option<Seq<char>>, Option<Seq<char>>)>,
    more: Seq<(Seq<char>, Seq<char>, Option<Seq<char>>, Option<Seq<char>>, Option<Seq<char>>)>,
)
    ensures
        add_views(vs, more).len() <= vs.len() + more.len(),
    decreases more.len(),
{
    if more.len() > 0 {
        lemma_add_views_len(vs, more.drop_last());
    }
}

/// Adds the nodes of local definitions of the file `path`.
fn add_definition_nodes(g: &mut SchemaGraph, path: &str, ms: &Vec<(String, Json)>)
    requires
        old(g).wf(),
        old(g).nodes().len() + ms@.len() < u32::MAX,
    ensures
        final(g).wf(),
        final(g).edges() == old(g).edges(),
        node_views(final(g).nodes()) == add_views(
            node_views(old(g).nodes()),
            ms@.map_values(|m: (String, Json)| def_view(path@, m)),
        ),
        final(g).nodes().len() <= old(g).nodes().len() + ms@.len(),
{
    let ghost v0 = node_views(g.nodes());
    let ghost dv = ms@.map_values(|m: (String, Json)| def_view(path@, m));
    let mut i: usize = 0;
    proof {
        assert(dv.take(0) =~= Seq::<(Seq<char>, Seq<char>, Option<Seq<char>>, Option<Seq<char>>, Option<Seq<char>>)>::empty());
    }
    while i < ms.len()
        invariant
            g.wf(),
            i <= ms@.len(),
            g.edges() == old(g).edges(),
            g.nodes().len() <= old(g).nodes().len() + i,
            old(g).nodes().len() + ms@.len() < u32::MAX,
            dv == ms@.map_values(|m: (String, Json)| def_view(path@, m)),
            node_views(g.nodes()) == add_views(v0, dv.take(i as int)),
        decreases ms@.len() - i,
    {
        let (name, schema) = (&ms[i].0, &ms[i].1);
        let title = crate::json::get_str(schema, "title");
        let kind = match crate::json::get_str(schema, "x-familiar-kind") {
            Some(k) => Some(k),
            None => Some(owned("definition")),
        };
        let ghost before = g.nodes();
        proof {
            lemma_pos_has(before, path@ + "#"@ + name@);
        }
        g.add_definition_node(path, name.as_str(), kind, title);
        proof {
            let t = dv.take(i as int + 1);
            assert(t.drop_last() =~= dv.take(i as int));
            assert(t.last() == dv[i as int]);
            assert(dv[i as int] == def_view(path@, ms@[i as int]));
            if node_pos(before, path@ + "#"@ + name@) is None {
                assert(node_views(g.nodes()) =~= node_views(before).push(node_view(g.nodes().last())));
                assert(node_view(g.nodes().last()) == def_view(path@, ms@[i as int]));
            }
        }
        i = i + 1;
    }
    proof {
        assert(dv.take(ms@.len() as int) =~= dv);
    }
}

/// Adds a schema file's node, then the nodes of its local definitions.
fn add_file_nodes(g: &mut SchemaGraph, path: &str, doc: &Json)
    requires
        old(g).wf(),
        old(g).nodes().len() + file_node_views(path@, *doc).len() < u32::MAX,
    ensures
        final(g).wf(),
        final(g).edges() == old(g).edges(),
        node_views(final(g).nodes()) == add_views(node_views(old(g).nodes()), file_node_views(path@, *doc)),
        final(g).nodes().len() <= old(g).nodes().len() + file_node_views(path@, *doc).len(),
{
    let ghost v0 = node_views(g.nodes());
    let kind = crate::json::get_str(doc, "x-familiar-kind");
    let title = crate::json::get_str(doc, "title");
    let ghost before = g.nodes();
    proof {
        lemma_pos_has(before, path@);
    }
    g.add_node_with_metadata(path, kind, title);
    proof {
        if node_pos(before, path@) is None {
            assert(node_views(g.nodes()) =~= node_views(before).push(node_view(g.nodes().last())));
        }
        assert(node_views(g.nodes()) == add_view(v0, file_view(path@, *doc)));
    }
    let ghost v1 = node_views(g.nodes());
    let empty: Vec<(String, Json)> = Vec::new();
    let defs: &Vec<(String, Json)> = match doc.get("definitions") {
        Some(Json::Object(ms)) => ms,
        _ => &empty,
    };
    let dollar: &Vec<(String, Json)> = match doc.get("$defs") {
        Some(Json::Object(ms)) => ms,
        _ => &empty,
    };
    proof {
        assert(def_members(*doc) =~= defs@ + dollar@);
        assert(file_node_views(path@, *doc) =~= seq![file_view(path@, *doc)] + defs@.map_values(
            |m: (String, Json)| def_view(path@, m),
        ) + dollar@.map_values(|m: (String, Json)| def_view(path@, m)));
    }
    add_definition_nodes(g, path, defs);
    add_definition_nodes(g, path, dollar);
    proof {
        let a = seq![file_view(path@, *doc)];
        let b = defs@.map_values(|m: (String, Json)| def_view(path@, m));
        let c = dollar@.map_values(|m: (String, Json)| def_view(path@, m));
        assert(add_views(v0, a) == add_view(v0, file_view(path@, *doc))) by {
            assert(a.drop_last() =~= Seq::<(Seq<char>, Seq<char>, Option<Seq<char>>, Option<Seq<char>>, Option<Seq<char>>)>::empty());
            assert(a.last() == file_view(path@, *doc));
            assert(add_views(v0, a.drop_last()) == v0);
        }
        lemma_add_views_concat(v0, a, b);
        lemma_add_views_concat(v0, a + b, c);
    }
}

proof fn lemma_apply_push(
    ns: Seq<SchemaNode>,
    es: Seq<(int, int, EdgeKind)>,
    reqs: Seq<(Seq<char>, Seq<char>, EdgeKind, bool)>,
    r: (Seq<char>, Seq<char>, EdgeKind, bool),
)
    ensures
        apply_requests(ns, es, reqs.push(r)) == apply_requests(ns, apply_requests(ns, es, reqs), seq![r]),
{
    assert(reqs.push(r).drop_last() =~= reqs);
    assert(reqs.push(r).last() == r);
    assert(seq![r].drop_last() =~= Seq::<(Seq<char>, Seq<char>, EdgeKind, bool)>::empty());
    assert(seq![r].last() == r);
    let e0 = apply_requests(ns, es, reqs);
    assert(apply_requests(ns, e0, seq![r].drop_last()) == e0);
}

proof fn lemma_apply_concat(
    ns: Seq<SchemaNode>,
    es: Seq<(int, int, EdgeKind)>,
    a: Seq<(Seq<char>, Seq<char>, EdgeKind, bool)>,
    b: Seq<(Seq<char>, Seq<char>, EdgeKind, bool)>,
)
    ensures
        apply_requests(ns, es, a + b) == apply_requests(ns, apply_requests(ns, es, a), b),
    decreases b.len(),
{
    if b.len() == 0 {
        assert(a + b =~= a);
    } else {
        assert((a + b).drop_last() =~= a + b.drop_last());
        assert((a + b).last() == b.last());
        lemma_apply_concat(ns, es, a, b.drop_last());
    }
}

proof fn lemma_apply_len(ns: Seq<SchemaNode>, es: Seq<(int, int, EdgeKind)>, reqs: Seq<(Seq<char>, Seq<char>, EdgeKind, bool)>)
    ensures
        apply_requests(ns, es, reqs).len() <= es.len() + reqs.len(),
    decreases reqs.len(),
{
    if reqs.len() > 0 {
        lemma_apply_len(ns, es, reqs.drop_last());
    }
}

/// Makes the edge a request asks for (see `apply_requests`).
fn request_edge(g: &mut SchemaGraph, from: &str, to: &str, kind: EdgeKind, once: bool)
    requires
        old(g).wf(),
        old(g).nodes().len() + 1 < u32::MAX,
        old(g).edges().len() < u32::MAX,
    ensures
        final(g).wf(),
        final(g).nodes() == old(g).nodes(),
        final(g).edges() == apply_requests(old(g).nodes(), old(g).edges(), seq![(from@, to@, kind, once)]),
{
    let ghost r = (from@, to@, kind, once);
    proof {
        assert(seq![r].drop_last() =~= Seq::<(Seq<char>, Seq<char>, EdgeKind, bool)>::empty());
        assert(seq![r].last() == r);
        assert(apply_requests(g.nodes(), g.edges(), seq![r].drop_last()) == g.edges());
    }
    let a = g.find_node(from);
    let b = g.find_node(to);
    if a.is_some() && b.is_some() {
        if once && g.has_edge(from, to) {
            return;
        }
        let ghost n0 = g.nodes();
        g.add_typed_edge(from, to, kind);
        proof {
            if g.nodes().len() > n0.len() {
                let k = n0.len() as int;
                let id = g.nodes()[k].id@;
                let j = if id == from@ { a->0 as int } else { b->0 as int };
                assert(g.nodes().take(n0.len() as int)[j] == g.nodes()[j]);
                assert(g.nodes()[j] == n0[j]);
                assert(g.nodes()[j].id@ == id);
                assert(g.nodes()[j].id@ != g.nodes()[k].id@);
                assert(false);
            }
            assert(g.nodes().take(n0.len() as int) =~= g.nodes());
            assert(g.nodes() =~= n0);
        }
    }
}

/// Makes the edges composition references ask for from `src`.
fn request_all(g: &mut SchemaGraph, src: &str, refs: &Vec<(String, EdgeKind)>)
    requires
        old(g).wf(),
        old(g).nodes().len() + 1 < u32::MAX,
        old(g).edges().len() + refs@.len() < u32::MAX,
    ensures
        final(g).wf(),
        final(g).nodes() == old(g).nodes(),
        final(g).edges() == apply_requests(old(g).nodes(), old(g).edges(), comp_requests(src@, refs_view(refs@))),
{
    let ghost ns = g.nodes();
    let ghost e0 = g.edges();
    let ghost rv = refs_view(refs@);
    let mut i: usize = 0;
    proof {
        assert(comp_requests(src@, rv.take(0)) =~= Seq::<(Seq<char>, Seq<char>, EdgeKind, bool)>::empty());
    }
    while i < refs.len()
        invariant
            g.wf(),
            i <= refs@.len(),
            g.nodes() == ns,
            ns.len() + 1 < u32::MAX,
            e0.len() + refs@.len() < u32::MAX,
            rv == refs_view(refs@),
            g.edges() == apply_requests(ns, e0, comp_requests(src@, rv.take(i as int))),
        decreases refs@.len() - i,
    {
        proof {
            lemma_apply_len(ns, e0, comp_requests(src@, rv.take(i as int)));
            let t = rv.take(i as int + 1);
            assert(comp_requests(src@, t) =~= comp_requests(src@, rv.take(i as int)).push((src@, rv[i as int].0, rv[i as int].1, true)));
            lemma_apply_push(ns, e0, comp_requests(src@, rv.take(i as int)), (src@, rv[i as int].0, rv[i as int].1, true));
            assert(rv[i as int] == (refs@[i as int].0@, refs@[i as int].1));
        }
        request_edge(g, src, refs[i].0.as_str(), refs[i].1, true);
        i = i + 1;
    }
    proof {
        assert(rv.take(rv.len() as int) =~= rv);
    }
}

proof fn lemma_def_requests_concat(p: Seq<char>, a: Seq<(String, Json)>, b: Seq<(String, Json)>, depth: usize)
    ensures
        def_requests(p, a + b, depth) == def_requests(p, a, depth) + def_requests(p, b, depth),
    decreases b.len(),
{
    if b.len() == 0 {
        assert(a + b =~= a);
        assert(def_requests(p, a, depth) + def_requests(p, b, depth) =~= def_requests(p, a, depth));
    } else {
        assert((a + b).drop_last() =~= a + b.drop_last());
        assert((a + b).last() == b.last());
        lemma_def_requests_concat(p, a, b.drop_last(), depth);
    }
}

/// Makes the edges the local definitions of the file `path` ask for.
fn add_definition_edges(g: &mut SchemaGraph, path: &str, ms: &Vec<(String, Json)>, depth: usize)
    requires
        old(g).wf(),
        old(g).nodes().len() + 1 < u32::MAX,
        old(g).edges().len() + def_requests(path@, ms@, depth).len() < u32::MAX,
    ensures
        final(g).wf(),
        final(g).nodes() == old(g).nodes(),
        final(g).edges() == apply_requests(old(g).nodes(), old(g).edges(), def_requests(path@, ms@, depth)),
{
    let ghost ns = g.nodes();
    let ghost e0 = g.edges();
    let mut i: usize = 0;
    proof {
        assert(ms@.take(0) =~= Seq::<(String, Json)>::empty());
    }
    while i < ms.len()
        invariant
            g.wf(),
            i <= ms@.len(),
            g.nodes() == ns,
            ns.len() + 1 < u32::MAX,
            e0.len() + def_requests(path@, ms@, depth).len() < u32::MAX,
            g.edges() == apply_requests(ns, e0, def_requests(path@, ms@.take(i as int), depth)),
        decreases ms@.len() - i,
    {
        let mut id = owned(path);
        id.append("#");
        id.append(ms[i].0.as_str());
        let refs = extract_all_type_refs(&ms[i].1, path, depth, 0);
        proof {
            let t = ms@.take(i as int + 1);
            assert(t.drop_last() =~= ms@.take(i as int));
            assert(t.last() == ms@[i as int]);
            lemma_def_requests_concat(path@, t, ms@.skip(i as int + 1), depth);
            assert(t + ms@.skip(i as int + 1) =~= ms@);
            assert(refs_view(refs@).len() == refs@.len());
            assert(comp_requests(id@, refs_view(refs@)).len() == refs@.len());
            lemma_apply_len(ns, e0, def_requests(path@, ms@.take(i as int), depth));
            lemma_apply_concat(ns, e0, def_requests(path@, ms@.take(i as int), depth), comp_requests(id@, refs_view(refs@)));
        }
        request_all(g, id.as_str(), &refs);
        i = i + 1;
    }
    proof {
        assert(ms@.take(ms@.len() as int) =~= ms@);
    }
}

/// Makes the edges a file asks for (see `file_requests`).
fn add_file_edges(g: &mut SchemaGraph, path: &str, doc: &Json, depth: usize)
    requires
        old(g).wf(),
        old(g).nodes().len() + 1 < u32::MAX,
        old(g).edges().len() + file_requests(path@, *doc, depth).len() < u32::MAX,
    ensures
        final(g).wf(),
        final(g).nodes() == old(g).nodes(),
        final(g).edges() == apply_requests(old(g).nodes(), old(g).edges(), file_requests(path@, *doc, depth)),
{
    let ghost ns = g.nodes();
    let ghost e0 = g.edges();
    let ghost infra = infra_requests(path@, extension_refs(*doc));
    let ghost comp = comp_requests(path@, type_refs(*doc, path@, levels_left(depth, 0)));
    let ghost defs_r = def_requests(path@, def_members(*doc), depth);
    // extension references
    let refs = extract_typed_refs(doc);
    let ghost rv = refs_view(refs@);
    let mut i: usize = 0;
    proof {
        assert(infra_requests(path@, rv.take(0)) =~= Seq::<(Seq<char>, Seq<char>, EdgeKind, bool)>::empty());
        assert(rv.take(rv.len() as int) =~= rv);
    }
    while i < refs.len()
        invariant
            g.wf(),
            i <= refs@.len(),
            g.nodes() == ns,
            ns.len() + 1 < u32::MAX,
            rv == refs_view(refs@),
            rv == extension_refs(*doc),
            infra == infra_requests(path@, extension_refs(*doc)),
            e0.len() + file_requests(path@, *doc, depth).len() < u32::MAX,
            file_requests(path@, *doc, depth) == infra + comp + defs_r,
            g.edges() == apply_requests(ns, e0, infra_requests(path@, rv.take(i as int))),
        decreases refs@.len() - i,
    {
        let n = normalize_ref(path, refs[i].0.as_str());
        proof {
            let t = rv.take(i as int + 1);
            assert(t.drop_last() =~= rv.take(i as int));
            assert(t.last() == rv[i as int]);
            assert(rv[i as int] == (refs@[i as int].0@, refs@[i as int].1));
            lemma_infra_prefix(path@, rv, i as int + 1);
            lemma_apply_len(ns, e0, infra_requests(path@, rv.take(i as int)));
        }
        if !n.as_str().is_empty() {
            proof {
                lemma_apply_push(ns, e0, infra_requests(path@, rv.take(i as int)), (path@, n@, refs@[i as int].1, false));
                assert(infra_requests(path@, rv.take(i as int + 1)) =~= infra_requests(path@, rv.take(i as int)).push(
                    (path@, n@, refs@[i as int].1, false),
                ));
            }
            request_edge(g, path, n.as_str(), refs[i].1, false);
        } else {
            proof {
                assert(infra_requests(path@, rv.take(i as int + 1)) =~= infra_requests(path@, rv.take(i as int)));
            }
        }
        i = i + 1;
    }
    // composition references
    let comp_refs = extract_all_type_refs(doc, path, depth, 0);
    proof {
        assert(comp.len() == comp_refs@.len());
        lemma_apply_len(ns, e0, infra);
    }
    request_all(g, path, &comp_refs);
    proof {
        lemma_apply_concat(ns, e0, infra, comp);
    }
    // local definitions
    let empty: Vec<(String, Json)> = Vec::new();
    let defs: &Vec<(String, Json)> = match doc.get("definitions") {
        Some(Json::Object(ms)) => ms,
        _ => &empty,
    };
    let dollar: &Vec<(String, Json)> = match doc.get("$defs") {
        Some(Json::Object(ms)) => ms,
        _ => &empty,
    };
    proof {
        assert(def_members(*doc) =~= defs@ + dollar@);
        lemma_def_requests_concat(path@, defs@, dollar@, depth);
        lemma_apply_len(ns, e0, infra + comp);
    }
    add_definition_edges(g, path, defs, depth);
    proof {
        lemma_apply_concat(ns, e0, infra + comp, def_requests(path@, defs@, depth));
        lemma_apply_len(ns, e0, infra + comp + def_requests(path@, defs@, depth));
    }
    add_definition_edges(g, path, dollar, depth);
    proof {
        lemma_apply_concat(ns, e0, infra + comp + def_requests(path@, defs@, depth), def_requests(path@, dollar@, depth));
        assert(infra + comp + def_requests(path@, defs@, depth) + def_requests(path@, dollar@, depth) =~= infra + comp + defs_r);
    }
}

proof fn lemma_infra_prefix(p: Seq<char>, refs: Seq<(Seq<char>, EdgeKind)>, n: int)
    requires
        0 <= n <= refs.len(),
    ensures
        infra_requests(p, refs.take(n)).len() <= infra_requests(p, refs).len(),
    decreases refs.len() - n,
{
    if n < refs.len() {
        lemma_infra_prefix(p, refs, n + 1);
        assert(refs.take(n + 1).drop_last() =~= refs.take(n));
    } else {
        assert(refs.take(n) =~= refs);
    }
}

proof fn lemma_node_requests_prefix(files: Seq<(String, Json)>, i: int)
    requires
        0 <= i <= files.len(),
    ensures
        node_requests(files.take(i)) <= node_requests(files),
    decreases files.len() - i,
{
    if i < files.len() {
        lemma_node_requests_prefix(files, i + 1);
        assert(files.take(i + 1).drop_last() =~= files.take(i));
    } else {
        assert(files.take(i) =~= files);
    }
}

proof fn lemma_phase_two_prefix(files: Seq<(String, Json)>, depth: usize, i: int)
    requires
        0 <= i <= files.len(),
    ensures
        phase_two(files.take(i), depth).len() <= phase_two(files, depth).len(),
    decreases files.len() - i,
{
    if i < files.len() {
        lemma_phase_two_prefix(files, depth, i + 1);
        assert(files.take(i + 1).drop_last() =~= files.take(i));
    } else {
        assert(files.take(i) =~= files);
    }
}

/// A count, capped at 2^32 (above every index the graph can hold).
pub open spec fn capped(x: nat) -> nat {
    if x < 0x1_0000_0000 { x } else { 0x1_0000_0000 }
}

fn cap(x: u128) -> (r: u128)
    ensures
        r == capped(x as nat),
{
    if x < 0x1_0000_0000 { x } else { 0x1_0000_0000 }
}

/// How many nodes a file asks for (itself and each local definition), capped.
fn file_node_count(path: &str, doc: &Json) -> (n: u128)
    ensures
        n == capped(file_node_views(path@, *doc).len()),
{
    let d: usize = match doc.get("definitions") {
        Some(Json::Object(ms)) => ms.len(),
        _ => 0,
    };
    let e: usize = match doc.get("$defs") {
        Some(Json::Object(ms)) => ms.len(),
        _ => 0,
    };
    cap(1 + d as u128 + e as u128)
}

/// How many edges the local definitions `ms` of the file `path` ask for, capped.
fn def_request_count(path: &str, ms: &Vec<(String, Json)>, depth: usize) -> (n: u128)
    ensures
        n == capped(def_requests(path@, ms@, depth).len()),
{
    let mut n: u128 = 0;
    let mut i: usize = 0;
    proof {
        assert(ms@.take(0) =~= Seq::<(String, Json)>::empty());
    }
    while i < ms.len()
        invariant
            i <= ms@.len(),
            n == capped(def_requests(path@, ms@.take(i as int), depth).len()),
        decreases ms@.len() - i,
    {
        let refs = extract_all_type_refs(&ms[i].1, path, depth, 0);
        proof {
            let t = ms@.take(i as int + 1);
            assert(t.drop_last() =~= ms@.take(i as int));
            assert(t.last() == ms@[i as int]);
            assert(refs_view(refs@).len() == refs@.len());
        }
        n = cap(n + refs.len() as u128);
        i = i + 1;
    }
    proof {
        assert(ms@.take(ms@.len() as int) =~= ms@);
    }
    n
}

/// How many edges a file asks for (see `file_requests`), capped.
fn file_request_count(path: &str, doc: &Json, depth: usize) -> (n: u128)
    ensures
        n == capped(file_requests(path@, *doc, depth).len()),
{
    let refs = extract_typed_refs(doc);
    let ghost rv = refs_view(refs@);
    let mut infra: u128 = 0;
    let mut i: usize = 0;
    proof {
        assert(rv.take(0) =~= Seq::<(Seq<char>, EdgeKind)>::empty());
    }
    while i < refs.len()
        invariant
            i <= refs@.len(),
            rv == refs_view(refs@),
            infra == infra_requests(path@, rv.take(i as int)).len(),
            infra <= i,
        decreases refs@.len() - i,
    {
        let n = normalize_ref(path, refs[i].0.as_str());
        proof {
            let t = rv.take(i as int + 1);
            assert(t.drop_last() =~= rv.take(i as int));
            assert(t.last() == rv[i as int]);
            assert(rv[i as int] == (refs@[i as int].0@, refs@[i as int].1));
        }
        if !n.as_str().is_empty() {
            infra = infra + 1;
        }
        i = i + 1;
    }
    proof {
        assert(rv.take(rv.len() as int) =~= rv);
    }
    let comp = extract_all_type_refs(doc, path, depth, 0);
    proof {
        assert(refs_view(comp@).len() == comp@.len());
    }
    let empty: Vec<(String, Json)> = Vec::new();
    let defs: &Vec<(String, Json)> = match doc.get("definitions") {
        Some(Json::Object(ms)) => ms,
        _ => &empty,
    };
    let dollar: &Vec<(String, Json)> = match doc.get("$defs") {
        Some(Json::Object(ms)) => ms,
        _ => &empty,
    };
    proof {
        assert(def_members(*doc) =~= defs@ + dollar@);
        lemma_def_requests_concat(path@, defs@, dollar@, depth);
    }
    let a = def_request_count(path, defs, depth);
    let b = def_request_count(path, dollar, depth);
    cap(infra + comp.len() as u128 + a + b)
}

/// Whether the files fit the graph's `u32` indices: the nodes they ask for,
/// and the edges they ask for, are both within them.
pub fn graph_fits(files: &Vec<(String, Json)>, depth: usize) -> (res: bool)
    ensures
        res == (node_requests(files@) + 2 < u32::MAX && phase_two(files@, depth).len() < u32::MAX),
{
    let mut nodes: u128 = 0;
    let mut edges: u128 = 0;
    let mut i: usize = 0;
    proof {
        assert(files@.take(0) =~= Seq::<(String, Json)>::empty());
    }
    while i < files.len()
        invariant
            i <= files@.len(),
            nodes == capped(node_requests(files@.take(i as int))),
            edges == capped(phase_two(files@.take(i as int), depth).len()),
        decreases files@.len() - i,
    {
        proof {
            let t = files@.take(i as int + 1);
            assert(t.drop_last() =~= files@.take(i as int));
            assert(t.last() == files@[i as int]);
        }
        let fnodes = file_node_count(files[i].0.as_str(), &files[i].1);
        let fedges = file_request_count(files[i].0.as_str(), &files[i].1, depth);
        nodes = cap(nodes + fnodes);
        edges = cap(edges + fedges);
        i = i + 1;
    }
    proof {
        assert(files@.take(files@.len() as int) =~= files@);
    }
    nodes + 2 < 0xffff_ffff && edges < 0xffff_ffff
}

impl SchemaGraph {
    /// Builds the graph of a schema directory from its parsed files, each
    /// with its path relative to the directory, in path order. `depth` limits
    /// how many levels of `properties` are searched for references (`0`: no
    /// limit). First every file and each of its local definitions becomes a
    /// node (see `phase_one`); then every file's references become edges (see
    /// `phase_two` and `apply_requests`).
    pub fn from_parsed_with_depth(files: &Vec<(String, Json)>, depth: usize) -> (g: SchemaGraph)
        requires
            node_requests(files@) + 2 < u32::MAX,
            phase_two(files@, depth).len() < u32::MAX,
        ensures
            g.wf(),
            node_views(g.nodes()) == phase_one(files@),
            g.edges() == apply_requests(g.nodes(), Seq::empty(), phase_two(files@, depth)),
    {
        let mut g = SchemaGraph::new();
        let mut i: usize = 0;
        proof {
            assert(files@.take(0) =~= Seq::<(String, Json)>::empty());
            assert(node_views(g.nodes()) =~= phase_one(files@.take(0)));
        }
        while i < files.len()
            invariant
                g.wf(),
                i <= files@.len(),
                node_requests(files@) + 2 < u32::MAX,
                g.edges().len() == 0,
                node_views(g.nodes()) == phase_one(files@.take(i as int)),
                g.nodes().len() <= node_requests(files@.take(i as int)),
            decreases files@.len() - i,
        {
            proof {
                let t = files@.take(i as int + 1);
                assert(t.drop_last() =~= files@.take(i as int));
                assert(t.last() == files@[i as int]);
                lemma_node_requests_prefix(files@, i as int + 1);
            }
            add_file_nodes(&mut g, files[i].0.as_str(), &files[i].1);
            i = i + 1;
        }
        proof {
            assert(files@.take(files@.len() as int) =~= files@);
        }
        let ghost ns = g.nodes();
        let mut k: usize = 0;
        proof {
            assert(phase_two(files@.take(0), depth) =~= Seq::<(Seq<char>, Seq<char>, EdgeKind, bool)>::empty());
            assert(g.edges() =~= Seq::<(int, int, EdgeKind)>::empty());
        }
        while k < files.len()
            invariant
                g.wf(),
                k <= files@.len(),
                g.nodes() == ns,
                ns.len() + 2 < u32::MAX,
                phase_two(files@, depth).len() < u32::MAX,
                g.edges() == apply_requests(ns, Seq::empty(), phase_two(files@.take(k as int), depth)),
            decreases files@.len() - k,
        {
            proof {
                let t = files@.take(k as int + 1);
                assert(t.drop_last() =~= files@.take(k as int));
                assert(t.last() == files@[k as int]);
                lemma_phase_two_prefix(files@, depth, k as int + 1);
                lemma_apply_len(ns, Seq::empty(), phase_two(files@.take(k as int), depth));
                lemma_apply_concat(
                    ns,
                    Seq::empty(),
                    phase_two(files@.take(k as int), depth),
                    file_requests(files@[k as int].0@, files@[k as int].1, depth),
                );
            }
            add_file_edges(&mut g, files[k].0.as_str(), &files[k].1, depth);
            k = k + 1;
        }
        proof {
            assert(files@.take(files@.len() as int) =~= files@);
        }
        g
    }

    /// `from_parsed_with_depth` where the files fit the graph's indices
    /// (see `graph_fits`); `None` where they do not.
    pub fn from_parsed_with_depth_checked(files: &Vec<(String, Json)>, depth: usize) -> (res: Option<SchemaGraph>)
        ensures
            res is Some <==> (node_requests(files@) + 2 < u32::MAX && phase_two(files@, depth).len() < u32::MAX),
            res matches Some(g) ==> g.wf() && node_views(g.nodes()) == phase_one(files@)
                && g.edges() == apply_requests(g.nodes(), Seq::empty(), phase_two(files@, depth)),
    {
        if graph_fits(files, depth) {
            Some(SchemaGraph::from_parsed_with_depth(files, depth))
        } else {
            None
        }
    }

    /// Builds the graph of a schema directory from its files' paths (relative
    /// to the directory, in path order) and texts; files whose text does not
    /// parse are left out. The graph is that of
    /// `from_parsed_with_depth_checked` on the documents read.
    pub fn from_texts_with_depth(files: &Vec<(String, String)>, depth: usize) -> (res: Option<SchemaGraph>)
        ensures
            exists|docs: Seq<(String, Json)>| #[trigger] doc_views(docs) == parsed_views(files@)
                && (res is Some <==> (node_requests(docs) + 2 < u32::MAX && phase_two(docs, depth).len() < u32::MAX))
                && (res matches Some(g) ==> g.wf() && node_views(g.nodes()) == phase_one(docs)
                    && g.edges() == apply_requests(g.nodes(), Seq::empty(), phase_two(docs, depth))),
    {
        match parse_files(files, true) {
            Err(_) => {
                proof {
                    assert(false);
                }
                None
            },
            Ok((_, docs)) => {
                let ghost d = docs@;
                let r = SchemaGraph::from_parsed_with_depth_checked(&docs, depth);
                proof {
                    assert(doc_views(d) == parsed_views(files@));
                }
                r
            },
        }
    }

    /// Builds the graph of a schema directory with no limit on depth.
    pub fn from_parsed(files: &Vec<(String, Json)>) -> (g: SchemaGraph)
        requires
            node_requests(files@) + 2 < u32::MAX,
            phase_two(files@, 0).len() < u32::MAX,
        ensures
            g.wf(),
            node_views(g.nodes()) == phase_one(files@),
            g.edges() == apply_requests(g.nodes(), Seq::empty(), phase_two(files@, 0)),
    {
        SchemaGraph::from_parsed_with_depth(files, 0)
    }
}

} // verus!
