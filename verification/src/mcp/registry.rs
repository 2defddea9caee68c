//! The registry graph: every schema file as a node, the references between
//! them as typed edges, reference cycles, and the artifacts generated from
//! the schemas.
//!
//! Schemas are found by `$id`. Where two files share an `$id`, the later file
//! is the one found, as with a map that the files are inserted into in turn;
//! both remain nodes of the graph. Paths are compared as text.

use vstd::prelude::*;
use vstd::utf8::encode_utf8;
use petgraph::graph::{DiGraph, EdgeIndex, NodeIndex};
use petgraph::Direction;
use petgraph::visit::EdgeRef;
use fuzzy_matcher::FuzzyMatcher;
use crate::json::{Json, json_get, json_str, jv_items, json_array_value, parse_array_text, doc_views, file_texts, first_parse_error, parse_files, parsed_views};
use crate::mcp::graph::{
    ClosureNode, CodegenMeta, EdgeKind, FieldRef, GeneratedArtifact, LintWarning, SchemaNode, SearchResult, codegen_matches, extract_codegen, extract_fields,
    field_view, has_codegen, opt_view, schema_fields,
};
use crate::mcp::refs::{collect_refs, doc_refs, from_schema, pending_view};
use crate::primitives::{lower_hex, sha256};
use crate::text::{chars_is, chars_of, lowercase, owned, split_chars, split_on, str_eq, str_to_lowercase, string_from_chars, sub_chars, views_of};
use crate::schemas::refs::{keep_parts, kept_parts};
use crate::reports::{replace_all, replaced};
use crate::assoc::{assoc, assoc_index, assoc_insert, keys_distinct};
use crate::order::{insert_sorted, strictly_sorted, texts_of};
use crate::schemas::refs::dir_parts;
use crate::text::join;

verus! {

// ---------------------------------------------------------------------------
// petgraph
// ---------------------------------------------------------------------------

/// The node weights of a registry graph (schema ids), by node index.
pub uninterp spec fn registry_nodes(g: DiGraph<String, EdgeKind>) -> Seq<Seq<char>>;

/// The edges of a registry graph, by edge index: source, target and kind.
pub uninterp spec fn registry_edges(g: DiGraph<String, EdgeKind>) -> Seq<(int, int, EdgeKind)>;

/// The strongly connected components that `petgraph::algo::kosaraju_scc`
/// returns for a graph with these nodes and edges, as node indices.
pub uninterp spec fn kosaraju_components(node_count: nat, edges: Seq<(int, int, EdgeKind)>) -> Seq<Seq<int>>;

/// `petgraph`'s `Graph::new`: no nodes, no edges.
#[verifier::external_body]
fn rg_new() -> (g: DiGraph<String, EdgeKind>)
    ensures
        registry_nodes(g) == Seq::<Seq<char>>::empty(),
        registry_edges(g) == Seq::<(int, int, EdgeKind)>::empty(),
{
    DiGraph::new()
}

/// `petgraph`'s `Graph::add_node`: appends the node and returns its index. It
/// panics when the count reaches the index type's maximum.
#[verifier::external_body]
fn rg_add_node(g: &mut DiGraph<String, EdgeKind>, weight: String) -> (idx: usize)
    requires
        registry_nodes(*old(g)).len() < u32::MAX,
    ensures
        registry_nodes(*final(g)) == registry_nodes(*old(g)).push(weight@),
        registry_edges(*final(g)) == registry_edges(*old(g)),
        idx == registry_nodes(*old(g)).len(),
{
    g.add_node(weight).index()
}

/// `petgraph`'s `Graph::add_edge`: appends the edge. It panics when an
/// endpoint does not exist or the edge count reaches the index type's maximum.
#[verifier::external_body]
fn rg_add_edge(g: &mut DiGraph<String, EdgeKind>, a: usize, b: usize, weight: EdgeKind)
    requires
        a < registry_nodes(*old(g)).len(),
        b < registry_nodes(*old(g)).len(),
        registry_edges(*old(g)).len() < u32::MAX,
    ensures
        registry_nodes(*final(g)) == registry_nodes(*old(g)),
        registry_edges(*final(g)) == registry_edges(*old(g)).push((a as int, b as int, weight)),
{
    g.add_edge(NodeIndex::new(a), NodeIndex::new(b), weight);
}

/// `petgraph`'s `Graph::edge_count`.
#[verifier::external_body]
fn rg_edge_count(g: &DiGraph<String, EdgeKind>) -> (n: usize)
    ensures
        n == registry_edges(*g).len(),
{
    g.edge_count()
}

/// `petgraph`'s `Graph::node_weight` for an existing node.
#[verifier::external_body]
fn rg_node<'a>(g: &'a DiGraph<String, EdgeKind>, i: usize) -> (w: &'a String)
    requires
        i < registry_nodes(*g).len(),
    ensures
        w@ == registry_nodes(*g)[i as int],
{
    &g[NodeIndex::new(i)]
}

/// The edges leaving (`outgoing`) or entering `v`, most recently added first.
pub open spec fn registry_incident(edges: Seq<(int, int, EdgeKind)>, v: int, outgoing: bool) -> Seq<(int, int, EdgeKind)>
    decreases edges.len(),
{
    if edges.len() == 0 {
        Seq::empty()
    } else {
        let e = edges.last();
        let rest = registry_incident(edges.drop_last(), v, outgoing);
        if (outgoing && e.0 == v) || (!outgoing && e.1 == v) {
            seq![e] + rest
        } else {
            rest
        }
    }
}

/// `petgraph`'s `Graph::edges_directed`: the edges leaving (`outgoing`) or
/// entering `v`, as source, target and kind, most recently added first.
#[verifier::external_body]
fn rg_edges_directed(g: &DiGraph<String, EdgeKind>, v: usize, outgoing: bool) -> (res: Vec<(usize, usize, EdgeKind)>)
    requires
        v < registry_nodes(*g).len(),
    ensures
        res@.len() == registry_incident(registry_edges(*g), v as int, outgoing).len(),
        forall|i: int| 0 <= i < res@.len() ==> ((#[trigger] res@[i]).0 as int, res@[i].1 as int, res@[i].2)
            == registry_incident(registry_edges(*g), v as int, outgoing)[i],
{
    let dir = if outgoing { Direction::Outgoing } else { Direction::Incoming };
    g.edges_directed(NodeIndex::new(v), dir).map(|e| (e.source().index(), e.target().index(), *e.weight())).collect()
}

/// The components as integer indices.
pub open spec fn components_view(v: Seq<Vec<usize>>) -> Seq<Seq<int>> {
    v.map_values(|c: Vec<usize>| c@.map_values(|x: usize| x as int))
}

/// `petgraph::algo::kosaraju_scc`: the strongly connected components of the
/// graph, each as the indices of its nodes.
#[verifier::external_body]
fn rg_scc(g: &DiGraph<String, EdgeKind>) -> (res: Vec<Vec<usize>>)
    ensures
        components_view(res@) == kosaraju_components(registry_nodes(*g).len(), registry_edges(*g)),
{
    petgraph::algo::kosaraju_scc(g).into_iter().map(|c| c.into_iter().map(|n| n.index()).collect()).collect()
}

// ---------------------------------------------------------------------------
// Building the graph
// ---------------------------------------------------------------------------

/// The `$id` of a schema file: its `$id` string, or else its path.
pub open spec fn file_id(path: Seq<char>, doc: Json) -> Seq<char> {
    match json_str(json_get(doc, "$id"@)) {
        Some(s) => s,
        None => path,
    }
}

/// The ids of the files, in order.
pub open spec fn file_ids(files: Seq<(String, Json)>) -> Seq<Seq<char>> {
    files.map_values(|f: (String, Json)| file_id(f.0@, f.1))
}

/// The paths of the files, in order.
pub open spec fn file_paths(files: Seq<(String, Json)>) -> Seq<Seq<char>> {
    files.map_values(|f: (String, Json)| f.0@)
}

/// `n` is the node made for the file `f` at index `j`.
pub open spec fn node_built(n: SchemaNode, f: (String, Json), j: int) -> bool {
    &&& n.id@ == file_id(f.0@, f.1)
    &&& n.path@ == f.0@
    &&& opt_view(n.title) == json_str(json_get(f.1, "title"@))
    &&& opt_view(n.kind) == json_str(json_get(f.1, "x-familiar-kind"@))
    &&& opt_view(n.service) == json_str(json_get(f.1, "x-familiar-service"@))
    &&& n.fields@.map_values(|x: FieldRef| field_view(x)) == schema_fields(f.1, f.0@)
    &&& match n.codegen {
        Some(m) => has_codegen(f.1) && codegen_matches(m, f.1),
        None => !has_codegen(f.1),
    }
    &&& n.node_idx == Some(j as usize)
}

/// Every reference of every file, as pending edges from the file's id, in order.
pub open spec fn files_refs(files: Seq<(String, Json)>) -> Seq<(Seq<char>, Seq<char>, EdgeKind)>
    decreases files.len(),
{
    if files.len() == 0 {
        Seq::empty()
    } else {
        files_refs(files.drop_last()) + from_schema(
            file_id(files.last().0@, files.last().1),
            doc_refs(files.last().1, files.last().0@),
        )
    }
}

/// The last position holding `k`.
pub open spec fn last_pos(s: Seq<Seq<char>>, k: Seq<char>) -> Option<int>
    decreases s.len(),
{
    if s.len() == 0 {
        None
    } else if s.last() == k {
        Some(s.len() - 1)
    } else {
        last_pos(s.drop_last(), k)
    }
}

/// The schema a reference target names: a schema id, or else the path of a
/// schema file, whose id it then is.
pub open spec fn resolve_target(ids: Seq<Seq<char>>, paths: Seq<Seq<char>>, t: Seq<char>) -> Option<Seq<char>> {
    if last_pos(ids, t) is Some {
        Some(t)
    } else {
        match last_pos(paths, t) {
            Some(j) => Some(ids[j]),
            None => None,
        }
    }
}

/// The edge a pending reference makes, when both ends are schemas: from the
/// node that the source id finds to the node that the resolved target finds.
pub open spec fn edge_for(ids: Seq<Seq<char>>, paths: Seq<Seq<char>>, p: (Seq<char>, Seq<char>, EdgeKind)) -> Seq<(int, int, EdgeKind)> {
    match (last_pos(ids, p.0), resolve_target(ids, paths, p.1)) {
        (Some(a), Some(t)) => match last_pos(ids, t) {
            Some(b) => seq![(a, b, p.2)],
            None => Seq::empty(),
        },
        _ => Seq::empty(),
    }
}

/// The edges the pending references make, in order.
pub open spec fn made_edges(ids: Seq<Seq<char>>, paths: Seq<Seq<char>>, pending: Seq<(Seq<char>, Seq<char>, EdgeKind)>) -> Seq<(int, int, EdgeKind)>
    decreases pending.len(),
{
    if pending.len() == 0 {
        Seq::empty()
    } else {
        made_edges(ids, paths, pending.drop_last()) + edge_for(ids, paths, pending.last())
    }
}

/// The ids of the nodes of a component, skipping indices that are no node.
pub open spec fn component_ids(ids: Seq<Seq<char>>, c: Seq<int>) -> Seq<Seq<char>>
    decreases c.len(),
{
    if c.len() == 0 {
        Seq::empty()
    } else {
        component_ids(ids, c.drop_last()) + if 0 <= c.last() < ids.len() {
            seq![ids[c.last()]]
        } else {
            Seq::empty()
        }
    }
}

/// The reference cycles: the components of more than one node, as ids.
pub open spec fn cycle_groups(ids: Seq<Seq<char>>, comps: Seq<Seq<int>>) -> Seq<Seq<Seq<char>>>
    decreases comps.len(),
{
    if comps.len() == 0 {
        Seq::empty()
    } else {
        cycle_groups(ids, comps.drop_last()) + if comps.last().len() > 1 {
            seq![component_ids(ids, comps.last())]
        } else {
            Seq::empty()
        }
    }
}

/// The texts, one after another.
pub open spec fn concat_all(texts: Seq<Seq<char>>) -> Seq<char>
    decreases texts.len(),
{
    if texts.len() == 0 {
        Seq::empty()
    } else {
        concat_all(texts.drop_last()) + texts.last()
    }
}

/// The bundle hash: lowercase hex SHA-256 of the files' contents, fed in order.
pub open spec fn bundle_digest(contents: Seq<Seq<char>>) -> Seq<char> {
    lower_hex(sha256(vstd::utf8::encode_utf8(concat_all(contents))))
}

/// Strings as plain texts.
pub open spec fn texts(v: Seq<String>) -> Seq<Seq<char>> {
    v.map_values(|s: String| s@)
}

/// Groups of strings as plain texts.
pub open spec fn text_groups(v: Seq<Vec<String>>) -> Seq<Seq<Seq<char>>> {
    v.map_values(|g: Vec<String>| texts(g@))
}

/// The schema registry graph.
pub struct SchemaGraph {
    graph: DiGraph<String, EdgeKind>,
    /// The schema of each node, by node index.
    nodes: Vec<SchemaNode>,
    /// The document of each node, by node index.
    raws: Vec<Json>,
    /// A digest of every file read, for caching.
    bundle_hash: String,
    /// The reference cycles.
    scc_groups: Vec<Vec<String>>,
    /// Artifacts by id.
    artifacts: Vec<(String, GeneratedArtifact)>,
    /// Artifact ids by schema id, in registration order.
    schema_to_artifacts: Vec<(String, Vec<String>)>,
    /// The schema of each artifact.
    artifact_to_schema: Vec<(String, String)>,
    /// Artifact ids by file.
    file_to_artifacts: Vec<(String, Vec<String>)>,
    /// Artifact ids by language.
    lang_to_artifacts: Vec<(String, Vec<String>)>,
}

impl SchemaGraph {
    /// The schema of each node, by node index.
    pub closed spec fn nodes(&self) -> Seq<SchemaNode> {
        self.nodes@
    }

    /// The document of each node, by node index.
    pub closed spec fn raws(&self) -> Seq<Json> {
        self.raws@
    }

    /// The node ids.
    pub closed spec fn ids(&self) -> Seq<Seq<char>> {
        registry_nodes(self.graph)
    }

    /// The edges: source, target and kind.
    pub closed spec fn edges(&self) -> Seq<(int, int, EdgeKind)> {
        registry_edges(self.graph)
    }

    /// The reference cycles, as ids.
    pub closed spec fn cycles(&self) -> Seq<Seq<Seq<char>>> {
        text_groups(self.scc_groups@)
    }

    /// The node ids are the schemas' ids, and each schema knows its index.
    pub closed spec fn wf(&self) -> bool {
        &&& self.nodes@.len() == registry_nodes(self.graph).len()
        &&& self.raws@.len() == self.nodes@.len()
        &&& forall|j: int| 0 <= j < self.nodes@.len() ==> (#[trigger] self.nodes@[j]).id@ == registry_nodes(self.graph)[j]
            && self.nodes@[j].node_idx == Some(j as usize)
        &&& forall|e: int| 0 <= e < registry_edges(self.graph).len() ==> 0 <= (#[trigger] registry_edges(self.graph)[e]).0
            < self.nodes@.len() && 0 <= registry_edges(self.graph)[e].1 < self.nodes@.len()
        &&& keys_distinct(self.artifacts@)
        &&& keys_distinct(self.schema_to_artifacts@)
        &&& keys_distinct(self.artifact_to_schema@)
        &&& keys_distinct(self.file_to_artifacts@)
        &&& keys_distinct(self.lang_to_artifacts@)
    }

    /// The paths of the schemas, by node index.
    pub open spec fn paths(&self) -> Seq<Seq<char>> {
        self.nodes().map_values(|n: SchemaNode| n.path@)
    }
}

/// The ids of the schemas, in node order.
pub open spec fn schema_ids(ns: Seq<SchemaNode>) -> Seq<Seq<char>> {
    ns.map_values(|n: SchemaNode| n.id@)
}

/// The paths of the schemas, in node order.
pub open spec fn schema_paths(ns: Seq<SchemaNode>) -> Seq<Seq<char>> {
    ns.map_values(|n: SchemaNode| n.path@)
}

proof fn lemma_last_pos_step(s: Seq<Seq<char>>, k: Seq<char>, i: int)
    requires
        0 <= i < s.len(),
    ensures
        last_pos(s.take(i + 1), k) == if s[i] == k { Some(i) } else { last_pos(s.take(i), k) },
{
    assert(s.take(i + 1).drop_last() =~= s.take(i));
    assert(s.take(i + 1).last() == s[i]);
}

proof fn lemma_last_pos_bound(s: Seq<Seq<char>>, k: Seq<char>)
    ensures
        match last_pos(s, k) {
            Some(j) => 0 <= j < s.len() && s[j] == k,
            None => true,
        },
    decreases s.len(),
{
    if s.len() > 0 && s.last() != k {
        lemma_last_pos_bound(s.drop_last(), k);
    }
}

proof fn lemma_last_pos_found(s: Seq<Seq<char>>, j: int)
    requires
        0 <= j < s.len(),
    ensures
        last_pos(s, s[j]) is Some,
    decreases s.len(),
{
    if s.last() != s[j] {
        assert(j < s.len() - 1);
        assert(s.drop_last()[j] == s[j]);
        lemma_last_pos_found(s.drop_last(), j);
    }
}

proof fn lemma_last_pos_is_last(s: Seq<Seq<char>>, k: Seq<char>)
    ensures
        match last_pos(s, k) {
            Some(p) => forall|m: int| p < m < s.len() ==> s[m] != k,
            None => forall|m: int| 0 <= m < s.len() ==> s[m] != k,
        },
    decreases s.len(),
{
    if s.len() > 0 && s.last() != k {
        let t = s.drop_last();
        lemma_last_pos_is_last(t, k);
        lemma_last_pos_bound(t, k);
        assert(s[s.len() - 1] == s.last());
        match last_pos(t, k) {
            Some(p) => {
                assert forall|m: int| p < m < s.len() implies s[m] != k by {
                    if m < s.len() - 1 {
                        assert(s[m] == t[m]);
                    }
                }
            },
            None => {
                assert forall|m: int| 0 <= m < s.len() implies s[m] != k by {
                    if m < s.len() - 1 {
                        assert(s[m] == t[m]);
                    }
                }
            },
        }
    }
}

/// A query that is no schema's id but is the path of a loaded schema file
/// resolves to the id of the schema loaded from that path (the last one, when
/// several were loaded from it).
pub proof fn law_resolve_by_path(ns: Seq<SchemaNode>, q: Seq<char>, j: int)
    requires
        0 <= j < ns.len(),
        ns[j].path@ == q,
        forall|m: int| j < m < ns.len() ==> ns[m].path@ != q,
        forall|m: int| 0 <= m < ns.len() ==> ns[m].id@ != q,
    ensures
        resolved(ns, q) == Some(ns[j].id@),
{
    let ids = schema_ids(ns);
    let paths = schema_paths(ns);
    lemma_last_pos_bound(ids, q);
    lemma_last_pos_bound(paths, q);
    lemma_last_pos_is_last(paths, q);
    assert(paths[j] == q);
    lemma_last_pos_found(paths, j);
    if let Some(p) = last_pos(ids, q) {
        assert(ids[p] == ns[p].id@);
    }
    let p = last_pos(paths, q)->0;
    assert(paths[p] == ns[p].path@);
    assert(p == j);
}

/// The last node whose id (or, with `by_path`, whose path) is `key`.
fn last_node(nodes: &Vec<SchemaNode>, key: &str, by_path: bool) -> (res: Option<usize>)
    ensures
        match res {
            Some(j) => last_pos(if by_path { schema_paths(nodes@) } else { schema_ids(nodes@) }, key@) == Some(j as int)
                && j < nodes@.len(),
            None => last_pos(if by_path { schema_paths(nodes@) } else { schema_ids(nodes@) }, key@) is None,
        },
{
    let ghost s = if by_path { schema_paths(nodes@) } else { schema_ids(nodes@) };
    let mut i: usize = nodes.len();
    proof {
        assert(s.take(s.len() as int) =~= s);
    }
    while i > 0
        invariant
            i <= nodes@.len(),
            s.len() == nodes@.len(),
            s == (if by_path { schema_paths(nodes@) } else { schema_ids(nodes@) }),
            last_pos(s, key@) == last_pos(s.take(i as int), key@),
        decreases i,
    {
        i = i - 1;
        let field = if by_path { nodes[i].path.as_str() } else { nodes[i].id.as_str() };
        proof {
            lemma_last_pos_step(s, key@, i as int);
        }
        if str_eq(field, key) {
            return Some(i);
        }
    }
    proof {
        assert(s.take(0) =~= Seq::<Seq<char>>::empty());
    }
    None
}

/// The node a reference target names: the node of that id, or else the
/// node whose file has that path, found again by its id.
fn resolve_ref(nodes: &Vec<SchemaNode>, ref_target: &str) -> (res: Option<usize>)
    ensures
        match res {
            Some(b) => b < nodes@.len() && (resolve_target(schema_ids(nodes@), schema_paths(nodes@), ref_target@) matches Some(
                id,
            ) && last_pos(schema_ids(nodes@), id) == Some(b as int)),
            None => match resolve_target(schema_ids(nodes@), schema_paths(nodes@), ref_target@) {
                Some(id) => last_pos(schema_ids(nodes@), id) is None,
                None => true,
            },
        },
{
    let ghost ids = schema_ids(nodes@);
    let ghost paths = schema_paths(nodes@);
    match last_node(nodes, ref_target, false) {
        Some(b) => {
            proof {
                lemma_last_pos_found(ids, b as int);
            }
            Some(b)
        },
        None => match last_node(nodes, ref_target, true) {
            Some(j) => {
                proof {
                    lemma_last_pos_bound(paths, ref_target@);
                    lemma_last_pos_found(ids, j as int);
                }
                last_node(nodes, nodes[j].id.as_str(), false)
            },
            None => None,
        },
    }
}

/// The bundle hash of the files' contents.
fn bundle_hash_of(contents: &Vec<String>) -> (h: String)
    ensures
        h@ == bundle_digest(texts(contents@)),
{
    let mut all = String::new();
    let mut i: usize = 0;
    while i < contents.len()
        invariant
            i <= contents.len(),
            all@ == concat_all(texts(contents@).take(i as int)),
        decreases contents.len() - i,
    {
        all.append(contents[i].as_str());
        proof {
            let t = texts(contents@).take(i as int + 1);
            assert(t.drop_last() =~= texts(contents@).take(i as int));
        }
        i = i + 1;
    }
    proof {
        assert(texts(contents@).take(contents@.len() as int) =~= texts(contents@));
    }
    let digest = crate::primitives::sha256_digest(all.as_str().as_bytes());
    crate::primitives::to_lower_hex(digest.as_slice())
}

/// Reads one schema file into a node: its id, title, kind, service, fields
/// and code generation settings; appends its references to `pending`.
fn read_schema(path: &String, doc: &Json, idx: usize, pending: &mut Vec<(String, String, EdgeKind)>) -> (n: SchemaNode)
    ensures
        node_built(n, (*path, *doc), idx as int),
        pending_view(final(pending)@) == pending_view(old(pending)@) + from_schema(file_id(path@, *doc), doc_refs(*doc, path@)),
{
    let id = match doc.get("$id") {
        Some(Json::Str(s)) => s.clone(),
        _ => path.clone(),
    };
    let title = crate::json::get_str(doc, "title");
    let kind = crate::json::get_str(doc, "x-familiar-kind");
    let service = crate::json::get_str(doc, "x-familiar-service");
    let codegen = extract_codegen(doc);
    let fields = extract_fields(doc, path.as_str());
    collect_refs(doc, id.as_str(), path.as_str(), pending);
    SchemaNode { id, path: path.clone(), title, kind, service, fields, codegen, node_idx: Some(idx) }
}

proof fn lemma_files_refs_prefix(files: Seq<(String, Json)>, i: int)
    requires
        0 <= i <= files.len(),
    ensures
        files_refs(files.take(i)).len() <= files_refs(files).len(),
    decreases files.len() - i,
{
    if i < files.len() {
        lemma_files_refs_prefix(files, i + 1);
        let t = files.take(i + 1);
        assert(t.drop_last() =~= files.take(i));
    } else {
        assert(files.take(i) =~= files);
    }
}

proof fn lemma_made_edges_len(ids: Seq<Seq<char>>, paths: Seq<Seq<char>>, pending: Seq<(Seq<char>, Seq<char>, EdgeKind)>)
    ensures
        made_edges(ids, paths, pending).len() <= pending.len(),
        forall|e: int| 0 <= e < made_edges(ids, paths, pending).len() ==> 0 <= (#[trigger] made_edges(ids, paths, pending)[e]).0
            < ids.len() && 0 <= made_edges(ids, paths, pending)[e].1 < ids.len(),
    decreases pending.len(),
{
    if pending.len() > 0 {
        lemma_made_edges_len(ids, paths, pending.drop_last());
        let p = pending.last();
        lemma_last_pos_bound(ids, p.0);
        match resolve_target(ids, paths, p.1) {
            Some(t) => lemma_last_pos_bound(ids, t),
            None => {},
        }
    }
}

/// `g` is the registry that `from_parsed` builds from `contents` and `files`.
pub open spec fn built_from(g: SchemaGraph, contents: Seq<String>, files: Seq<(String, Json)>) -> bool {
    &&& g.wf()
    &&& g.nodes().len() == files.len()
    &&& forall|j: int| 0 <= j < files.len() ==> node_built(#[trigger] g.nodes()[j], files[j], j)
    &&& g.raws() == files.map_values(|f: (String, Json)| f.1)
    &&& g.ids() == file_ids(files)
    &&& g.edges() == made_edges(file_ids(files), file_paths(files), files_refs(files))
    &&& g.cycles() == cycle_groups(file_ids(files), kosaraju_components(files.len() as nat, g.edges()))
    &&& g.bundle() == bundle_digest(texts(contents))
    &&& g.artifact_count_spec() == 0
}

/// The number of references that one file contributes.
fn file_ref_count(path: &String, doc: &Json) -> (n: usize)
    ensures
        n == from_schema(file_id(path@, *doc), doc_refs(*doc, path@)).len(),
{
    let id = match doc.get("$id") {
        Some(Json::Str(s)) => s.clone(),
        _ => path.clone(),
    };
    let mut found: Vec<(String, String, EdgeKind)> = Vec::new();
    collect_refs(doc, id.as_str(), path.as_str(), &mut found);
    proof {
        assert(pending_view(found@).len() == found@.len());
        assert(pending_view(Seq::<(String, String, EdgeKind)>::empty()) =~= Seq::<(Seq<char>, Seq<char>, EdgeKind)>::empty());
    }
    found.len()
}

/// Whether the files fit the graph's index type: fewer files, and fewer
/// references, than the largest `u32`.
pub fn within_graph_limits(files: &Vec<(String, Json)>) -> (res: bool)
    ensures
        res == (files@.len() < u32::MAX && files_refs(files@).len() < u32::MAX),
{
    if files.len() >= 0xffff_ffffusize {
        return false;
    }
    let ghost all = files@;
    let mut total: usize = 0;
    let mut i: usize = 0;
    proof {
        assert(all.take(0) =~= Seq::<(String, Json)>::empty());
    }
    while i < files.len()
        invariant
            i <= files@.len(),
            all == files@,
            all.len() < u32::MAX,
            total == files_refs(all.take(i as int)).len(),
            total < u32::MAX,
        decreases files@.len() - i,
    {
        let n = file_ref_count(&files[i].0, &files[i].1);
        proof {
            let t = all.take(i as int + 1);
            assert(t.drop_last() =~= all.take(i as int));
            assert(t.last() == all[i as int]);
        }
        if n >= 0xffff_ffffusize - total {
            proof {
                lemma_files_refs_prefix(all, i as int + 1);
            }
            return false;
        }
        total = total + n;
        i = i + 1;
    }
    proof {
        assert(all.take(all.len() as int) =~= all);
    }
    true
}

impl SchemaGraph {
    /// Builds the registry from the schema files under its root: `files` holds
    /// each file's path, relative to the root, and its parsed document, in the
    /// order the files were found; `contents` holds the text of every file
    /// read, parsed or not, in the same order.
    ///
    /// Each file becomes a node, identified by its `$id` or else its path.
    /// Every reference found in a document (see `collect_refs`) becomes an
    /// edge when its target is a schema id or the path of a schema file. The
    /// bundle hash digests the contents; the reference cycles are the
    /// strongly connected components of more than one node. No artifacts are
    /// registered.
    pub fn from_parsed(contents: &Vec<String>, files: Vec<(String, Json)>) -> (g: SchemaGraph)
        requires
            files@.len() < u32::MAX,
            files_refs(files@).len() < u32::MAX,
        ensures
            g.wf(),
            g.nodes().len() == files@.len(),
            forall|j: int| 0 <= j < files@.len() ==> node_built(#[trigger] g.nodes()[j], files@[j], j),
            g.raws() == files@.map_values(|f: (String, Json)| f.1),
            g.ids() == file_ids(files@),
            g.edges() == made_edges(file_ids(files@), file_paths(files@), files_refs(files@)),
            g.cycles() == cycle_groups(file_ids(files@), kosaraju_components(files@.len() as nat, g.edges())),
            g.bundle() == bundle_digest(texts(contents@)),
            g.artifact_count_spec() == 0,
    {
        let ghost all = files@;
        let bundle_hash = bundle_hash_of(contents);
        let mut graph = rg_new();
        let mut nodes: Vec<SchemaNode> = Vec::new();
        let mut raws: Vec<Json> = Vec::new();
        let mut pending: Vec<(String, String, EdgeKind)> = Vec::new();
        let mut rest = files;
        let mut i: usize = 0;
        proof {
            assert(all.take(0) =~= Seq::<(String, Json)>::empty());
            assert(file_ids(all.take(0)) =~= Seq::<Seq<char>>::empty());
            assert(pending_view(pending@) =~= Seq::<(Seq<char>, Seq<char>, EdgeKind)>::empty());
            assert(raws@ =~= all.take(0).map_values(|f: (String, Json)| f.1));
            assert(all.skip(0) =~= all);
        }
        // every file becomes a node; its references wait for all the nodes
        while rest.len() > 0
            invariant
                i + rest@.len() == all.len(),
                all.len() < u32::MAX,
                rest@ == all.skip(i as int),
                nodes@.len() == i,
                forall|j: int| 0 <= j < i ==> node_built(#[trigger] nodes@[j], all[j], j),
                raws@ == all.take(i as int).map_values(|f: (String, Json)| f.1),
                registry_nodes(graph) == file_ids(all.take(i as int)),
                registry_edges(graph) == Seq::<(int, int, EdgeKind)>::empty(),
                pending_view(pending@) == files_refs(all.take(i as int)),
            decreases rest.len(),
        {
            let (path, doc) = rest.remove(0);
            proof {
                assert(all[i as int] == (path, doc));
                assert(rest@ =~= all.skip(i as int + 1));
            }
            let idx = rg_add_node(&mut graph, match doc.get("$id") {
                Some(Json::Str(s)) => s.clone(),
                _ => path.clone(),
            });
            let node = read_schema(&path, &doc, idx, &mut pending);
            nodes.push(node);
            raws.push(doc);
            proof {
                let t = all.take(i as int + 1);
                assert(t.drop_last() =~= all.take(i as int));
                assert(t.last() == all[i as int]);
                assert(file_ids(t) =~= file_ids(all.take(i as int)).push(file_id(path@, doc)));
                assert(raws@ =~= t.map_values(|f: (String, Json)| f.1));
            }
            i = i + 1;
        }
        proof {
            assert(all.take(all.len() as int) =~= all);
            assert(schema_ids(nodes@) =~= file_ids(all));
            assert(schema_paths(nodes@) =~= file_paths(all));
        }
        // the references become edges
        let ghost ids = file_ids(all);
        let ghost paths = file_paths(all);
        let ghost pv = pending_view(pending@);
        let mut k: usize = 0;
        proof {
            assert(pv.take(0) =~= Seq::<(Seq<char>, Seq<char>, EdgeKind)>::empty());
        }
        while k < pending.len()
            invariant
                k <= pending@.len(),
                pv == pending_view(pending@),
                pv.len() < u32::MAX,
                ids == schema_ids(nodes@),
                paths == schema_paths(nodes@),
                registry_nodes(graph) == ids,
                registry_edges(graph) == made_edges(ids, paths, pv.take(k as int)),
            decreases pending@.len() - k,
        {
            proof {
                lemma_made_edges_len(ids, paths, pv.take(k as int));
            }
            let from = last_node(&nodes, pending[k].0.as_str(), false);
            let target = resolve_ref(&nodes, pending[k].1.as_str());
            proof {
                let t = pv.take(k as int + 1);
                assert(t.drop_last() =~= pv.take(k as int));
                assert(t.last() == pv[k as int]);
                assert(pv[k as int] == (pending@[k as int].0@, pending@[k as int].1@, pending@[k as int].2));
                assert(edge_for(ids, paths, pv[k as int]) == match (from, target) {
                    (Some(a), Some(b)) => seq![(a as int, b as int, pending@[k as int].2)],
                    _ => Seq::<(int, int, EdgeKind)>::empty(),
                });
            }
            if let Some(a) = from {
                if let Some(b) = target {
                    rg_add_edge(&mut graph, a, b, pending[k].2);
                }
            }
            k = k + 1;
        }
        proof {
            assert(pv.take(pv.len() as int) =~= pv);
            lemma_made_edges_len(ids, paths, pv);
        }
        let scc_groups = cycle_ids(&graph, &nodes);
        SchemaGraph {
            graph,
            nodes,
            raws,
            bundle_hash,
            scc_groups,
            artifacts: Vec::new(),
            schema_to_artifacts: Vec::new(),
            artifact_to_schema: Vec::new(),
            file_to_artifacts: Vec::new(),
            lang_to_artifacts: Vec::new(),
        }
    }

    /// `from_parsed` where the files fit the graph's index type (see
    /// `within_graph_limits`); `None` where they do not.
    pub fn from_parsed_checked(contents: &Vec<String>, files: Vec<(String, Json)>) -> (res: Option<SchemaGraph>)
        ensures
            res is Some <==> (files@.len() < u32::MAX && files_refs(files@).len() < u32::MAX),
            res matches Some(g) ==> built_from(g, contents@, files@),
    {
        if within_graph_limits(&files) {
            Some(SchemaGraph::from_parsed(contents, files))
        } else {
            None
        }
    }

    /// Builds the registry from the schema files under its root, each given
    /// by its path (relative to the root) and its text, in the order found.
    /// Unless `skip_invalid`, a text that does not parse ends the build with
    /// its parser error; otherwise such files are left out of the graph,
    /// though their texts still go into the bundle hash. The graph is that of
    /// `from_parsed_checked` on the documents read (`None` where they do not
    /// fit the graph's indices).
    pub fn from_texts(files: &Vec<(String, String)>, skip_invalid: bool) -> (res: Result<Option<SchemaGraph>, String>)
        ensures
            !skip_invalid && first_parse_error(files@) is Some ==> (res matches Err(m) && first_parse_error(files@) == Some(m@)),
            (skip_invalid || first_parse_error(files@) is None) ==> (res matches Ok(r)
                && exists|docs: Seq<(String, Json)>| #[trigger] doc_views(docs) == parsed_views(files@)
                    && (r is Some <==> (docs.len() < u32::MAX && files_refs(docs).len() < u32::MAX))
                    && (r matches Some(g) ==> built_from(g, file_texts(files@), docs))),
    {
        match parse_files(files, skip_invalid) {
            Err(m) => Err(m),
            Ok((texts, docs)) => {
                let ghost d = docs@;
                let r = SchemaGraph::from_parsed_checked(&texts, docs);
                proof {
                    assert(doc_views(d) == parsed_views(files@));
                }
                Ok(r)
            },
        }
    }

    /// The bundle hash.
    pub closed spec fn bundle(&self) -> Seq<char> {
        self.bundle_hash@
    }

    /// The bundle hash: a digest of every file read, for caching and change detection.
    pub fn bundle_hash(&self) -> (h: &str)
        ensures
            h@ == self.bundle(),
    {
        self.bundle_hash.as_str()
    }

    /// The number of registered artifacts.
    pub closed spec fn artifact_count_spec(&self) -> nat {
        self.artifacts@.len()
    }
}

/// The reference cycles of a graph whose node weights are the schemas' ids.
fn cycle_ids(graph: &DiGraph<String, EdgeKind>, nodes: &Vec<SchemaNode>) -> (res: Vec<Vec<String>>)
    requires
        registry_nodes(*graph) == schema_ids(nodes@),
    ensures
        text_groups(res@) == cycle_groups(schema_ids(nodes@), kosaraju_components(nodes@.len() as nat, registry_edges(*graph))),
{
    let comps = rg_scc(graph);
    let ghost ids = schema_ids(nodes@);
    let ghost cv = components_view(comps@);
    let mut out: Vec<Vec<String>> = Vec::new();
    let mut c: usize = 0;
    proof {
        assert(cv.take(0) =~= Seq::<Seq<int>>::empty());
        assert(text_groups(out@) =~= Seq::<Seq<Seq<char>>>::empty());
    }
    while c < comps.len()
        invariant
            c <= comps@.len(),
            cv == components_view(comps@),
            ids == schema_ids(nodes@),
            text_groups(out@) == cycle_groups(ids, cv.take(c as int)),
        decreases comps@.len() - c,
    {
        let comp = &comps[c];
        let ghost civ = comp@.map_values(|x: usize| x as int);
        assert(cv[c as int] == civ);
        if comp.len() > 1 {
            let mut group: Vec<String> = Vec::new();
            let mut m: usize = 0;
            proof {
                assert(civ.take(0) =~= Seq::<int>::empty());
                assert(texts(group@) =~= Seq::<Seq<char>>::empty());
            }
            while m < comp.len()
                invariant
                    m <= comp@.len(),
                    civ == comp@.map_values(|x: usize| x as int),
                    ids == schema_ids(nodes@),
                    texts(group@) == component_ids(ids, civ.take(m as int)),
                decreases comp@.len() - m,
            {
                let ghost before = texts(group@);
                proof {
                    let t = civ.take(m as int + 1);
                    assert(t.drop_last() =~= civ.take(m as int));
                    assert(t.last() == comp@[m as int] as int);
                }
                if comp[m] < nodes.len() {
                    group.push(nodes[comp[m]].id.clone());
                    proof {
                        assert(texts(group@) =~= before.push(ids[comp@[m as int] as int]));
                    }
                }
                m = m + 1;
            }
            proof {
                assert(civ.take(civ.len() as int) =~= civ);
            }
            let ghost before_out = text_groups(out@);
            out.push(group);
            proof {
                assert(text_groups(out@) =~= before_out.push(component_ids(ids, civ)));
            }
        }
        proof {
            let t = cv.take(c as int + 1);
            assert(t.drop_last() =~= cv.take(c as int));
            assert(t.last() == cv[c as int]);
        }
        c = c + 1;
    }
    proof {
        assert(cv.take(cv.len() as int) =~= cv);
    }
    out
}

// ---------------------------------------------------------------------------
// Queries
// ---------------------------------------------------------------------------

/// Whether node `j` is the one its id finds (no later node has the same id).
pub open spec fn found_at(ids: Seq<Seq<char>>, j: int) -> bool {
    last_pos(ids, ids[j]) == Some(j)
}

/// The number of nodes among the first `n` that their ids find: the number of
/// distinct ids.
pub open spec fn found_count(ids: Seq<Seq<char>>, n: int) -> nat
    decreases n,
{
    if n <= 0 {
        0
    } else {
        found_count(ids, n - 1) + if found_at(ids, n - 1) { 1nat } else { 0nat }
    }
}

/// The ids at the other end of the edges leaving (`outgoing`) or entering `v`,
/// most recently added edge first.
pub open spec fn neighbour_ids(ids: Seq<Seq<char>>, edges: Seq<(int, int, EdgeKind)>, v: int, outgoing: bool) -> Seq<Seq<char>> {
    registry_incident(edges, v, outgoing).map_values(
        |e: (int, int, EdgeKind)|
            ids[if outgoing {
                e.1
            } else {
                e.0
            }],
    )
}

/// The ids of the nodes, among those their ids find, whose kind is `kind`, in node order.
pub open spec fn ids_of_kind(ns: Seq<SchemaNode>, kind: Seq<char>, n: int) -> Seq<Seq<char>>
    decreases n,
{
    if n <= 0 {
        Seq::empty()
    } else {
        ids_of_kind(ns, kind, n - 1) + if found_at(schema_ids(ns), n - 1) && opt_view(ns[n - 1].kind) == Some(kind) {
            seq![ns[n - 1].id@]
        } else {
            Seq::empty()
        }
    }
}

proof fn lemma_incident_in_range(edges: Seq<(int, int, EdgeKind)>, v: int, outgoing: bool, n: int)
    requires
        forall|e: int| 0 <= e < edges.len() ==> 0 <= (#[trigger] edges[e]).0 < n && 0 <= edges[e].1 < n,
    ensures
        forall|e: int| 0 <= e < registry_incident(edges, v, outgoing).len() ==> 0 <= (#[trigger] registry_incident(edges, v, outgoing)[e]).0
            < n && 0 <= registry_incident(edges, v, outgoing)[e].1 < n,
    decreases edges.len(),
{
    if edges.len() > 0 {
        assert forall|e: int| 0 <= e < edges.drop_last().len() implies 0 <= (#[trigger] edges.drop_last()[e]).0 < n
            && 0 <= edges.drop_last()[e].1 < n by {
            assert(edges.drop_last()[e] == edges[e]);
        }
        lemma_incident_in_range(edges.drop_last(), v, outgoing, n);
        assert(edges.last() == edges[edges.len() - 1]);
        let rest = registry_incident(edges.drop_last(), v, outgoing);
        let r = registry_incident(edges, v, outgoing);
        assert forall|e: int| 0 <= e < r.len() implies 0 <= (#[trigger] r[e]).0 < n && 0 <= r[e].1 < n by {
            if r.len() > rest.len() {
                if e > 0 {
                    assert(r[e] == rest[e - 1]);
                }
            } else {
                assert(r[e] == rest[e]);
            }
        }
    }
}

impl SchemaGraph {
    /// The number of schemas: distinct ids.
    pub fn schema_count(&self) -> (n: usize)
        requires
            self.wf(),
        ensures
            n == found_count(self.ids(), self.ids().len() as int),
    {
        let mut count: usize = 0;
        let mut j: usize = 0;
        while j < self.nodes.len()
            invariant
                self.wf(),
                j <= self.nodes@.len(),
                schema_ids(self.nodes@) == self.ids(),
                count == found_count(self.ids(), j as int),
                count <= j,
            decreases self.nodes@.len() - j,
        {
            let hit = last_node(&self.nodes, self.nodes[j].id.as_str(), false);
            if hit == Some(j) {
                count = count + 1;
            }
            j = j + 1;
        }
        count
    }

    /// The number of edges.
    pub fn edge_count(&self) -> (n: usize)
        ensures
            n == self.edges().len(),
    {
        rg_edge_count(&self.graph)
    }

    /// The number of reference cycles.
    pub fn scc_count(&self) -> (n: usize)
        ensures
            n == self.cycles().len(),
    {
        self.scc_groups.len()
    }

    /// The reference cycles, each as the ids of its schemas.
    pub fn scc_groups(&self) -> (r: &Vec<Vec<String>>)
        ensures
            text_groups(r@) == self.cycles(),
    {
        &self.scc_groups
    }

    /// The schema with this id.
    pub fn get(&self, id: &str) -> (r: Option<&SchemaNode>)
        requires
            self.wf(),
        ensures
            match last_pos(self.ids(), id@) {
                Some(j) => r == Some(&self.nodes()[j]),
                None => r is None,
            },
    {
        proof {
            assert(schema_ids(self.nodes@) =~= self.ids());
        }
        match last_node(&self.nodes, id, false) {
            Some(j) => Some(&self.nodes[j]),
            None => None,
        }
    }

    /// The document of the schema with this id.
    pub fn get_raw(&self, id: &str) -> (r: Option<&Json>)
        requires
            self.wf(),
        ensures
            match last_pos(self.ids(), id@) {
                Some(j) => r == Some(&self.raws()[j]),
                None => r is None,
            },
    {
        proof {
            assert(schema_ids(self.nodes@) =~= self.ids());
        }
        match last_node(&self.nodes, id, false) {
            Some(j) => Some(&self.raws[j]),
            None => None,
        }
    }

    /// The ids at the other end of the edges leaving (`outgoing`) or entering
    /// the schema `id`, most recent edge first; nothing for an unknown id.
    fn neighbours(&self, id: &str, outgoing: bool) -> (res: Vec<String>)
        requires
            self.wf(),
        ensures
            texts(res@) == match last_pos(self.ids(), id@) {
                Some(v) => neighbour_ids(self.ids(), self.edges(), v, outgoing),
                None => Seq::empty(),
            },
    {
        proof {
            assert(schema_ids(self.nodes@) =~= self.ids());
        }
        let v = match last_node(&self.nodes, id, false) {
            Some(v) => v,
            None => {
                let res: Vec<String> = Vec::new();
                proof {
                    assert(texts(res@) =~= Seq::<Seq<char>>::empty());
                }
                return res;
            },
        };
        let es = rg_edges_directed(&self.graph, v, outgoing);
        let ghost inc = registry_incident(self.edges(), v as int, outgoing);
        proof {
            lemma_incident_in_range(self.edges(), v as int, outgoing, self.nodes@.len() as int);
        }
        let mut out: Vec<String> = Vec::new();
        let mut i: usize = 0;
        while i < es.len()
            invariant
                self.wf(),
                i <= es@.len(),
                es@.len() == inc.len(),
                forall|k: int| 0 <= k < es@.len() ==> ((#[trigger] es@[k]).0 as int, es@[k].1 as int, es@[k].2) == inc[k],
                forall|e: int| 0 <= e < inc.len() ==> 0 <= (#[trigger] inc[e]).0 < self.nodes@.len() && 0 <= inc[e].1
                    < self.nodes@.len(),
                texts(out@) == inc.take(i as int).map_values(
                    |e: (int, int, EdgeKind)|
                        self.ids()[if outgoing {
                            e.1
                        } else {
                            e.0
                        }],
                ),
            decreases es@.len() - i,
        {
            let other = if outgoing { es[i].1 } else { es[i].0 };
            proof {
                assert(inc[i as int] == (es@[i as int].0 as int, es@[i as int].1 as int, es@[i as int].2));
            }
            let w = rg_node(&self.graph, other);
            let ghost before = texts(out@);
            out.push(w.clone());
            proof {
                assert(texts(out@) =~= before.push(w@));
                assert(inc.take(i as int + 1) =~= inc.take(i as int).push(inc[i as int]));
            }
            i = i + 1;
        }
        proof {
            assert(inc.take(inc.len() as int) =~= inc);
        }
        out
    }

    /// The schemas this one refers to directly, most recent edge first.
    pub fn refs_out(&self, id: &str) -> (res: Vec<String>)
        requires
            self.wf(),
        ensures
            texts(res@) == match last_pos(self.ids(), id@) {
                Some(v) => neighbour_ids(self.ids(), self.edges(), v, true),
                None => Seq::empty(),
            },
    {
        self.neighbours(id, true)
    }

    /// The schemas that refer to this one directly, most recent edge first.
    pub fn refs_in(&self, id: &str) -> (res: Vec<String>)
        requires
            self.wf(),
        ensures
            texts(res@) == match last_pos(self.ids(), id@) {
                Some(v) => neighbour_ids(self.ids(), self.edges(), v, false),
                None => Seq::empty(),
            },
    {
        self.neighbours(id, false)
    }

    /// The ids of the schemas whose `x-familiar-kind` is `kind`, in node order.
    pub fn list_by_kind(&self, kind: &str) -> (res: Vec<String>)
        requires
            self.wf(),
        ensures
            texts(res@) == ids_of_kind(self.nodes(), kind@, self.nodes().len() as int),
    {
        let mut out: Vec<String> = Vec::new();
        let mut j: usize = 0;
        proof {
            assert(texts(out@) =~= Seq::<Seq<char>>::empty());
        }
        while j < self.nodes.len()
            invariant
                j <= self.nodes@.len(),
                texts(out@) == ids_of_kind(self.nodes@, kind@, j as int),
            decreases self.nodes@.len() - j,
        {
            let ghost before = texts(out@);
            let hit = last_node(&self.nodes, self.nodes[j].id.as_str(), false);
            let matches = match &self.nodes[j].kind {
                Some(k) => str_eq(k.as_str(), kind),
                None => false,
            };
            if hit == Some(j) && matches {
                out.push(self.nodes[j].id.clone());
                proof {
                    assert(texts(out@) =~= before.push(self.nodes@[j as int].id@));
                }
            }
            j = j + 1;
        }
        out
    }
}

// ---------------------------------------------------------------------------
// Names and resolution
// ---------------------------------------------------------------------------

/// The final component of a path, unless there is none or it is `..`.
pub open spec fn file_name_of(path: Seq<char>) -> Option<Seq<char>> {
    let k = kept_parts(split_on(path, '/'));
    if k.len() == 0 || k.last() == ".."@ {
        None
    } else {
        Some(k.last())
    }
}

/// The position of the last `.` in `s`.
pub open spec fn last_dot(s: Seq<char>) -> Option<int>
    decreases s.len(),
{
    if s.len() == 0 {
        None
    } else if s.last() == '.' {
        Some(s.len() - 1)
    } else {
        last_dot(s.drop_last())
    }
}

/// A file name without its extension: the part before the last `.`, unless
/// the only `.` leads the name.
pub open spec fn stem_of(name: Seq<char>) -> Seq<char> {
    match last_dot(name) {
        Some(p) => if p > 0 { name.subrange(0, p) } else { name },
        None => name,
    }
}

/// The name a schema is known by: its title, or else its file's stem
/// without `.schema`.
pub open spec fn schema_name(n: SchemaNode) -> Seq<char> {
    match n.title {
        Some(t) => t@,
        None => replaced(
            match file_name_of(n.path@) {
                Some(f) => stem_of(f),
                None => Seq::empty(),
            },
            ".schema"@,
            Seq::empty(),
        ),
    }
}

/// The first node whose name, through `f`, is `q`.
pub open spec fn first_named(ns: Seq<SchemaNode>, q: Seq<char>, lower: bool) -> Option<int>
    decreases ns.len(),
{
    if ns.len() == 0 {
        None
    } else if (if lower { lowercase(schema_name(ns[0])) } else { schema_name(ns[0]) }) == q {
        Some(0)
    } else {
        match first_named(ns.drop_first(), q, lower) {
            Some(j) => Some(j + 1),
            None => None,
        }
    }
}

/// The id a query names: a schema id as given; else the id of the schema
/// file at that path; else the first schema with that name; else the first
/// schema whose name matches without regard to case.
pub open spec fn resolved(ns: Seq<SchemaNode>, q: Seq<char>) -> Option<Seq<char>> {
    if last_pos(schema_ids(ns), q) is Some {
        Some(q)
    } else if last_pos(schema_paths(ns), q) is Some {
        Some(ns[last_pos(schema_paths(ns), q)->0].id@)
    } else if first_named(ns, q, false) is Some {
        Some(ns[first_named(ns, q, false)->0].id@)
    } else if first_named(ns, lowercase(q), true) is Some {
        Some(ns[first_named(ns, lowercase(q), true)->0].id@)
    } else {
        None
    }
}

/// The position of the last `.` in `v`.
fn last_dot_in(v: &Vec<char>) -> (res: Option<usize>)
    ensures
        match res {
            Some(p) => last_dot(v@) == Some(p as int) && p < v@.len(),
            None => last_dot(v@) is None,
        },
{
    let mut i: usize = v.len();
    proof {
        assert(v@.take(v@.len() as int) =~= v@);
    }
    while i > 0
        invariant
            i <= v@.len(),
            last_dot(v@) == last_dot(v@.take(i as int)),
        decreases i,
    {
        proof {
            assert(v@.take(i as int).drop_last() =~= v@.take(i as int - 1));
        }
        if v[i - 1] == '.' {
            return Some(i - 1);
        }
        i = i - 1;
    }
    None
}

/// The name a schema is known by.
fn name_of(n: &SchemaNode) -> (res: String)
    ensures
        res@ == schema_name(*n),
{
    match &n.title {
        Some(t) => t.clone(),
        None => {
            let pv = chars_of(n.path.as_str());
            let parts = split_chars(&pv, '/');
            let kept = keep_parts(&parts);
            let stem: Vec<char> = if kept.len() == 0 || chars_is(&kept[kept.len() - 1], "..") {
                Vec::new()
            } else {
                let f = &kept[kept.len() - 1];
                match last_dot_in(f) {
                    Some(p) => if p > 0 {
                        sub_chars(f, 0, p)
                    } else {
                        sub_chars(f, 0, f.len())
                    },
                    None => sub_chars(f, 0, f.len()),
                }
            };
            proof {
                assert(views_of(kept@) == kept_parts(split_on(n.path@, '/')));
                if kept@.len() > 0 {
                    assert(views_of(kept@).last() == kept@[kept@.len() - 1]@);
                }
                assert(stem@ == match file_name_of(n.path@) {
                    Some(f) => stem_of(f),
                    None => Seq::<char>::empty(),
                });
                if kept@.len() > 0 {
                    let f = kept@[kept@.len() - 1];
                    assert(f@.subrange(0, f@.len() as int) =~= f@);
                }
                if kept@.len() > 0 {
                    assert(views_of(kept@)[kept@.len() - 1] == kept@[kept@.len() - 1]@);
                }
                reveal_strlit(".schema");
                reveal_strlit("");
            }
            let st = string_from_chars(&stem);
            let r = replace_all(st.as_str(), ".schema", "");
            proof {
                reveal_strlit("");
                assert(st@ == stem@);
                assert(""@ =~= Seq::<char>::empty());
                assert(r@ == replaced(stem@, ".schema"@, Seq::<char>::empty()));
            }
            r
        },
    }
}

impl SchemaGraph {
    /// The id a query names: a schema id; else the path of a schema file;
    /// else a schema's name (its title, or its file's stem without
    /// `.schema`), the first schema of that name; else a name without regard
    /// to case. Where several names differ only in case, the first schema
    /// whose name matches is taken.
    pub fn resolve(&self, query: &str) -> (res: Option<String>)
        requires
            self.wf(),
        ensures
            opt_view(res) == resolved(self.nodes(), query@),
    {
        if let Some(_) = last_node(&self.nodes, query, false) {
            return Some(owned(query));
        }
        if let Some(j) = last_node(&self.nodes, query, true) {
            return Some(self.nodes[j].id.clone());
        }
        let lowered = str_to_lowercase(query);
        let mut pass: usize = 0;
        while pass < 2
            invariant
                pass <= 2,
                last_pos(schema_ids(self.nodes@), query@) is None,
                last_pos(schema_paths(self.nodes@), query@) is None,
                lowered@ == lowercase(query@),
                pass >= 1 ==> first_named(self.nodes@, query@, false) is None,
                pass >= 2 ==> first_named(self.nodes@, lowercase(query@), true) is None,
            decreases 2 - pass,
        {
            let lower = pass == 1;
            let target: &str = if lower { lowered.as_str() } else { query };
            let mut j: usize = 0;
            proof {
                assert(self.nodes@.skip(0) =~= self.nodes@);
            }
            while j < self.nodes.len()
                invariant
                    j <= self.nodes@.len(),
                    target@ == (if lower { lowercase(query@) } else { query@ }),
                    pass < 2,
                    lower == (pass == 1),
                    last_pos(schema_ids(self.nodes@), query@) is None,
                    last_pos(schema_paths(self.nodes@), query@) is None,
                    pass >= 1 ==> first_named(self.nodes@, query@, false) is None,
                    first_named(self.nodes@, target@, lower) == match first_named(self.nodes@.skip(j as int), target@, lower) {
                        Some(k) => Some(k + j),
                        None => None,
                    },
                decreases self.nodes@.len() - j,
            {
                let name = name_of(&self.nodes[j]);
                let key = if lower { str_to_lowercase(name.as_str()) } else { name };
                proof {
                    assert(self.nodes@.skip(j as int)[0] == self.nodes@[j as int]);
                    assert(self.nodes@.skip(j as int).drop_first() =~= self.nodes@.skip(j as int + 1));
                }
                if str_eq(key.as_str(), target) {
                    proof {
                        assert(first_named(self.nodes@.skip(j as int), target@, lower) == Some(0int));
                    }
                    return Some(self.nodes[j].id.clone());
                }
                j = j + 1;
            }
            proof {
                assert(self.nodes@.skip(j as int) =~= Seq::<SchemaNode>::empty());
                assert(first_named(self.nodes@, target@, lower) is None);
            }
            pass = pass + 1;
        }
        None
    }
}

// ---------------------------------------------------------------------------
// Union lint
// ---------------------------------------------------------------------------

/// A warning as plain values: code, message, severity.
pub open spec fn warning_view(w: LintWarning) -> (Seq<char>, Seq<char>, Seq<char>) {
    (w.code@, w.message@, w.severity@)
}

/// Whether an `anyOf` item looks like an object schema.
pub open spec fn object_like(item: Json) -> bool {
    json_str(json_get(item, "type"@)) == Some("object"@) || json_get(item, "properties"@) is Some
}

/// The union lint's findings for a schema document: a `oneOf` with neither
/// discriminator nor representation; an `anyOf` whose items all look like
/// objects; a missing `x-familiar-kind`.
pub open spec fn union_warnings(raw: Json) -> Seq<(Seq<char>, Seq<char>, Seq<char>)> {
    (if json_get(raw, "oneOf"@) is Some && json_get(raw, "x-familiar-discriminator"@) is None && json_get(
        raw,
        "x-familiar-enum-repr"@,
    ) is None {
        seq![("UNTAGGED_UNION"@, "oneOf without x-familiar-discriminator or x-familiar-enum-repr may cause ambiguous parsing"@, "warning"@)]
    } else {
        Seq::empty()
    }) + (match json_get(raw, "anyOf"@) {
        Some(Json::Array(a)) => if forall|i: int| 0 <= i < a@.len() ==> #[trigger] object_like(a@[i]) {
            seq![("ANYOF_OBJECTS"@, "anyOf with all object types might be better as allOf (composition) or oneOf (union)"@, "info"@)]
        } else {
            Seq::empty()
        },
        _ => Seq::empty(),
    }) + (if json_get(raw, "x-familiar-kind"@) is None {
        seq![("MISSING_KIND"@, "Schema is missing x-familiar-kind extension"@, "info"@)]
    } else {
        Seq::empty()
    })
}

fn warning(code: &str, message: &str, severity: &str) -> (w: LintWarning)
    ensures
        warning_view(w) == (code@, message@, severity@),
{
    LintWarning { code: owned(code), message: owned(message), severity: owned(severity) }
}

impl SchemaGraph {
    /// Checks a union schema for ambiguity; nothing for an unknown id.
    pub fn lint_unions(&self, id: &str) -> (res: Vec<LintWarning>)
        requires
            self.wf(),
        ensures
            res@.map_values(|w: LintWarning| warning_view(w)) == match last_pos(self.ids(), id@) {
                Some(j) => union_warnings(self.raws()[j]),
                None => Seq::empty(),
            },
    {
        let mut warnings: Vec<LintWarning> = Vec::new();
        let raw = match self.get_raw(id) {
            Some(r) => r,
            None => {
                proof {
                    assert(warnings@.map_values(|w: LintWarning| warning_view(w)) =~= Seq::<(Seq<char>, Seq<char>, Seq<char>)>::empty());
                }
                return warnings;
            },
        };
        let ghost a_part: Seq<(Seq<char>, Seq<char>, Seq<char>)> = Seq::empty();
        if raw.get("oneOf").is_some() {
            let has_discriminator = raw.get("x-familiar-discriminator").is_some();
            let has_repr = raw.get("x-familiar-enum-repr").is_some();
            if !has_discriminator && !has_repr {
                warnings.push(warning(
                    "UNTAGGED_UNION",
                    "oneOf without x-familiar-discriminator or x-familiar-enum-repr may cause ambiguous parsing",
                    "warning",
                ));
            }
        }
        let ghost first = warnings@.map_values(|w: LintWarning| warning_view(w));
        if let Some(Json::Array(items)) = raw.get("anyOf") {
            let mut all_objects = true;
            let mut i: usize = 0;
            while i < items.len()
                invariant
                    i <= items@.len(),
                    all_objects == forall|k: int| 0 <= k < i ==> #[trigger] object_like(items@[k]),
                decreases items@.len() - i,
            {
                let typed_object = match items[i].get("type") {
                    Some(Json::Str(t)) => crate::text::str_eq(t.as_str(), "object"),
                    _ => false,
                };
                let with_props = items[i].get("properties").is_some();
                proof {
                    reveal_strlit("object");
                }
                let ghost prev = all_objects;
                all_objects = all_objects && (typed_object || with_props);
                proof {
                    assert(object_like(items@[i as int]) == (typed_object || with_props));
                    if prev && !(typed_object || with_props) {
                        assert(!object_like(items@[i as int]));
                    }
                }
                i = i + 1;
            }
            if all_objects {
                warnings.push(warning(
                    "ANYOF_OBJECTS",
                    "anyOf with all object types might be better as allOf (composition) or oneOf (union)",
                    "info",
                ));
            }
        }
        let ghost second = warnings@.map_values(|w: LintWarning| warning_view(w));
        if raw.get("x-familiar-kind").is_none() {
            warnings.push(warning("MISSING_KIND", "Schema is missing x-familiar-kind extension", "info"));
        }
        proof {
            assert(warnings@.map_values(|w: LintWarning| warning_view(w)) =~= union_warnings(*raw));
        }
        warnings
    }
}

// ---------------------------------------------------------------------------
// Artifacts
// ---------------------------------------------------------------------------

/// A list of ids as plain texts, empty when absent.
pub open spec fn id_list(o: Option<Vec<String>>) -> Seq<Seq<char>> {
    match o {
        Some(v) => texts(v@),
        None => Seq::empty(),
    }
}

/// The code generation settings after registering `a`: an artifact of the
/// same language is replaced (the first such), else `a` is appended.
pub open spec fn upsert_lang(arts: Seq<GeneratedArtifact>, a: GeneratedArtifact) -> Seq<GeneratedArtifact> {
    if exists|i: int| 0 <= i < arts.len() && (#[trigger] arts[i]).lang@ == a.lang@ {
        arts.update(
            choose|i: int|
                0 <= i < arts.len() && (#[trigger] arts[i]).lang@ == a.lang@ && forall|k: int|
                    0 <= k < i ==> (#[trigger] arts[k]).lang@ != a.lang@,
            a,
        )
    } else {
        arts.push(a)
    }
}

/// Appends `id` to the list of `key`, creating the list when absent.
fn push_to_list(table: &mut Vec<(String, Vec<String>)>, key: String, id: String)
    requires
        keys_distinct(old(table)@),
    ensures
        keys_distinct(final(table)@),
        id_list(assoc(final(table)@, key@)) == id_list(assoc(old(table)@, key@)).push(id@),
        assoc(final(table)@, key@) is Some,
        forall|k: Seq<char>| k != key@ ==> #[trigger] assoc(final(table)@, k) == assoc(old(table)@, k),
{
    match assoc_index(table, key.as_str()) {
        Some(i) => {
            let mut list = table[i].1.clone();
            let ghost before = texts(list@);
            list.push(id);
            proof {
                assert(texts(list@) =~= before.push(id@));
            }
            assoc_insert(table, key, list);
        },
        None => {
            let mut list: Vec<String> = Vec::new();
            list.push(id);
            proof {
                assert(texts(list@) =~= Seq::<Seq<char>>::empty().push(id@));
            }
            assoc_insert(table, key, list);
        },
    }
}

/// The first position of an artifact of language `lang`.
fn find_lang(arts: &Vec<GeneratedArtifact>, lang: &str) -> (res: Option<usize>)
    ensures
        match res {
            Some(i) => i < arts@.len() && arts@[i as int].lang@ == lang@ && forall|k: int| 0 <= k < i ==> (#[trigger] arts@[k]).lang@ != lang@,
            None => forall|k: int| 0 <= k < arts@.len() ==> (#[trigger] arts@[k]).lang@ != lang@,
        },
{
    let mut i: usize = 0;
    while i < arts.len()
        invariant
            i <= arts@.len(),
            forall|k: int| 0 <= k < i ==> (#[trigger] arts@[k]).lang@ != lang@,
        decreases arts@.len() - i,
    {
        if str_eq(arts[i].lang.as_str(), lang) {
            return Some(i);
        }
        i = i + 1;
    }
    None
}

impl SchemaGraph {
    /// The artifacts, by id.
    pub closed spec fn artifact_table(&self) -> Seq<(String, GeneratedArtifact)> {
        self.artifacts@
    }

    /// The artifact ids of each schema, in registration order.
    pub closed spec fn schema_artifact_ids(&self, schema_id: Seq<char>) -> Seq<Seq<char>> {
        id_list(assoc(self.schema_to_artifacts@, schema_id))
    }

    /// The schema of each artifact.
    pub closed spec fn artifact_schema(&self, artifact_id: Seq<char>) -> Option<Seq<char>> {
        match assoc(self.artifact_to_schema@, artifact_id) {
            Some(s) => Some(s@),
            None => None,
        }
    }

    /// The artifact ids in each file.
    pub closed spec fn file_artifact_ids(&self, file: Seq<char>) -> Seq<Seq<char>> {
        id_list(assoc(self.file_to_artifacts@, file))
    }

    /// The artifact ids of each language.
    pub closed spec fn lang_artifact_ids(&self, lang: Seq<char>) -> Seq<Seq<char>> {
        id_list(assoc(self.lang_to_artifacts@, lang))
    }

    /// Records that `artifact` was generated from the schema `schema_id`: its
    /// id is filled in when empty; it is stored by id (replacing an artifact
    /// of that id) and listed under the schema, its file and its language;
    /// and the schema's code generation settings (created when absent) list
    /// it, in place of an artifact of the same language.
    pub fn register_artifact(&mut self, schema_id: &str, artifact: GeneratedArtifact)
        requires
            old(self).wf(),
        ensures
            final(self).wf(),
            final(self).ids() == old(self).ids(),
            final(self).edges() == old(self).edges(),
            final(self).raws() == old(self).raws(),
            final(self).cycles() == old(self).cycles(),
            final(self).bundle() == old(self).bundle(),
            ({
                let aid = if artifact.id@.len() == 0 {
                    crate::mcp::graph::artifact_key(artifact.lang@, artifact.ty_name@)
                } else {
                    artifact.id@
                };
                &&& assoc(final(self).artifact_table(), aid) matches Some(a) && a.id@ == aid && a.lang == artifact.lang
                    && a.file == artifact.file && a.line == artifact.line && a.ty_name == artifact.ty_name
                    && a.type_kind == artifact.type_kind
                &&& forall|k: Seq<char>| k != aid ==> #[trigger] assoc(final(self).artifact_table(), k) == assoc(
                    old(self).artifact_table(),
                    k,
                )
                &&& final(self).schema_artifact_ids(schema_id@) == old(self).schema_artifact_ids(schema_id@).push(aid)
                &&& forall|k: Seq<char>| k != schema_id@ ==> #[trigger] final(self).schema_artifact_ids(k)
                    == old(self).schema_artifact_ids(k)
                &&& final(self).artifact_schema(aid) == Some(schema_id@)
                &&& forall|k: Seq<char>| k != aid ==> #[trigger] final(self).artifact_schema(k) == old(self).artifact_schema(k)
                &&& final(self).file_artifact_ids(artifact.file@) == old(self).file_artifact_ids(artifact.file@).push(aid)
                &&& forall|k: Seq<char>| k != artifact.file@ ==> #[trigger] final(self).file_artifact_ids(k)
                    == old(self).file_artifact_ids(k)
                &&& final(self).lang_artifact_ids(artifact.lang@) == old(self).lang_artifact_ids(artifact.lang@).push(aid)
                &&& forall|k: Seq<char>| k != artifact.lang@ ==> #[trigger] final(self).lang_artifact_ids(k)
                    == old(self).lang_artifact_ids(k)
                &&& final(self).nodes().len() == old(self).nodes().len()
                &&& forall|j: int| 0 <= j < old(self).nodes().len() && last_pos(old(self).ids(), schema_id@) != Some(j)
                    ==> #[trigger] final(self).nodes()[j] == old(self).nodes()[j]
                &&& match last_pos(old(self).ids(), schema_id@) {
                    Some(j) => {
                        let n = old(self).nodes()[j];
                        let m = final(self).nodes()[j];
                        &&& m.id == n.id && m.path == n.path && m.title == n.title && m.kind == n.kind
                        &&& m.service == n.service && m.fields == n.fields && m.node_idx == n.node_idx
                        &&& m.codegen is Some
                        &&& m.codegen->0.artifacts@ == upsert_lang(
                            match n.codegen {
                                Some(c) => c.artifacts@,
                                None => Seq::empty(),
                            },
                            assoc(final(self).artifact_table(), aid)->0,
                        )
                    },
                    None => true,
                }
            }),
    {
        let aid = artifact.artifact_id();
        let mut artifact = artifact;
        artifact.id = aid.clone();
        let stored = artifact.copy();
        assoc_insert(&mut self.artifacts, aid.clone(), stored);
        push_to_list(&mut self.schema_to_artifacts, owned(schema_id), aid.clone());
        assoc_insert(&mut self.artifact_to_schema, aid.clone(), owned(schema_id));
        push_to_list(&mut self.file_to_artifacts, artifact.file.clone(), aid.clone());
        push_to_list(&mut self.lang_to_artifacts, artifact.lang.clone(), aid.clone());
        proof {
            assert(schema_ids(self.nodes@) =~= self.ids());
        }
        if let Some(j) = last_node(&self.nodes, schema_id, false) {
            let ghost before = self.nodes@;
            let mut node = self.nodes.remove(j);
            let mut codegen = match node.codegen {
                Some(c) => c,
                None => CodegenMeta::default(),
            };
            let ghost arts0 = codegen.artifacts@;
            match find_lang(&codegen.artifacts, artifact.lang.as_str()) {
                Some(i) => {
                    codegen.artifacts.set(i, artifact);
                },
                None => {
                    codegen.artifacts.push(artifact);
                },
            }
            proof {
                assert(codegen.artifacts@ =~= upsert_lang(arts0, stored));
            }
            node.codegen = Some(codegen);
            self.nodes.insert(j, node);
            proof {
                assert(self.nodes@ =~= before.update(j as int, node));
            }
        }
    }
}

/// The artifacts stored under the ids, in order, skipping ids not stored.
pub open spec fn lookup_all(table: Seq<(String, GeneratedArtifact)>, ids: Seq<Seq<char>>) -> Seq<GeneratedArtifact>
    decreases ids.len(),
{
    if ids.len() == 0 {
        Seq::empty()
    } else {
        lookup_all(table, ids.drop_last()) + match assoc(table, ids.last()) {
            Some(a) => seq![a],
            None => Seq::empty(),
        }
    }
}

/// A name with every trailing `.schema.json` removed.
pub open spec fn trim_schema_suffix(s: Seq<char>) -> Seq<char>
    decreases s.len(),
{
    if s.len() >= 12 && s.subrange(s.len() - 12, s.len() as int) == ".schema.json"@ {
        trim_schema_suffix(s.subrange(0, s.len() - 12))
    } else {
        s
    }
}

/// The type name an artifact of a schema is expected to have: the schema's
/// title, or else the last piece of its id without `.schema.json`.
pub open spec fn expected_type_name(ns: Seq<SchemaNode>, schema_id: Seq<char>) -> Seq<char> {
    match last_pos(schema_ids(ns), schema_id) {
        Some(j) if ns[j].title is Some => ns[j].title->0@,
        _ => trim_schema_suffix(crate::drift::schema::after_last(schema_id, '/')),
    }
}

/// The artifacts of a list of ids.
fn artifacts_of(table: &Vec<(String, GeneratedArtifact)>, ids: &Vec<String>) -> (res: Vec<GeneratedArtifact>)
    ensures
        res@ == lookup_all(table@, texts(ids@)),
{
    let mut out: Vec<GeneratedArtifact> = Vec::new();
    let mut i: usize = 0;
    while i < ids.len()
        invariant
            i <= ids@.len(),
            out@ == lookup_all(table@, texts(ids@).take(i as int)),
        decreases ids@.len() - i,
    {
        proof {
            let t = texts(ids@).take(i as int + 1);
            assert(t.drop_last() =~= texts(ids@).take(i as int));
            assert(t.last() == ids@[i as int]@);
        }
        match assoc_index(table, ids[i].as_str()) {
            Some(k) => {
                out.push(table[k].1.copy());
            },
            None => {},
        }
        i = i + 1;
    }
    proof {
        assert(texts(ids@).take(ids@.len() as int) =~= texts(ids@));
    }
    out
}

/// The ids listed under `key`, empty when absent.
fn list_of<'a>(table: &'a Vec<(String, Vec<String>)>, key: &str, empty: &'a Vec<String>) -> (res: &'a Vec<String>)
    requires
        empty@.len() == 0,
    ensures
        texts(res@) == id_list(assoc(table@, key@)),
{
    match assoc_index(table, key) {
        Some(i) => &table[i].1,
        None => {
            proof {
                assert(texts(empty@) =~= Seq::<Seq<char>>::empty());
            }
            empty
        },
    }
}

/// A name with every trailing `.schema.json` removed.
fn trim_suffix(s: &str) -> (res: String)
    ensures
        res@ == trim_schema_suffix(s@),
{
    let v = chars_of(s);
    let mut end: usize = v.len();
    proof {
        reveal_strlit(".schema.json");
        assert(v@.subrange(0, end as int) =~= v@);
    }
    while end >= 12 && crate::text::chars_is(&sub_chars(&v, end - 12, end), ".schema.json")
        invariant
            end <= v@.len(),
            trim_schema_suffix(s@) == trim_schema_suffix(v@.subrange(0, end as int)),
            v@ == s@,
        decreases end,
    {
        proof {
            let w = v@.subrange(0, end as int);
            assert(w.subrange(w.len() - 12, w.len() as int) =~= v@.subrange(end - 12, end as int));
            assert(w.subrange(0, w.len() - 12) =~= v@.subrange(0, end - 12));
        }
        end = end - 12;
    }
    proof {
        let w = v@.subrange(0, end as int);
        if w.len() >= 12 {
            assert(w.subrange(w.len() - 12, w.len() as int) =~= v@.subrange(end - 12, end as int));
        }
    }
    string_from_chars(&sub_chars(&v, 0, end))
}

impl SchemaGraph {
    /// The artifacts generated from a schema, in registration order.
    pub fn get_artifacts(&self, schema_id: &str) -> (res: Vec<GeneratedArtifact>)
        ensures
            res@ == lookup_all(self.artifact_table(), self.schema_artifact_ids(schema_id@)),
    {
        let empty: Vec<String> = Vec::new();
        let ids = list_of(&self.schema_to_artifacts, schema_id, &empty);
        artifacts_of(&self.artifacts, ids)
    }

    /// The schema an artifact was generated from.
    pub fn get_artifact_schema(&self, artifact_id: &str) -> (res: Option<&str>)
        ensures
            match res {
                Some(s) => self.artifact_schema(artifact_id@) == Some(s@),
                None => self.artifact_schema(artifact_id@) is None,
            },
    {
        match assoc_index(&self.artifact_to_schema, artifact_id) {
            Some(i) => Some(self.artifact_to_schema[i].1.as_str()),
            None => None,
        }
    }

    /// The artifacts generated into a file, in registration order.
    pub fn get_file_artifacts(&self, file: &str) -> (res: Vec<GeneratedArtifact>)
        ensures
            res@ == lookup_all(self.artifact_table(), self.file_artifact_ids(file@)),
    {
        let empty: Vec<String> = Vec::new();
        let ids = list_of(&self.file_to_artifacts, file, &empty);
        artifacts_of(&self.artifacts, ids)
    }

    /// The artifacts generated in a language, in registration order.
    pub fn get_lang_artifacts(&self, lang: &str) -> (res: Vec<GeneratedArtifact>)
        ensures
            res@ == lookup_all(self.artifact_table(), self.lang_artifact_ids(lang@)),
    {
        let empty: Vec<String> = Vec::new();
        let ids = list_of(&self.lang_to_artifacts, lang, &empty);
        artifacts_of(&self.artifacts, ids)
    }

    /// The artifact with this id.
    pub fn get_artifact_by_id(&self, artifact_id: &str) -> (res: Option<&GeneratedArtifact>)
        ensures
            match res {
                Some(a) => assoc(self.artifact_table(), artifact_id@) == Some(*a),
                None => assoc(self.artifact_table(), artifact_id@) is None,
            },
    {
        match assoc_index(&self.artifacts, artifact_id) {
            Some(i) => Some(&self.artifacts[i].1),
            None => None,
        }
    }

    /// The number of artifacts.
    pub fn artifact_count(&self) -> (n: usize)
        ensures
            n == self.artifact_count_spec(),
    {
        self.artifacts.len()
    }

    /// The artifact of a schema in a language: the one whose id is
    /// `lang:name`, the name being the schema's title or else the last piece
    /// of its id without `.schema.json`.
    pub fn get_artifact(&self, schema_id: &str, lang: &str) -> (res: Option<&GeneratedArtifact>)
        requires
            self.wf(),
        ensures
            match res {
                Some(a) => assoc(self.artifact_table(), crate::mcp::graph::artifact_key(lang@, expected_type_name(self.nodes(), schema_id@)))
                    == Some(*a),
                None => assoc(self.artifact_table(), crate::mcp::graph::artifact_key(lang@, expected_type_name(self.nodes(), schema_id@))) is None,
            },
    {
        let name: String = match self.get(schema_id) {
            Some(n) => match &n.title {
                Some(t) => t.clone(),
                None => trim_suffix(crate::drift::schema::extract_ref_name(schema_id).as_str()),
            },
            None => trim_suffix(crate::drift::schema::extract_ref_name(schema_id).as_str()),
        };
        proof {
            assert(schema_ids(self.nodes@) =~= self.ids());
        }
        let key = GeneratedArtifact::make_id(lang, name.as_str());
        self.get_artifact_by_id(key.as_str())
    }

    /// The artifacts with their schemas for a list of artifact ids, in order,
    /// skipping ids whose artifact or schema is not recorded.
    pub closed spec fn paired_artifacts(&self, ids: Seq<Seq<char>>) -> Seq<(Seq<char>, GeneratedArtifact)>
        decreases ids.len(),
    {
        if ids.len() == 0 {
            Seq::empty()
        } else {
            self.paired_artifacts(ids.drop_last()) + match (assoc(self.artifacts@, ids.last()), assoc(self.artifact_to_schema@, ids.last())) {
                (Some(a), Some(sc)) => seq![(sc@, a)],
                _ => Seq::empty(),
            }
        }
    }

    /// The artifacts of a language with their schemas, in registration order.
    pub fn schemas_with_artifacts(&self, lang: &str) -> (res: Vec<(String, GeneratedArtifact)>)
        ensures
            res@.map_values(|p: (String, GeneratedArtifact)| (p.0@, p.1)) == self.paired_artifacts(self.lang_artifact_ids(lang@)),
    {
        let empty: Vec<String> = Vec::new();
        let ids = list_of(&self.lang_to_artifacts, lang, &empty);
        let ghost iv = texts(ids@);
        let mut out: Vec<(String, GeneratedArtifact)> = Vec::new();
        let mut i: usize = 0;
        proof {
            assert(out@.map_values(|p: (String, GeneratedArtifact)| (p.0@, p.1)) =~= self.paired_artifacts(iv.take(0)));
        }
        while i < ids.len()
            invariant
                i <= ids@.len(),
                iv == texts(ids@),
                out@.map_values(|p: (String, GeneratedArtifact)| (p.0@, p.1)) == self.paired_artifacts(iv.take(i as int)),
            decreases ids@.len() - i,
        {
            proof {
                let t = iv.take(i as int + 1);
                assert(t.drop_last() =~= iv.take(i as int));
                assert(t.last() == ids@[i as int]@);
            }
            let ghost before = out@.map_values(|p: (String, GeneratedArtifact)| (p.0@, p.1));
            let a = assoc_index(&self.artifacts, ids[i].as_str());
            let sc = assoc_index(&self.artifact_to_schema, ids[i].as_str());
            if let (Some(ka), Some(ks)) = (a, sc) {
                out.push((self.artifact_to_schema[ks].1.clone(), self.artifacts[ka].1.copy()));
                proof {
                    assert(out@.map_values(|p: (String, GeneratedArtifact)| (p.0@, p.1)) =~= before.push(
                        (self.artifact_to_schema@[ks as int].1@, self.artifacts@[ka as int].1),
                    ));
                }
            }
            i = i + 1;
        }
        proof {
            assert(iv.take(iv.len() as int) =~= iv);
        }
        out
    }

    /// For each language with artifacts: how many it has, and how many schemas
    /// there are.
    pub fn artifact_coverage(&self) -> (res: Vec<(String, (usize, usize))>)
        requires
            self.wf(),
        ensures
            res@.len() == self.lang_table().len(),
            forall|i: int| 0 <= i < res@.len() ==> (#[trigger] res@[i]).0@ == self.lang_table()[i].0
                && res@[i].1.0 == self.lang_table()[i].1 && res@[i].1.1 == found_count(self.ids(), self.ids().len() as int),
    {
        let total = self.schema_count();
        let mut out: Vec<(String, (usize, usize))> = Vec::new();
        let mut i: usize = 0;
        while i < self.lang_to_artifacts.len()
            invariant
                i <= self.lang_to_artifacts@.len(),
                total == found_count(self.ids(), self.ids().len() as int),
                out@.len() == i,
                forall|k: int| 0 <= k < i ==> (#[trigger] out@[k]).0@ == self.lang_table()[k].0 && out@[k].1.0
                    == self.lang_table()[k].1 && out@[k].1.1 == total,
            decreases self.lang_to_artifacts@.len() - i,
        {
            out.push((self.lang_to_artifacts[i].0.clone(), (self.lang_to_artifacts[i].1.len(), total)));
            i = i + 1;
        }
        out
    }

    /// The languages with artifacts, in first-registration order, with their
    /// artifact counts.
    pub closed spec fn lang_table(&self) -> Seq<(Seq<char>, nat)> {
        self.lang_to_artifacts@.map_values(|p: (String, Vec<String>)| (p.0@, p.1@.len()))
    }
}

// ---------------------------------------------------------------------------
// Closure
// ---------------------------------------------------------------------------

/// The number of `false` entries.
pub open spec fn count_false(s: Seq<bool>) -> nat
    decreases s.len(),
{
    if s.len() == 0 {
        0
    } else {
        count_false(s.drop_last()) + if s.last() { 0nat } else { 1nat }
    }
}

pub proof fn lemma_count_false_mark(s: Seq<bool>, i: int)
    requires
        0 <= i < s.len(),
        !s[i],
    ensures
        count_false(s.update(i, true)) + 1 == count_false(s),
    decreases s.len(),
{
    let u = s.update(i, true);
    if i == s.len() - 1 {
        assert(u.drop_last() =~= s.drop_last());
    } else {
        assert(u.drop_last() =~= s.drop_last().update(i, true));
        lemma_count_false_mark(s.drop_last(), i);
    }
}

/// The next stack entries from node `v` at depth `d`: the other end of each
/// edge leaving (`outgoing`) or entering it, at depth `d + 1`.
pub open spec fn next_entries(edges: Seq<(int, int, EdgeKind)>, v: int, d: nat, outgoing: bool) -> Seq<(int, nat)> {
    registry_incident(edges, v, outgoing).map_values(
        |e: (int, int, EdgeKind)|
            (if outgoing {
                e.1
            } else {
                e.0
            }, d + 1),
    )
}

/// The closure walk: pop an entry; skip it when past the depth limit or
/// already visited; else mark it visited, record it (unless it is the start)
/// and push its neighbours. Returns the recorded entries in visiting order.
pub open spec fn closure_walk(
    edges: Seq<(int, int, EdgeKind)>,
    start: int,
    outgoing: bool,
    max: Option<nat>,
    stack: Seq<(int, nat)>,
    seen: Seq<bool>,
    out: Seq<(int, nat)>,
) -> Seq<(int, nat)>
    decreases count_false(seen), stack.len(),
{
    if stack.len() == 0 {
        out
    } else {
        let (v, d) = stack.last();
        let rest = stack.drop_last();
        if (max matches Some(m) && d > m) || !(0 <= v < seen.len()) || seen[v] {
            closure_walk(edges, start, outgoing, max, rest, seen, out)
        } else {
            proof {
                lemma_count_false_mark(seen, v);
            }
            closure_walk(
                edges,
                start,
                outgoing,
                max,
                rest + next_entries(edges, v, d, outgoing),
                seen.update(v, true),
                if v != start { out.push((v, d)) } else { out },
            )
        }
    }
}

/// Inserts `x` after the entries of depth at most its own.
pub open spec fn insert_by_depth(s: Seq<(int, nat)>, x: (int, nat)) -> Seq<(int, nat)>
    decreases s.len(),
{
    if s.len() == 0 || s.last().1 <= x.1 {
        s.push(x)
    } else {
        insert_by_depth(s.drop_last(), x).push(s.last())
    }
}

/// The entries sorted by depth, entries of equal depth in their first order.
pub open spec fn sort_by_depth(s: Seq<(int, nat)>) -> Seq<(int, nat)>
    decreases s.len(),
{
    if s.len() == 0 {
        s
    } else {
        insert_by_depth(sort_by_depth(s.drop_last()), s.last())
    }
}

/// Whether some reference cycle contains `id`.
pub open spec fn in_cycle(cycles: Seq<Seq<Seq<char>>>, id: Seq<char>) -> bool {
    exists|g: int, k: int| 0 <= g < cycles.len() && 0 <= k < cycles[g].len() && #[trigger] cycles[g][k] == id
}

/// A closure node as plain values: id, depth, whether it is in a cycle.
pub open spec fn closure_view(c: ClosureNode) -> (Seq<char>, nat, bool) {
    (c.id@, c.depth as nat, c.scc_boundary)
}

/// The closure result from the walk's entries.
pub open spec fn closure_nodes(ids: Seq<Seq<char>>, cycles: Seq<Seq<Seq<char>>>, entries: Seq<(int, nat)>) -> Seq<(Seq<char>, nat, bool)> {
    entries.map_values(|e: (int, nat)| (ids[e.0], e.1, in_cycle(cycles, ids[e.0])))
}

/// The entries as plain integers.
pub open spec fn entries_view(v: Seq<(usize, usize)>) -> Seq<(int, nat)> {
    v.map_values(|e: (usize, usize)| (e.0 as int, e.1 as nat))
}

fn insert_entry(v: &mut Vec<(usize, usize)>, x: (usize, usize))
    ensures
        entries_view(final(v)@) == insert_by_depth(entries_view(old(v)@), (x.0 as int, x.1 as nat)),
        forall|k: int| 0 <= k < final(v)@.len() ==> #[trigger] final(v)@[k] == x || old(v)@.contains(final(v)@[k]),
    decreases old(v)@.len(),
{
    let ghost before = entries_view(v@);
    if v.len() == 0 || v[v.len() - 1].1 <= x.1 {
        let ghost ov = v@;
        v.push(x);
        proof {
            assert(entries_view(v@) =~= before.push((x.0 as int, x.1 as nat)));
            assert forall|k: int| 0 <= k < v@.len() implies #[trigger] v@[k] == x || ov.contains(v@[k]) by {
                if k < ov.len() {
                    assert(v@[k] == ov[k]);
                }
            }
        }
    } else {
        let ghost ov = v@;
        let y = v.pop().unwrap();
        proof {
            assert(entries_view(v@) =~= before.drop_last());
        }
        let ghost popped = v@;
        insert_entry(v, x);
        let ghost mid = entries_view(v@);
        let ghost mv = v@;
        v.push(y);
        proof {
            assert(entries_view(v@) =~= mid.push((y.0 as int, y.1 as nat)));
            assert forall|k: int| 0 <= k < v@.len() implies #[trigger] v@[k] == x || ov.contains(v@[k]) by {
                if k == v@.len() - 1 {
                    assert(ov[ov.len() - 1] == y);
                } else {
                    assert(v@[k] == mv[k]);
                    if mv[k] != x {
                        let j = choose|j: int| 0 <= j < popped.len() && popped[j] == mv[k];
                        assert(ov[j] == popped[j]);
                    }
                }
            }
        }
    }
}

/// Whether a cycle group list holds `id`.
fn cycles_hold(groups: &Vec<Vec<String>>, id: &str) -> (res: bool)
    ensures
        res == in_cycle(text_groups(groups@), id@),
{
    let mut g: usize = 0;
    while g < groups.len()
        invariant
            g <= groups@.len(),
            forall|a: int, k: int| 0 <= a < g && 0 <= k < text_groups(groups@)[a].len() ==> #[trigger] text_groups(groups@)[a][k] != id@,
        decreases groups@.len() - g,
    {
        let mut k: usize = 0;
        while k < groups[g].len()
            invariant
                g < groups@.len(),
                k <= groups@[g as int]@.len(),
                forall|a: int, m: int| 0 <= a < g && 0 <= m < text_groups(groups@)[a].len() ==> #[trigger] text_groups(groups@)[a][m] != id@,
                forall|m: int| 0 <= m < k ==> #[trigger] text_groups(groups@)[g as int][m] != id@,
            decreases groups@[g as int]@.len() - k,
        {
            proof {
                assert(text_groups(groups@)[g as int][k as int] == groups@[g as int]@[k as int]@);
            }
            if str_eq(groups[g][k].as_str(), id) {
                return true;
            }
            k = k + 1;
        }
        g = g + 1;
    }
    false
}

/// The number of `true` entries.
pub open spec fn count_true(s: Seq<bool>) -> nat {
    (s.len() - count_false(s)) as nat
}

proof fn lemma_count_false_le(s: Seq<bool>)
    ensures
        count_false(s) <= s.len(),
    decreases s.len(),
{
    if s.len() > 0 {
        lemma_count_false_le(s.drop_last());
    }
}

impl SchemaGraph {
    /// The closure of the schema `id`: see `closure`.
    pub open spec fn closure_of(&self, id: Seq<char>, outgoing: bool, max_depth: Option<usize>) -> Seq<(Seq<char>, nat, bool)> {
        match last_pos(self.ids(), id) {
            Some(s) => closure_nodes(
                self.ids(),
                self.cycles(),
                sort_by_depth(
                    closure_walk(
                        self.edges(),
                        s,
                        outgoing,
                        match max_depth {
                            Some(m) => Some(m as nat),
                            None => None,
                        },
                        seq![(s, 0nat)],
                        Seq::new(self.ids().len(), |i: int| false),
                        Seq::empty(),
                    ),
                ),
            ),
            None => Seq::empty(),
        }
    }

    /// The schemas reached from `id` by following edges forward (`outgoing`)
    /// or backward, depth first, up to `max_depth` edges when given, each
    /// with the depth at which it was first visited and whether it lies on a
    /// reference cycle; sorted by depth, ties in visiting order. The schema
    /// itself is not listed. Nothing for an unknown id.
    pub fn closure(&self, id: &str, outgoing: bool, max_depth: Option<usize>) -> (res: Vec<ClosureNode>)
        requires
            self.wf(),
        ensures
            res@.map_values(|c: ClosureNode| closure_view(c)) == self.closure_of(id@, outgoing, max_depth),
    {
        proof {
            assert(schema_ids(self.nodes@) =~= self.ids());
        }
        let start = match last_node(&self.nodes, id, false) {
            Some(s) => s,
            None => {
                let res: Vec<ClosureNode> = Vec::new();
                proof {
                    assert(res@.map_values(|c: ClosureNode| closure_view(c)) =~= Seq::<(Seq<char>, nat, bool)>::empty());
                }
                return res;
            },
        };
        let ghost max = match max_depth {
            Some(m) => Some(m as nat),
            None => None,
        };
        let n = self.nodes.len();
        let mut seen: Vec<bool> = Vec::new();
        let mut z: usize = 0;
        while z < n
            invariant
                z <= n,
                seen@.len() == z,
                forall|i: int| 0 <= i < z ==> !(#[trigger] seen@[i]),
            decreases n - z,
        {
            seen.push(false);
            z = z + 1;
        }
        proof {
            assert(seen@ =~= Seq::new(self.ids().len(), |i: int| false));
        }
        let ghost total = closure_walk(self.edges(), start as int, outgoing, max, seq![(start as int, 0nat)], seen@, Seq::empty());
        let mut stack: Vec<(usize, usize)> = vec![(start, 0)];
        let mut found: Vec<(usize, usize)> = Vec::new();
        proof {
            assert(entries_view(stack@) =~= seq![(start as int, 0nat)]);
            assert(entries_view(found@) =~= Seq::<(int, nat)>::empty());
            lemma_count_false_le(seen@);
        }
        while stack.len() > 0
            invariant
                self.wf(),
                n == self.nodes@.len(),
                seen@.len() == n,
                start < n,
                total == closure_walk(self.edges(), start as int, outgoing, max, entries_view(stack@), seen@, entries_view(found@)),
                forall|k: int| 0 <= k < stack@.len() ==> (#[trigger] stack@[k]).1 <= count_true(seen@) && stack@[k].0 < n,
                count_false(seen@) <= n,
                forall|k: int| 0 <= k < found@.len() ==> (#[trigger] found@[k]).0 < n,
                max == match max_depth {
                    Some(m) => Some(m as nat),
                    None => None,
                },
            decreases count_false(seen@), stack@.len(),
        {
            let ghost full = entries_view(stack@);
            let (v, d) = stack.pop().unwrap();
            let ghost rest = entries_view(stack@);
            proof {
                assert(full =~= rest.push((v as int, d as nat)));
                assert(full.drop_last() =~= rest);
                assert(full.last() == (v as int, d as nat));
            }
            let too_deep = match max_depth {
                Some(m) => d > m,
                None => false,
            };
            if too_deep || seen[v] {
                continue;
            }
            proof {
                lemma_count_false_mark(seen@, v as int);
                lemma_count_false_le(seen@.update(v as int, true));
            }
            let ghost seen_old = seen@;
            let ghost found_old = entries_view(found@);
            seen.set(v, true);
            if v != start {
                found.push((v, d));
                proof {
                    assert(entries_view(found@) =~= entries_view(found@.drop_last()).push((v as int, d as nat)));
                }
            }
            let es = rg_edges_directed(&self.graph, v, outgoing);
            let ghost inc = registry_incident(self.edges(), v as int, outgoing);
            proof {
                lemma_incident_in_range(self.edges(), v as int, outgoing, n as int);
            }
            let ghost base = entries_view(stack@);
            let mut i: usize = 0;
            while i < es.len()
                invariant
                    i <= es@.len(),
                    es@.len() == inc.len(),
                    forall|k: int| 0 <= k < es@.len() ==> ((#[trigger] es@[k]).0 as int, es@[k].1 as int, es@[k].2) == inc[k],
                    forall|e: int| 0 <= e < inc.len() ==> 0 <= (#[trigger] inc[e]).0 < n && 0 <= inc[e].1 < n,
                    entries_view(stack@) == base + next_entries(self.edges(), v as int, d as nat, outgoing).take(i as int),
                    forall|k: int| 0 <= k < stack@.len() ==> (#[trigger] stack@[k]).1 <= count_true(seen@) && stack@[k].0 < n,
                    d + 1 <= count_true(seen@),
                    count_true(seen@) <= n,
                    inc == registry_incident(self.edges(), v as int, outgoing),
                decreases es@.len() - i,
            {
                let other = if outgoing { es[i].1 } else { es[i].0 };
                proof {
                    assert(inc[i as int] == (es@[i as int].0 as int, es@[i as int].1 as int, es@[i as int].2));
                }
                let ghost sv = entries_view(stack@);
                stack.push((other, d + 1));
                proof {
                    assert(entries_view(stack@) =~= sv.push((other as int, (d + 1) as nat)));
                    assert(next_entries(self.edges(), v as int, d as nat, outgoing).take(i as int + 1) =~= next_entries(
                        self.edges(),
                        v as int,
                        d as nat,
                        outgoing,
                    ).take(i as int).push((other as int, (d + 1) as nat)));
                }
                i = i + 1;
            }
            proof {
                assert(next_entries(self.edges(), v as int, d as nat, outgoing).take(inc.len() as int) =~= next_entries(
                    self.edges(),
                    v as int,
                    d as nat,
                    outgoing,
                ));
                assert(seen@ =~= seen_old.update(v as int, true));
                assert(entries_view(found@) == if v != start { found_old.push((v as int, d as nat)) } else { found_old });
                assert(closure_walk(self.edges(), start as int, outgoing, max, full, seen_old, found_old) == closure_walk(
                    self.edges(),
                    start as int,
                    outgoing,
                    max,
                    rest + next_entries(self.edges(), v as int, d as nat, outgoing),
                    seen_old.update(v as int, true),
                    if v != start { found_old.push((v as int, d as nat)) } else { found_old },
                ));
            }
        }
        // sort by depth, ties in visiting order
        let mut sorted: Vec<(usize, usize)> = Vec::new();
        let mut i: usize = 0;
        proof {
            assert(entries_view(found@).take(0) =~= Seq::<(int, nat)>::empty());
            assert(entries_view(sorted@) =~= sort_by_depth(entries_view(found@).take(0)));
        }
        while i < found.len()
            invariant
                i <= found@.len(),
                entries_view(sorted@) == sort_by_depth(entries_view(found@).take(i as int)),
                forall|k: int| 0 <= k < found@.len() ==> (#[trigger] found@[k]).0 < n,
                forall|k: int| 0 <= k < sorted@.len() ==> (#[trigger] sorted@[k]).0 < n,
            decreases found@.len() - i,
        {
            proof {
                let t = entries_view(found@).take(i as int + 1);
                assert(t.drop_last() =~= entries_view(found@).take(i as int));
            }
            let ghost sv = sorted@;
            insert_entry(&mut sorted, found[i]);
            proof {
                assert forall|k: int| 0 <= k < sorted@.len() implies (#[trigger] sorted@[k]).0 < n by {
                    if sorted@[k] != found@[i as int] {
                        let j = choose|j: int| 0 <= j < sv.len() && sv[j] == sorted@[k];
                    }
                }
            }
            i = i + 1;
        }
        let mut out: Vec<ClosureNode> = Vec::new();
        let mut k: usize = 0;
        while k < sorted.len()
            invariant
                k <= sorted@.len(),
                forall|m: int| 0 <= m < sorted@.len() ==> (#[trigger] sorted@[m]).0 < n,
                n == self.nodes@.len(),
                self.wf(),
                out@.map_values(|c: ClosureNode| closure_view(c)) == closure_nodes(self.ids(), self.cycles(), entries_view(sorted@).take(k as int)),
            decreases sorted@.len() - k,
        {
            let (v, d) = sorted[k];
            let nid = self.nodes[v].id.clone();
            let boundary = cycles_hold(&self.scc_groups, nid.as_str());
            let ghost before = out@.map_values(|c: ClosureNode| closure_view(c));
            out.push(ClosureNode { id: nid, depth: d, scc_boundary: boundary });
            proof {
                assert(out@.map_values(|c: ClosureNode| closure_view(c)) =~= before.push(closure_view(out@[k as int])));
                assert(entries_view(sorted@).take(k as int + 1) =~= entries_view(sorted@).take(k as int).push((v as int, d as nat)));
            }
            k = k + 1;
        }
        proof {
            assert(entries_view(sorted@).take(sorted@.len() as int) =~= entries_view(sorted@));
            assert(entries_view(found@).take(found@.len() as int) =~= entries_view(found@));
        }
        out
    }
}

// ---------------------------------------------------------------------------
// Kinds and imports
// ---------------------------------------------------------------------------

/// The kinds of the schemas that their ids find.
pub open spec fn kind_set(ns: Seq<SchemaNode>) -> Set<Seq<char>> {
    Set::new(
        |k: Seq<char>|
            exists|j: int| 0 <= j < ns.len() && found_at(schema_ids(ns), j) && #[trigger] opt_view(ns[j].kind) == Some(k),
    )
}

/// The directory of a schema file: the pieces of its path but the last,
/// joined with `/`.
pub open spec fn dir_text(path: Seq<char>) -> Seq<char> {
    join(dir_parts(path), "/"@)
}

/// The import of the type `name` from the directory `dir` in a language:
/// Rust, TypeScript (`typescript` or `ts`) or Python (`python` or `py`).
pub open spec fn import_line(lang: Seq<char>, dir: Seq<char>, name: Seq<char>) -> Option<Seq<char>> {
    if lang == "rust"@ {
        Some("use crate::"@ + replaced(dir, "/"@, "::"@) + "::"@ + name + ";"@)
    } else if lang == "typescript"@ || lang == "ts"@ {
        Some("import { "@ + name + " } from '@familiar/schemas/"@ + dir + "';"@)
    } else if lang == "python"@ || lang == "py"@ {
        Some("from familiar.schemas."@ + replaced(dir, "/"@, "."@) + " import "@ + name)
    } else {
        None
    }
}

/// The imports of the schemas, in order, in a language.
pub open spec fn import_lines(ns: Seq<SchemaNode>, lang: Seq<char>) -> Seq<Seq<char>>
    decreases ns.len(),
{
    if ns.len() == 0 {
        Seq::empty()
    } else {
        import_lines(ns.drop_last(), lang) + match import_line(lang, dir_text(ns.last().path@), schema_name(ns.last())) {
            Some(l) => seq![l],
            None => Seq::empty(),
        }
    }
}

/// The directory of a schema file.
fn dir_of(path: &str) -> (res: String)
    ensures
        res@ == dir_text(path@),
{
    let pv = chars_of(path);
    let parts = split_chars(&pv, '/');
    let mut kept = keep_parts(&parts);
    if kept.len() > 0 {
        kept.pop();
    }
    proof {
        assert(views_of(kept@) == dir_parts(path@));
    }
    let mut out = String::new();
    let mut k: usize = 0;
    proof {
        assert(views_of(kept@).take(0) =~= Seq::<Seq<char>>::empty());
    }
    while k < kept.len()
        invariant
            k <= kept@.len(),
            out@ == join(views_of(kept@).take(k as int), "/"@),
        decreases kept@.len() - k,
    {
        let piece = string_from_chars(&kept[k]);
        if k > 0 {
            out.append("/");
        }
        out.append(piece.as_str());
        proof {
            crate::text::lemma_join_push(views_of(kept@).take(k as int), "/"@, kept@[k as int]@);
            assert(views_of(kept@).take(k as int).push(kept@[k as int]@) =~= views_of(kept@).take(k as int + 1));
        }
        k = k + 1;
    }
    proof {
        assert(views_of(kept@).take(kept@.len() as int) =~= views_of(kept@));
    }
    out
}

/// The import of a schema's type in a language.
fn import_for(n: &SchemaNode, lang: &str) -> (res: Option<String>)
    ensures
        opt_view(res) == import_line(lang@, dir_text(n.path@), schema_name(*n)),
{
    let name = name_of(n);
    let dir = dir_of(n.path.as_str());
    let lv = chars_of(lang);
    proof {
        reveal_strlit("/");
    }
    if crate::text::chars_is(&lv, "rust") {
        let mut s = owned("use crate::");
        s.append(replace_all(dir.as_str(), "/", "::").as_str());
        s.append("::");
        s.append(name.as_str());
        s.append(";");
        Some(s)
    } else if crate::text::chars_is(&lv, "typescript") || crate::text::chars_is(&lv, "ts") {
        let mut s = owned("import { ");
        s.append(name.as_str());
        s.append(" } from '@familiar/schemas/");
        s.append(dir.as_str());
        s.append("';");
        Some(s)
    } else if crate::text::chars_is(&lv, "python") || crate::text::chars_is(&lv, "py") {
        let mut s = owned("from familiar.schemas.");
        s.append(replace_all(dir.as_str(), "/", ".").as_str());
        s.append(" import ");
        s.append(name.as_str());
        Some(s)
    } else {
        None
    }
}

impl SchemaGraph {
    /// The distinct kinds of the schemas, sorted.
    pub fn all_kinds(&self) -> (res: Vec<String>)
        requires
            self.wf(),
        ensures
            strictly_sorted(texts_of(res@)),
            texts_of(res@).to_set() == kind_set(self.nodes()),
    {
        let mut out: Vec<String> = Vec::new();
        let mut j: usize = 0;
        proof {
            assert(texts_of(out@).to_set() =~= Set::<Seq<char>>::empty());
        }
        while j < self.nodes.len()
            invariant
                j <= self.nodes@.len(),
                strictly_sorted(texts_of(out@)),
                texts_of(out@).to_set() == Set::new(
                    |k: Seq<char>|
                        exists|m: int| 0 <= m < j && found_at(schema_ids(self.nodes@), m) && #[trigger] opt_view(self.nodes@[m].kind) == Some(k),
                ),
            decreases self.nodes@.len() - j,
        {
            let ghost before = texts_of(out@).to_set();
            let hit = last_node(&self.nodes, self.nodes[j].id.as_str(), false);
            if hit == Some(j) {
                if let Some(k) = &self.nodes[j].kind {
                    insert_sorted(&mut out, k.clone());
                }
            }
            proof {
                let next = Set::new(
                    |k: Seq<char>|
                        exists|m: int| 0 <= m < j + 1 && found_at(schema_ids(self.nodes@), m) && #[trigger] opt_view(self.nodes@[m].kind) == Some(k),
                );
                assert forall|k: Seq<char>| texts_of(out@).to_set().contains(k) <==> next.contains(k) by {
                    if next.contains(k) {
                        let m = choose|m: int| 0 <= m < j + 1 && found_at(schema_ids(self.nodes@), m) && #[trigger] opt_view(self.nodes@[m].kind) == Some(k);
                        if m < j {
                            assert(before.contains(k));
                        }
                    }
                    if before.contains(k) {
                        let m = choose|m: int| 0 <= m < j && found_at(schema_ids(self.nodes@), m) && #[trigger] opt_view(self.nodes@[m].kind) == Some(k);
                        assert(next.contains(k));
                    }
                    if texts_of(out@).to_set().contains(k) && !before.contains(k) {
                        assert(opt_view(self.nodes@[j as int].kind) == Some(k));
                    }
                }
                assert(texts_of(out@).to_set() =~= next);
            }
            j = j + 1;
        }
        proof {
            assert(texts_of(out@).to_set() =~= kind_set(self.nodes@));
        }
        out
    }

    /// The schemas found for closure entries, in order.
    pub open spec fn dep_nodes(&self, cs: Seq<(Seq<char>, nat, bool)>) -> Seq<SchemaNode>
        decreases cs.len(),
    {
        if cs.len() == 0 {
            Seq::empty()
        } else {
            self.dep_nodes(cs.drop_last()) + match last_pos(self.ids(), cs.last().0) {
                Some(j) => seq![self.nodes()[j]],
                None => Seq::empty(),
            }
        }
    }

    /// The schemas whose imports `imports_for` writes: the schema itself,
    /// then those one edge away.
    pub open spec fn import_nodes(&self, id: Seq<char>) -> Seq<SchemaNode> {
        (match last_pos(self.ids(), id) {
            Some(j) => seq![self.nodes()[j]],
            None => Seq::empty(),
        }) + self.dep_nodes(self.closure_of(id, true, Some(1usize)))
    }

    /// The import statements for a schema and the schemas it refers to
    /// directly, in `rust`, `typescript` (`ts`) or `python` (`py`); sorted,
    /// without repeats. Nothing for another language or an unknown id.
    pub fn imports_for(&self, id: &str, lang: &str) -> (res: Vec<String>)
        requires
            self.wf(),
        ensures
            strictly_sorted(texts_of(res@)),
            texts_of(res@).to_set() == import_lines(self.import_nodes(id@), lang@).to_set(),
    {
        let deps = self.closure(id, true, Some(1));
        let mut imports: Vec<String> = Vec::new();
        let ghost mut chosen: Seq<SchemaNode> = Seq::empty();
        proof {
            assert(texts_of(imports@).to_set() =~= import_lines(chosen, lang@).to_set());
            assert(schema_ids(self.nodes@) =~= self.ids());
        }
        if let Some(n) = self.get(id) {
            if let Some(l) = import_for(n, lang) {
                insert_sorted(&mut imports, l);
            }
            proof {
                lemma_lines_push(chosen, *n, lang@);
                chosen = chosen.push(*n);
                assert(texts_of(imports@).to_set() =~= import_lines(chosen, lang@).to_set());
            }
        }
        let ghost head = chosen;
        proof {
            assert(head =~= match last_pos(self.ids(), id@) {
                Some(j) => seq![self.nodes()[j]],
                None => Seq::<SchemaNode>::empty(),
            });
        }
        let ghost dv = deps@.map_values(|c: ClosureNode| closure_view(c));
        let mut i: usize = 0;
        proof {
            assert(dv.take(0) =~= Seq::<(Seq<char>, nat, bool)>::empty());
            assert(chosen =~= head + self.dep_nodes(dv.take(0)));
        }
        while i < deps.len()
            invariant
                self.wf(),
                i <= deps@.len(),
                dv == deps@.map_values(|c: ClosureNode| closure_view(c)),
                chosen == head + self.dep_nodes(dv.take(i as int)),
                strictly_sorted(texts_of(imports@)),
                texts_of(imports@).to_set() == import_lines(chosen, lang@).to_set(),
            decreases deps@.len() - i,
        {
            let ghost before = chosen;
            proof {
                assert(dv[i as int] == closure_view(deps@[i as int]));
                let t = dv.take(i as int + 1);
                assert(t.drop_last() =~= dv.take(i as int));
                assert(t.last() == dv[i as int]);
            }
            match self.get(deps[i].id.as_str()) {
                Some(n) => {
                    if let Some(l) = import_for(n, lang) {
                        insert_sorted(&mut imports, l);
                    }
                    proof {
                        lemma_lines_push(before, *n, lang@);
                        chosen = before.push(*n);
                        assert(chosen =~= head + self.dep_nodes(dv.take(i as int + 1)));
                    }
                },
                None => {
                    proof {
                        assert(chosen =~= head + self.dep_nodes(dv.take(i as int + 1)));
                    }
                },
            }
            i = i + 1;
        }
        proof {
            assert(dv.take(dv.len() as int) =~= dv);
        }
        imports
    }
}

proof fn lemma_lines_push(ns: Seq<SchemaNode>, n: SchemaNode, lang: Seq<char>)
    ensures
        import_lines(ns.push(n), lang).to_set() == match import_line(lang, dir_text(n.path@), schema_name(n)) {
            Some(l) => import_lines(ns, lang).to_set().insert(l),
            None => import_lines(ns, lang).to_set(),
        },
{
    assert(ns.push(n).drop_last() =~= ns);
    assert(ns.push(n).last() == n);
    let a = import_lines(ns, lang);
    match import_line(lang, dir_text(n.path@), schema_name(n)) {
        Some(l) => {
            assert(import_lines(ns.push(n), lang) =~= a + seq![l]);
            assert forall|x: Seq<char>| (a + seq![l]).to_set().contains(x) <==> a.to_set().insert(l).contains(x) by {
                if (a + seq![l]).to_set().contains(x) {
                    let k = choose|k: int| 0 <= k < (a + seq![l]).len() && (a + seq![l])[k] == x;
                    if k < a.len() {
                        assert(a[k] == x);
                    }
                }
                if a.to_set().contains(x) {
                    let k = choose|k: int| 0 <= k < a.len() && a[k] == x;
                    assert((a + seq![l])[k] == x);
                }
                if x == l {
                    assert((a + seq![l])[a.len() as int] == x);
                }
            }
            assert((a + seq![l]).to_set() =~= a.to_set().insert(l));
        },
        None => {
            assert(import_lines(ns.push(n), lang) =~= a);
        },
    }
}

// ---------------------------------------------------------------------------
// Artifacts through the graph
// ---------------------------------------------------------------------------

/// The id of an artifact: the one assigned, or else `lang:type`.
pub open spec fn artifact_id_of(a: GeneratedArtifact) -> Seq<char> {
    if a.id@.len() == 0 {
        crate::mcp::graph::artifact_key(a.lang@, a.ty_name@)
    } else {
        a.id@
    }
}

/// The artifacts other than the one with id `aid`, in order.
pub open spec fn others(arts: Seq<GeneratedArtifact>, aid: Seq<char>) -> Seq<GeneratedArtifact>
    decreases arts.len(),
{
    if arts.len() == 0 {
        Seq::empty()
    } else {
        others(arts.drop_last(), aid) + if artifact_id_of(arts.last()) != aid {
            seq![arts.last()]
        } else {
            Seq::empty()
        }
    }
}

/// The nodes their ids find, in node order.
pub open spec fn found_nodes(ns: Seq<SchemaNode>, n: int) -> Seq<SchemaNode>
    decreases n,
{
    if n <= 0 {
        Seq::empty()
    } else {
        found_nodes(ns, n - 1) + if found_at(schema_ids(ns), n - 1) {
            seq![ns[n - 1]]
        } else {
            Seq::empty()
        }
    }
}

impl SchemaGraph {
    /// The artifacts of the schemas of closure entries, in order.
    pub open spec fn entry_artifacts(&self, cs: Seq<(Seq<char>, nat, bool)>) -> Seq<GeneratedArtifact>
        decreases cs.len(),
    {
        if cs.len() == 0 {
            Seq::empty()
        } else {
            self.entry_artifacts(cs.drop_last()) + lookup_all(self.artifact_table(), self.schema_artifact_ids(cs.last().0))
        }
    }

    /// The artifacts a change to a schema affects: its own, then those of
    /// every schema that depends on it, directly or not, in closure order.
    pub fn affected_artifacts(&self, schema_id: &str) -> (res: Vec<GeneratedArtifact>)
        requires
            self.wf(),
        ensures
            res@ == lookup_all(self.artifact_table(), self.schema_artifact_ids(schema_id@)) + self.entry_artifacts(
                self.closure_of(schema_id@, false, None),
            ),
    {
        let dependents = self.closure(schema_id, false, None);
        let ghost dv = dependents@.map_values(|c: ClosureNode| closure_view(c));
        let mut affected = self.get_artifacts(schema_id);
        let ghost head = affected@;
        let mut i: usize = 0;
        proof {
            assert(dv.take(0) =~= Seq::<(Seq<char>, nat, bool)>::empty());
            assert(affected@ =~= head + self.entry_artifacts(dv.take(0)));
        }
        while i < dependents.len()
            invariant
                i <= dependents@.len(),
                dv == dependents@.map_values(|c: ClosureNode| closure_view(c)),
                affected@ == head + self.entry_artifacts(dv.take(i as int)),
            decreases dependents@.len() - i,
        {
            let mut more = self.get_artifacts(dependents[i].id.as_str());
            proof {
                assert(dv[i as int] == closure_view(dependents@[i as int]));
                let t = dv.take(i as int + 1);
                assert(t.drop_last() =~= dv.take(i as int));
                assert(t.last() == dv[i as int]);
            }
            let ghost before = affected@;
            let ghost mv = more@;
            affected.append(&mut more);
            proof {
                assert(affected@ =~= head + self.entry_artifacts(dv.take(i as int + 1)));
            }
            i = i + 1;
        }
        proof {
            assert(dv.take(dv.len() as int) =~= dv);
        }
        affected
    }

    /// The schemas an artifact needs: the schema it was generated from, then
    /// every schema that one depends on, directly or not, in closure order.
    /// Nothing for an unknown artifact.
    pub fn artifact_dependencies(&self, artifact_id: &str) -> (res: Vec<&SchemaNode>)
        requires
            self.wf(),
        ensures
            res@.map_values(|r: &SchemaNode| *r) == match self.artifact_schema(artifact_id@) {
                Some(sid) => (match last_pos(self.ids(), sid) {
                    Some(j) => seq![self.nodes()[j]],
                    None => Seq::empty(),
                }) + self.dep_nodes(self.closure_of(sid, true, None)),
                None => Seq::empty(),
            },
    {
        let schema_id: &str = match self.get_artifact_schema(artifact_id) {
            Some(s) => s,
            None => {
                let res: Vec<&SchemaNode> = Vec::new();
                proof {
                    assert(res@.map_values(|r: &SchemaNode| *r) =~= Seq::<SchemaNode>::empty());
                }
                return res;
            },
        };
        let deps = self.closure(schema_id, true, None);
        let mut result: Vec<&SchemaNode> = Vec::new();
        if let Some(node) = self.get(schema_id) {
            result.push(node);
        }
        let ghost head = result@.map_values(|r: &SchemaNode| *r);
        proof {
            assert(head =~= match last_pos(self.ids(), schema_id@) {
                Some(j) => seq![self.nodes()[j]],
                None => Seq::<SchemaNode>::empty(),
            });
        }
        let ghost dv = deps@.map_values(|c: ClosureNode| closure_view(c));
        let mut i: usize = 0;
        proof {
            assert(dv.take(0) =~= Seq::<(Seq<char>, nat, bool)>::empty());
            assert(result@.map_values(|r: &SchemaNode| *r) =~= head + self.dep_nodes(dv.take(0)));
        }
        while i < deps.len()
            invariant
                self.wf(),
                i <= deps@.len(),
                dv == deps@.map_values(|c: ClosureNode| closure_view(c)),
                result@.map_values(|r: &SchemaNode| *r) == head + self.dep_nodes(dv.take(i as int)),
            decreases deps@.len() - i,
        {
            proof {
                assert(dv[i as int] == closure_view(deps@[i as int]));
                let t = dv.take(i as int + 1);
                assert(t.drop_last() =~= dv.take(i as int));
                assert(t.last() == dv[i as int]);
            }
            let ghost before = result@.map_values(|r: &SchemaNode| *r);
            if let Some(node) = self.get(deps[i].id.as_str()) {
                result.push(node);
                proof {
                    assert(result@.map_values(|r: &SchemaNode| *r) =~= before.push(*node));
                }
            }
            proof {
                assert(result@.map_values(|r: &SchemaNode| *r) =~= head + self.dep_nodes(dv.take(i as int + 1)));
            }
            i = i + 1;
        }
        proof {
            assert(dv.take(dv.len() as int) =~= dv);
        }
        result
    }

    /// The other artifacts generated into the same file as this one.
    pub fn colocated_artifacts(&self, artifact_id: &str) -> (res: Vec<GeneratedArtifact>)
        ensures
            res@ == match assoc(self.artifact_table(), artifact_id@) {
                Some(a) => others(lookup_all(self.artifact_table(), self.file_artifact_ids(a.file@)), artifact_id@),
                None => Seq::empty(),
            },
    {
        let file = match self.get_artifact_by_id(artifact_id) {
            Some(a) => a.file.clone(),
            None => {
                return Vec::new();
            },
        };
        let all = self.get_file_artifacts(file.as_str());
        let mut out: Vec<GeneratedArtifact> = Vec::new();
        let mut i: usize = 0;
        while i < all.len()
            invariant
                i <= all@.len(),
                out@ == others(all@.take(i as int), artifact_id@),
            decreases all@.len() - i,
        {
            proof {
                let t = all@.take(i as int + 1);
                assert(t.drop_last() =~= all@.take(i as int));
                assert(t.last() == all@[i as int]);
            }
            let aid = all[i].artifact_id();
            if !str_eq(aid.as_str(), artifact_id) {
                out.push(all[i].copy());
            }
            i = i + 1;
        }
        proof {
            assert(all@.take(all@.len() as int) =~= all@);
        }
        out
    }

    /// The schemas, one per id, in node order.
    pub fn all_schemas(&self) -> (res: Vec<&SchemaNode>)
        requires
            self.wf(),
        ensures
            res@.map_values(|r: &SchemaNode| *r) == found_nodes(self.nodes(), self.nodes().len() as int),
    {
        let mut out: Vec<&SchemaNode> = Vec::new();
        let mut j: usize = 0;
        proof {
            assert(out@.map_values(|r: &SchemaNode| *r) =~= Seq::<SchemaNode>::empty());
        }
        while j < self.nodes.len()
            invariant
                j <= self.nodes@.len(),
                out@.map_values(|r: &SchemaNode| *r) == found_nodes(self.nodes@, j as int),
            decreases self.nodes@.len() - j,
        {
            let ghost before = out@.map_values(|r: &SchemaNode| *r);
            if last_node(&self.nodes, self.nodes[j].id.as_str(), false) == Some(j) {
                out.push(&self.nodes[j]);
                proof {
                    assert(out@.map_values(|r: &SchemaNode| *r) =~= before.push(self.nodes@[j as int]));
                }
            }
            j = j + 1;
        }
        out
    }

    /// The schema ids, each once, in node order.
    pub fn all_ids(&self) -> (res: Vec<String>)
        requires
            self.wf(),
        ensures
            texts(res@) == found_nodes(self.nodes(), self.nodes().len() as int).map_values(|n: SchemaNode| n.id@),
    {
        let nodes = self.all_schemas();
        let mut out: Vec<String> = Vec::new();
        let mut i: usize = 0;
        while i < nodes.len()
            invariant
                i <= nodes@.len(),
                texts(out@) == nodes@.take(i as int).map_values(|r: &SchemaNode| r.id@),
            decreases nodes@.len() - i,
        {
            let ghost before = texts(out@);
            out.push(nodes[i].id.clone());
            proof {
                assert(texts(out@) =~= before.push(nodes@[i as int].id@));
                assert(nodes@.take(i as int + 1) =~= nodes@.take(i as int).push(nodes@[i as int]));
            }
            i = i + 1;
        }
        proof {
            assert(nodes@.take(nodes@.len() as int) =~= nodes@);
            assert(nodes@.map_values(|r: &SchemaNode| r.id@) =~= found_nodes(self.nodes(), self.nodes().len() as int).map_values(
                |n: SchemaNode| n.id@,
            ));
        }
        out
    }
}

// ---------------------------------------------------------------------------
// Artifact indexes
// ---------------------------------------------------------------------------

/// The value of a decimal digit string.
pub open spec fn digits_value(s: Seq<char>) -> int
    decreases s.len(),
{
    if s.len() == 0 {
        0
    } else {
        digits_value(s.drop_last()) * 10 + (s.last() as int - '0' as int)
    }
}

/// Whether every character is a decimal digit.
pub open spec fn all_digits(s: Seq<char>) -> bool {
    forall|i: int| 0 <= i < s.len() ==> '0' <= #[trigger] s[i] <= '9'
}

/// A JSON number's value as an unsigned 64-bit integer, when its text is a
/// plain non-negative integer in range.
pub open spec fn json_u64(v: Option<Json>) -> Option<u64> {
    match v {
        Some(Json::Number(t)) => if t@.len() > 0 && all_digits(t@) && digits_value(t@) <= u64::MAX {
            Some(digits_value(t@) as u64)
        } else {
            None
        },
        _ => None,
    }
}

/// The fields of an artifact index entry, when all are present: schema path,
/// language, file, line (the low 32 bits), type name and type kind.
pub open spec fn index_entry(e: Json) -> Option<(Seq<char>, Seq<char>, Seq<char>, u32, Seq<char>, Seq<char>)> {
    match (
        json_str(json_get(e, "schema_path"@)),
        json_str(json_get(e, "lang"@)),
        json_str(json_get(e, "file"@)),
        json_u64(json_get(e, "line"@)),
        json_str(json_get(e, "type_name"@)),
        json_str(json_get(e, "type_kind"@)),
    ) {
        (Some(sp), Some(l), Some(f), Some(n), Some(t), Some(k)) => Some((sp, l, f, (n % 0x1_0000_0000) as u32, t, k)),
        _ => None,
    }
}

/// The schema an index entry's path names: the schema file at that path,
/// else what the path resolves to.
pub open spec fn entry_schema(ns: Seq<SchemaNode>, sp: Seq<char>) -> Option<Seq<char>> {
    match last_pos(schema_paths(ns), sp) {
        Some(j) => Some(ns[j].id@),
        None => resolved(ns, sp),
    }
}

/// An artifact as plain values: id, language, file, line, type name, kind.
pub open spec fn artifact_view(a: GeneratedArtifact) -> (Seq<char>, Seq<char>, Seq<char>, u32, Seq<char>, Seq<char>) {
    (a.id@, a.lang@, a.file@, a.line, a.ty_name@, a.type_kind@)
}

/// The registrations an artifact index asks for, in order: each complete
/// entry whose schema is found, with its artifact id made from language and
/// type name.
pub open spec fn index_registrations(ns: Seq<SchemaNode>, entries: Seq<Json>) -> Seq<(Seq<char>, (Seq<char>, Seq<char>, Seq<char>, u32, Seq<char>, Seq<char>))>
    decreases entries.len(),
{
    if entries.len() == 0 {
        Seq::empty()
    } else {
        index_registrations(ns, entries.drop_last()) + match index_entry(entries.last()) {
            Some((sp, l, f, n, t, k)) => match entry_schema(ns, sp) {
                Some(sid) => seq![(sid, (crate::mcp::graph::artifact_key(l, t), l, f, n, t, k))],
                None => Seq::empty(),
            },
            None => Seq::empty(),
        }
    }
}

/// The value of a JSON number when it is a plain integer in range.
fn number_u64(v: Option<&Json>) -> (res: Option<u64>)
    ensures
        res == json_u64(
            match v {
                Some(x) => Some(*x),
                None => None,
            },
        ),
{
    match v {
        Some(Json::Number(t)) => {
            let cs = chars_of(t.as_str());
            if cs.len() == 0 {
                return None;
            }
            let mut acc: u64 = 0;
            let mut i: usize = 0;
            while i < cs.len()
                invariant
                    i <= cs@.len(),
                    cs@ == t@,
                    cs@.len() > 0,
                    v matches Some(x) && *x == Json::Number(*t),
                    all_digits(cs@.take(i as int)),
                    acc as int == digits_value(cs@.take(i as int)),
                decreases cs@.len() - i,
            {
                proof {
                    let w = cs@.take(i as int + 1);
                    assert(w.drop_last() =~= cs@.take(i as int));
                    assert(w.last() == cs@[i as int]);
                }
                let c = cs[i];
                if !('0' <= c && c <= '9') {
                    proof {
                        assert(!all_digits(t@)) by {
                            assert(!('0' <= t@[i as int] && t@[i as int] <= '9'));
                        }
                    }
                    return None;
                }
                let d = (c as u32 - '0' as u32) as u64;
                proof {
                    assert(d as int == c as int - '0' as int);
                }
                if acc > (u64::MAX - d) / 10 {
                    proof {
                        lemma_digits_grow(cs@, i as int + 1);
                        assert(digits_value(cs@.take(i as int + 1)) == acc * 10 + d);
                        assert(acc * 10 + d > u64::MAX) by (nonlinear_arith)
                            requires
                                acc > (u64::MAX - d) / 10,
                                d <= 9,
                        ;
                        if all_digits(t@) {
                            assert(all_digits(cs@.take(i as int + 1)));
                            lemma_digits_mono(cs@, i as int + 1);
                        }
                    }
                    return None;
                }
                acc = acc * 10 + d;
                proof {
                    assert(all_digits(cs@.take(i as int + 1))) by {
                        assert forall|k: int| 0 <= k < i + 1 implies '0' <= #[trigger] cs@.take(i as int + 1)[k] <= '9' by {
                            if k < i {
                                assert(cs@.take(i as int + 1)[k] == cs@.take(i as int)[k]);
                            }
                        }
                    }
                }
                i = i + 1;
            }
            proof {
                assert(cs@.take(cs@.len() as int) =~= cs@);
            }
            Some(acc)
        },
        _ => None,
    }
}

proof fn lemma_digits_grow(s: Seq<char>, n: int)
    requires
        0 < n <= s.len(),
    ensures
        digits_value(s.take(n)) == digits_value(s.take(n - 1)) * 10 + (s[n - 1] as int - '0' as int),
{
    assert(s.take(n).drop_last() =~= s.take(n - 1));
}

/// A prefix of a digit string has no larger value than the whole.
proof fn lemma_digits_mono(s: Seq<char>, n: int)
    requires
        0 <= n <= s.len(),
        all_digits(s),
    ensures
        digits_value(s.take(n)) <= digits_value(s),
    decreases s.len() - n,
{
    if n < s.len() {
        lemma_digits_mono(s, n + 1);
        lemma_digits_grow(s, n + 1);
        lemma_digits_nonneg(s.take(n));
        assert('0' <= s[n] <= '9');
        assert(s.take(n + 1) =~= s.take(n + 1));
    } else {
        assert(s.take(n) =~= s);
    }
}

proof fn lemma_digits_nonneg(s: Seq<char>)
    requires
        all_digits(s),
    ensures
        digits_value(s) >= 0,
    decreases s.len(),
{
    if s.len() > 0 {
        assert(all_digits(s.drop_last())) by {
            assert forall|i: int| 0 <= i < s.drop_last().len() implies '0' <= #[trigger] s.drop_last()[i] <= '9' by {
                assert(s.drop_last()[i] == s[i]);
            }
        }
        lemma_digits_nonneg(s.drop_last());
        assert('0' <= s[s.len() - 1] <= '9');
    }
}

impl SchemaGraph {
    /// The registrations an artifact index file asks for (see
    /// `index_registrations`): for each entry with a schema path, language,
    /// file, line, type name and kind, whose schema is found by path or by
    /// `resolve`, the schema id and the artifact, its id `lang:type`.
    pub fn artifact_entries(&self, entries: &Vec<Json>) -> (res: Vec<(String, GeneratedArtifact)>)
        requires
            self.wf(),
        ensures
            res@.map_values(|p: (String, GeneratedArtifact)| (p.0@, artifact_view(p.1))) == index_registrations(self.nodes(), entries@),
    {
        let mut out: Vec<(String, GeneratedArtifact)> = Vec::new();
        let mut i: usize = 0;
        proof {
            assert(entries@.take(0) =~= Seq::<Json>::empty());
            assert(out@.map_values(|p: (String, GeneratedArtifact)| (p.0@, artifact_view(p.1))) =~= index_registrations(self.nodes(), entries@.take(0)));
        }
        while i < entries.len()
            invariant
                self.wf(),
                i <= entries@.len(),
                out@.map_values(|p: (String, GeneratedArtifact)| (p.0@, artifact_view(p.1))) == index_registrations(
                    self.nodes(),
                    entries@.take(i as int),
                ),
            decreases entries@.len() - i,
        {
            proof {
                let t = entries@.take(i as int + 1);
                assert(t.drop_last() =~= entries@.take(i as int));
                assert(t.last() == entries@[i as int]);
            }
            let ghost before = out@.map_values(|p: (String, GeneratedArtifact)| (p.0@, artifact_view(p.1)));
            let e = &entries[i];
            let sp = crate::json::get_str(e, "schema_path");
            let lang = crate::json::get_str(e, "lang");
            let file = crate::json::get_str(e, "file");
            let line = number_u64(e.get("line"));
            let tn = crate::json::get_str(e, "type_name");
            let tk = crate::json::get_str(e, "type_kind");
            if let (Some(sp), Some(lang), Some(file), Some(line), Some(tn), Some(tk)) = (sp, lang, file, line, tn, tk) {
                proof {
                    assert(schema_paths(self.nodes@) == schema_paths(self.nodes()));
                }
                let sid = match last_node(&self.nodes, sp.as_str(), true) {
                    Some(j) => Some(self.nodes[j].id.clone()),
                    None => self.resolve(sp.as_str()),
                };
                if let Some(sid) = sid {
                    let id = GeneratedArtifact::make_id(lang.as_str(), tn.as_str());
                    let art = GeneratedArtifact {
                        id,
                        lang,
                        file,
                        line: (line % 0x1_0000_0000) as u32,
                        ty_name: tn,
                        type_kind: tk,
                    };
                    out.push((sid, art));
                    proof {
                        assert(out@.map_values(|p: (String, GeneratedArtifact)| (p.0@, artifact_view(p.1))) =~= before.push(
                            (out@[out@.len() - 1].0@, artifact_view(out@[out@.len() - 1].1)),
                        ));
                    }
                }
            }
            proof {
                assert(out@.map_values(|p: (String, GeneratedArtifact)| (p.0@, artifact_view(p.1))) =~= index_registrations(
                    self.nodes(),
                    entries@.take(i as int + 1),
                ));
            }
            i = i + 1;
        }
        proof {
            assert(entries@.take(entries@.len() as int) =~= entries@);
        }
        out
    }

    /// Registers the artifacts that the text of an artifact index file (a
    /// JSON array) lists, as `load_artifact_index` does; a text that is not
    /// such an array changes nothing and gives the parser's error.
    pub fn load_artifact_index_text(&mut self, text: &str) -> (res: Result<usize, String>)
        requires
            old(self).wf(),
        ensures
            final(self).wf(),
            match json_array_value(encode_utf8(text@)) {
                Err(e) => res matches Err(m) && m@ == e && *final(self) == *old(self),
                Ok(vs) => res matches Ok(n) && exists|entries: Seq<Json>| #[trigger] jv_items(entries) == vs
                    && n == index_registrations(old(self).nodes(), entries).len(),
            },
            final(self).ids() == old(self).ids(),
            final(self).edges() == old(self).edges(),
            final(self).raws() == old(self).raws(),
            final(self).cycles() == old(self).cycles(),
    {
        match parse_array_text(text) {
            Err(e) => Err(e),
            Ok(entries) => {
                let ghost es = entries@;
                let n = self.load_artifact_index(&entries);
                proof {
                    assert(jv_items(es) == json_array_value(encode_utf8(text@))->Ok_0);
                }
                Ok(n)
            },
        }
    }

    /// Registers the artifacts an artifact index file lists (see
    /// `artifact_entries`), in order, and returns how many there were.
    pub fn load_artifact_index(&mut self, entries: &Vec<Json>) -> (loaded: usize)
        requires
            old(self).wf(),
        ensures
            final(self).wf(),
            loaded == index_registrations(old(self).nodes(), entries@).len(),
            final(self).ids() == old(self).ids(),
            final(self).edges() == old(self).edges(),
            final(self).raws() == old(self).raws(),
            final(self).cycles() == old(self).cycles(),
    {
        let regs = self.artifact_entries(entries);
        let mut rest = regs;
        let n = rest.len();
        let mut count: usize = 0;
        let ghost ids0 = self.ids();
        let ghost edges0 = self.edges();
        let ghost raws0 = self.raws();
        let ghost cycles0 = self.cycles();
        while rest.len() > 0
            invariant
                self.wf(),
                count + rest@.len() == n,
                self.ids() == ids0,
                self.edges() == edges0,
                self.raws() == raws0,
                self.cycles() == cycles0,
            decreases rest@.len(),
        {
            let (sid, art) = rest.remove(0);
            self.register_artifact(sid.as_str(), art);
            count = count + 1;
        }
        count
    }
}

// ---------------------------------------------------------------------------
// Search
// ---------------------------------------------------------------------------

/// The score `fuzzy_matcher`'s skim matcher (version 2, default settings)
/// gives `choice` for `pattern`, when it matches.
pub uninterp spec fn skim_score(choice: Seq<char>, pattern: Seq<char>) -> Option<i64>;

/// `SkimMatcherV2::default().fuzzy_match(choice, pattern)`.
#[verifier::external_body]
fn skim_match(choice: &str, pattern: &str) -> (r: Option<i64>)
    ensures
        r == skim_score(choice@, pattern@),
{
    fuzzy_matcher::skim::SkimMatcherV2::default().fuzzy_match(choice, pattern)
}

/// The stem of a schema file's name, or nothing.
pub open spec fn path_stem(path: Seq<char>) -> Seq<char> {
    match file_name_of(path) {
        Some(f) => stem_of(f),
        None => Seq::empty(),
    }
}

/// The match of node `j` for a query: by title when the title matches, else
/// by file stem.
pub open spec fn node_match(n: SchemaNode, q: Seq<char>) -> Option<i64> {
    match n.title {
        Some(t) if skim_score(t@, q) is Some => skim_score(t@, q),
        _ => skim_score(path_stem(n.path@), q),
    }
}

/// The matches among the first `n` nodes their ids find: node index and score.
pub open spec fn matches_of(ns: Seq<SchemaNode>, q: Seq<char>, n: int) -> Seq<(int, i64)>
    decreases n,
{
    if n <= 0 {
        Seq::empty()
    } else {
        matches_of(ns, q, n - 1) + if found_at(schema_ids(ns), n - 1) && node_match(ns[n - 1], q) is Some {
            seq![(n - 1, node_match(ns[n - 1], q)->0)]
        } else {
            Seq::empty()
        }
    }
}

/// Inserts `x` after the entries scoring at least as high.
pub open spec fn insert_by_score(s: Seq<(int, i64)>, x: (int, i64)) -> Seq<(int, i64)>
    decreases s.len(),
{
    if s.len() == 0 || s.last().1 >= x.1 {
        s.push(x)
    } else {
        insert_by_score(s.drop_last(), x).push(s.last())
    }
}

/// The matches by descending score, equal scores in their first order.
pub open spec fn sort_by_score(s: Seq<(int, i64)>) -> Seq<(int, i64)>
    decreases s.len(),
{
    if s.len() == 0 {
        s
    } else {
        insert_by_score(sort_by_score(s.drop_last()), s.last())
    }
}

/// Whether the scores of the matches never rise from one to the next.
pub open spec fn scores_descending(s: Seq<(int, i64)>) -> bool {
    forall|i: int, j: int| 0 <= i < j < s.len() ==> (#[trigger] s[i]).1 >= (#[trigger] s[j]).1
}

proof fn lemma_insert_lower(s: Seq<(int, i64)>, x: (int, i64), lo: i64)
    requires
        forall|k: int| 0 <= k < s.len() ==> (#[trigger] s[k]).1 >= lo,
        x.1 >= lo,
    ensures
        forall|k: int| 0 <= k < insert_by_score(s, x).len() ==> (#[trigger] insert_by_score(s, x)[k]).1 >= lo,
    decreases s.len(),
{
    let r = insert_by_score(s, x);
    if s.len() == 0 || s.last().1 >= x.1 {
        assert forall|k: int| 0 <= k < r.len() implies (#[trigger] r[k]).1 >= lo by {
            if k < s.len() {
                assert(r[k] == s[k]);
            }
        }
    } else {
        let t = s.drop_last();
        assert forall|k: int| 0 <= k < t.len() implies (#[trigger] t[k]).1 >= lo by {
            assert(t[k] == s[k]);
        }
        lemma_insert_lower(t, x, lo);
        assert(s[s.len() - 1] == s.last());
        let rt = insert_by_score(t, x);
        assert forall|k: int| 0 <= k < r.len() implies (#[trigger] r[k]).1 >= lo by {
            if k < rt.len() {
                assert(r[k] == rt[k]);
            }
        }
    }
}

proof fn lemma_insert_by_score(s: Seq<(int, i64)>, x: (int, i64))
    ensures
        scores_descending(s) ==> scores_descending(insert_by_score(s, x)),
        insert_by_score(s, x).to_multiset() == s.to_multiset().insert(x),
    decreases s.len(),
{
    broadcast use vstd::seq_lib::group_to_multiset_ensures;
    let r = insert_by_score(s, x);
    if s.len() == 0 || s.last().1 >= x.1 {
        if s.len() > 0 && scores_descending(s) {
            assert forall|i: int, j: int| 0 <= i < j < r.len() implies (#[trigger] r[i]).1 >= (#[trigger] r[j]).1 by {
                if j == s.len() {
                    assert(s[s.len() - 1] == s.last());
                    if i < s.len() - 1 {
                        assert(s[i].1 >= s[s.len() - 1].1);
                    }
                    assert(r[i] == s[i]);
                } else {
                    assert(r[i] == s[i] && r[j] == s[j]);
                }
            }
        }
    } else {
        let t = s.drop_last();
        let l = s.last();
        assert(s[s.len() - 1] == l);
        lemma_insert_by_score(t, x);
        let rt = insert_by_score(t, x);
        assert(r == rt.push(l));
        if scores_descending(s) {
            assert(scores_descending(t)) by {
                assert forall|i: int, j: int| 0 <= i < j < t.len() implies (#[trigger] t[i]).1 >= (#[trigger] t[j]).1 by {
                    assert(t[i] == s[i] && t[j] == s[j]);
                }
            }
            assert forall|k: int| 0 <= k < t.len() implies (#[trigger] t[k]).1 >= l.1 by {
                assert(t[k] == s[k]);
            }
            lemma_insert_lower(t, x, l.1);
            assert forall|i: int, j: int| 0 <= i < j < r.len() implies (#[trigger] r[i]).1 >= (#[trigger] r[j]).1 by {
                assert(r[i] == rt[i]);
                if j < rt.len() {
                    assert(r[j] == rt[j]);
                }
            }
        }
        assert(s == t.push(l));
        assert(r.to_multiset() =~= s.to_multiset().insert(x));
    }
}

/// Sorting by score puts the matches in order of score, best first, and
/// neither adds nor loses a match.
pub proof fn law_sort_by_score(s: Seq<(int, i64)>)
    ensures
        scores_descending(sort_by_score(s)),
        sort_by_score(s).to_multiset() == s.to_multiset(),
    decreases s.len(),
{
    broadcast use vstd::seq_lib::group_to_multiset_ensures;
    if s.len() > 0 {
        law_sort_by_score(s.drop_last());
        lemma_insert_by_score(sort_by_score(s.drop_last()), s.last());
        assert(s == s.drop_last().push(s.last()));
    } else {
        assert(s.to_multiset() =~= vstd::multiset::Multiset::empty());
    }
}

/// Search results come best first: the scores never rise along the results,
/// the results are among the matches, and every match left out by the limit
/// scores no higher than any result kept.
pub proof fn law_search_best_first(ns: Seq<SchemaNode>, q: Seq<char>, limit: nat)
    ensures
        ({
            let all = sort_by_score(matches_of(ns, q, ns.len() as int));
            let k = if limit < all.len() { limit as int } else { all.len() as int };
            let res = results_of(ns, all.take(k));
            &&& forall|i: int, j: int| 0 <= i < j < res.len() ==> (#[trigger] res[i]).4 >= (#[trigger] res[j]).4
            &&& forall|i: int, j: int| 0 <= i < k <= j < all.len() ==> (#[trigger] all[i]).1 >= (#[trigger] all[j]).1
            &&& all.to_multiset() == matches_of(ns, q, ns.len() as int).to_multiset()
        }),
{
    let m = matches_of(ns, q, ns.len() as int);
    law_sort_by_score(m);
    let all = sort_by_score(m);
    let k = if limit < all.len() { limit as int } else { all.len() as int };
    let res = results_of(ns, all.take(k));
    assert forall|i: int, j: int| 0 <= i < j < res.len() implies (#[trigger] res[i]).4 >= (#[trigger] res[j]).4 by {
        assert(res[i].4 == all.take(k)[i].1 && all.take(k)[i] == all[i]);
        assert(res[j].4 == all.take(k)[j].1 && all.take(k)[j] == all[j]);
    }
}

/// A search result as plain values: id, title, kind, path, score.
pub open spec fn result_view(r: SearchResult) -> (Seq<char>, Option<Seq<char>>, Option<Seq<char>>, Seq<char>, i64) {
    (r.id@, opt_view(r.title), opt_view(r.kind), r.path@, r.score)
}

/// The search results for sorted matches.
pub open spec fn results_of(ns: Seq<SchemaNode>, ms: Seq<(int, i64)>) -> Seq<(Seq<char>, Option<Seq<char>>, Option<Seq<char>>, Seq<char>, i64)> {
    ms.map_values(|m: (int, i64)| (ns[m.0].id@, opt_view(ns[m.0].title), opt_view(ns[m.0].kind), ns[m.0].path@, m.1))
}

/// The stem of a schema file's name, or nothing.
fn stem_text(path: &str) -> (res: String)
    ensures
        res@ == path_stem(path@),
{
    let pv = chars_of(path);
    let parts = split_chars(&pv, '/');
    let kept = keep_parts(&parts);
    let stem: Vec<char> = if kept.len() == 0 || chars_is(&kept[kept.len() - 1], "..") {
        Vec::new()
    } else {
        let f = &kept[kept.len() - 1];
        match last_dot_in(f) {
            Some(p) => if p > 0 {
                sub_chars(f, 0, p)
            } else {
                sub_chars(f, 0, f.len())
            },
            None => sub_chars(f, 0, f.len()),
        }
    };
    proof {
        assert(views_of(kept@) == kept_parts(split_on(path@, '/')));
        if kept@.len() > 0 {
            assert(views_of(kept@).last() == kept@[kept@.len() - 1]@);
            let f = kept@[kept@.len() - 1];
            assert(f@.subrange(0, f@.len() as int) =~= f@);
        }
    }
    string_from_chars(&stem)
}

fn insert_scored(v: &mut Vec<(usize, i64)>, x: (usize, i64))
    ensures
        final(v)@.map_values(|e: (usize, i64)| (e.0 as int, e.1)) == insert_by_score(
            old(v)@.map_values(|e: (usize, i64)| (e.0 as int, e.1)),
            (x.0 as int, x.1),
        ),
        forall|k: int| 0 <= k < final(v)@.len() ==> #[trigger] final(v)@[k] == x || old(v)@.contains(final(v)@[k]),
    decreases old(v)@.len(),
{
    let ghost ov = v@;
    let ghost before = v@.map_values(|e: (usize, i64)| (e.0 as int, e.1));
    if v.len() == 0 || v[v.len() - 1].1 >= x.1 {
        v.push(x);
        proof {
            assert(v@.map_values(|e: (usize, i64)| (e.0 as int, e.1)) =~= before.push((x.0 as int, x.1)));
            assert forall|k: int| 0 <= k < v@.len() implies #[trigger] v@[k] == x || ov.contains(v@[k]) by {
                if k < ov.len() {
                    assert(v@[k] == ov[k]);
                }
            }
        }
    } else {
        let y = v.pop().unwrap();
        proof {
            assert(v@.map_values(|e: (usize, i64)| (e.0 as int, e.1)) =~= before.drop_last());
        }
        let ghost popped = v@;
        insert_scored(v, x);
        let ghost mid = v@.map_values(|e: (usize, i64)| (e.0 as int, e.1));
        let ghost mv = v@;
        v.push(y);
        proof {
            assert(v@.map_values(|e: (usize, i64)| (e.0 as int, e.1)) =~= mid.push((y.0 as int, y.1)));
            assert forall|k: int| 0 <= k < v@.len() implies #[trigger] v@[k] == x || ov.contains(v@[k]) by {
                if k == v@.len() - 1 {
                    assert(ov[ov.len() - 1] == y);
                } else {
                    assert(v@[k] == mv[k]);
                    if mv[k] != x {
                        let j = choose|j: int| 0 <= j < popped.len() && popped[j] == mv[k];
                        assert(ov[j] == popped[j]);
                    }
                }
            }
        }
    }
}

impl SchemaGraph {
    /// The schemas matching a query, best first: each schema's title is
    /// matched with `fuzzy_matcher`'s skim matcher, or its file's stem when
    /// the title does not match; at most `limit` results, equal scores in
    /// node order.
    pub fn search(&self, query: &str, limit: usize) -> (res: Vec<SearchResult>)
        requires
            self.wf(),
        ensures
            res@.map_values(|r: SearchResult| result_view(r)) == results_of(
                self.nodes(),
                sort_by_score(matches_of(self.nodes(), query@, self.nodes().len() as int)).take(
                    if limit < sort_by_score(matches_of(self.nodes(), query@, self.nodes().len() as int)).len() {
                        limit as int
                    } else {
                        sort_by_score(matches_of(self.nodes(), query@, self.nodes().len() as int)).len() as int
                    },
                ),
            ),
    {
        let mut sorted: Vec<(usize, i64)> = Vec::new();
        let mut j: usize = 0;
        let ghost mut found: Seq<(int, i64)> = Seq::empty();
        proof {
            assert(sorted@.map_values(|e: (usize, i64)| (e.0 as int, e.1)) =~= sort_by_score(matches_of(self.nodes@, query@, 0)));
        }
        while j < self.nodes.len()
            invariant
                j <= self.nodes@.len(),
                self.nodes@ == self.nodes(),
                sorted@.map_values(|e: (usize, i64)| (e.0 as int, e.1)) == sort_by_score(matches_of(self.nodes@, query@, j as int)),
                forall|k: int| 0 <= k < sorted@.len() ==> (#[trigger] sorted@[k]).0 < self.nodes@.len(),
            decreases self.nodes@.len() - j,
        {
            let hit = last_node(&self.nodes, self.nodes[j].id.as_str(), false);
            let score: Option<i64> = match &self.nodes[j].title {
                Some(t) => match skim_match(t.as_str(), query) {
                    Some(sc) => Some(sc),
                    None => skim_match(stem_text(self.nodes[j].path.as_str()).as_str(), query),
                },
                None => skim_match(stem_text(self.nodes[j].path.as_str()).as_str(), query),
            };
            proof {
                assert(score == node_match(self.nodes@[j as int], query@));
            }
            if hit == Some(j) {
                if let Some(sc) = score {
                    let ghost sv = sorted@;
                    insert_scored(&mut sorted, (j, sc));
                    proof {
                        assert forall|k: int| 0 <= k < sorted@.len() implies (#[trigger] sorted@[k]).0 < self.nodes@.len() by {
                            if sorted@[k] != (j, sc) {
                                let m = choose|m: int| 0 <= m < sv.len() && sv[m] == sorted@[k];
                            }
                        }
                    }
                }
            }
            proof {
                assert(matches_of(self.nodes@, query@, j as int + 1) == matches_of(self.nodes@, query@, j as int) + if found_at(
                    schema_ids(self.nodes@),
                    j as int,
                ) && node_match(self.nodes@[j as int], query@) is Some {
                    seq![(j as int, node_match(self.nodes@[j as int], query@)->0)]
                } else {
                    Seq::empty()
                });
                let m = matches_of(self.nodes@, query@, j as int);
                if found_at(schema_ids(self.nodes@), j as int) && node_match(self.nodes@[j as int], query@) is Some {
                    assert(matches_of(self.nodes@, query@, j as int + 1).drop_last() =~= m);
                } else {
                    assert(matches_of(self.nodes@, query@, j as int + 1) =~= m);
                }
            }
            j = j + 1;
        }
        let ghost all = sorted@.map_values(|e: (usize, i64)| (e.0 as int, e.1));
        let take = if limit < sorted.len() { limit } else { sorted.len() };
        let mut out: Vec<SearchResult> = Vec::new();
        let mut k: usize = 0;
        while k < take
            invariant
                k <= take,
                take <= sorted@.len(),
                all == sorted@.map_values(|e: (usize, i64)| (e.0 as int, e.1)),
                forall|m: int| 0 <= m < sorted@.len() ==> (#[trigger] sorted@[m]).0 < self.nodes@.len(),
                out@.map_values(|r: SearchResult| result_view(r)) == results_of(self.nodes(), all.take(k as int)),
            decreases take - k,
        {
            let (j, sc) = sorted[k];
            let n = &self.nodes[j];
            let ghost before = out@.map_values(|r: SearchResult| result_view(r));
            out.push(SearchResult { id: n.id.clone(), title: n.title.clone(), kind: n.kind.clone(), path: n.path.clone(), score: sc });
            proof {
                assert(out@.map_values(|r: SearchResult| result_view(r)) =~= before.push(result_view(out@[k as int])));
                assert(all.take(k as int + 1) =~= all.take(k as int).push(all[k as int]));
            }
            k = k + 1;
        }
        out
    }
}

} // verus!
