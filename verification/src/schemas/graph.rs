//! The schema dependency graph.
//!
//! Nodes are schemas (a file, or a local definition `file#Name`); edges are
//! typed references between them. The graph itself is a `petgraph` directed
//! graph; node lookup by identifier searches the nodes, whose identifiers are
//! distinct.

use vstd::prelude::*;
use petgraph::graph::{DiGraph, EdgeIndex, Graph, NodeIndex};
use petgraph::Direction;
use petgraph::visit::{Dfs, EdgeRef, Walker};
use crate::schemas::refs::EdgeKind;
use crate::text::{chars_of, chars_is, owned, split_chars, split_on, str_eq, sub_chars, string_from_chars};

verus! {

/// A schema in the graph: a file, or a local definition within one.
#[derive(Debug, Clone)]
pub struct SchemaNode {
    /// The identifier: a relative path, or `path#Definition`.
    pub id: String,
    /// The file that holds the schema.
    pub file_path: String,
    /// The definition's name, for a local definition.
    pub definition: Option<String>,
    /// The `x-familiar-kind` of the schema.
    pub kind: Option<String>,
    /// The schema's title.
    pub title: Option<String>,
}

/// A schema that nothing refers to.
#[derive(Debug, Clone)]
pub struct OrphanInfo {
    pub schema_id: String,
    pub file_path: String,
    /// The first directory of the file path.
    pub category: String,
    pub kind: Option<String>,
    /// Whether the category is one whose schemas are expected to be roots.
    pub is_expected_root: bool,
    /// Whether the schema refers to other schemas.
    pub has_outgoing: bool,
}

#[verifier::external_type_specification]
#[verifier::external_body]
#[verifier::reject_recursive_types(N)]
#[verifier::reject_recursive_types(E)]
#[verifier::reject_recursive_types(Ty)]
#[verifier::reject_recursive_types(Ix)]
pub struct ExGraph<N, E, Ty, Ix>(Graph<N, E, Ty, Ix>);

#[verifier::external_type_specification]
#[verifier::external_body]
pub struct ExDirected(petgraph::Directed);

/// The node weights of a graph, by node index.
pub uninterp spec fn graph_nodes(g: DiGraph<SchemaNode, EdgeKind>) -> Seq<SchemaNode>;

/// The edges of a graph, by edge index: source, target and weight.
pub uninterp spec fn graph_edges(g: DiGraph<SchemaNode, EdgeKind>) -> Seq<(int, int, EdgeKind)>;

/// `petgraph`'s `Graph::new`: a graph with no nodes and no edges.
#[verifier::external_body]
fn pg_new() -> (g: DiGraph<SchemaNode, EdgeKind>)
    ensures
        graph_nodes(g) == Seq::<SchemaNode>::empty(),
        graph_edges(g) == Seq::<(int, int, EdgeKind)>::empty(),
{
    DiGraph::new()
}

/// `petgraph`'s `Graph::add_node`: appends the node and returns its index (the
/// old node count). It panics when the count reaches the index type's maximum.
#[verifier::external_body]
fn pg_add_node(g: &mut DiGraph<SchemaNode, EdgeKind>, weight: SchemaNode) -> (idx: usize)
    requires
        graph_nodes(*old(g)).len() < u32::MAX,
    ensures
        graph_nodes(*final(g)) == graph_nodes(*old(g)).push(weight),
        graph_edges(*final(g)) == graph_edges(*old(g)),
        idx == graph_nodes(*old(g)).len(),
{
    g.add_node(weight).index()
}

/// `petgraph`'s `Graph::add_edge`: appends the edge. It panics when an
/// endpoint does not exist or the edge count reaches the index type's maximum.
#[verifier::external_body]
fn pg_add_edge(g: &mut DiGraph<SchemaNode, EdgeKind>, a: usize, b: usize, weight: EdgeKind)
    requires
        a < graph_nodes(*old(g)).len(),
        b < graph_nodes(*old(g)).len(),
        graph_edges(*old(g)).len() < u32::MAX,
    ensures
        graph_nodes(*final(g)) == graph_nodes(*old(g)),
        graph_edges(*final(g)) == graph_edges(*old(g)).push((a as int, b as int, weight)),
{
    g.add_edge(NodeIndex::new(a), NodeIndex::new(b), weight);
}

/// `petgraph`'s indexing by node: the weight of node `i`.
#[verifier::external_body]
fn pg_node<'a>(g: &'a DiGraph<SchemaNode, EdgeKind>, i: usize) -> (n: &'a SchemaNode)
    requires
        i < graph_nodes(*g).len(),
    ensures
        *n == graph_nodes(*g)[i as int],
{
    &g[NodeIndex::new(i)]
}

/// `petgraph`'s `Graph::node_count`.
#[verifier::external_body]
fn pg_node_count(g: &DiGraph<SchemaNode, EdgeKind>) -> (n: usize)
    ensures
        n == graph_nodes(*g).len(),
{
    g.node_count()
}

/// `petgraph`'s `Graph::edge_count`.
#[verifier::external_body]
fn pg_edge_count(g: &DiGraph<SchemaNode, EdgeKind>) -> (n: usize)
    ensures
        n == graph_edges(*g).len(),
{
    g.edge_count()
}

/// `petgraph`'s `Graph::edge_endpoints` with the edge's weight: edge `e`.
#[verifier::external_body]
fn pg_edge(g: &DiGraph<SchemaNode, EdgeKind>, e: usize) -> (r: (usize, usize, EdgeKind))
    requires
        e < graph_edges(*g).len(),
    ensures
        (r.0 as int, r.1 as int, r.2) == graph_edges(*g)[e as int],
{
    let (a, b) = g.edge_endpoints(EdgeIndex::new(e)).unwrap();
    (a.index(), b.index(), g[EdgeIndex::new(e)])
}

/// Whether some edge goes from `a` to `b`.
pub open spec fn has_edge_between(edges: Seq<(int, int, EdgeKind)>, a: int, b: int) -> bool {
    exists|e: int| 0 <= e < edges.len() && (#[trigger] edges[e]).0 == a && edges[e].1 == b
}

/// `petgraph`'s `Graph::contains_edge`: whether some edge goes from `a` to `b`.
#[verifier::external_body]
fn pg_contains_edge(g: &DiGraph<SchemaNode, EdgeKind>, a: usize, b: usize) -> (res: bool)
    requires
        a < graph_nodes(*g).len(),
        b < graph_nodes(*g).len(),
    ensures
        res == has_edge_between(graph_edges(*g), a as int, b as int),
{
    g.contains_edge(NodeIndex::new(a), NodeIndex::new(b))
}

/// The edges leaving (`outgoing`) or entering `v`, most recently added first.
pub open spec fn incident(edges: Seq<(int, int, EdgeKind)>, v: int, outgoing: bool) -> Seq<(int, int, EdgeKind)>
    decreases edges.len(),
{
    if edges.len() == 0 {
        Seq::empty()
    } else {
        let e = edges.last();
        let rest = incident(edges.drop_last(), v, outgoing);
        if (outgoing && e.0 == v) || (!outgoing && e.1 == v) {
            seq![e] + rest
        } else {
            rest
        }
    }
}

/// The node at the other end of an incident edge.
pub open spec fn other_end(e: (int, int, EdgeKind), outgoing: bool) -> int {
    if outgoing {
        e.1
    } else {
        e.0
    }
}

/// `petgraph`'s `Graph::edges_directed`: the edges leaving (`outgoing`) or
/// entering node `v`, as source, target and weight, most recently added first.
#[verifier::external_body]
fn pg_edges_directed(g: &DiGraph<SchemaNode, EdgeKind>, v: usize, outgoing: bool) -> (res: Vec<(usize, usize, EdgeKind)>)
    requires
        v < graph_nodes(*g).len(),
    ensures
        res@.len() == incident(graph_edges(*g), v as int, outgoing).len(),
        forall|i: int| 0 <= i < res@.len() ==> ((#[trigger] res@[i]).0 as int, res@[i].1 as int, res@[i].2)
            == incident(graph_edges(*g), v as int, outgoing)[i],
{
    let dir = if outgoing { Direction::Outgoing } else { Direction::Incoming };
    g.edges_directed(NodeIndex::new(v), dir).map(|e| (e.source().index(), e.target().index(), *e.weight())).collect()
}

/// `petgraph`'s `Graph::neighbors_directed`: the other end of each edge leaving
/// (`outgoing`) or entering node `v`, most recently added first.
#[verifier::external_body]
fn pg_neighbors_directed(g: &DiGraph<SchemaNode, EdgeKind>, v: usize, outgoing: bool) -> (res: Vec<usize>)
    requires
        v < graph_nodes(*g).len(),
    ensures
        res@.len() == incident(graph_edges(*g), v as int, outgoing).len(),
        forall|i: int| 0 <= i < res@.len() ==> (#[trigger] res@[i]) as int == other_end(
            incident(graph_edges(*g), v as int, outgoing)[i],
            outgoing,
        ),
{
    let dir = if outgoing { Direction::Outgoing } else { Direction::Incoming };
    g.neighbors_directed(NodeIndex::new(v), dir).map(|n| n.index()).collect()
}

// ---------------------------------------------------------------------------
// The graph
// ---------------------------------------------------------------------------

/// A dependency graph of JSON schemas.
#[derive(Debug)]
pub struct SchemaGraph {
    graph: DiGraph<SchemaNode, EdgeKind>,
}

/// No two nodes share an identifier.
pub open spec fn ids_distinct(ns: Seq<SchemaNode>) -> bool {
    forall|i: int, j: int| 0 <= i < j < ns.len() ==> (#[trigger] ns[i]).id@ != (#[trigger] ns[j]).id@
}

/// Every edge joins two existing nodes.
pub open spec fn edges_in_range(n: nat, es: Seq<(int, int, EdgeKind)>) -> bool {
    forall|e: int| 0 <= e < es.len() ==> 0 <= (#[trigger] es[e]).0 < n && 0 <= es[e].1 < n
}

/// The position of the node with identifier `id`.
pub open spec fn node_pos(ns: Seq<SchemaNode>, id: Seq<char>) -> Option<int> {
    if exists|i: int| 0 <= i < ns.len() && (#[trigger] ns[i]).id@ == id {
        Some(choose|i: int| 0 <= i < ns.len() && (#[trigger] ns[i]).id@ == id)
    } else {
        None
    }
}

/// The position of the first `#` in `s`.
pub open spec fn first_hash(s: Seq<char>) -> int {
    choose|p: int| 0 <= p < s.len() && s[p] == '#' && forall|q: int| 0 <= q < p ==> s[q] != '#'
}

/// `n` is the node made for `id`: the part before its first `#` is the file,
/// the part after it the definition.
pub open spec fn node_made_for(n: SchemaNode, id: Seq<char>, kind: Option<String>, title: Option<String>) -> bool {
    &&& n.id@ == id
    &&& if id.contains('#') {
        &&& n.file_path@ == id.subrange(0, first_hash(id))
        &&& n.definition is Some
        &&& n.definition->0@ == id.subrange(first_hash(id) + 1, id.len() as int)
    } else {
        &&& n.file_path@ == id
        &&& n.definition is None
    }
    &&& n.kind == kind
    &&& n.title == title
}

impl SchemaGraph {
    /// The nodes, by index.
    pub closed spec fn nodes(&self) -> Seq<SchemaNode> {
        graph_nodes(self.graph)
    }

    /// The edges, by index: source, target and kind.
    pub closed spec fn edges(&self) -> Seq<(int, int, EdgeKind)> {
        graph_edges(self.graph)
    }

    /// Distinct identifiers, and edges between existing nodes.
    pub open spec fn wf(&self) -> bool {
        &&& ids_distinct(self.nodes())
        &&& edges_in_range(self.nodes().len(), self.edges())
    }

    /// An empty graph.
    pub fn new() -> (res: SchemaGraph)
        ensures
            res.wf(),
            res.nodes().len() == 0,
            res.edges().len() == 0,
    {
        SchemaGraph { graph: pg_new() }
    }

    /// The index of the node with identifier `id`.
    pub fn find_node(&self, id: &str) -> (res: Option<usize>)
        requires
            self.wf(),
        ensures
            match res {
                Some(i) => i < self.nodes().len() && self.nodes()[i as int].id@ == id@ && node_pos(self.nodes(), id@) == Some(i as int),
                None => node_pos(self.nodes(), id@) is None,
            },
    {
        let n = pg_node_count(&self.graph);
        let mut i: usize = 0;
        while i < n
            invariant
                n == self.nodes().len(),
                i <= n,
                ids_distinct(self.nodes()),
                forall|j: int| 0 <= j < i ==> (#[trigger] self.nodes()[j]).id@ != id@,
            decreases n - i,
        {
            let node = pg_node(&self.graph, i);
            if str_eq(node.id.as_str(), id) {
                proof {
                    assert(self.nodes()[i as int].id@ == id@);
                    let c = choose|k: int| 0 <= k < self.nodes().len() && (#[trigger] self.nodes()[k]).id@ == id@;
                    if c != i {
                        assert(self.nodes()[c].id@ == self.nodes()[i as int].id@);
                    }
                }
                return Some(i);
            }
            i = i + 1;
        }
        None
    }

    /// Adds a node for `id` with its metadata, unless one exists; the index of
    /// the node either way.
    pub fn add_node_with_metadata(&mut self, id: &str, kind: Option<String>, title: Option<String>) -> (res: usize)
        requires
            old(self).wf(),
            old(self).nodes().len() < u32::MAX,
        ensures
            final(self).wf(),
            final(self).edges() == old(self).edges(),
            match node_pos(old(self).nodes(), id@) {
                Some(i) => res == i && final(self).nodes() == old(self).nodes(),
                None => {
                    &&& res == old(self).nodes().len()
                    &&& final(self).nodes().len() == old(self).nodes().len() + 1
                    &&& final(self).nodes().drop_last() == old(self).nodes()
                    &&& node_made_for(final(self).nodes().last(), id@, kind, title)
                },
            },
    {
        if let Some(i) = self.find_node(id) {
            return i;
        }
        let v = chars_of(id);
        let mut p: usize = 0;
        while p < v.len() && v[p] != '#'
            invariant
                p <= v.len(),
                forall|q: int| 0 <= q < p ==> v@[q] != '#',
            decreases v.len() - p,
        {
            p = p + 1;
        }
        let (file_path, definition) = if p < v.len() {
            proof {
                assert(v@.contains('#'));
                let c = first_hash(id@);
                assert(0 <= c < v@.len() && v@[c] == '#' && forall|q: int| 0 <= q < c ==> v@[q] != '#');
                if c < p {
                    assert(false);
                }
                if p < c {
                    assert(v@[p as int] == '#');
                    assert(false);
                }
            }
            let f = string_from_chars(&sub_chars(&v, 0, p));
            let d = string_from_chars(&sub_chars(&v, p + 1, v.len()));
            (f, Some(d))
        } else {
            proof {
                assert(!v@.contains('#'));
            }
            (owned(id), None)
        };
        let node = SchemaNode { id: owned(id), file_path, definition, kind, title };
        let ghost old_nodes = self.nodes();
        let idx = pg_add_node(&mut self.graph, node);
        proof {
            assert(self.nodes().drop_last() =~= old_nodes);
            assert forall|a: int, b: int| 0 <= a < b < self.nodes().len() implies (#[trigger] self.nodes()[a]).id@ != (#[trigger] self.nodes()[b]).id@ by {
                if b == old_nodes.len() {
                    assert(self.nodes()[a] == old_nodes[a]);
                } else {
                    assert(old_nodes[a].id@ != old_nodes[b].id@);
                }
            }
        }
        idx
    }

    /// Adds a node for `id`, unless one exists; the index of the node either way.
    pub fn add_node(&mut self, id: &str) -> (res: usize)
        requires
            old(self).wf(),
            old(self).nodes().len() < u32::MAX,
        ensures
            final(self).wf(),
            final(self).edges() == old(self).edges(),
            match node_pos(old(self).nodes(), id@) {
                Some(i) => res == i && final(self).nodes() == old(self).nodes(),
                None => {
                    &&& res == old(self).nodes().len()
                    &&& final(self).nodes().len() == old(self).nodes().len() + 1
                    &&& final(self).nodes().drop_last() == old(self).nodes()
                    &&& node_made_for(final(self).nodes().last(), id@, None, None)
                },
            },
    {
        self.add_node_with_metadata(id, None, None)
    }

    /// Adds a node for the local definition `def_name` of `file_path`
    /// (identifier `file_path#def_name`), unless one exists; its index either way.
    pub fn add_definition_node(&mut self, file_path: &str, def_name: &str, kind: Option<String>, title: Option<String>) -> (res: usize)
        requires
            old(self).wf(),
            old(self).nodes().len() < u32::MAX,
        ensures
            final(self).wf(),
            final(self).edges() == old(self).edges(),
            match node_pos(old(self).nodes(), file_path@ + "#"@ + def_name@) {
                Some(i) => res == i && final(self).nodes() == old(self).nodes(),
                None => {
                    let n = final(self).nodes().last();
                    &&& res == old(self).nodes().len()
                    &&& final(self).nodes().len() == old(self).nodes().len() + 1
                    &&& final(self).nodes().drop_last() == old(self).nodes()
                    &&& n.id@ == file_path@ + "#"@ + def_name@
                    &&& n.file_path@ == file_path@
                    &&& n.definition is Some && n.definition->0@ == def_name@
                    &&& n.kind == kind
                    &&& n.title == title
                },
            },
    {
        let mut id = owned(file_path);
        id.append("#");
        id.append(def_name);
        if let Some(i) = self.find_node(id.as_str()) {
            return i;
        }
        let node = SchemaNode {
            id,
            file_path: owned(file_path),
            definition: Some(owned(def_name)),
            kind,
            title,
        };
        let ghost old_nodes = self.nodes();
        let idx = pg_add_node(&mut self.graph, node);
        proof {
            assert(self.nodes().drop_last() =~= old_nodes);
            assert forall|a: int, b: int| 0 <= a < b < self.nodes().len() implies (#[trigger] self.nodes()[a]).id@ != (#[trigger] self.nodes()[b]).id@ by {
                if b == old_nodes.len() {
                    assert(self.nodes()[a] == old_nodes[a]);
                } else {
                    assert(old_nodes[a].id@ != old_nodes[b].id@);
                }
            }
        }
        idx
    }

    /// Adds an edge of kind `kind` from `from` to `to`, adding either node if
    /// it is missing. Parallel edges are kept.
    pub fn add_typed_edge(&mut self, from: &str, to: &str, kind: EdgeKind)
        requires
            old(self).wf(),
            old(self).nodes().len() + 1 < u32::MAX,
            old(self).edges().len() < u32::MAX,
        ensures
            final(self).wf(),
            old(self).nodes().len() <= final(self).nodes().len() <= old(self).nodes().len() + 2,
            old(self).nodes() == final(self).nodes().take(old(self).nodes().len() as int),
            node_pos(final(self).nodes(), from@) is Some,
            node_pos(final(self).nodes(), to@) is Some,
            final(self).edges() == old(self).edges().push(
                (node_pos(final(self).nodes(), from@)->0, node_pos(final(self).nodes(), to@)->0, kind),
            ),
            forall|k: int| old(self).nodes().len() <= k < final(self).nodes().len() ==> (#[trigger] final(self).nodes()[k]).id@ == from@
                || final(self).nodes()[k].id@ == to@,
    {
        let ghost n0 = self.nodes();
        let a = self.add_node(from);
        let ghost n1 = self.nodes();
        let b = self.add_node(to);
        let ghost n2 = self.nodes();
        proof {
            assert(n1 == n2.take(n1.len() as int) || n1 == n2);
            assert(n2.take(n1.len() as int) =~= n1);
            assert(n1.take(n0.len() as int) =~= n0);
            assert(n2.take(n0.len() as int) =~= n0);
            assert(n2[a as int] == n1[a as int]);
            assert(n2[a as int].id@ == from@);
            assert(n2[b as int].id@ == to@);
            let ca = choose|i: int| 0 <= i < n2.len() && (#[trigger] n2[i]).id@ == from@;
            if ca != a {
                assert(n2[ca].id@ == n2[a as int].id@);
            }
            let cb = choose|i: int| 0 <= i < n2.len() && (#[trigger] n2[i]).id@ == to@;
            if cb != b {
                assert(n2[cb].id@ == n2[b as int].id@);
            }
        }
        pg_add_edge(&mut self.graph, a, b, kind);
        proof {
            assert forall|e: int| 0 <= e < self.edges().len() implies 0 <= (#[trigger] self.edges()[e]).0 < self.nodes().len()
                && 0 <= self.edges()[e].1 < self.nodes().len() by {
                if e < self.edges().len() - 1 {
                    assert(self.edges()[e] == old(self).edges()[e]);
                }
            }
        }
    }

    /// Adds a plain `$ref` edge from `from` to `to`.
    pub fn add_edge(&mut self, from: &str, to: &str)
        requires
            old(self).wf(),
            old(self).nodes().len() + 1 < u32::MAX,
            old(self).edges().len() < u32::MAX,
        ensures
            final(self).wf(),
            old(self).nodes().len() <= final(self).nodes().len() <= old(self).nodes().len() + 2,
            old(self).nodes() == final(self).nodes().take(old(self).nodes().len() as int),
            node_pos(final(self).nodes(), from@) is Some,
            node_pos(final(self).nodes(), to@) is Some,
            final(self).edges() == old(self).edges().push(
                (node_pos(final(self).nodes(), from@)->0, node_pos(final(self).nodes(), to@)->0, EdgeKind::TypeRef),
            ),
            forall|k: int| old(self).nodes().len() <= k < final(self).nodes().len() ==> (#[trigger] final(self).nodes()[k]).id@ == from@
                || final(self).nodes()[k].id@ == to@,
    {
        self.add_typed_edge(from, to, EdgeKind::TypeRef)
    }

    /// Whether an edge goes from `from` to `to`.
    pub fn has_edge(&self, from: &str, to: &str) -> (res: bool)
        requires
            self.wf(),
        ensures
            res == match (node_pos(self.nodes(), from@), node_pos(self.nodes(), to@)) {
                (Some(a), Some(b)) => has_edge_between(self.edges(), a, b),
                _ => false,
            },
    {
        match (self.find_node(from), self.find_node(to)) {
            (Some(a), Some(b)) => pg_contains_edge(&self.graph, a, b),
            _ => false,
        }
    }

    /// The kind of the schema `schema_id`.
    pub fn kind(&self, schema_id: &str) -> (res: Option<&str>)
        requires
            self.wf(),
        ensures
            match node_pos(self.nodes(), schema_id@) {
                Some(i) => match self.nodes()[i].kind {
                    Some(k) => res is Some && res->0@ == k@,
                    None => res is None,
                },
                None => res is None,
            },
    {
        match self.find_node(schema_id) {
            Some(i) => {
                let node = pg_node(&self.graph, i);
                match &node.kind {
                    Some(k) => Some(k.as_str()),
                    None => None,
                }
            },
            None => None,
        }
    }

    /// The number of nodes.
    pub fn node_count(&self) -> (res: usize)
        ensures
            res == self.nodes().len(),
    {
        pg_node_count(&self.graph)
    }

    /// The number of edges.
    pub fn edge_count(&self) -> (res: usize)
        ensures
            res == self.edges().len(),
    {
        pg_edge_count(&self.graph)
    }

    /// The identifiers of all schemas, in node order.
    pub fn all_schemas(&self) -> (res: Vec<&str>)
        ensures
            res@.len() == self.nodes().len(),
            forall|i: int| 0 <= i < res@.len() ==> (#[trigger] res@[i])@ == self.nodes()[i].id@,
    {
        let n = pg_node_count(&self.graph);
        let mut out: Vec<&str> = Vec::new();
        let mut i: usize = 0;
        while i < n
            invariant
                n == self.nodes().len(),
                i <= n,
                out@.len() == i,
                forall|j: int| 0 <= j < i ==> (#[trigger] out@[j])@ == self.nodes()[j].id@,
            decreases n - i,
        {
            let node = pg_node(&self.graph, i);
            out.push(node.id.as_str());
            i = i + 1;
        }
        out
    }
}

// ---------------------------------------------------------------------------
// Reachability
// ---------------------------------------------------------------------------

/// Whether edges of kind `k` are followed: all are when `kinds` is empty.
pub open spec fn kind_allowed(kinds: Seq<EdgeKind>, k: EdgeKind) -> bool {
    kinds.len() == 0 || kinds.contains(k)
}

/// One step from `a` to `b` along a followed edge: forwards along it, or
/// backwards against it.
pub open spec fn step(es: Seq<(int, int, EdgeKind)>, kinds: Seq<EdgeKind>, forward: bool, a: int, b: int) -> bool {
    exists|e: int|
        0 <= e < es.len() && kind_allowed(kinds, (#[trigger] es[e]).2) && if forward {
            es[e].0 == a && es[e].1 == b
        } else {
            es[e].1 == a && es[e].0 == b
        }
}

/// A walk: nodes joined by steps.
pub open spec fn is_walk(es: Seq<(int, int, EdgeKind)>, kinds: Seq<EdgeKind>, forward: bool, p: Seq<int>) -> bool {
    &&& p.len() >= 1
    &&& forall|i: int| 0 <= i < p.len() - 1 ==> #[trigger] step(es, kinds, forward, p[i], p[i + 1])
}

/// Whether some walk leads from one of `starts` to `v`.
pub open spec fn reaches(es: Seq<(int, int, EdgeKind)>, kinds: Seq<EdgeKind>, forward: bool, starts: Set<int>, v: int) -> bool {
    exists|p: Seq<int>| #[trigger] is_walk(es, kinds, forward, p) && starts.contains(p[0]) && p.last() == v
}

/// The nodes whose identifiers are among `roots`.
pub open spec fn root_set(ns: Seq<SchemaNode>, roots: Seq<&str>) -> Set<int> {
    Set::new(|v: int| 0 <= v < ns.len() && exists|r: int| 0 <= r < roots.len() && ns[v].id@ == (#[trigger] roots[r])@)
}

/// The identifiers of the nodes reached from `starts`.
pub open spec fn reached_ids(ns: Seq<SchemaNode>, es: Seq<(int, int, EdgeKind)>, kinds: Seq<EdgeKind>, forward: bool, starts: Set<int>) -> Set<Seq<char>> {
    Set::new(|s: Seq<char>| exists|v: int| 0 <= v < ns.len() && ns[v].id@ == s && #[trigger] reaches(es, kinds, forward, starts, v))
}

/// The strings of a vector, as a set.
pub open spec fn string_set(v: Seq<String>) -> Set<Seq<char>> {
    Set::new(|s: Seq<char>| exists|i: int| 0 <= i < v.len() && (#[trigger] v[i])@ == s)
}

/// No string occurs twice.
pub open spec fn strings_distinct(v: Seq<String>) -> bool {
    forall|i: int, j: int| 0 <= i < j < v.len() ==> (#[trigger] v[i])@ != (#[trigger] v[j])@
}

/// The number of `true` entries.
pub open spec fn count_true(s: Seq<bool>) -> nat
    decreases s.len(),
{
    if s.len() == 0 {
        0
    } else {
        count_true(s.drop_last()) + if s.last() {
            1nat
        } else {
            0nat
        }
    }
}

proof fn lemma_count_true_bound(s: Seq<bool>)
    ensures
        count_true(s) <= s.len(),
    decreases s.len(),
{
    if s.len() > 0 {
        lemma_count_true_bound(s.drop_last());
    }
}

proof fn lemma_count_true_set(s: Seq<bool>, i: int)
    requires
        0 <= i < s.len(),
        !s[i],
    ensures
        count_true(s.update(i, true)) == count_true(s) + 1,
    decreases s.len(),
{
    if i == s.len() - 1 {
        assert(s.update(i, true).drop_last() =~= s.drop_last());
    } else {
        assert(s.update(i, true).drop_last() =~= s.drop_last().update(i, true));
        lemma_count_true_set(s.drop_last(), i);
    }
}

/// Every incident edge is an edge of the node, and every edge of the node is incident.
proof fn lemma_incident(es: Seq<(int, int, EdgeKind)>, v: int, outgoing: bool)
    ensures
        forall|i: int| 0 <= i < incident(es, v, outgoing).len() ==> exists|e: int| 0 <= e < es.len()
            && es[e] == #[trigger] incident(es, v, outgoing)[i],
        forall|i: int| 0 <= i < incident(es, v, outgoing).len() ==> if outgoing {
            (#[trigger] incident(es, v, outgoing)[i]).0 == v
        } else {
            incident(es, v, outgoing)[i].1 == v
        },
        forall|e: int| 0 <= e < es.len() && (if outgoing { (#[trigger] es[e]).0 == v } else { es[e].1 == v }) ==> exists|i: int|
            0 <= i < incident(es, v, outgoing).len() && incident(es, v, outgoing)[i] == es[e],
    decreases es.len(),
{
    if es.len() > 0 {
        let rest = incident(es.drop_last(), v, outgoing);
        let inc = incident(es, v, outgoing);
        lemma_incident(es.drop_last(), v, outgoing);
        let last = es.last();
        let hit = (outgoing && last.0 == v) || (!outgoing && last.1 == v);
        assert forall|i: int| 0 <= i < inc.len() implies exists|e: int| 0 <= e < es.len() && es[e] == #[trigger] inc[i] by {
            if hit {
                if i == 0 {
                    assert(es[es.len() - 1] == inc[i]);
                } else {
                    assert(inc[i] == rest[i - 1]);
                    let e = choose|e: int| 0 <= e < es.drop_last().len() && es.drop_last()[e] == rest[i - 1];
                    assert(es[e] == inc[i]);
                }
            } else {
                let e = choose|e: int| 0 <= e < es.drop_last().len() && es.drop_last()[e] == rest[i];
                assert(es[e] == inc[i]);
            }
        }
        assert forall|i: int| 0 <= i < inc.len() implies if outgoing {
            (#[trigger] inc[i]).0 == v
        } else {
            inc[i].1 == v
        } by {
            if hit && i > 0 {
                assert(inc[i] == rest[i - 1]);
            }
        }
        assert forall|e: int| 0 <= e < es.len() && (if outgoing { (#[trigger] es[e]).0 == v } else { es[e].1 == v }) implies exists|i: int|
            0 <= i < inc.len() && inc[i] == es[e] by {
            if e == es.len() - 1 {
                assert(inc[0] == es[e]);
            } else {
                assert(es.drop_last()[e] == es[e]);
                let i = choose|i: int| 0 <= i < rest.len() && rest[i] == es.drop_last()[e];
                if hit {
                    assert(inc[i + 1] == es[e]);
                } else {
                    assert(inc[i] == es[e]);
                }
            }
        }
    }
}

/// A walk extended by one more step.
proof fn lemma_walk_push(es: Seq<(int, int, EdgeKind)>, kinds: Seq<EdgeKind>, forward: bool, p: Seq<int>, w: int)
    requires
        is_walk(es, kinds, forward, p),
        step(es, kinds, forward, p.last(), w),
    ensures
        is_walk(es, kinds, forward, p.push(w)),
        p.push(w)[0] == p[0],
        p.push(w).last() == w,
{
    let q = p.push(w);
    assert forall|i: int| 0 <= i < q.len() - 1 implies #[trigger] step(es, kinds, forward, q[i], q[i + 1]) by {
        if i < p.len() - 1 {
            assert(q[i] == p[i] && q[i + 1] == p[i + 1]);
        } else {
            assert(q[i] == p.last() && q[i + 1] == w);
        }
    }
}

/// A set that holds the starts and is closed under steps holds every node a
/// walk from a start reaches.
proof fn lemma_closed_holds_walk(es: Seq<(int, int, EdgeKind)>, kinds: Seq<EdgeKind>, forward: bool, marked: Seq<bool>, starts: Set<int>, p: Seq<int>)
    requires
        is_walk(es, kinds, forward, p),
        starts.contains(p[0]),
        forall|v: int| #[trigger] starts.contains(v) ==> 0 <= v < marked.len() && marked[v],
        forall|a: int, b: int| 0 <= a < marked.len() && marked[a] && #[trigger] step(es, kinds, forward, a, b) ==> 0 <= b < marked.len()
            && marked[b],
    ensures
        0 <= p.last() < marked.len() && marked[p.last()],
    decreases p.len(),
{
    if p.len() > 1 {
        let q = p.drop_last();
        assert forall|i: int| 0 <= i < q.len() - 1 implies #[trigger] step(es, kinds, forward, q[i], q[i + 1]) by {
            assert(step(es, kinds, forward, p[i], p[i + 1]));
        }
        lemma_closed_holds_walk(es, kinds, forward, marked, starts, q);
        let i = p.len() - 2;
        assert(step(es, kinds, forward, p[i], p[i + 1]));
    }
}

/// Whether `k` is among `kinds`.
fn kind_in(kinds: &[EdgeKind], k: EdgeKind) -> (res: bool)
    ensures
        res == kinds@.contains(k),
{
    let mut i: usize = 0;
    while i < kinds.len()
        invariant
            i <= kinds.len(),
            forall|j: int| 0 <= j < i ==> kinds@[j] != k,
        decreases kinds.len() - i,
    {
        if kinds[i] == k {
            return true;
        }
        i = i + 1;
    }
    false
}

impl SchemaGraph {
    /// Marks the nodes reached from `starts`, following the edges of `kinds`
    /// (all when empty) forwards or backwards; a stack-based walk that visits
    /// each node once, so cycles end it.
    fn reach_marks(&self, starts: &Vec<usize>, forward: bool, kinds: &[EdgeKind]) -> (res: Vec<bool>)
        requires
            self.wf(),
            forall|i: int| 0 <= i < starts@.len() ==> #[trigger] starts@[i] < self.nodes().len(),
        ensures
            res@.len() == self.nodes().len(),
            forall|v: int| 0 <= v < res@.len() ==> (res@[v] <==> reaches(
                self.edges(),
                kinds@,
                forward,
                index_ints(starts@).to_set(),
                v,
            )),
    {
        let ghost es = self.edges();
        let ghost st = index_ints(starts@).to_set();
        let n = pg_node_count(&self.graph);
        let mut visited: Vec<bool> = Vec::new();
        let mut k: usize = 0;
        while k < n
            invariant
                k <= n,
                visited@.len() == k,
                forall|j: int| 0 <= j < k ==> !(#[trigger] visited@[j]),
            decreases n - k,
        {
            visited.push(false);
            k = k + 1;
        }
        proof {
            assert(count_true(visited@) == 0) by {
                lemma_count_zero(visited@);
            }
        }
        let mut stack: Vec<usize> = Vec::new();
        let mut i: usize = 0;
        while i < starts.len()
            invariant
                i <= starts.len(),
                stack@ == starts@.take(i as int),
            decreases starts.len() - i,
        {
            stack.push(starts[i]);
            proof {
                assert(starts@.take(i as int + 1) =~= starts@.take(i as int).push(starts@[i as int]));
            }
            i = i + 1;
        }
        proof {
            assert(starts@.take(starts@.len() as int) =~= starts@);
            assert forall|j: int| 0 <= j < stack@.len() implies (#[trigger] stack@[j]) < n && reaches(es, kinds@, forward, st, stack@[j] as int) by {
                let p = seq![stack@[j] as int];
                assert(index_ints(starts@)[j] == stack@[j] as int);
                assert(st.contains(p[0]));
                assert(is_walk(es, kinds@, forward, p));
            }
            assert forall|x: int| #[trigger] st.contains(x) implies 0 <= x < n && (visited@[x] || stack@.contains(x as usize)) by {
                let sm = index_ints(starts@);
                assert(sm.to_set().contains(x));
                assert(sm.contains(x));
                let j = choose|j: int| 0 <= j < sm.len() && #[trigger] sm[j] == x;
                assert(stack@[j] as int == x);
            }
        }
        let mut count: usize = 0;
        while stack.len() > 0
            invariant
                n == self.nodes().len(),
                es == self.edges(),
                self.wf(),
                st == index_ints(starts@).to_set(),
                visited@.len() == n,
                count == count_true(visited@),
                count <= n,
                forall|j: int| 0 <= j < stack@.len() ==> (#[trigger] stack@[j]) < n && reaches(es, kinds@, forward, st, stack@[j] as int),
                forall|v: int| 0 <= v < n && #[trigger] visited@[v] ==> reaches(es, kinds@, forward, st, v),
                forall|v: int| #[trigger] st.contains(v) ==> 0 <= v < n && (visited@[v] || stack@.contains(v as usize)),
                forall|a: int, b: int| 0 <= a < n && visited@[a] && #[trigger] step(es, kinds@, forward, a, b) ==> 0 <= b < n && (
                visited@[b] || stack@.contains(b as usize)),
            decreases n - count, stack.len(),
        {
            let ghost old_stack = stack@;
            let v = stack.pop().unwrap();
            proof {
                assert(old_stack == stack@.push(v));
                assert(old_stack[old_stack.len() - 1] == v);
                assert forall|x: usize| old_stack.contains(x) && x != v implies stack@.contains(x) by {
                    let j = choose|j: int| 0 <= j < old_stack.len() && old_stack[j] == x;
                    assert(stack@[j] == x);
                }
                assert forall|j: int| 0 <= j < stack@.len() implies (#[trigger] stack@[j]) < n && reaches(es, kinds@, forward, st, stack@[j] as int) by {
                    assert(stack@[j] == old_stack[j]);
                }
            }
            if visited[v] {
                continue;
            }
            proof {
                assert(reaches(es, kinds@, forward, st, v as int));
                lemma_count_true_set(visited@, v as int);
                lemma_count_true_bound(visited@.update(v as int, true));
            }
            visited.set(v, true);
            count = count + 1;
            let ghost wit = choose|p: Seq<int>| #[trigger] is_walk(es, kinds@, forward, p) && st.contains(p[0]) && p.last() == v as int;
            let ghost before = stack@;
            self.push_successors(v, forward, kinds, &mut stack);
            proof {
                assert forall|x: usize| #[trigger] old_stack.contains(x) && x != v implies stack@.contains(x) by {
                    assert(before.contains(x));
                    let q = choose|q: int| 0 <= q < before.len() && before[q] == x;
                    assert(stack@[q] == x);
                }
                assert forall|i: int| 0 <= i < stack@.len() implies (#[trigger] stack@[i]) < n && reaches(es, kinds@, forward, st, stack@[i] as int) by {
                    if i < before.len() {
                        assert(stack@[i] == before[i]);
                    } else {
                        lemma_walk_push(es, kinds@, forward, wit, stack@[i] as int);
                        assert(is_walk(es, kinds@, forward, wit.push(stack@[i] as int)));
                    }
                }
            }
            proof {
                assert forall|a: int, b: int| 0 <= a < n && visited@[a] && #[trigger] step(es, kinds@, forward, a, b) implies 0 <= b < n && (
                visited@[b] || stack@.contains(b as usize)) by {
                    let e = choose|e: int|
                        0 <= e < es.len() && kind_allowed(kinds@, (#[trigger] es[e]).2) && if forward {
                            es[e].0 == a && es[e].1 == b
                        } else {
                            es[e].1 == a && es[e].0 == b
                        };
                    assert(0 <= es[e].0 < n && 0 <= es[e].1 < n);
                    if a == v as int {
                    } else {
                        if !visited@[b] {
                            assert(old_stack.contains(b as usize));
                        }
                    }
                }
                assert forall|x: int| #[trigger] st.contains(x) implies 0 <= x < n && (visited@[x] || stack@.contains(x as usize)) by {
                    if !visited@[x] {
                        assert(old_stack.contains(x as usize));
                    }
                }
            }
        }
        proof {
            assert forall|v: int| 0 <= v < visited@.len() implies (visited@[v] <==> reaches(es, kinds@, forward, st, v)) by {
                if reaches(es, kinds@, forward, st, v) {
                    let p = choose|p: Seq<int>| #[trigger] is_walk(es, kinds@, forward, p) && st.contains(p[0]) && p.last() == v;
                    lemma_closed_holds_walk(es, kinds@, forward, visited@, st, p);
                }
            }
        }
        visited
    }
}

impl SchemaGraph {
    /// Pushes the other end of each followed edge leaving (`forward`) or
    /// entering `v`, most recently added edge first.
    #[verifier::rlimit(40)]
    #[verifier::spinoff_prover]
    fn push_successors(&self, v: usize, forward: bool, kinds: &[EdgeKind], stack: &mut Vec<usize>)
        requires
            self.wf(),
            v < self.nodes().len(),
        ensures
            final(stack)@.take(old(stack)@.len() as int) == old(stack)@,
            final(stack)@.len() >= old(stack)@.len(),
            forall|i: int| old(stack)@.len() <= i < final(stack)@.len() ==> (#[trigger] final(stack)@[i]) < self.nodes().len()
                && step(self.edges(), kinds@, forward, v as int, final(stack)@[i] as int),
            forall|b: int| #[trigger] step(self.edges(), kinds@, forward, v as int, b) ==> 0 <= b < self.nodes().len()
                && final(stack)@.contains(b as usize),
    {
        let ghost es = self.edges();
        let ghost n = self.nodes().len();
        let ghost start = stack@;
        let inc = pg_edges_directed(&self.graph, v, forward);
        proof {
            lemma_incident(es, v as int, forward);
        }
        let mut j: usize = 0;
        while j < inc.len()
            invariant
                es == self.edges(),
                n == self.nodes().len(),
                self.wf(),
                v < n,
                inc@.len() == incident(es, v as int, forward).len(),
                forall|i: int| 0 <= i < inc@.len() ==> ((#[trigger] inc@[i]).0 as int, inc@[i].1 as int, inc@[i].2)
                    == incident(es, v as int, forward)[i],
                forall|i: int| 0 <= i < incident(es, v as int, forward).len() ==> exists|e: int| 0 <= e < es.len()
                    && es[e] == #[trigger] incident(es, v as int, forward)[i],
                forall|i: int| 0 <= i < incident(es, v as int, forward).len() ==> if forward {
                    (#[trigger] incident(es, v as int, forward)[i]).0 == v
                } else {
                    incident(es, v as int, forward)[i].1 == v
                },
                j <= inc.len(),
                stack@.take(start.len() as int) == start,
                stack@.len() >= start.len(),
                forall|i: int| start.len() <= i < stack@.len() ==> (#[trigger] stack@[i]) < n && step(es, kinds@, forward, v as int, stack@[i] as int),
                forall|i: int| 0 <= i < j && kind_allowed(kinds@, (#[trigger] inc@[i]).2) ==> stack@.contains(
                    if forward { inc@[i].1 } else { inc@[i].0 },
                ),
            decreases inc.len() - j,
        {
            let (a, b, kd) = inc[j];
            let allowed = kinds.len() == 0 || kind_in(kinds, kd);
            if allowed {
                let o = if forward { b } else { a };
                proof {
                    let e = choose|e: int| 0 <= e < es.len() && es[e] == incident(es, v as int, forward)[j as int];
                    assert(es[e] == (a as int, b as int, kd));
                    assert(0 <= es[e].0 < n && 0 <= es[e].1 < n);
                    assert(step(es, kinds@, forward, v as int, o as int));
                }
                let ghost before = stack@;
                stack.push(o);
                proof {
                    assert(stack@[stack@.len() - 1] == o);
                    assert(stack@.take(start.len() as int) =~= before.take(start.len() as int));
                    assert forall|i: int| 0 <= i < j + 1 && kind_allowed(kinds@, (#[trigger] inc@[i]).2) implies stack@.contains(
                        if forward { inc@[i].1 } else { inc@[i].0 },
                    ) by {
                        if i < j {
                            let x = if forward { inc@[i].1 } else { inc@[i].0 };
                            let q = choose|q: int| 0 <= q < before.len() && before[q] == x;
                            assert(stack@[q] == x);
                        }
                    }
                    assert forall|i: int| start.len() <= i < stack@.len() implies (#[trigger] stack@[i]) < n && step(es, kinds@, forward, v as int, stack@[i] as int) by {
                        if i < before.len() {
                            assert(stack@[i] == before[i]);
                        }
                    }
                }
            }
            j = j + 1;
        }
        proof {
            assert forall|b: int| #[trigger] step(es, kinds@, forward, v as int, b) implies 0 <= b < n && stack@.contains(b as usize) by {
                let e = choose|e: int|
                    0 <= e < es.len() && kind_allowed(kinds@, (#[trigger] es[e]).2) && if forward {
                        es[e].0 == v as int && es[e].1 == b
                    } else {
                        es[e].1 == v as int && es[e].0 == b
                    };
                assert(0 <= es[e].0 < n && 0 <= es[e].1 < n);
                let i = choose|i: int| 0 <= i < incident(es, v as int, forward).len() && incident(es, v as int, forward)[i] == es[e];
                assert(inc@[i].2 == es[e].2);
            }
        }
    }
}

/// `petgraph`'s `Dfs` walked to its end from `start`: the nodes reachable from
/// `start` along edges (`start` included), each once, in the order found.
#[verifier::external_body]
fn pg_dfs(g: &DiGraph<SchemaNode, EdgeKind>, start: usize) -> (res: Vec<usize>)
    requires
        start < graph_nodes(*g).len(),
    ensures
        forall|i: int| 0 <= i < res@.len() ==> (#[trigger] res@[i]) < graph_nodes(*g).len() && reaches(
            graph_edges(*g),
            Seq::empty(),
            true,
            set![start as int],
            res@[i] as int,
        ),
        forall|v: int| 0 <= v < graph_nodes(*g).len() && #[trigger] reaches(graph_edges(*g), Seq::empty(), true, set![start as int], v)
            ==> res@.contains(v as usize),
{
    Dfs::new(g, NodeIndex::new(start)).iter(g).map(|n| n.index()).collect()
}

/// The indices as a set of integers.
pub open spec fn index_set(v: Seq<usize>) -> Set<int> {
    index_ints(v).to_set()
}

/// The indices as integers.
pub open spec fn index_ints(v: Seq<usize>) -> Seq<int> {
    v.map_values(|x: usize| x as int)
}

impl SchemaGraph {
    /// The indices of the nodes whose identifiers are among `roots`.
    fn root_indices(&self, roots: &[&str]) -> (res: Vec<usize>)
        requires
            self.wf(),
        ensures
            forall|i: int| 0 <= i < res@.len() ==> #[trigger] res@[i] < self.nodes().len(),
            index_set(res@) == root_set(self.nodes(), roots@),
    {
        let mut out: Vec<usize> = Vec::new();
        let mut i: usize = 0;
        while i < roots.len()
            invariant
                self.wf(),
                i <= roots.len(),
                forall|j: int| 0 <= j < out@.len() ==> #[trigger] out@[j] < self.nodes().len(),
                index_set(out@) == root_set(self.nodes(), roots@.take(i as int)),
            decreases roots.len() - i,
        {
            let ghost before = out@;
            match self.find_node(roots[i]) {
                Some(k) => {
                    out.push(k);
                },
                None => {},
            }
            proof {
                let ns = self.nodes();
                let t = roots@.take(i as int + 1);
                assert forall|v: int| root_set(ns, t).contains(v) <==> index_set(out@).contains(v) by {
                    if root_set(ns, t).contains(v) {
                        let r = choose|r: int| 0 <= r < t.len() && ns[v].id@ == (#[trigger] t[r])@;
                        if r < i {
                            assert(roots@.take(i as int)[r] == t[r]);
                            assert(root_set(ns, roots@.take(i as int)).contains(v));
                            assert(index_set(before).contains(v));
                            let q = choose|q: int| 0 <= q < index_ints(before).len()
                                && #[trigger] index_ints(before)[q] == v;
                            assert(index_ints(out@)[q] == v);
                        } else {
                            assert(ns[v].id@ == roots@[i as int]@);
                            let k = choose|k: int| 0 <= k < ns.len() && (#[trigger] ns[k]).id@ == roots@[i as int]@;
                            if k != v {
                                assert(ns[k].id@ == ns[v].id@);
                            }
                            assert(index_ints(out@)[before.len() as int] == v);
                        }
                    }
                    if index_set(out@).contains(v) {
                        let q = choose|q: int| 0 <= q < index_ints(out@).len()
                            && #[trigger] index_ints(out@)[q] == v;
                        if q < before.len() {
                            assert(index_ints(before)[q] == v);
                            assert(index_set(before).contains(v));
                            assert(root_set(ns, roots@.take(i as int)).contains(v));
                            let r = choose|r: int| 0 <= r < roots@.take(i as int).len() && ns[v].id@ == (#[trigger] roots@.take(
                                i as int,
                            )[r])@;
                            assert(t[r] == roots@.take(i as int)[r]);
                        } else {
                            assert(t[i as int] == roots@[i as int]);
                        }
                    }
                }
                assert(root_set(ns, t) =~= index_set(out@));
            }
            i = i + 1;
        }
        proof {
            assert(roots@.take(roots@.len() as int) =~= roots@);
        }
        out
    }

    /// The identifiers of the marked nodes, in node order.
    fn marked_ids(&self, marks: &Vec<bool>) -> (res: Vec<String>)
        requires
            self.wf(),
            marks@.len() == self.nodes().len(),
        ensures
            strings_distinct(res@),
            string_set(res@) == Set::new(|s: Seq<char>| exists|v: int| 0 <= v < self.nodes().len() && #[trigger] marks@[v] && self.nodes()[v].id@ == s),
    {
        let n = pg_node_count(&self.graph);
        let mut out: Vec<String> = Vec::new();
        let ghost mut src: Seq<int> = Seq::empty();
        let mut v: usize = 0;
        while v < n
            invariant
                self.wf(),
                n == self.nodes().len(),
                marks@.len() == n,
                v <= n,
                src.len() == out@.len(),
                forall|i: int| 0 <= i < src.len() ==> 0 <= #[trigger] src[i] < v && marks@[src[i]] && out@[i]@ == self.nodes()[src[i]].id@,
                forall|i: int, j: int| 0 <= i < j < src.len() ==> #[trigger] src[i] < #[trigger] src[j],
                forall|w: int| 0 <= w < v && #[trigger] marks@[w] ==> exists|i: int| 0 <= i < src.len() && src[i] == w,
            decreases n - v,
        {
            if marks[v] {
                let node = pg_node(&self.graph, v);
                out.push(node.id.clone());
                proof {
                    let old_src = src;
                    src = src.push(v as int);
                    assert forall|w: int| 0 <= w < v + 1 && #[trigger] marks@[w] implies exists|i: int| 0 <= i < src.len() && src[i] == w by {
                        if w == v as int {
                            assert(src[old_src.len() as int] == w);
                        } else {
                            let i = choose|i: int| 0 <= i < old_src.len() && old_src[i] == w;
                            assert(src[i] == w);
                        }
                    }
                }
            }
            v = v + 1;
        }
        proof {
            let ns = self.nodes();
            assert forall|i: int, j: int| 0 <= i < j < out@.len() implies (#[trigger] out@[i])@ != (#[trigger] out@[j])@ by {
                assert(src[i] < src[j]);
                assert(ns[src[i]].id@ != ns[src[j]].id@);
            }
            let target = Set::new(|s: Seq<char>| exists|w: int| 0 <= w < ns.len() && #[trigger] marks@[w] && ns[w].id@ == s);
            assert forall|s: Seq<char>| string_set(out@).contains(s) <==> target.contains(s) by {
                if string_set(out@).contains(s) {
                    let i = choose|i: int| 0 <= i < out@.len() && (#[trigger] out@[i])@ == s;
                    assert(marks@[src[i]]);
                }
                if target.contains(s) {
                    let w = choose|w: int| 0 <= w < ns.len() && #[trigger] marks@[w] && ns[w].id@ == s;
                    let i = choose|i: int| 0 <= i < src.len() && src[i] == w;
                    assert(out@[i]@ == s);
                }
            }
            assert(string_set(out@) =~= target);
        }
        out
    }

    /// Every schema that the roots need, directly or through other schemas,
    /// the roots included, following edges of the given kinds (all when
    /// `edge_kinds` is empty). Roots that are not in the graph are ignored.
    pub fn transitive_deps_filtered(&self, roots: &[&str], edge_kinds: &[EdgeKind]) -> (res: Vec<String>)
        requires
            self.wf(),
        ensures
            strings_distinct(res@),
            string_set(res@) == reached_ids(self.nodes(), self.edges(), edge_kinds@, true, root_set(self.nodes(), roots@)),
    {
        let starts = self.root_indices(roots);
        let marks = self.reach_marks(&starts, true, edge_kinds);
        let res = self.marked_ids(&marks);
        proof {
            lemma_marked_reached(self.nodes(), self.edges(), edge_kinds@, true, index_set(starts@), marks@);
        }
        res
    }

    /// Every schema that the roots need, directly or through other schemas,
    /// the roots included. Cycles are walked once.
    pub fn transitive_deps(&self, roots: &[&str]) -> (res: Vec<String>)
        requires
            self.wf(),
        ensures
            strings_distinct(res@),
            string_set(res@) == reached_ids(self.nodes(), self.edges(), Seq::empty(), true, root_set(self.nodes(), roots@)),
    {
        let starts = self.root_indices(roots);
        let no_kinds: Vec<EdgeKind> = Vec::new();
        let marks = self.reach_marks(&starts, true, no_kinds.as_slice());
        let res = self.marked_ids(&marks);
        proof {
            assert(no_kinds@ =~= Seq::<EdgeKind>::empty());
            lemma_marked_reached(self.nodes(), self.edges(), no_kinds@, true, index_set(starts@), marks@);
        }
        res
    }

    /// Every schema that depends on `node_id`, directly or through others,
    /// `node_id` included, following edges of the given kinds backwards (all
    /// when `edge_kinds` is empty). Empty when `node_id` is not in the graph.
    pub fn reverse_transitive_deps(&self, node_id: &str, edge_kinds: &[EdgeKind]) -> (res: Vec<String>)
        requires
            self.wf(),
        ensures
            strings_distinct(res@),
            string_set(res@) == reached_ids(self.nodes(), self.edges(), edge_kinds@, false, root_set(self.nodes(), seq![node_id])),
    {
        let roots: [&str; 1] = [node_id];
        let starts = self.root_indices(&roots);
        let marks = self.reach_marks(&starts, false, edge_kinds);
        let res = self.marked_ids(&marks);
        proof {
            assert(roots@ =~= seq![node_id]);
            lemma_marked_reached(self.nodes(), self.edges(), edge_kinds@, false, index_set(starts@), marks@);
        }
        res
    }

    /// What is affected if `node_id` fails: every schema that depends on it,
    /// directly or through others, itself included.
    pub fn blast_radius(&self, node_id: &str, edge_kinds: &[EdgeKind]) -> (res: Vec<String>)
        requires
            self.wf(),
        ensures
            strings_distinct(res@),
            string_set(res@) == reached_ids(self.nodes(), self.edges(), edge_kinds@, false, root_set(self.nodes(), seq![node_id])),
    {
        self.reverse_transitive_deps(node_id, edge_kinds)
    }

    /// The same schemas as `transitive_deps`, found by `petgraph`'s depth-first
    /// search from each root in turn.
    pub fn transitive_deps_petgraph(&self, roots: &[&str]) -> (res: Vec<String>)
        requires
            self.wf(),
        ensures
            strings_distinct(res@),
            string_set(res@) == Set::new(
                |s: Seq<char>|
                    exists|v: int, r: int|
                        0 <= v < self.nodes().len() && self.nodes()[v].id@ == s && #[trigger] root_set(self.nodes(), roots@).contains(r)
                            && #[trigger] reaches(self.edges(), Seq::empty(), true, set![r], v),
            ),
    {
        let ghost ns = self.nodes();
        let ghost es = self.edges();
        let starts = self.root_indices(roots);
        let n = pg_node_count(&self.graph);
        let mut marks: Vec<bool> = Vec::new();
        let mut k: usize = 0;
        while k < n
            invariant
                k <= n,
                marks@.len() == k,
                forall|j: int| 0 <= j < k ==> !(#[trigger] marks@[j]),
            decreases n - k,
        {
            marks.push(false);
            k = k + 1;
        }
        let mut i: usize = 0;
        while i < starts.len()
            invariant
                self.wf(),
                ns == self.nodes(),
                es == self.edges(),
                n == ns.len(),
                marks@.len() == n,
                i <= starts.len(),
                forall|j: int| 0 <= j < starts@.len() ==> #[trigger] starts@[j] < n,
                forall|v: int| 0 <= v < n ==> (#[trigger] marks@[v] <==> exists|j: int| 0 <= j < i && #[trigger] reaches(es, Seq::empty(), true, set![starts@[j] as int], v)),
            decreases starts.len() - i,
        {
            let found = pg_dfs(&self.graph, starts[i]);
            let mut j: usize = 0;
            while j < found.len()
                invariant
                    ns == self.nodes(),
                    es == self.edges(),
                    n == ns.len(),
                    marks@.len() == n,
                    i < starts.len(),
                    j <= found.len(),
                    forall|q: int| 0 <= q < found@.len() ==> (#[trigger] found@[q]) < n && reaches(es, Seq::empty(), true, set![starts@[i as int] as int], found@[q] as int),
                    forall|v: int| 0 <= v < n && #[trigger] reaches(es, Seq::empty(), true, set![starts@[i as int] as int], v) ==> found@.contains(v as usize),
                    forall|v: int| 0 <= v < n ==> (#[trigger] marks@[v] <==> (exists|q: int| 0 <= q < i && #[trigger] reaches(es, Seq::empty(), true, set![starts@[q] as int], v))
                        || exists|q: int| 0 <= q < j && found@[q] == v),
                decreases found.len() - j,
            {
                marks.set(found[j], true);
                j = j + 1;
            }
            proof {
                assert forall|v: int| 0 <= v < n implies (#[trigger] marks@[v] <==> exists|q: int| 0 <= q < i + 1 && #[trigger] reaches(es, Seq::empty(), true, set![starts@[q] as int], v)) by {
                    if reaches(es, Seq::empty(), true, set![starts@[i as int] as int], v) {
                        assert(found@.contains(v as usize));
                    }
                    if exists|q: int| 0 <= q < found@.len() && found@[q] == v {
                        let q = choose|q: int| 0 <= q < found@.len() && found@[q] == v;
                        assert(reaches(es, Seq::empty(), true, set![starts@[i as int] as int], v));
                    }
                }
            }
            i = i + 1;
        }
        let res = self.marked_ids(&marks);
        proof {
            let target = Set::new(
                |s: Seq<char>|
                    exists|v: int, r: int|
                        0 <= v < ns.len() && ns[v].id@ == s && #[trigger] root_set(ns, roots@).contains(r)
                            && #[trigger] reaches(es, Seq::empty(), true, set![r], v),
            );
            assert forall|s: Seq<char>| string_set(res@).contains(s) <==> target.contains(s) by {
                if string_set(res@).contains(s) {
                    let v = choose|v: int| 0 <= v < n && #[trigger] marks@[v] && ns[v].id@ == s;
                    let q = choose|q: int| 0 <= q < starts@.len() && #[trigger] reaches(es, Seq::empty(), true, set![starts@[q] as int], v);
                    assert(index_set(starts@).contains(starts@[q] as int)) by {
                        assert(index_ints(starts@)[q] == starts@[q] as int);
                    }
                }
                if target.contains(s) {
                    let (v, r) = choose|v: int, r: int|
                        0 <= v < ns.len() && ns[v].id@ == s && #[trigger] root_set(ns, roots@).contains(r)
                            && #[trigger] reaches(es, Seq::empty(), true, set![r], v);
                    assert(index_set(starts@).contains(r));
                    let q = choose|q: int| 0 <= q < index_ints(starts@).len()
                        && #[trigger] index_ints(starts@)[q] == r;
                    assert(starts@[q] as int == r);
                    assert(marks@[v]);
                }
            }
            assert(string_set(res@) =~= target);
        }
        res
    }
}

/// The identifiers of the marked nodes are the identifiers reached, when the
/// marks are exactly the reached nodes.
proof fn lemma_marked_reached(ns: Seq<SchemaNode>, es: Seq<(int, int, EdgeKind)>, kinds: Seq<EdgeKind>, forward: bool, starts: Set<int>, marks: Seq<bool>)
    requires
        marks.len() == ns.len(),
        forall|v: int| 0 <= v < marks.len() ==> (marks[v] <==> reaches(es, kinds, forward, starts, v)),
    ensures
        Set::new(|s: Seq<char>| exists|v: int| 0 <= v < ns.len() && #[trigger] marks[v] && ns[v].id@ == s) == reached_ids(ns, es, kinds, forward, starts),
{
    let a = Set::new(|s: Seq<char>| exists|v: int| 0 <= v < ns.len() && #[trigger] marks[v] && ns[v].id@ == s);
    let b = reached_ids(ns, es, kinds, forward, starts);
    assert forall|s: Seq<char>| a.contains(s) <==> b.contains(s) by {
        if a.contains(s) {
            let v = choose|v: int| 0 <= v < ns.len() && #[trigger] marks[v] && ns[v].id@ == s;
            assert(reaches(es, kinds, forward, starts, v));
        }
        if b.contains(s) {
            let v = choose|v: int| 0 <= v < ns.len() && ns[v].id@ == s && #[trigger] reaches(es, kinds, forward, starts, v);
            assert(marks[v]);
        }
    }
    assert(a =~= b);
}

// ---------------------------------------------------------------------------
// Neighbours, edge lists and orderings
// ---------------------------------------------------------------------------

/// The edges whose kind is followed, in edge order.
pub open spec fn kind_edges(es: Seq<(int, int, EdgeKind)>, kinds: Seq<EdgeKind>) -> Seq<(int, int, EdgeKind)>
    decreases es.len(),
{
    if es.len() == 0 {
        Seq::empty()
    } else if kind_allowed(kinds, es.last().2) {
        kind_edges(es.drop_last(), kinds).push(es.last())
    } else {
        kind_edges(es.drop_last(), kinds)
    }
}

/// The number of edges of kind `k`.
pub open spec fn kind_count(es: Seq<(int, int, EdgeKind)>, k: EdgeKind) -> nat
    decreases es.len(),
{
    if es.len() == 0 {
        0
    } else {
        kind_count(es.drop_last(), k) + if es.last().2 == k {
            1nat
        } else {
            0nat
        }
    }
}

/// `order` lists every node once, each edge's source before its target.
pub open spec fn is_topological(n: nat, es: Seq<(int, int, EdgeKind)>, order: Seq<int>) -> bool {
    &&& order.len() == n
    &&& forall|i: int| 0 <= i < n ==> 0 <= #[trigger] order[i] < n
    &&& forall|i: int, j: int| 0 <= i < j < n ==> #[trigger] order[i] != #[trigger] order[j]
    &&& forall|e: int, i: int, j: int|
        0 <= e < es.len() && 0 <= i < n && 0 <= j < n && #[trigger] order[i] == (#[trigger] es[e]).0 && #[trigger] order[j] == es[e].1
            ==> i < j
}

/// `order` lists every node once, each edge's target (the schema referred
/// to) before its source (the schema that refers to it).
pub open spec fn dependencies_first(n: nat, es: Seq<(int, int, EdgeKind)>, order: Seq<int>) -> bool {
    &&& order.len() == n
    &&& forall|i: int| 0 <= i < n ==> 0 <= #[trigger] order[i] < n
    &&& forall|i: int, j: int| 0 <= i < j < n ==> #[trigger] order[i] != #[trigger] order[j]
    &&& forall|e: int, i: int, j: int|
        0 <= e < es.len() && 0 <= i < n && 0 <= j < n && #[trigger] order[i] == (#[trigger] es[e]).1 && #[trigger] order[j] == es[e].0
            ==> i < j
}

/// Reversing an order where sources come first gives one where targets come first.
proof fn lemma_reverse_topological(n: nat, es: Seq<(int, int, EdgeKind)>, order: Seq<int>)
    requires
        is_topological(n, es, order),
    ensures
        dependencies_first(n, es, order.reverse()),
{
    let r = order.reverse();
    assert forall|i: int| 0 <= i < n implies 0 <= #[trigger] r[i] < n by {
        assert(r[i] == order[n - 1 - i]);
    }
    assert forall|i: int, j: int| 0 <= i < j < n implies #[trigger] r[i] != #[trigger] r[j] by {
        assert(r[i] == order[n - 1 - i]);
        assert(r[j] == order[n - 1 - j]);
    }
    assert forall|e: int, i: int, j: int|
        0 <= e < es.len() && 0 <= i < n && 0 <= j < n && #[trigger] r[i] == (#[trigger] es[e]).1 && #[trigger] r[j] == es[e].0
        implies i < j by {
        assert(r[i] == order[n - 1 - i]);
        assert(r[j] == order[n - 1 - j]);
    }
}

/// Reversing an order where targets come first gives one where sources come first.
proof fn lemma_reverse_dependencies(n: nat, es: Seq<(int, int, EdgeKind)>, order: Seq<int>)
    requires
        dependencies_first(n, es, order),
    ensures
        is_topological(n, es, order.reverse()),
{
    let r = order.reverse();
    assert forall|i: int| 0 <= i < n implies 0 <= #[trigger] r[i] < n by {
        assert(r[i] == order[n - 1 - i]);
    }
    assert forall|i: int, j: int| 0 <= i < j < n implies #[trigger] r[i] != #[trigger] r[j] by {
        assert(r[i] == order[n - 1 - i]);
        assert(r[j] == order[n - 1 - j]);
    }
    assert forall|e: int, i: int, j: int|
        0 <= e < es.len() && 0 <= i < n && 0 <= j < n && #[trigger] r[i] == (#[trigger] es[e]).0 && #[trigger] r[j] == es[e].1
        implies i < j by {
        assert(r[i] == order[n - 1 - i]);
        assert(r[j] == order[n - 1 - j]);
    }
}

/// The order `petgraph`'s `toposort` gives a graph with `n` nodes and edges
/// `es`, or `None` when it reports a cycle.
pub uninterp spec fn toposort_order(n: nat, es: Seq<(int, int, EdgeKind)>) -> Option<Seq<int>>;

/// `petgraph`'s `algo::toposort`: on an acyclic graph, every node in an order
/// where each comes before its successors; otherwise an error (self loops are
/// cycles). Which topological order it picks is not stated beyond its name.
#[verifier::external_body]
fn pg_toposort(g: &DiGraph<SchemaNode, EdgeKind>) -> (res: Option<Vec<usize>>)
    ensures
        match res {
            Some(order) => toposort_order(graph_nodes(*g).len(), graph_edges(*g)) == Some(index_ints(order@))
                && is_topological(graph_nodes(*g).len(), graph_edges(*g), index_ints(order@)),
            None => toposort_order(graph_nodes(*g).len(), graph_edges(*g)) is None
                && !exists|o: Seq<int>| #[trigger] is_topological(graph_nodes(*g).len(), graph_edges(*g), o),
        },
{
    petgraph::algo::toposort(g, None).ok().map(|v| v.into_iter().map(|n| n.index()).collect())
}

/// Whether some entry is for kind `k`.
pub open spec fn lists_kind(v: Seq<(EdgeKind, usize)>, k: EdgeKind) -> bool {
    exists|a: int| 0 <= a < v.len() && v[a].0 == k
}

/// The position of the entry for kind `k`.
fn find_kind(out: &Vec<(EdgeKind, usize)>, k: EdgeKind) -> (res: Option<usize>)
    ensures
        match res {
            Some(j) => j < out@.len() && out@[j as int].0 == k,
            None => forall|a: int| 0 <= a < out@.len() ==> (#[trigger] out@[a]).0 != k,
        },
{
    let mut j: usize = 0;
    while j < out.len()
        invariant
            j <= out.len(),
            forall|a: int| 0 <= a < j ==> (#[trigger] out@[a]).0 != k,
        decreases out.len() - j,
    {
        if out[j].0 == k {
            return Some(j);
        }
        j = j + 1;
    }
    None
}

impl SchemaGraph {
    /// The identifiers at the other end of the edges leaving (`outgoing`) or
    /// entering the schema, most recently added edge first.
    fn neighbor_ids(&self, schema_id: &str, outgoing: bool) -> (res: Vec<&str>)
        requires
            self.wf(),
        ensures
            match node_pos(self.nodes(), schema_id@) {
                Some(v) => res@.len() == incident(self.edges(), v, outgoing).len() && forall|i: int| 0 <= i < res@.len()
                    ==> (#[trigger] res@[i])@ == self.nodes()[other_end(incident(self.edges(), v, outgoing)[i], outgoing)].id@,
                None => res@.len() == 0,
            },
    {
        match self.find_node(schema_id) {
            None => Vec::new(),
            Some(v) => {
                let ghost es = self.edges();
                let ns_idx = pg_neighbors_directed(&self.graph, v, outgoing);
                proof {
                    lemma_incident(es, v as int, outgoing);
                }
                let mut out: Vec<&str> = Vec::new();
                let mut i: usize = 0;
                while i < ns_idx.len()
                    invariant
                        self.wf(),
                        es == self.edges(),
                        v < self.nodes().len(),
                        ns_idx@.len() == incident(es, v as int, outgoing).len(),
                        forall|k: int| 0 <= k < ns_idx@.len() ==> (#[trigger] ns_idx@[k]) as int == other_end(
                            incident(es, v as int, outgoing)[k],
                            outgoing,
                        ),
                        forall|k: int| 0 <= k < incident(es, v as int, outgoing).len() ==> exists|e: int| 0 <= e < es.len()
                            && es[e] == #[trigger] incident(es, v as int, outgoing)[k],
                        i <= ns_idx.len(),
                        out@.len() == i,
                        forall|k: int| 0 <= k < i ==> (#[trigger] out@[k])@ == self.nodes()[other_end(incident(es, v as int, outgoing)[k], outgoing)].id@,
                    decreases ns_idx.len() - i,
                {
                    proof {
                        let e = choose|e: int| 0 <= e < es.len() && es[e] == incident(es, v as int, outgoing)[i as int];
                        assert(0 <= es[e].0 < self.nodes().len() && 0 <= es[e].1 < self.nodes().len());
                    }
                    let node = pg_node(&self.graph, ns_idx[i]);
                    out.push(node.id.as_str());
                    i = i + 1;
                }
                out
            },
        }
    }

    /// The schemas this one refers to, most recently added edge first.
    pub fn dependencies(&self, schema_id: &str) -> (res: Vec<&str>)
        requires
            self.wf(),
        ensures
            match node_pos(self.nodes(), schema_id@) {
                Some(v) => res@.len() == incident(self.edges(), v, true).len() && forall|i: int| 0 <= i < res@.len()
                    ==> (#[trigger] res@[i])@ == self.nodes()[incident(self.edges(), v, true)[i].1].id@,
                None => res@.len() == 0,
            },
    {
        self.neighbor_ids(schema_id, true)
    }

    /// The schemas that refer to this one, most recently added edge first.
    pub fn dependents(&self, schema_id: &str) -> (res: Vec<&str>)
        requires
            self.wf(),
        ensures
            match node_pos(self.nodes(), schema_id@) {
                Some(v) => res@.len() == incident(self.edges(), v, false).len() && forall|i: int| 0 <= i < res@.len()
                    ==> (#[trigger] res@[i])@ == self.nodes()[incident(self.edges(), v, false)[i].0].id@,
                None => res@.len() == 0,
            },
    {
        self.neighbor_ids(schema_id, false)
    }

    /// The edges of the given kinds (all when `kinds` is empty), in edge order,
    /// as source identifier, target identifier and kind.
    pub fn edges_of_kind(&self, kinds: &[EdgeKind]) -> (res: Vec<(&str, &str, EdgeKind)>)
        requires
            self.wf(),
        ensures
            res@.len() == kind_edges(self.edges(), kinds@).len(),
            forall|i: int| 0 <= i < res@.len() ==> {
                let e = #[trigger] kind_edges(self.edges(), kinds@)[i];
                &&& res@[i].0@ == self.nodes()[e.0].id@
                &&& res@[i].1@ == self.nodes()[e.1].id@
                &&& res@[i].2 == e.2
            },
    {
        let ghost es = self.edges();
        let m = pg_edge_count(&self.graph);
        let mut out: Vec<(&str, &str, EdgeKind)> = Vec::new();
        let mut i: usize = 0;
        while i < m
            invariant
                self.wf(),
                es == self.edges(),
                m == es.len(),
                i <= m,
                out@.len() == kind_edges(es.take(i as int), kinds@).len(),
                forall|k: int| 0 <= k < out@.len() ==> {
                    let e = #[trigger] kind_edges(es.take(i as int), kinds@)[k];
                    &&& out@[k].0@ == self.nodes()[e.0].id@
                    &&& out@[k].1@ == self.nodes()[e.1].id@
                    &&& out@[k].2 == e.2
                },
            decreases m - i,
        {
            proof {
                let t = es.take(i as int + 1);
                assert(t.drop_last() =~= es.take(i as int));
                assert(t.last() == es[i as int]);
            }
            let (a, b, k) = pg_edge(&self.graph, i);
            let allowed = kinds.len() == 0 || kind_in(kinds, k);
            if allowed {
                let from = pg_node(&self.graph, a);
                let to = pg_node(&self.graph, b);
                out.push((from.id.as_str(), to.id.as_str(), k));
            }
            i = i + 1;
        }
        proof {
            assert(es.take(m as int) =~= es);
        }
        out
    }

    /// The number of edges of each kind present, kinds in order of first appearance.
    pub fn edge_type_counts(&self) -> (res: Vec<(EdgeKind, usize)>)
        requires
            self.wf(),
        ensures
            forall|i: int, j: int| 0 <= i < j < res@.len() ==> (#[trigger] res@[i]).0 != (#[trigger] res@[j]).0,
            forall|i: int| 0 <= i < res@.len() ==> (#[trigger] res@[i]).1 == kind_count(self.edges(), res@[i].0),
            forall|k: EdgeKind| #[trigger] kind_count(self.edges(), k) > 0 <==> lists_kind(res@, k),
    {
        let ghost es = self.edges();
        let m = pg_edge_count(&self.graph);
        let mut out: Vec<(EdgeKind, usize)> = Vec::new();
        let mut i: usize = 0;
        while i < m
            invariant
                es == self.edges(),
                m == es.len(),
                i <= m,
                forall|a: int, b: int| 0 <= a < b < out@.len() ==> (#[trigger] out@[a]).0 != (#[trigger] out@[b]).0,
                forall|a: int| 0 <= a < out@.len() ==> (#[trigger] out@[a]).1 == kind_count(es.take(i as int), out@[a].0),
                forall|k: EdgeKind| #[trigger] kind_count(es.take(i as int), k) > 0 <==> lists_kind(out@, k),
                forall|k: EdgeKind| #[trigger] kind_count(es.take(i as int), k) <= i,
            decreases m - i,
        {
            let ghost t0 = es.take(i as int);
            let ghost t1 = es.take(i as int + 1);
            proof {
                assert(t1.drop_last() =~= t0);
                assert(t1.last() == es[i as int]);
            }
            let (_, _, k) = pg_edge(&self.graph, i);
            match find_kind(&out, k) {
                Some(j) => {
                    let c = out[j].1;
                    proof {
                        assert(kind_count(t0, k) <= i);
                    }
                    let ghost before = out@;
                    out.set(j, (k, c + 1));
                    proof {
                        assert forall|a: int, b: int| 0 <= a < b < out@.len() implies (#[trigger] out@[a]).0 != (#[trigger] out@[b]).0 by {
                            assert(before[a].0 == out@[a].0 && before[b].0 == out@[b].0);
                        }
                        assert forall|kk: EdgeKind| #[trigger] lists_kind(before, kk) <==> lists_kind(out@, kk) by {
                            if exists|a: int| 0 <= a < before.len() && before[a].0 == kk {
                                let a = choose|a: int| 0 <= a < before.len() && before[a].0 == kk;
                                assert(out@[a].0 == kk);
                            }
                            if exists|a: int| 0 <= a < out@.len() && out@[a].0 == kk {
                                let a = choose|a: int| 0 <= a < out@.len() && out@[a].0 == kk;
                                assert(before[a].0 == kk);
                            }
                        }
                    }
                },
                None => {
                    let ghost before = out@;
                    out.push((k, 1));
                    proof {
                        assert forall|a: int, b: int| 0 <= a < b < out@.len() implies (#[trigger] out@[a]).0 != (#[trigger] out@[b]).0 by {
                            if b < before.len() {
                                assert(before[a].0 == out@[a].0 && before[b].0 == out@[b].0);
                            } else {
                                assert(before[a].0 != k);
                            }
                        }
                        assert forall|kk: EdgeKind| #[trigger] lists_kind(before, kk) || kk == k <==> lists_kind(out@, kk) by {
                            if exists|a: int| 0 <= a < before.len() && before[a].0 == kk {
                                let a = choose|a: int| 0 <= a < before.len() && before[a].0 == kk;
                                assert(out@[a].0 == kk);
                            }
                            if kk == k {
                                assert(out@[before.len() as int].0 == kk);
                            }
                            if exists|a: int| 0 <= a < out@.len() && out@[a].0 == kk {
                                let a = choose|a: int| 0 <= a < out@.len() && out@[a].0 == kk;
                                if a < before.len() {
                                    assert(before[a].0 == kk);
                                }
                            }
                        }
                    }
                },
            }
            proof {
                assert forall|kk: EdgeKind| #[trigger] kind_count(t1, kk) == kind_count(t0, kk) + if kk == k { 1nat } else { 0nat } by {}
            }
            i = i + 1;
        }
        proof {
            assert(es.take(m as int) =~= es);
        }
        out
    }

    /// The schemas in an order for code generation, where every schema comes
    /// after the schemas it refers to (dependencies before dependents); `None`
    /// when the graph has a cycle. The order is that of `petgraph`'s
    /// `toposort`, reversed.
    pub fn topological_order(&self) -> (res: Option<Vec<&str>>)
        requires
            self.wf(),
        ensures
            match toposort_order(self.nodes().len(), self.edges()) {
                Some(order) => res is Some && res->0@.len() == order.len() && forall|i: int| 0 <= i < order.len()
                    ==> (#[trigger] res->0@[i])@ == self.nodes()[order.reverse()[i]].id@,
                None => res is None,
            },
            match toposort_order(self.nodes().len(), self.edges()) {
                Some(order) => dependencies_first(self.nodes().len(), self.edges(), order.reverse()),
                None => !exists|o: Seq<int>| #[trigger] dependencies_first(self.nodes().len(), self.edges(), o),
            },
    {
        match pg_toposort(&self.graph) {
            None => {
                proof {
                    assert forall|o: Seq<int>| !#[trigger] dependencies_first(self.nodes().len(), self.edges(), o) by {
                        if dependencies_first(self.nodes().len(), self.edges(), o) {
                            lemma_reverse_dependencies(self.nodes().len(), self.edges(), o);
                        }
                    }
                }
                None
            },
            Some(order) => {
                let ghost o = index_ints(order@);
                proof {
                    lemma_reverse_topological(self.nodes().len(), self.edges(), o);
                }
                let mut out: Vec<&str> = Vec::new();
                let mut i: usize = order.len();
                while i > 0
                    invariant
                        self.wf(),
                        o == index_ints(order@),
                        is_topological(self.nodes().len(), self.edges(), o),
                        i <= order.len(),
                        order@.len() == o.len(),
                        out@.len() == order.len() - i,
                        forall|k: int| 0 <= k < out@.len() ==> (#[trigger] out@[k])@ == self.nodes()[o.reverse()[k]].id@,
                    decreases i,
                {
                    i = i - 1;
                    proof {
                        assert(0 <= o[i as int] < self.nodes().len());
                        assert(o.reverse()[out@.len() as int] == o[i as int]);
                    }
                    let node = pg_node(&self.graph, order[i]);
                    out.push(node.id.as_str());
                }
                Some(out)
            },
        }
    }
}

// ---------------------------------------------------------------------------
// Orphans
// ---------------------------------------------------------------------------

/// The categories whose schemas are expected to have no referrers.
pub open spec fn expected_root_category(c: Seq<char>) -> bool {
    c == "ecs"@ || c == "queues"@ || c == "nodes"@ || c == "systems"@
}

/// An orphan: a schema file (not a local definition) that no edge enters;
/// `sel` 0 keeps all of them, 1 those with no outgoing edge either, 2 those
/// with outgoing edges.
pub open spec fn orphan_selected(ns: Seq<SchemaNode>, es: Seq<(int, int, EdgeKind)>, v: int, sel: int) -> bool {
    &&& !ns[v].id@.contains('#')
    &&& incident(es, v, false).len() == 0
    &&& (sel == 1 ==> incident(es, v, true).len() == 0)
    &&& (sel == 2 ==> incident(es, v, true).len() > 0)
}

/// The positions below `k` of the selected orphans, in order.
pub open spec fn orphan_positions(ns: Seq<SchemaNode>, es: Seq<(int, int, EdgeKind)>, k: int, sel: int) -> Seq<int>
    decreases k,
{
    if k <= 0 {
        Seq::empty()
    } else if orphan_selected(ns, es, k - 1, sel) {
        orphan_positions(ns, es, k - 1, sel).push(k - 1)
    } else {
        orphan_positions(ns, es, k - 1, sel)
    }
}

/// `o` describes the schema at position `v`.
pub open spec fn orphan_info_ok(ns: Seq<SchemaNode>, es: Seq<(int, int, EdgeKind)>, v: int, o: OrphanInfo) -> bool {
    &&& o.schema_id@ == ns[v].id@
    &&& o.file_path@ == ns[v].file_path@
    &&& o.category@ == split_on(ns[v].file_path@, '/')[0]
    &&& o.kind == ns[v].kind
    &&& o.is_expected_root == expected_root_category(o.category@)
    &&& o.has_outgoing == (incident(es, v, true).len() > 0)
}

/// `os` lists the selected orphans of the graph, in node order.
pub open spec fn orphans_ok(ns: Seq<SchemaNode>, es: Seq<(int, int, EdgeKind)>, sel: int, os: Seq<OrphanInfo>) -> bool {
    let ps = orphan_positions(ns, es, ns.len() as int, sel);
    &&& os.len() == ps.len()
    &&& forall|i: int| 0 <= i < os.len() ==> orphan_info_ok(ns, es, #[trigger] ps[i], os[i])
}

/// The orphans of category `c`, in order.
pub open spec fn in_category(os: Seq<OrphanInfo>, c: Seq<char>) -> Seq<OrphanInfo>
    decreases os.len(),
{
    if os.len() == 0 {
        Seq::empty()
    } else if os.last().category@ == c {
        in_category(os.drop_last(), c).push(os.last())
    } else {
        in_category(os.drop_last(), c)
    }
}

/// The categories of the orphans, each once, in order of first appearance.
pub open spec fn categories(os: Seq<OrphanInfo>) -> Seq<Seq<char>>
    decreases os.len(),
{
    if os.len() == 0 {
        Seq::empty()
    } else if categories(os.drop_last()).contains(os.last().category@) {
        categories(os.drop_last())
    } else {
        categories(os.drop_last()).push(os.last().category@)
    }
}

/// Whether `c` is one of the categories expected to be roots.
fn is_expected_root_category(c: &Vec<char>) -> (res: bool)
    ensures
        res == expected_root_category(c@),
{
    chars_is(c, "ecs") || chars_is(c, "queues") || chars_is(c, "nodes") || chars_is(c, "systems")
}

impl SchemaGraph {
    /// The selected orphans, in node order.
    fn orphans_selected(&self, sel: u8) -> (res: Vec<OrphanInfo>)
        requires
            self.wf(),
            sel <= 2,
        ensures
            orphans_ok(self.nodes(), self.edges(), sel as int, res@),
    {
        let ghost ns = self.nodes();
        let ghost es = self.edges();
        let n = pg_node_count(&self.graph);
        let mut out: Vec<OrphanInfo> = Vec::new();
        let mut v: usize = 0;
        while v < n
            invariant
                self.wf(),
                ns == self.nodes(),
                es == self.edges(),
                n == ns.len(),
                v <= n,
                sel <= 2,
                out@.len() == orphan_positions(ns, es, v as int, sel as int).len(),
                forall|i: int| 0 <= i < out@.len() ==> orphan_info_ok(ns, es, #[trigger] orphan_positions(ns, es, v as int, sel as int)[i], out@[i]),
            decreases n - v,
        {
            let node = pg_node(&self.graph, v);
            let idv = chars_of(node.id.as_str());
            let incoming = pg_neighbors_directed(&self.graph, v, false);
            let outgoing = pg_neighbors_directed(&self.graph, v, true);
            let has_hash = crate::text::contains_char(&idv, '#');
            let keep = !has_hash && incoming.len() == 0 && (sel != 1 || outgoing.len() == 0) && (sel != 2 || outgoing.len() > 0);
            if keep {
                let fp = chars_of(node.file_path.as_str());
                let parts = split_chars(&fp, '/');
                let cat = &parts[0];
                let is_root = is_expected_root_category(cat);
                let info = OrphanInfo {
                    schema_id: node.id.clone(),
                    file_path: node.file_path.clone(),
                    category: string_from_chars(cat),
                    kind: node.kind.clone(),
                    is_expected_root: is_root,
                    has_outgoing: outgoing.len() > 0,
                };
                proof {
                    assert(crate::text::views_of(parts@)[0] == parts@[0]@);
                }
                out.push(info);
            }
            proof {
                assert(keep == orphan_selected(ns, es, v as int, sel as int));
            }
            v = v + 1;
        }
        out
    }

    /// The schemas that nothing refers to (local definitions left out), in node order.
    pub fn orphan_schemas(&self) -> (res: Vec<OrphanInfo>)
        requires
            self.wf(),
        ensures
            orphans_ok(self.nodes(), self.edges(), 0, res@),
    {
        self.orphans_selected(0)
    }

    /// The orphans that refer to nothing either.
    pub fn truly_isolated_schemas(&self) -> (res: Vec<OrphanInfo>)
        requires
            self.wf(),
        ensures
            orphans_ok(self.nodes(), self.edges(), 1, res@),
    {
        self.orphans_selected(1)
    }

    /// The orphans that refer to other schemas.
    pub fn consumer_only_schemas(&self) -> (res: Vec<OrphanInfo>)
        requires
            self.wf(),
        ensures
            orphans_ok(self.nodes(), self.edges(), 2, res@),
    {
        self.orphans_selected(2)
    }

    /// The orphans grouped by category: categories in order of first
    /// appearance, each with its orphans in order.
    pub fn orphans_by_category(&self) -> (res: Vec<(String, Vec<OrphanInfo>)>)
        requires
            self.wf(),
        ensures
            exists|os: Seq<OrphanInfo>| #[trigger] orphans_ok(self.nodes(), self.edges(), 0, os) && {
                &&& res@.len() == categories(os).len()
                &&& forall|j: int| 0 <= j < res@.len() ==> (#[trigger] res@[j]).0@ == categories(os)[j] && res@[j].1@ == in_category(os, categories(os)[j])
            },
    {
        let orphans = self.orphan_schemas();
        let ghost all = orphans@;
        let mut rest = orphans;
        let mut out: Vec<(String, Vec<OrphanInfo>)> = Vec::new();
        let mut i: usize = 0;
        assert(all.len() == rest.len());
        while rest.len() > 0
            invariant
                i + rest@.len() == all.len(),
                all.len() <= usize::MAX,
                rest@ == all.skip(i as int),
                out@.len() == categories(all.take(i as int)).len(),
                forall|j: int| 0 <= j < out@.len() ==> (#[trigger] out@[j]).0@ == categories(all.take(i as int))[j] && out@[j].1@
                    == in_category(all.take(i as int), categories(all.take(i as int))[j]),
            decreases rest.len(),
        {
            let o = rest.remove(0);
            let ghost t0 = all.take(i as int);
            let ghost t1 = all.take(i as int + 1);
            proof {
                assert(o == all[i as int]);
                assert(rest@ =~= all.skip(i as int + 1));
                assert(t1.drop_last() =~= t0);
                assert(t1.last() == o);
                lemma_categories_distinct(t0);
                assert forall|c: Seq<char>| c != o.category@ implies #[trigger] in_category(t1, c) == in_category(t0, c) by {}
                assert(in_category(t1, o.category@) == in_category(t0, o.category@).push(o));
            }
            let cat = o.category.clone();
            let ghost ov = o;
            match crate::assoc::assoc_index(&out, cat.as_str()) {
                Some(j) => {
                    let ghost before = out@;
                    let (key, mut list) = out.remove(j);
                    list.push(o);
                    out.insert(j, (key, list));
                    proof {
                        assert(categories(t0)[j as int] == cat@);
                        assert(categories(t0).contains(cat@));
                        assert(categories(t1) == categories(t0));
                        assert forall|q: int| 0 <= q < out@.len() implies (#[trigger] out@[q]).0@ == categories(t1)[q] && out@[q].1@
                            == in_category(t1, categories(t1)[q]) by {
                            if q == j as int {
                                assert(out@[q].1@ == before[q].1@.push(ov));
                            } else {
                                assert(out@[q] == before[q]);
                                assert(categories(t0)[q] != cat@);
                            }
                        }
                    }
                },
                None => {
                    let ghost before = out@;
                    let mut list: Vec<OrphanInfo> = Vec::new();
                    list.push(o);
                    out.push((cat, list));
                    proof {
                        assert(!categories(t0).contains(cat@)) by {
                            if categories(t0).contains(cat@) {
                                let q = choose|q: int| 0 <= q < categories(t0).len() && categories(t0)[q] == cat@;
                                assert(before[q].0@ != cat@);
                            }
                        }
                        lemma_in_category_empty(t0, cat@);
                        assert(categories(t1) == categories(t0).push(cat@));
                        assert forall|q: int| 0 <= q < out@.len() implies (#[trigger] out@[q]).0@ == categories(t1)[q] && out@[q].1@
                            == in_category(t1, categories(t1)[q]) by {
                            if q == before.len() as int {
                                assert(out@[q].1@ =~= seq![ov]);
                                assert(in_category(t0, cat@) =~= Seq::<OrphanInfo>::empty());
                                assert(in_category(t1, cat@) =~= seq![ov]);
                            } else {
                                assert(out@[q] == before[q]);
                                assert(categories(t0)[q] != cat@);
                            }
                        }
                    }
                },
            }
            i = i + 1;
        }
        proof {
            assert(all.take(i as int) =~= all);
        }
        out
    }
}

/// No orphan of category `c`: none in the list.
proof fn lemma_in_category_empty(os: Seq<OrphanInfo>, c: Seq<char>)
    requires
        forall|k: int| 0 <= k < os.len() ==> (#[trigger] os[k]).category@ != c,
    ensures
        in_category(os, c).len() == 0,
    decreases os.len(),
{
    if os.len() > 0 {
        assert forall|k: int| 0 <= k < os.drop_last().len() implies (#[trigger] os.drop_last()[k]).category@ != c by {
            assert(os.drop_last()[k] == os[k]);
        }
        lemma_in_category_empty(os.drop_last(), c);
        assert(os[os.len() - 1].category@ != c);
    }
}

/// The categories listed are distinct, and each is some orphan's category.
proof fn lemma_categories_distinct(os: Seq<OrphanInfo>)
    ensures
        forall|a: int, b: int| 0 <= a < b < categories(os).len() ==> categories(os)[a] != categories(os)[b],
        forall|c: Seq<char>| #[trigger] categories(os).contains(c) <==> exists|k: int| 0 <= k < os.len() && os[k].category@ == c,
    decreases os.len(),
{
    if os.len() > 0 {
        lemma_categories_distinct(os.drop_last());
        let r = categories(os.drop_last());
        assert forall|c: Seq<char>| #[trigger] categories(os).contains(c) <==> exists|k: int| 0 <= k < os.len() && os[k].category@ == c by {
            if categories(os).contains(c) {
                if r.contains(c) {
                    let k = choose|k: int| 0 <= k < os.drop_last().len() && os.drop_last()[k].category@ == c;
                    assert(os[k].category@ == c);
                } else {
                    let q = choose|q: int| 0 <= q < categories(os).len() && categories(os)[q] == c;
                    assert(c == os.last().category@);
                }
            }
            if exists|k: int| 0 <= k < os.len() && os[k].category@ == c {
                let k = choose|k: int| 0 <= k < os.len() && os[k].category@ == c;
                if k < os.len() - 1 {
                    assert(os.drop_last()[k].category@ == c);
                    assert(r.contains(c));
                    if !r.contains(os.last().category@) {
                        let q = choose|q: int| 0 <= q < r.len() && r[q] == c;
                        assert(categories(os)[q] == c);
                    }
                } else {
                    if r.contains(os.last().category@) {
                    } else {
                        assert(categories(os)[r.len() as int] == c);
                    }
                }
            }
        }
    }
}

// ---------------------------------------------------------------------------
// Graphviz output
// ---------------------------------------------------------------------------

/// The fill colour of a node of the given kind.
pub open spec fn kind_color(kind: Option<String>) -> Seq<char> {
    match kind {
        Some(k) => if k@ == "node"@ {
            "#2196F3"@
        } else if k@ == "system"@ {
            "#4CAF50"@
        } else if k@ == "resource"@ {
            "#FF9800"@
        } else if k@ == "queue"@ {
            "#9C27B0"@
        } else if k@ == "entity"@ {
            "#00BCD4"@
        } else if k@ == "primitive"@ {
            "#607D8B"@
        } else {
            "#9E9E9E"@
        },
        None => "#9E9E9E"@,
    }
}

/// A node's label: its title, else its identifier.
pub open spec fn node_label(n: SchemaNode) -> Seq<char> {
    match n.title {
        Some(t) => t@,
        None => n.id@,
    }
}

/// The opening lines of a Graphviz digraph.
pub open spec fn dot_header() -> Seq<char> {
    "digraph G {\n"@ + "  rankdir=LR;\n"@ + "  node [shape=box];\n"@
}

/// The line for a node, with its label and colour.
pub open spec fn dot_node_line(n: SchemaNode) -> Seq<char> {
    "  \""@ + n.id@ + "\" [label=\""@ + node_label(n) + "\", fillcolor=\""@ + kind_color(n.kind) + "\", style=filled];\n"@
}

/// The lines for the first `k` nodes.
pub open spec fn dot_node_lines(ns: Seq<SchemaNode>, k: int) -> Seq<char>
    decreases k,
{
    if k <= 0 {
        Seq::empty()
    } else {
        dot_node_lines(ns, k - 1) + dot_node_line(ns[k - 1])
    }
}

/// The line for an edge, with its colour and label.
pub open spec fn dot_edge_line(ns: Seq<SchemaNode>, e: (int, int, EdgeKind)) -> Seq<char> {
    "  \""@ + ns[e.0].id@ + "\" -> \""@ + ns[e.1].id@ + "\" [color=\""@ + crate::schemas::refs::edge_color(e.2) + "\", label=\""@
        + crate::schemas::refs::edge_label(e.2) + "\"];\n"@
}

/// The lines for the first `k` edges.
pub open spec fn dot_edge_lines(ns: Seq<SchemaNode>, es: Seq<(int, int, EdgeKind)>, k: int) -> Seq<char>
    decreases k,
{
    if k <= 0 {
        Seq::empty()
    } else {
        dot_edge_lines(ns, es, k - 1) + dot_edge_line(ns, es[k - 1])
    }
}

/// The whole graph in Graphviz's DOT language.
pub open spec fn dot_text(ns: Seq<SchemaNode>, es: Seq<(int, int, EdgeKind)>) -> Seq<char> {
    dot_header() + dot_node_lines(ns, ns.len() as int) + dot_edge_lines(ns, es, es.len() as int) + "}\n"@
}

/// Whether some followed edge touches node `v`.
pub open spec fn relevant_node(es: Seq<(int, int, EdgeKind)>, kinds: Seq<EdgeKind>, v: int) -> bool {
    exists|e: int| 0 <= e < es.len() && kind_allowed(kinds, (#[trigger] es[e]).2) && (es[e].0 == v || es[e].1 == v)
}

/// The lines for the nodes below `k` that a followed edge touches.
pub open spec fn dot_relevant_lines(ns: Seq<SchemaNode>, es: Seq<(int, int, EdgeKind)>, kinds: Seq<EdgeKind>, k: int) -> Seq<char>
    decreases k,
{
    if k <= 0 {
        Seq::empty()
    } else {
        dot_relevant_lines(ns, es, kinds, k - 1) + if relevant_node(es, kinds, k - 1) {
            "  \""@ + ns[k - 1].id@ + "\" [label=\""@ + node_label(ns[k - 1]) + "\"];\n"@
        } else {
            Seq::empty()
        }
    }
}

/// The lines for the followed edges among the first `k`.
pub open spec fn dot_kind_edge_lines(ns: Seq<SchemaNode>, es: Seq<(int, int, EdgeKind)>, kinds: Seq<EdgeKind>, k: int) -> Seq<char>
    decreases k,
{
    if k <= 0 {
        Seq::empty()
    } else {
        dot_kind_edge_lines(ns, es, kinds, k - 1) + if kind_allowed(kinds, es[k - 1].2) {
            "  \""@ + ns[es[k - 1].0].id@ + "\" -> \""@ + ns[es[k - 1].1].id@ + "\" [color=\""@ + crate::schemas::refs::edge_color(
                es[k - 1].2,
            ) + "\"];\n"@
        } else {
            Seq::empty()
        }
    }
}

/// The subgraph of the followed edges in Graphviz's DOT language: the nodes
/// they touch, in node order, then the edges.
pub open spec fn dot_filtered_text(ns: Seq<SchemaNode>, es: Seq<(int, int, EdgeKind)>, kinds: Seq<EdgeKind>) -> Seq<char> {
    dot_header() + dot_relevant_lines(ns, es, kinds, ns.len() as int) + dot_kind_edge_lines(ns, es, kinds, es.len() as int) + "}\n"@
}

/// The fill colour of a node of the given kind.
fn node_kind_color(kind: &Option<String>) -> (res: &'static str)
    ensures
        res@ == kind_color(*kind),
{
    match kind {
        Some(k) => {
            let v = chars_of(k.as_str());
            if chars_is(&v, "node") {
                "#2196F3"
            } else if chars_is(&v, "system") {
                "#4CAF50"
            } else if chars_is(&v, "resource") {
                "#FF9800"
            } else if chars_is(&v, "queue") {
                "#9C27B0"
            } else if chars_is(&v, "entity") {
                "#00BCD4"
            } else if chars_is(&v, "primitive") {
                "#607D8B"
            } else {
                "#9E9E9E"
            }
        },
        None => "#9E9E9E",
    }
}

impl SchemaGraph {
    /// The graph in Graphviz's DOT language: nodes labelled by title and
    /// coloured by kind, edges coloured and labelled by kind.
    pub fn to_dot(&self) -> (res: String)
        requires
            self.wf(),
        ensures
            res@ == dot_text(self.nodes(), self.edges()),
    {
        let ghost ns = self.nodes();
        let ghost es = self.edges();
        let mut dot = owned("digraph G {\n");
        dot.append("  rankdir=LR;\n");
        dot.append("  node [shape=box];\n");
        let n = pg_node_count(&self.graph);
        let mut i: usize = 0;
        while i < n
            invariant
                ns == self.nodes(),
                n == ns.len(),
                i <= n,
                dot@ == dot_header() + dot_node_lines(ns, i as int),
            decreases n - i,
        {
            let node = pg_node(&self.graph, i);
            let label: &str = match &node.title {
                Some(t) => t.as_str(),
                None => node.id.as_str(),
            };
            let mut line = owned("  \"");
            line.append(node.id.as_str());
            line.append("\" [label=\"");
            line.append(label);
            line.append("\", fillcolor=\"");
            line.append(node_kind_color(&node.kind));
            line.append("\", style=filled];\n");
            assert(line@ == dot_node_line(ns[i as int]));
            dot.append(line.as_str());
            i = i + 1;
        }
        let m = pg_edge_count(&self.graph);
        let mut j: usize = 0;
        while j < m
            invariant
                self.wf(),
                ns == self.nodes(),
                es == self.edges(),
                n == ns.len(),
                m == es.len(),
                j <= m,
                dot@ == dot_header() + dot_node_lines(ns, n as int) + dot_edge_lines(ns, es, j as int),
            decreases m - j,
        {
            let (a, b, k) = pg_edge(&self.graph, j);
            let from = pg_node(&self.graph, a);
            let to = pg_node(&self.graph, b);
            let mut line = owned("  \"");
            line.append(from.id.as_str());
            line.append("\" -> \"");
            line.append(to.id.as_str());
            line.append("\" [color=\"");
            line.append(k.color());
            line.append("\", label=\"");
            line.append(k.label());
            line.append("\"];\n");
            assert(line@ == dot_edge_line(ns, es[j as int]));
            dot.append(line.as_str());
            j = j + 1;
        }
        dot.append("}\n");
        dot
    }

    /// The subgraph of the edges of the given kinds (all when empty) in DOT:
    /// the nodes those edges touch, in node order, then the edges.
    pub fn to_dot_filtered(&self, edge_kinds: &[EdgeKind]) -> (res: String)
        requires
            self.wf(),
        ensures
            res@ == dot_filtered_text(self.nodes(), self.edges(), edge_kinds@),
    {
        let ghost ns = self.nodes();
        let ghost es = self.edges();
        let n = pg_node_count(&self.graph);
        let m = pg_edge_count(&self.graph);
        let mut relevant: Vec<bool> = Vec::new();
        let mut k: usize = 0;
        while k < n
            invariant
                k <= n,
                relevant@.len() == k,
                forall|q: int| 0 <= q < k ==> !(#[trigger] relevant@[q]),
            decreases n - k,
        {
            relevant.push(false);
            k = k + 1;
        }
        let mut j: usize = 0;
        while j < m
            invariant
                self.wf(),
                ns == self.nodes(),
                es == self.edges(),
                n == ns.len(),
                m == es.len(),
                j <= m,
                relevant@.len() == n,
                forall|v: int| 0 <= v < n ==> (#[trigger] relevant@[v] <==> exists|e: int| 0 <= e < j && kind_allowed(edge_kinds@, (#[trigger] es[e]).2)
                    && (es[e].0 == v || es[e].1 == v)),
            decreases m - j,
        {
            let (a, b, kd) = pg_edge(&self.graph, j);
            let allowed = edge_kinds.len() == 0 || kind_in(edge_kinds, kd);
            if allowed {
                relevant.set(a, true);
                relevant.set(b, true);
            }
            proof {
                assert forall|v: int| 0 <= v < n implies (#[trigger] relevant@[v] <==> exists|e: int| 0 <= e < j + 1 && kind_allowed(edge_kinds@, (#[trigger] es[e]).2)
                    && (es[e].0 == v || es[e].1 == v)) by {
                    if relevant@[v] && !(exists|e: int| 0 <= e < j && kind_allowed(edge_kinds@, (#[trigger] es[e]).2) && (es[e].0 == v || es[e].1 == v)) {
                        assert(es[j as int].0 == v || es[j as int].1 == v);
                    }
                }
            }
            j = j + 1;
        }
        let mut dot = owned("digraph G {\n");
        dot.append("  rankdir=LR;\n");
        dot.append("  node [shape=box];\n");
        let mut i: usize = 0;
        while i < n
            invariant
                ns == self.nodes(),
                es == self.edges(),
                n == ns.len(),
                m == es.len(),
                relevant@.len() == n,
                forall|v: int| 0 <= v < n ==> (#[trigger] relevant@[v] <==> relevant_node(es, edge_kinds@, v)),
                i <= n,
                dot@ == dot_header() + dot_relevant_lines(ns, es, edge_kinds@, i as int),
            decreases n - i,
        {
            if relevant[i] {
                let node = pg_node(&self.graph, i);
                let label: &str = match &node.title {
                    Some(t) => t.as_str(),
                    None => node.id.as_str(),
                };
                let mut line = owned("  \"");
                line.append(node.id.as_str());
                line.append("\" [label=\"");
                line.append(label);
                line.append("\"];\n");
                dot.append(line.as_str());
            }
            i = i + 1;
        }
        let mut j: usize = 0;
        while j < m
            invariant
                self.wf(),
                ns == self.nodes(),
                es == self.edges(),
                n == ns.len(),
                m == es.len(),
                j <= m,
                dot@ == dot_header() + dot_relevant_lines(ns, es, edge_kinds@, n as int) + dot_kind_edge_lines(ns, es, edge_kinds@, j as int),
            decreases m - j,
        {
            let (a, b, kd) = pg_edge(&self.graph, j);
            let allowed = edge_kinds.len() == 0 || kind_in(edge_kinds, kd);
            if allowed {
                let from = pg_node(&self.graph, a);
                let to = pg_node(&self.graph, b);
                let mut line = owned("  \"");
                line.append(from.id.as_str());
                line.append("\" -> \"");
                line.append(to.id.as_str());
                line.append("\" [color=\"");
                line.append(kd.color());
                line.append("\"];\n");
                dot.append(line.as_str());
            }
            j = j + 1;
        }
        dot.append("}\n");
        dot
    }
}

// ---------------------------------------------------------------------------
// Schemas ranked by degree
// ---------------------------------------------------------------------------

/// Inserts `x` after every entry whose count is at least its own.
pub open spec fn insert_desc(s: Seq<(Seq<char>, nat)>, x: (Seq<char>, nat)) -> Seq<(Seq<char>, nat)>
    decreases s.len(),
{
    if s.len() == 0 {
        seq![x]
    } else if s[0].1 < x.1 {
        seq![x] + s
    } else {
        seq![s[0]] + insert_desc(s.drop_first(), x)
    }
}

/// The entries sorted by count, largest first, entries of equal count in
/// the order they came in (a stable sort).
pub open spec fn sort_desc(s: Seq<(Seq<char>, nat)>) -> Seq<(Seq<char>, nat)>
    decreases s.len(),
{
    if s.len() == 0 {
        Seq::empty()
    } else {
        insert_desc(sort_desc(s.drop_last()), s.last())
    }
}

/// Each node's identifier with the number of its edges in one direction.
pub open spec fn degrees(ns: Seq<SchemaNode>, es: Seq<(int, int, EdgeKind)>, outgoing: bool) -> Seq<(Seq<char>, nat)> {
    Seq::new(ns.len(), |v: int| (ns[v].id@, incident(es, v, outgoing).len()))
}

/// The views of a ranking.
pub open spec fn ranking_view(r: Seq<(&str, usize)>) -> Seq<(Seq<char>, nat)> {
    r.map_values(|p: (&str, usize)| (p.0@, p.1 as nat))
}

proof fn lemma_insert_desc_at(s: Seq<(Seq<char>, nat)>, x: (Seq<char>, nat), p: int)
    requires
        0 <= p <= s.len(),
        forall|j: int| 0 <= j < p ==> (#[trigger] s[j]).1 >= x.1,
        p == s.len() || s[p].1 < x.1,
    ensures
        insert_desc(s, x) == s.insert(p, x),
    decreases p,
{
    if s.len() == 0 {
        assert(s.insert(p, x) =~= seq![x]);
    } else if p == 0 {
        assert(s.insert(0, x) =~= seq![x] + s);
    } else {
        assert forall|j: int| 0 <= j < p - 1 implies (#[trigger] s.drop_first()[j]).1 >= x.1 by {
            assert(s.drop_first()[j] == s[j + 1]);
        }
        lemma_insert_desc_at(s.drop_first(), x, p - 1);
        assert(seq![s[0]] + s.drop_first().insert(p - 1, x) =~= s.insert(p, x));
    }
}

proof fn lemma_insert_desc_multiset(s: Seq<(Seq<char>, nat)>, x: (Seq<char>, nat))
    ensures
        insert_desc(s, x).to_multiset() == s.to_multiset().insert(x),
    decreases s.len(),
{
    broadcast use vstd::seq_lib::group_to_multiset_ensures;
    broadcast use vstd::multiset::group_multiset_axioms;
    if s.len() == 0 {
        assert(seq![x] == Seq::<(Seq<char>, nat)>::empty().push(x));
        assert(s.to_multiset() =~= vstd::multiset::Multiset::empty());
    } else {
        let one = seq![s[0]];
        let rest = s.drop_first();
        assert(s == one + rest);
        vstd::seq_lib::lemma_multiset_commutative(one, rest);
        if s[0].1 < x.1 {
            vstd::seq_lib::lemma_multiset_commutative(seq![x], s);
            assert(seq![x] == Seq::<(Seq<char>, nat)>::empty().push(x));
            assert(insert_desc(s, x).to_multiset() =~= s.to_multiset().insert(x));
        } else {
            lemma_insert_desc_multiset(rest, x);
            vstd::seq_lib::lemma_multiset_commutative(one, insert_desc(rest, x));
            assert(insert_desc(s, x).to_multiset() =~= s.to_multiset().insert(x));
        }
    }
}

proof fn lemma_sort_desc_multiset(s: Seq<(Seq<char>, nat)>)
    ensures
        sort_desc(s).to_multiset() == s.to_multiset(),
    decreases s.len(),
{
    broadcast use vstd::seq_lib::group_to_multiset_ensures;
    if s.len() == 0 {
        assert(sort_desc(s) =~= s);
    } else {
        lemma_sort_desc_multiset(s.drop_last());
        lemma_insert_desc_multiset(sort_desc(s.drop_last()), s.last());
        assert(s == s.drop_last().push(s.last()));
    }
}

/// The edges leaving node `v`, in order.
pub open spec fn edges_from(es: Seq<(int, int, EdgeKind)>, v: int) -> Seq<(int, int, EdgeKind)> {
    es.filter(|e: (int, int, EdgeKind)| e.0 == v)
}

/// The edges entering node `v`, in order.
pub open spec fn edges_into(es: Seq<(int, int, EdgeKind)>, v: int) -> Seq<(int, int, EdgeKind)> {
    es.filter(|e: (int, int, EdgeKind)| e.1 == v)
}

/// The number of incident edges is the number of edges whose source (or,
/// for incoming edges, whose target) is the node.
proof fn lemma_incident_count(es: Seq<(int, int, EdgeKind)>, v: int)
    ensures
        incident(es, v, true).len() == edges_from(es, v).len(),
        incident(es, v, false).len() == edges_into(es, v).len(),
    decreases es.len(),
{
    reveal(Seq::filter);
    if es.len() > 0 {
        lemma_incident_count(es.drop_last(), v);
    }
}

/// Ranking by degree pairs every schema with its number of edges: with
/// `outgoing`, the edges leaving it (the schemas it depends on); else the
/// edges entering it (the schemas referring to it). Every schema is ranked
/// once, and the counts never rise along the ranking.
pub proof fn law_ranking_counts_edges(ns: Seq<SchemaNode>, es: Seq<(int, int, EdgeKind)>, outgoing: bool)
    ensures
        ({
            let r = sort_desc(degrees(ns, es, outgoing));
            let count = |v: int| if outgoing {
                edges_from(es, v).len()
            } else {
                edges_into(es, v).len()
            };
            &&& r.len() == ns.len()
            &&& forall|i: int| 0 <= i < r.len() ==> exists|v: int| 0 <= v < ns.len() && #[trigger] r[i] == (ns[v].id@, count(v))
            &&& forall|v: int| 0 <= v < ns.len() ==> r.contains((ns[v].id@, #[trigger] count(v)))
        }),
{
    broadcast use vstd::seq_lib::group_to_multiset_ensures;
    let d = degrees(ns, es, outgoing);
    let r = sort_desc(d);
    let count = |v: int| if outgoing {
        edges_from(es, v).len()
    } else {
        edges_into(es, v).len()
    };
    lemma_sort_desc_multiset(d);
    assert(r.len() == d.len()) by {
        assert(r.to_multiset().len() == d.to_multiset().len());
    }
    assert forall|v: int| 0 <= v < ns.len() implies d[v] == (ns[v].id@, count(v)) by {
        lemma_incident_count(es, v);
        assert(d[v] == (ns[v].id@, incident(es, v, outgoing).len()));
        if outgoing {
            assert(count(v) == edges_from(es, v).len());
        } else {
            assert(count(v) == edges_into(es, v).len());
        }
    }
    assert forall|i: int| 0 <= i < r.len() implies exists|v: int| 0 <= v < ns.len() && #[trigger] r[i] == (ns[v].id@, count(v)) by {
        assert(r.contains(r[i]));
        assert(d.to_multiset().count(r[i]) > 0);
        assert(d.contains(r[i]));
        let v = choose|v: int| 0 <= v < d.len() && d[v] == r[i];
        assert(d[v] == (ns[v].id@, count(v)));
    }
    assert forall|v: int| 0 <= v < ns.len() implies r.contains((ns[v].id@, #[trigger] count(v))) by {
        assert(d[v] == (ns[v].id@, count(v)));
        assert(d.contains(d[v]));
        assert(r.to_multiset().count(d[v]) > 0);
    }
}

impl SchemaGraph {
    /// Each schema with its number of edges in one direction, most first;
    /// schemas with equal numbers keep node order.
    fn ranked_by_degree(&self, outgoing: bool) -> (res: Vec<(&str, usize)>)
        requires
            self.wf(),
        ensures
            ranking_view(res@) == sort_desc(degrees(self.nodes(), self.edges(), outgoing)),
    {
        let ghost ns = self.nodes();
        let ghost es = self.edges();
        let ghost ds = degrees(ns, es, outgoing);
        let n = pg_node_count(&self.graph);
        let mut out: Vec<(&str, usize)> = Vec::new();
        let mut i: usize = 0;
        while i < n
            invariant
                self.wf(),
                ns == self.nodes(),
                es == self.edges(),
                ds == degrees(ns, es, outgoing),
                n == ns.len(),
                i <= n,
                ranking_view(out@) == sort_desc(ds.take(i as int)),
            decreases n - i,
        {
            let node = pg_node(&self.graph, i);
            let deg = pg_neighbors_directed(&self.graph, i, outgoing).len();
            let ghost x = (node.id@, deg as nat);
            let mut p: usize = 0;
            while p < out.len() && out[p].1 >= deg
                invariant
                    p <= out.len(),
                    forall|j: int| 0 <= j < p ==> (#[trigger] out@[j]).1 >= deg,
                decreases out.len() - p,
            {
                p = p + 1;
            }
            let ghost before = ranking_view(out@);
            out.insert(p, (node.id.as_str(), deg));
            proof {
                assert forall|j: int| 0 <= j < p implies (#[trigger] before[j]).1 >= x.1 by {}
                lemma_insert_desc_at(before, x, p as int);
                assert(ranking_view(out@) =~= before.insert(p as int, x));
                let t = ds.take(i as int + 1);
                assert(t.drop_last() =~= ds.take(i as int));
                assert(t.last() == x);
            }
            i = i + 1;
        }
        proof {
            assert(ds.take(n as int) =~= ds);
        }
        out
    }

    /// The schemas ranked by how many schemas they refer to, most first
    /// (a stable sort of the nodes in node order).
    pub fn by_dependency_count(&self) -> (res: Vec<(&str, usize)>)
        requires
            self.wf(),
        ensures
            ranking_view(res@) == sort_desc(degrees(self.nodes(), self.edges(), true)),
    {
        self.ranked_by_degree(true)
    }

    /// The schemas ranked by how many schemas refer to them, most first
    /// (a stable sort of the nodes in node order).
    pub fn by_reference_count(&self) -> (res: Vec<(&str, usize)>)
        requires
            self.wf(),
        ensures
            ranking_view(res@) == sort_desc(degrees(self.nodes(), self.edges(), false)),
    {
        self.ranked_by_degree(false)
    }
}

// ---------------------------------------------------------------------------
// Laws of reachability
// ---------------------------------------------------------------------------

/// A walk read backwards is a walk in the other direction.
proof fn lemma_reverse_walk(es: Seq<(int, int, EdgeKind)>, kinds: Seq<EdgeKind>, forward: bool, p: Seq<int>)
    requires
        is_walk(es, kinds, forward, p),
    ensures
        is_walk(es, kinds, !forward, p.reverse()),
        p.reverse()[0] == p.last(),
        p.reverse().last() == p[0],
{
    let q = p.reverse();
    let back = !forward;
    assert forall|i: int| 0 <= i < q.len() - 1 implies #[trigger] step(es, kinds, back, q[i], q[i + 1]) by {
        let j = p.len() - 2 - i;
        assert(q[i] == p[j + 1] && q[i + 1] == p[j]);
        assert(step(es, kinds, forward, p[j], p[j + 1]));
        let e = choose|e: int|
            0 <= e < es.len() && kind_allowed(kinds, (#[trigger] es[e]).2) && if forward {
                es[e].0 == p[j] && es[e].1 == p[j + 1]
            } else {
                es[e].1 == p[j] && es[e].0 == p[j + 1]
            };
        assert(kind_allowed(kinds, es[e].2));
    }
}

/// The schemas affected when `b` fails include `a` exactly when `a` needs `b`:
/// a walk against the edges from `b` to `a` is a walk along them from `a` to `b`.
pub proof fn law_blast_radius_reverses_deps(es: Seq<(int, int, EdgeKind)>, kinds: Seq<EdgeKind>, a: int, b: int)
    ensures
        reaches(es, kinds, false, set![b], a) <==> reaches(es, kinds, true, set![a], b),
{
    if reaches(es, kinds, false, set![b], a) {
        let p = choose|p: Seq<int>| #[trigger] is_walk(es, kinds, false, p) && set![b].contains(p[0]) && p.last() == a;
        lemma_reverse_walk(es, kinds, false, p);
        assert(is_walk(es, kinds, true, p.reverse()));
    }
    if reaches(es, kinds, true, set![a], b) {
        let p = choose|p: Seq<int>| #[trigger] is_walk(es, kinds, true, p) && set![a].contains(p[0]) && p.last() == b;
        lemma_reverse_walk(es, kinds, true, p);
        assert(is_walk(es, kinds, false, p.reverse()));
    }
}

/// Reaching from a set of roots is reaching from one of them: the stack-based
/// walk from all roots and the per-root depth-first searches find the same nodes.
pub proof fn law_reach_from_roots(es: Seq<(int, int, EdgeKind)>, kinds: Seq<EdgeKind>, forward: bool, starts: Set<int>, v: int)
    ensures
        reaches(es, kinds, forward, starts, v) <==> exists|r: int| #[trigger] starts.contains(r) && #[trigger] reaches(es, kinds, forward, set![r], v),
{
    if reaches(es, kinds, forward, starts, v) {
        let p = choose|p: Seq<int>| #[trigger] is_walk(es, kinds, forward, p) && starts.contains(p[0]) && p.last() == v;
        assert(set![p[0]].contains(p[0]));
        assert(reaches(es, kinds, forward, set![p[0]], v));
    }
    if exists|r: int| #[trigger] starts.contains(r) && #[trigger] reaches(es, kinds, forward, set![r], v) {
        let r = choose|r: int| #[trigger] starts.contains(r) && #[trigger] reaches(es, kinds, forward, set![r], v);
        let p = choose|p: Seq<int>| #[trigger] is_walk(es, kinds, forward, p) && set![r].contains(p[0]) && p.last() == v;
        assert(starts.contains(p[0]));
    }
}

/// Every root is among the nodes it reaches.
pub proof fn law_roots_reached(es: Seq<(int, int, EdgeKind)>, kinds: Seq<EdgeKind>, forward: bool, starts: Set<int>, r: int)
    requires
        starts.contains(r),
    ensures
        reaches(es, kinds, forward, starts, r),
{
    let p = seq![r];
    assert(is_walk(es, kinds, forward, p));
}

/// What a reached node reaches is reached too.
pub proof fn law_reach_transitive(es: Seq<(int, int, EdgeKind)>, kinds: Seq<EdgeKind>, forward: bool, a: int, b: int, c: int)
    requires
        reaches(es, kinds, forward, set![a], b),
        reaches(es, kinds, forward, set![b], c),
    ensures
        reaches(es, kinds, forward, set![a], c),
{
    let p = choose|p: Seq<int>| #[trigger] is_walk(es, kinds, forward, p) && set![a].contains(p[0]) && p.last() == b;
    let q = choose|q: Seq<int>| #[trigger] is_walk(es, kinds, forward, q) && set![b].contains(q[0]) && q.last() == c;
    let w = p + q.drop_first();
    assert forall|i: int| 0 <= i < w.len() - 1 implies #[trigger] step(es, kinds, forward, w[i], w[i + 1]) by {
        if i < p.len() - 1 {
            assert(w[i] == p[i] && w[i + 1] == p[i + 1]);
        } else {
            let k = i - (p.len() - 1);
            assert(w[i] == q[k]) by {
                if k == 0 {
                    assert(w[i] == p.last());
                } else {
                    assert(w[i] == q.drop_first()[k - 1]);
                }
            }
            assert(w[i + 1] == q.drop_first()[k]);
            assert(step(es, kinds, forward, q[k], q[k + 1]));
        }
    }
    assert(is_walk(es, kinds, forward, w));
    if q.len() == 1 {
        assert(w =~= p);
    } else {
        assert(w.last() == q.last());
    }
}

proof fn lemma_count_zero(s: Seq<bool>)
    requires
        forall|j: int| 0 <= j < s.len() ==> !(#[trigger] s[j]),
    ensures
        count_true(s) == 0,
    decreases s.len(),
{
    if s.len() > 0 {
        lemma_count_zero(s.drop_last());
    }
}

} // verus!
