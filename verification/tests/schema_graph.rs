use familiar::json::Json;
use familiar::schemas::graph::SchemaGraph;
use familiar::schemas::refs::{extract_refs, extract_typed_refs, normalize_ref, EdgeKind};

fn s(x: &str) -> String {
    x.to_string()
}

fn obj(members: Vec<(&str, Json)>) -> Json {
    Json::Object(members.into_iter().map(|(k, v)| (k.to_string(), v)).collect())
}

fn reference(target: &str) -> Json {
    obj(vec![("$ref", Json::Str(s(target)))])
}

#[test]
fn test_empty_graph() {
    let graph = SchemaGraph::new();
    assert_eq!(graph.node_count(), 0);
    assert_eq!(graph.edge_count(), 0);
}

#[test]
fn test_add_nodes_and_edges() {
    let mut graph = SchemaGraph::new();
    graph.add_node("entities/Moment.schema.json");
    graph.add_node("primitives/Timestamp.schema.json");
    graph.add_edge("entities/Moment.schema.json", "primitives/Timestamp.schema.json");

    assert_eq!(graph.node_count(), 2);
    assert_eq!(graph.edge_count(), 1);
}

#[test]
fn test_typed_edges() {
    let mut graph = SchemaGraph::new();
    graph.add_node("systems/FatesGate.system.json");
    graph.add_node("nodes/daemon.node.json");
    graph.add_node("entities/Moment.schema.json");

    graph.add_typed_edge("systems/FatesGate.system.json", "nodes/daemon.node.json", EdgeKind::RunsOn);
    graph.add_typed_edge("systems/FatesGate.system.json", "entities/Moment.schema.json", EdgeKind::Reads);

    assert_eq!(graph.node_count(), 3);
    assert_eq!(graph.edge_count(), 2);

    let counts = graph.edge_type_counts();
    let get = |k: EdgeKind| counts.iter().find(|(kind, _)| *kind == k).map(|(_, n)| *n);
    assert_eq!(get(EdgeKind::RunsOn), Some(1));
    assert_eq!(get(EdgeKind::Reads), Some(1));
}

#[test]
fn test_transitive_deps() {
    let mut graph = SchemaGraph::new();
    graph.add_node("A");
    graph.add_node("B");
    graph.add_node("C");
    graph.add_edge("A", "B");
    graph.add_edge("B", "C");

    let deps = graph.transitive_deps(&["A"]);
    assert!(deps.contains(&s("A")));
    assert!(deps.contains(&s("B")));
    assert!(deps.contains(&s("C")));
    assert_eq!(deps.len(), 3);
}

#[test]
fn test_blast_radius() {
    let mut graph = SchemaGraph::new();
    graph.add_node("systems/Gate.system.json");
    graph.add_node("components/Store.component.json");
    graph.add_node("resources/db.resource.json");

    graph.add_typed_edge("systems/Gate.system.json", "components/Store.component.json", EdgeKind::Requires);
    graph.add_typed_edge("components/Store.component.json", "resources/db.resource.json", EdgeKind::ConnectsTo);

    let affected = graph.blast_radius("resources/db.resource.json", &[]);
    assert!(affected.contains(&s("resources/db.resource.json")));
    assert!(affected.contains(&s("components/Store.component.json")));
    assert!(affected.contains(&s("systems/Gate.system.json")));
    assert_eq!(affected.len(), 3);
}

#[test]
fn test_circular_refs() {
    let mut graph = SchemaGraph::new();
    graph.add_node("A");
    graph.add_node("B");
    graph.add_edge("A", "B");
    graph.add_edge("B", "A");

    let deps = graph.transitive_deps(&["A"]);
    assert!(deps.contains(&s("A")));
    assert!(deps.contains(&s("B")));
    assert_eq!(deps.len(), 2);
}

#[test]
fn test_normalize_ref() {
    assert_eq!(normalize_ref("entities/Moment.schema.json", "#/definitions/Foo"), "");
    assert_eq!(
        normalize_ref("entities/Moment.schema.json", "../primitives/Timestamp.schema.json"),
        "primitives/Timestamp.schema.json"
    );
    assert_eq!(
        normalize_ref("entities/Moment.schema.json", "primitives/UUID.schema.json"),
        "primitives/UUID.schema.json"
    );
}

#[test]
fn test_extract_refs() {
    let schema = r#"{
        "type": "object",
        "properties": {
            "id": { "$ref": "primitives/UUID.schema.json" },
            "created_at": { "$ref": "primitives/Timestamp.schema.json" }
        }
    }"#;

    let refs = extract_refs(schema);
    assert_eq!(refs.len(), 2);
    assert!(refs.contains(&s("primitives/UUID.schema.json")));
    assert!(refs.contains(&s("primitives/Timestamp.schema.json")));
    assert!(extract_refs("{ not json").is_empty());
}

#[test]
fn test_extract_typed_refs() {
    let schema = obj(vec![
        ("x-familiar-kind", Json::Str(s("system"))),
        ("x-familiar-service", reference("nodes/daemon.node.json")),
        ("x-familiar-reads", Json::Array(vec![reference("entities/Moment.schema.json")])),
        ("x-familiar-depends", Json::Array(vec![reference("components/Store.component.json")])),
    ]);

    let refs = extract_typed_refs(&schema);
    assert_eq!(refs.len(), 3);

    assert!(refs.contains(&(s("nodes/daemon.node.json"), EdgeKind::RunsOn)));
    assert!(refs.contains(&(s("entities/Moment.schema.json"), EdgeKind::Reads)));
    assert!(refs.contains(&(s("components/Store.component.json"), EdgeKind::Requires)));
}

#[test]
fn test_edges_of_kind() {
    let mut graph = SchemaGraph::new();
    graph.add_node("A");
    graph.add_node("B");
    graph.add_node("C");

    graph.add_typed_edge("A", "B", EdgeKind::Reads);
    graph.add_typed_edge("A", "C", EdgeKind::Writes);
    graph.add_typed_edge("B", "C", EdgeKind::TypeRef);

    let read_edges = graph.edges_of_kind(&[EdgeKind::Reads]);
    assert_eq!(read_edges.len(), 1);

    let data_edges = graph.edges_of_kind(&[EdgeKind::Reads, EdgeKind::Writes]);
    assert_eq!(data_edges.len(), 2);
}

#[test]
fn topological_order_puts_dependencies_first() {
    let mut graph = SchemaGraph::new();
    graph.add_node("a.json");
    graph.add_node("b.json");
    graph.add_node("c.json");
    // a refers to b, b refers to c
    graph.add_edge("a.json", "b.json");
    graph.add_edge("b.json", "c.json");
    let order = graph.topological_order().unwrap();
    assert_eq!(order, vec!["c.json", "b.json", "a.json"]);
    graph.add_edge("c.json", "a.json");
    assert!(graph.topological_order().is_none());
}

#[test]
fn expected_roots_are_the_four_entry_categories() {
    let mut graph = SchemaGraph::new();
    graph.add_node("ecs/World.json");
    graph.add_node("resources/db.resource.json");
    graph.add_node("types/Plain.json");
    let orphans = graph.orphan_schemas();
    assert_eq!(orphans.len(), 3);
    for o in &orphans {
        assert_eq!(o.is_expected_root, o.category == "ecs");
    }
}

#[test]
fn edge_labels_are_distinct() {
    let kinds = [
        EdgeKind::TypeRef, EdgeKind::LocalRef, EdgeKind::Extends, EdgeKind::VariantOf, EdgeKind::UnionOf,
        EdgeKind::ItemType, EdgeKind::ValueType, EdgeKind::FieldType, EdgeKind::RunsOn, EdgeKind::UsesQueue,
        EdgeKind::Requires, EdgeKind::Reads, EdgeKind::Writes, EdgeKind::ConnectsTo, EdgeKind::Input, EdgeKind::Output,
    ];
    let mut labels: Vec<&str> = kinds.iter().map(|k| k.label()).collect();
    assert_eq!(EdgeKind::TypeRef.label(), "ref");
    assert_eq!(EdgeKind::RunsOn.label(), "runs_on");
    labels.sort();
    labels.dedup();
    assert_eq!(labels.len(), kinds.len());
}
