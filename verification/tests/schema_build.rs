use familiar::json::Json;
use familiar::schemas::graph::SchemaGraph;
use familiar::schemas::refs::EdgeKind;

fn s(x: &str) -> String {
    x.to_string()
}

fn obj(members: Vec<(&str, Json)>) -> Json {
    Json::Object(members.into_iter().map(|(k, v)| (k.to_string(), v)).collect())
}

fn reference(target: &str) -> Json {
    obj(vec![("$ref", Json::Str(s(target)))])
}

#[test]
fn graph_from_parsed_files() {
    let moment = obj(vec![
        ("title", Json::Str(s("Moment"))),
        ("x-familiar-kind", Json::Str(s("entity"))),
        (
            "properties",
            obj(vec![
                ("at", reference("../primitives/Timestamp.schema.json")),
                ("kind", reference("#/definitions/MomentKind")),
            ]),
        ),
        ("definitions", obj(vec![("MomentKind", obj(vec![("type", Json::Str(s("string")))]))])),
    ]);
    let timestamp = obj(vec![("title", Json::Str(s("Timestamp"))), ("type", Json::Str(s("string")))]);
    let system = obj(vec![
        ("x-familiar-kind", Json::Str(s("system"))),
        ("x-familiar-reads", Json::Array(vec![reference("../entities/Moment.schema.json")])),
    ]);
    let files = vec![
        (s("entities/Moment.schema.json"), moment),
        (s("primitives/Timestamp.schema.json"), timestamp),
        (s("systems/Log.system.json"), system),
    ];
    let g = SchemaGraph::from_parsed(&files);
    assert_eq!(g.node_count(), 4);
    assert!(g.has_edge("entities/Moment.schema.json", "primitives/Timestamp.schema.json"));
    assert!(g.has_edge("entities/Moment.schema.json", "entities/Moment.schema.json#MomentKind"));
    assert!(g.has_edge("systems/Log.system.json", "entities/Moment.schema.json"));
    assert_eq!(g.edge_count(), 3);
    assert_eq!(g.kind("entities/Moment.schema.json#MomentKind"), Some("definition"));
    let reads = g.edges_of_kind(&[EdgeKind::Reads]);
    assert_eq!(reads.len(), 1);
}

#[test]
fn depth_limit_stops_at_properties() {
    let a = obj(vec![("properties", obj(vec![("b", reference("B.json"))]))]);
    let b = obj(vec![]);
    let files = vec![(s("A.json"), a), (s("B.json"), b)];
    let unlimited = SchemaGraph::from_parsed_with_depth(&files, 0);
    assert_eq!(unlimited.edge_count(), 1);
    let limited = SchemaGraph::from_parsed_with_depth(&files, 1);
    assert_eq!(limited.edge_count(), 1);
}

#[test]
fn graph_from_texts_skips_unparsable_files() {
    let files = vec![
        ("a.json".to_string(), r#"{"properties": {"b": {"$ref": "b.json"}}}"#.to_string()),
        ("bad.json".to_string(), "nope".to_string()),
        ("b.json".to_string(), "{}".to_string()),
    ];
    let g = SchemaGraph::from_texts_with_depth(&files, 0).unwrap();
    assert_eq!(g.node_count(), 2);
    assert_eq!(g.edge_count(), 1);
}
