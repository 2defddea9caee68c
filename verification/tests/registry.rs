use familiar::json::Json;
use familiar::mcp::graph::{extract_codegen, extract_fields, normalize_ref, GeneratedArtifact, NodeId};
use familiar::mcp::refs::collect_refs;
use familiar::mcp::registry::SchemaGraph;
use familiar::mcp::graph::EdgeKind;

fn s(x: &str) -> String {
    x.to_string()
}

fn obj(members: Vec<(&str, Json)>) -> Json {
    Json::Object(members.into_iter().map(|(k, v)| (k.to_string(), v)).collect())
}

fn reference(target: &str) -> Json {
    obj(vec![("$ref", Json::Str(s(target)))])
}

fn sample() -> SchemaGraph {
    let moment = obj(vec![
        ("$id", Json::Str(s("entities/Moment.schema.json"))),
        ("title", Json::Str(s("Moment"))),
        ("x-familiar-kind", Json::Str(s("entity"))),
        (
            "properties",
            obj(vec![
                ("id", reference("../primitives/UUID.schema.json")),
                ("note", obj(vec![("type", Json::Str(s("string")))])),
            ]),
        ),
        ("required", Json::Array(vec![Json::Str(s("id"))])),
    ]);
    let uuid = obj(vec![
        ("$id", Json::Str(s("primitives/UUID.schema.json"))),
        ("title", Json::Str(s("UUID"))),
        ("type", Json::Str(s("string"))),
    ]);
    let a = obj(vec![("title", Json::Str(s("Alpha"))), ("allOf", Json::Array(vec![reference("Beta.schema.json")]))]);
    let b = obj(vec![("title", Json::Str(s("Beta"))), ("items", reference("Alpha.schema.json"))]);
    let files = vec![
        (s("entities/Moment.schema.json"), moment),
        (s("primitives/UUID.schema.json"), uuid),
        (s("Alpha.schema.json"), a),
        (s("Beta.schema.json"), b),
    ];
    let contents = vec![s("one"), s("two")];
    SchemaGraph::from_parsed(&contents, files)
}

#[test]
fn node_ids() {
    let n = NodeId::schema(s("a"));
    assert_eq!(n.as_schema(), Some("a"));
    assert_eq!(n.to_string(), "schema:a");
    let m = NodeId::artifact(s("rust"), s("T"));
    assert_eq!(m.as_artifact(), Some(("rust", "T")));
    assert_eq!(m.to_string(), "artifact:rust:T");
    assert_eq!(GeneratedArtifact::make_id("rust", "T"), "rust:T");
}

#[test]
fn registry_refs_resolve_paths() {
    assert_eq!(normalize_ref("../primitives/UUID.schema.json", "entities/Moment.schema.json"), "primitives/UUID.schema.json");
    assert_eq!(normalize_ref("#/definitions/X", "a/b.json"), "#/definitions/X");
    assert_eq!(normalize_ref("https://x/y.json", "a/b.json"), "https://x/y.json");
    assert_eq!(normalize_ref("/abs/./c.json", "a/b.json"), "abs/c.json");
}

#[test]
fn collect_refs_walks_composition() {
    let doc = obj(vec![("allOf", Json::Array(vec![reference("x.json")])), ("$ref", Json::Str(s("#/local")))]);
    let mut refs = Vec::new();
    collect_refs(&doc, "me", "dir/me.json", &mut refs);
    assert_eq!(
        refs,
        vec![(s("me"), s("dir/x.json"), EdgeKind::AllOf), (s("me"), s("dir/x.json"), EdgeKind::Ref)]
    );
}

#[test]
fn codegen_and_fields() {
    let doc = obj(vec![
        ("x-familiar-casing", Json::Str(s("snake"))),
        ("x-familiar-flatten", Json::Bool(true)),
        ("properties", obj(vec![("a", reference("A.json")), ("b", obj(vec![("type", Json::Str(s("integer")))]))])),
        ("required", Json::Array(vec![Json::Str(s("b"))])),
    ]);
    let meta = extract_codegen(&doc).unwrap();
    assert_eq!(meta.casing, Some(s("snake")));
    assert_eq!(meta.flatten, Some(true));
    assert_eq!(meta.enum_repr, None);
    assert!(extract_codegen(&obj(vec![])).is_none());
    let fields = extract_fields(&doc, "d/s.json");
    assert_eq!(fields.len(), 2);
    assert_eq!(fields[0].ty_ref, Some(s("d/A.json")));
    assert_eq!(fields[0].required, Some(false));
    assert_eq!(fields[1].inline_kind, Some(s("integer")));
    assert_eq!(fields[1].required, Some(true));
}

#[test]
fn registry_graph_builds() {
    let g = sample();
    assert_eq!(g.schema_count(), 4);
    // each reference under a keyword makes an edge of that kind and a plain `$ref` edge
    assert_eq!(g.edge_count(), 6);
    assert_eq!(
        g.refs_out("entities/Moment.schema.json"),
        vec![s("primitives/UUID.schema.json"), s("primitives/UUID.schema.json")]
    );
    assert_eq!(
        g.refs_in("primitives/UUID.schema.json"),
        vec![s("entities/Moment.schema.json"), s("entities/Moment.schema.json")]
    );
    assert_eq!(g.scc_count(), 1);
    let mut cycle = g.scc_groups()[0].clone();
    cycle.sort();
    assert_eq!(cycle, vec![s("Alpha.schema.json"), s("Beta.schema.json")]);
    assert_eq!(g.bundle_hash().len(), 64);
}

#[test]
fn registry_resolves() {
    let g = sample();
    assert_eq!(g.resolve("primitives/UUID.schema.json"), Some(s("primitives/UUID.schema.json")));
    assert_eq!(g.resolve("Moment"), Some(s("entities/Moment.schema.json")));
    assert_eq!(g.resolve("moment"), Some(s("entities/Moment.schema.json")));
    assert_eq!(g.resolve("Nothing"), None);
    assert_eq!(g.list_by_kind("entity"), vec![s("entities/Moment.schema.json")]);
    assert_eq!(g.all_kinds(), vec![s("entity")]);
}

#[test]
fn registry_closure_and_imports() {
    let g = sample();
    let c = g.closure("Alpha.schema.json", true, None);
    assert_eq!(c.len(), 1);
    assert_eq!(c[0].id, "Beta.schema.json");
    assert_eq!(c[0].depth, 1);
    assert!(c[0].scc_boundary);
    let imports = g.imports_for("entities/Moment.schema.json", "rust");
    assert_eq!(imports, vec![s("use crate::entities::Moment;"), s("use crate::primitives::UUID;")]);
    let ts = g.imports_for("entities/Moment.schema.json", "ts");
    assert_eq!(ts[0], "import { Moment } from '@familiar/schemas/entities';");
    assert!(g.imports_for("entities/Moment.schema.json", "go").is_empty());
}

#[test]
fn registry_lints() {
    let g = sample();
    let w = g.lint_unions("primitives/UUID.schema.json");
    assert_eq!(w.len(), 1);
    assert_eq!(w[0].code, "MISSING_KIND");
    assert!(g.lint_unions("entities/Moment.schema.json").is_empty());
}

#[test]
fn registry_artifacts() {
    let mut g = sample();
    let art = GeneratedArtifact {
        id: String::new(),
        lang: s("rust"),
        file: s("src/moment.rs"),
        line: 3,
        ty_name: s("Moment"),
        type_kind: s("struct"),
    };
    g.register_artifact("entities/Moment.schema.json", art);
    assert_eq!(g.artifact_count(), 1);
    assert_eq!(g.get_artifact_schema("rust:Moment"), Some("entities/Moment.schema.json"));
    assert_eq!(g.get_artifacts("entities/Moment.schema.json")[0].id, "rust:Moment");
    assert!(g.get_artifact("entities/Moment.schema.json", "rust").is_some());
    assert_eq!(g.get_lang_artifacts("rust").len(), 1);
    assert_eq!(g.get_file_artifacts("src/moment.rs").len(), 1);
    assert!(g.colocated_artifacts("rust:Moment").is_empty());
    let deps = g.artifact_dependencies("rust:Moment");
    assert_eq!(deps.len(), 2);
    let affected = g.affected_artifacts("primitives/UUID.schema.json");
    assert_eq!(affected.len(), 1);
    let node = g.get("entities/Moment.schema.json").unwrap();
    assert_eq!(node.codegen.as_ref().unwrap().artifacts.len(), 1);
}

#[test]
fn registry_artifact_index() {
    let mut g = sample();
    let entry = obj(vec![
        ("schema_path", Json::Str(s("primitives/UUID.schema.json"))),
        ("lang", Json::Str(s("typescript"))),
        ("file", Json::Str(s("ts/uuid.ts"))),
        ("line", Json::Number(s("12"))),
        ("type_name", Json::Str(s("UUID"))),
        ("type_kind", Json::Str(s("type_alias"))),
    ]);
    let incomplete = obj(vec![("lang", Json::Str(s("rust")))]);
    let loaded = g.load_artifact_index(&vec![entry, incomplete]);
    assert_eq!(loaded, 1);
    assert_eq!(g.get_artifact_by_id("typescript:UUID").unwrap().line, 12);
}

#[test]
fn registry_search() {
    let g = sample();
    let results = g.search("Moment", 10);
    assert!(!results.is_empty());
    assert_eq!(results[0].id, "entities/Moment.schema.json");
    assert!(g.search("Moment", 0).is_empty());
}

fn text_files() -> Vec<(String, String)> {
    vec![
        (s("a.schema.json"), s(r#"{"$id": "A", "properties": {"b": {"$ref": "b.schema.json"}}}"#)),
        (s("broken.json"), s("{ not json")),
        (s("b.schema.json"), s(r#"{"$id": "B"}"#)),
    ]
}

#[test]
fn registry_from_texts_stops_or_skips() {
    let files = text_files();
    assert!(SchemaGraph::from_texts(&files, false).is_err());
    let g = SchemaGraph::from_texts(&files, true).unwrap().unwrap();
    assert_eq!(g.schema_count(), 2);
    // a property's $ref is recorded both as a property edge and as a plain ref
    assert_eq!(g.edge_count(), 2);
    let without_broken: Vec<(String, String)> = vec![files[0].clone(), files[2].clone()];
    let g2 = SchemaGraph::from_texts(&without_broken, false).unwrap().unwrap();
    assert_eq!(g2.schema_count(), 2);
    // the unparsable text still counts towards the bundle hash
    assert_ne!(g.bundle_hash(), g2.bundle_hash());
}

#[test]
fn registry_artifact_index_text() {
    let mut g = sample();
    let text = r#"[{"schema_path": "primitives/UUID.schema.json", "lang": "typescript", "file": "ts/uuid.ts",
        "line": 12, "type_name": "UUID", "type_kind": "type_alias"}, {"lang": "rust"}]"#;
    assert_eq!(g.load_artifact_index_text(text), Ok(1));
    assert!(g.load_artifact_index_text("{}").is_err());
}
