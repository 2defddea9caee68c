use familiar::json::Json;
use familiar::mcp::registry::SchemaGraph;
use familiar::mcp::shapes::{normalize_for_hash, pascal_case, shape_hash};
use familiar::mcp::tools::{is_eq_hash_safe, last_segment_of, BoxingReason, RawSchemaResponse, SchemaTools, TypeLookup};

fn s(x: &str) -> String {
    x.to_string()
}

fn obj(members: Vec<(&str, Json)>) -> Json {
    Json::Object(members.into_iter().map(|(k, v)| (k.to_string(), v)).collect())
}

fn reference(target: &str) -> Json {
    obj(vec![("$ref", Json::Str(s(target)))])
}

fn sample() -> SchemaTools {
    let moment = obj(vec![
        ("$id", Json::Str(s("entities/Moment.schema.json"))),
        ("title", Json::Str(s("Moment"))),
        ("x-familiar-kind", Json::Str(s("entity"))),
        ("x-familiar-service", Json::Str(s("memory"))),
        (
            "properties",
            obj(vec![
                ("id", reference("../primitives/UUID.schema.json")),
                ("note", obj(vec![("type", Json::Str(s("string")))])),
            ]),
        ),
    ]);
    let uuid = obj(vec![
        ("$id", Json::Str(s("primitives/UUID.schema.json"))),
        ("title", Json::Str(s("UUID"))),
        ("type", Json::Str(s("string"))),
    ]);
    let a = obj(vec![
        ("title", Json::Str(s("Alpha"))),
        ("x-familiar-rust-derive-policy", Json::Str(s("allow_graph_suggestions"))),
        ("allOf", Json::Array(vec![reference("Beta.schema.json")])),
    ]);
    let b = obj(vec![("title", Json::Str(s("Beta"))), ("items", reference("Alpha.schema.json"))]);
    let files = vec![
        (s("entities/Moment.schema.json"), moment),
        (s("primitives/UUID.schema.json"), uuid),
        (s("Alpha.schema.json"), a),
        (s("Beta.schema.json"), b),
    ];
    SchemaTools::new(SchemaGraph::from_parsed(&vec![s("one")], files))
}

#[test]
fn tools_status_and_resolve() {
    let t = sample();
    let st = t.status();
    assert_eq!(st.schema_count, 4);
    assert_eq!(st.edge_count, 6);
    assert_eq!(st.scc_count, 1);
    assert_eq!(st.artifact_count, 0);
    assert_eq!(st.bundle_hash.len(), 64);
    let found = t.resolve(s("Moment"));
    assert!(found.resolved);
    assert_eq!(found.id, Some(s("entities/Moment.schema.json")));
    assert!(found.error.is_none());
    let missing = t.resolve(s("Nothing"));
    assert!(!missing.resolved);
    assert_eq!(missing.error, Some(s("No schema found matching query: Nothing")));
}

#[test]
fn tools_lookups() {
    let t = sample();
    match t.schema_raw("Nothing") {
        RawSchemaResponse::NotFound { error } => assert_eq!(error, "Schema not found: Nothing"),
        _ => panic!("found a schema that is not there"),
    }
    match t.schema_raw("UUID") {
        RawSchemaResponse::Found { id, .. } => assert_eq!(id, "primitives/UUID.schema.json"),
        _ => panic!("UUID not found"),
    }
    match t.get_type("Moment", Some(true), Some(true)) {
        TypeLookup::Found(r) => {
            assert_eq!(r.node.id, "entities/Moment.schema.json");
            assert_eq!(r.refs_out_count, 2);
            assert_eq!(r.refs_in_count, 0);
            assert!(r.schema.is_some());
            assert_eq!(r.closure.unwrap().len(), 1);
        },
        _ => panic!("Moment not found"),
    }
    let refs = t.get_refs("Moment");
    assert_eq!(refs.items, vec![s("primitives/UUID.schema.json"), s("primitives/UUID.schema.json")]);
    let deps = t.get_dependents("UUID");
    assert_eq!(deps.items.len(), 2);
    let c = t.closure("Alpha", None, None);
    assert_eq!(c.direction, "out");
    assert_eq!(c.nodes.len(), 1);
    assert_eq!(c.scc_groups.len(), 1);
    let c_in = t.closure("UUID", Some(s("in")), Some(1));
    assert_eq!(c_in.nodes[0].id, "entities/Moment.schema.json");
}

#[test]
fn tools_services() {
    let t = sample();
    let r = t.services_for_schema("UUID");
    assert_eq!(r.services, vec![s("memory")]);
    assert_eq!(r.references.len(), 2);
    assert_eq!(r.references[0].schema_id, "entities/Moment.schema.json");
    let own = t.services_for_schema("Moment");
    assert_eq!(own.references.len(), 1);
    assert_eq!(own.references[0].kind, Some(s("entity")));
}

#[test]
fn tools_cycles_and_hubs() {
    let t = sample();
    let r = t.scc_report();
    assert_eq!(r.total_sccs, 1);
    assert_eq!(r.cycles.len(), 1);
    assert_eq!(r.cycles[0].size, 2);
    assert_eq!(r.cycles[0].has_unions, Some(false));
    assert!(!r.cycles[0].self_referential);
    let edge = format!("{} -> {}", r.cycles[0].members[0], r.cycles[0].members[1]);
    assert_eq!(r.cycles[0].suggested_box_edge, edge);
    let hubs = t.hub_report(Some(1));
    assert_eq!(hubs.top_n, 1);
    assert_eq!(hubs.hubs.len(), 1);
    assert_eq!(hubs.hubs[0].id, "primitives/UUID.schema.json");
    assert_eq!(hubs.hubs[0].in_degree, 2);
    assert!(hubs.hubs[0].suggested_derives.is_empty());
    assert_eq!(t.hub_report(None).hubs.len(), 4);
}

#[test]
fn tools_boxing() {
    let t = sample();
    let a = t.explain_boxing("Alpha");
    assert!(a.should_box);
    assert_eq!(a.box_reason, "Part of SCC #0 with 2 members");
    assert_eq!(a.strategy, "box");
    match &a.explanation[0] {
        BoxingReason::SccMembership { detail, scc_id, members } => {
            assert_eq!(detail, "This type is part of a cycle with: Beta.schema.json");
            assert_eq!(*scc_id, 0);
            assert_eq!(members.len(), 2);
        },
        _ => panic!("not a cycle member"),
    }
    let u = t.explain_boxing("UUID");
    assert!(!u.should_box);
    assert_eq!(u.box_reason, "");
    assert_eq!(u.strategy, "none");
    assert!(matches!(u.explanation[0], BoxingReason::NoBoxingNeeded));
}

#[test]
fn tools_derives_and_policy() {
    let t = sample();
    let d = t.explain_derives("Moment");
    assert_eq!(d.policy, "strict");
    assert_eq!(d.final_derives, vec![s("Debug"), s("Clone"), s("Serialize"), s("Deserialize"), s("JsonSchema")]);
    assert!(d.graph_suggests.is_empty());
    assert_eq!(d.graph_reason, "");
    assert!(!d.graph_applied);
    let p = t.policy_for("Alpha");
    assert!(p.in_cycle);
    assert_eq!(p.derive_policy, "allow_graph_suggestions");
    assert_eq!(p.default_impl, "derived");
    assert_eq!(p.recursion_strategy, "box");
    assert_eq!(p.explicit_policies.len(), 1);
    assert!(!p.is_hub);
}

#[test]
fn tools_impact() {
    let t = sample();
    let r = t.impact("UUID", None);
    assert_eq!(r.base_version, "current");
    assert_eq!(r.direct_dependents, 2);
    assert_eq!(r.transitive_dependents, 1);
    assert_eq!(r.by_kind.len(), 1);
    assert_eq!(r.by_kind[0].0, "entity");
    assert_eq!(r.by_kind[0].1.len(), 2);
    assert_eq!(r.would_affect, "1 schemas total (showing first 20)");
    let v = t.impact("UUID", Some(s("v0.9.0")));
    assert_eq!(v.base_version, "v0.9.0");
}

#[test]
fn tools_embedded_definitions() {
    let holder = obj(vec![
        ("$id", Json::Str(s("Holder.schema.json"))),
        ("title", Json::Str(s("Holder"))),
        (
            "definitions",
            obj(vec![("Holder", obj(vec![])), ("UUID", obj(vec![])), ("Extra", obj(vec![]))]),
        ),
    ]);
    let uuid = obj(vec![("$id", Json::Str(s("UUID.schema.json"))), ("title", Json::Str(s("UUID")))]);
    let g = SchemaGraph::from_parsed(&vec![], vec![(s("Holder.schema.json"), holder), (s("UUID.schema.json"), uuid)]);
    let t = SchemaTools::new(g);
    let r = t.find_embedded_definitions();
    assert_eq!(r.self_referential.len(), 1);
    assert_eq!(r.self_referential[0].definition_name, "Holder");
    assert_eq!(r.duplicates.len(), 1);
    assert_eq!(r.duplicates[0].standalone_schema, Some(s("UUID.schema.json")));
    assert_eq!(r.embedded_only.len(), 1);
    assert_eq!(r.embedded_only[0].definition_name, "Extra");
}

#[test]
fn tools_hoist_candidates() {
    let address = |d: &str| {
        obj(vec![
            ("description", Json::Str(s(d))),
            ("properties", obj(vec![("street", obj(vec![("type", Json::Str(s("string")))]))])),
        ])
    };
    let a = obj(vec![("$id", Json::Str(s("a/Person.schema.json"))), ("properties", obj(vec![("home_address", address("home"))]))]);
    let b = obj(vec![("$id", Json::Str(s("b/Shop.schema.json"))), ("properties", obj(vec![("address", address("shop"))]))]);
    let g = SchemaGraph::from_parsed(&vec![], vec![(s("a/Person.schema.json"), a), (s("b/Shop.schema.json"), b)]);
    let t = SchemaTools::new(g);
    let c = t.hoist_candidates();
    assert_eq!(c.len(), 1);
    assert_eq!(c[0].occurrences.len(), 2);
    assert_eq!(c[0].suggested_name, "Person.schema.jsonHomeAddress");
    let text = normalize_for_hash(&address("x"));
    assert_eq!(c[0].shape_hash, shape_hash(&text));
}

#[test]
fn shapes_normalize_and_names() {
    let v = obj(vec![
        ("b", Json::Number(s("1"))),
        ("a", obj(vec![("title", Json::Str(s("t"))), ("x-y", Json::Number(s("1"))), ("c", Json::Number(s("2")))])),
        ("description", Json::Str(s("d"))),
    ]);
    assert_eq!(normalize_for_hash(&v), "{\"a\":{\"c\":2},\"b\":1}");
    assert_eq!(pascal_case("home_address-line"), "HomeAddressLine");
    assert_eq!(pascal_case("__x"), "X");
    assert_eq!(pascal_case(""), "");
    assert_eq!(last_segment_of("a/b/c"), "c");
    assert_eq!(last_segment_of("abc"), "abc");
    assert_eq!(last_segment_of("a/"), "");
    assert_ne!(shape_hash("a"), shape_hash("b"));
}

#[test]
fn eq_hash_safety() {
    let safe = obj(vec![("properties", obj(vec![("n", obj(vec![("type", Json::Str(s("integer")))]))]))]);
    assert!(is_eq_hash_safe(&safe));
    let float = obj(vec![("properties", obj(vec![("n", obj(vec![("type", Json::Str(s("number")))]))]))]);
    assert!(!is_eq_hash_safe(&float));
    let map = obj(vec![("properties", obj(vec![("m", obj(vec![("additionalProperties", Json::Bool(true))]))]))]);
    assert!(!is_eq_hash_safe(&map));
    let bare = obj(vec![("properties", obj(vec![("o", obj(vec![("type", Json::Str(s("object")))]))]))]);
    assert!(!is_eq_hash_safe(&bare));
    assert!(is_eq_hash_safe(&obj(vec![])));
}

#[test]
fn tools_artifacts() {
    let t = sample();
    let none = t.schemas_without_artifacts(s("rust"));
    assert_eq!(none.total_schemas, 4);
    assert_eq!(none.missing.len(), 4);
    // schemas without a kind sort first, then by id
    assert_eq!(none.missing[0].id, "Alpha.schema.json");
    assert_eq!(none.missing[3].id, "entities/Moment.schema.json");
    assert!(t.get_artifacts("Moment", None).artifacts.is_empty());
    assert!(t.affected_artifacts("UUID").by_language.is_empty());
    assert!(t.file_artifacts(s("src/x.rs")).artifacts.is_empty());
    assert!(t.colocated_artifacts(s("rust:X")).file.is_none());
    assert!(t.artifact_dependencies(s("rust:X")).dependencies.is_empty());
    let stats = t.graph_stats();
    assert_eq!(stats.schemas, 4);
    assert!(stats.coverage.is_empty());
}
