use familiar::drift::compare::{compare_types, is_type_compatible, DriftError, DriftReport};
use familiar::drift::parser::{
    find_type_in_sources, nested_meta_items, parse_type_from_source, RustFieldInfo, RustTypeInfo, SerdeMeta, TokenModel,
};
use familiar::drift::schema::{parse_property, schema_info_from_parts, JsonPropertyInfo, JsonSchemaInfo, JsonType};
use familiar::json::Json;

fn s(x: &str) -> String {
    x.to_string()
}

fn obj(members: Vec<(&str, Json)>) -> Json {
    Json::Object(members.into_iter().map(|(k, v)| (k.to_string(), v)).collect())
}

#[test]
fn test_type_compatibility_string() {
    assert!(is_type_compatible("String", &JsonType::String, &None));
    assert!(is_type_compatible("Option<String>", &JsonType::String, &None));
}

#[test]
fn test_type_compatibility_uuid() {
    assert!(is_type_compatible("Uuid", &JsonType::String, &Some(s("uuid"))));
    assert!(is_type_compatible("uuid::Uuid", &JsonType::String, &Some(s("uuid"))));
}

#[test]
fn test_type_compatibility_integer() {
    assert!(is_type_compatible("i32", &JsonType::Integer, &None));
    assert!(is_type_compatible("u64", &JsonType::Integer, &None));
    assert!(is_type_compatible("i64", &JsonType::Integer, &None));
}

#[test]
fn test_compare_matching_types() {
    let rust_info = RustTypeInfo {
        name: s("Test"),
        fields: vec![(
            s("id"),
            RustFieldInfo {
                type_string: s("String"),
                is_optional: false,
                serde_rename: None,
                is_flattened: false,
                is_skipped: false,
            },
        )],
        has_flattened: false,
        flattened_types: vec![],
    };
    let schema_info = JsonSchemaInfo {
        name: s("Test"),
        properties: vec![(
            s("id"),
            JsonPropertyInfo { json_type: JsonType::String, format: None, ref_type: None, description: None },
        )],
        required: vec![s("id")],
    };
    let result = compare_types("Test", &rust_info, &schema_info);
    assert!(result.is_ok());
}

#[test]
fn test_drift_report_display() {
    let report = DriftReport { errors: vec![DriftError::MissingInRust { ty_name: s("Moment"), field: s("new_field") }] };
    let display = report.render();
    assert!(display.contains("Moment"));
    assert!(display.contains("new_field"));
}

#[test]
fn test_parse_simple_struct() {
    let source = r#"
        use serde::{Deserialize, Serialize};

        #[derive(Debug, Clone, Serialize, Deserialize)]
        pub struct TestType {
            pub id: String,
            pub count: i32,
            #[serde(rename = "custom_name")]
            pub original: String,
        }
    "#;
    let result = parse_type_from_source(source, "TestType").unwrap();
    assert!(result.is_some());
    let info = result.unwrap();
    assert_eq!(info.name, "TestType");
    let has = |k: &str| info.fields.iter().any(|(name, _)| name == k);
    assert!(has("id"));
    assert!(has("count"));
    assert!(has("custom_name"));
    assert!(!has("original"));
}

#[test]
fn test_parse_flattened_struct() {
    let source = r#"
        use serde::{Deserialize, Serialize};

        #[derive(Debug, Clone, Serialize, Deserialize)]
        pub struct Moment {
            #[serde(flatten)]
            pub identity: Identity,
            pub moment_type: MomentType,
        }
    "#;
    let result = parse_type_from_source(source, "Moment").unwrap();
    assert!(result.is_some());
    let info = result.unwrap();
    assert!(info.has_flattened);
    assert!(info.flattened_types.contains(&s("Identity")));
    assert!(info.fields.iter().any(|(name, _)| name == "moment_type"));
}

#[test]
fn source_that_does_not_parse_is_a_parse_error() {
    match parse_type_from_source("pub struct {", "X") {
        Err(DriftError::ParseError(m)) => assert!(m.starts_with("Failed to parse Rust source: ")),
        _ => panic!("expected a parse error"),
    }
    assert!(parse_type_from_source("pub struct Other;", "X").unwrap().is_none());
}

#[test]
fn serde_items_after_an_unread_value_are_not_seen() {
    // `default = ..` is not consumed, so the comma check fails and `skip` is never read
    let source = r#"
        pub struct T {
            #[serde(default = "f", skip)]
            pub a: u32,
            #[serde(skip_serializing_if = "Option::is_none")]
            #[serde(rename = "b2", flatten)]
            pub b: Option<Inner>,
        }
    "#;
    let info = parse_type_from_source(source, "T").unwrap().unwrap();
    let a = &info.fields.iter().find(|(k, _)| k == "a").unwrap().1;
    assert!(!a.is_skipped);
    assert!(info.has_flattened);
    assert_eq!(info.flattened_types, vec![s("Option<Inner>")]);
}

#[test]
fn nested_meta_items_follow_the_comma_rules() {
    let toks = vec![
        TokenModel::Ident(s("rename")),
        TokenModel::Punct('=', false),
        TokenModel::Literal(s("\"x\""), Some(s("x"))),
        TokenModel::Punct(',', false),
        TokenModel::Ident(s("skip")),
        TokenModel::Punct(',', false),
    ];
    let metas = nested_meta_items(&toks);
    assert_eq!(metas.len(), 2);
    assert!(matches!(&metas[0], SerdeMeta::Rename(Some(n)) if n == "x"));
    assert!(matches!(metas[1], SerdeMeta::Skip));
}

#[test]
fn test_parse_simple_schema() {
    let properties = vec![
        (s("id"), obj(vec![("type", Json::Str(s("string"))), ("format", Json::Str(s("uuid")))])),
        (s("count"), obj(vec![("type", Json::Str(s("integer")))])),
    ];
    let info = schema_info_from_parts("TestType", Some(s("TestType")), Some(vec![s("id"), s("count")]), Some(properties))
        .unwrap();
    assert_eq!(info.name, "TestType");
    assert!(info.properties.iter().any(|(k, _)| k == "id"));
    assert!(info.properties.iter().any(|(k, _)| k == "count"));
    assert!(info.required.contains(&s("id")));
}

#[test]
fn test_parse_nullable_type() {
    let properties = vec![(
        s("value"),
        obj(vec![("type", Json::Array(vec![Json::Str(s("string")), Json::Str(s("null"))]))]),
    )];
    let info = schema_info_from_parts("NullableTest", Some(s("NullableTest")), None, Some(properties)).unwrap();
    let value_prop = &info.properties.iter().find(|(k, _)| k == "value").unwrap().1;
    assert!(matches!(value_prop.json_type, JsonType::Union(_)));
}

#[test]
fn property_that_is_not_an_object_is_a_parse_error() {
    let r = parse_property(&Json::Str(s("x")));
    match r {
        Err(DriftError::ParseError(m)) => assert_eq!(m, "Property is not an object"),
        _ => panic!("expected a parse error"),
    }
}

#[test]
fn missing_rust_type_is_reported() {
    let files = vec![s("pub struct Yes { pub a: u32 }")];
    assert_eq!(find_type_in_sources(&files, "Yes").unwrap().name, "Yes");
    match find_type_in_sources(&files, "Nope") {
        Err(DriftError::TypeNotFound(t)) => assert_eq!(t, "Nope"),
        _ => panic!("expected type not found"),
    }
}

#[test]
fn field_missing_in_rust_is_no_drift() {
    let rust_info = RustTypeInfo { name: s("T"), fields: vec![], has_flattened: false, flattened_types: vec![] };
    let schema_info = JsonSchemaInfo {
        name: s("T"),
        properties: vec![(
            s("a"),
            JsonPropertyInfo { json_type: JsonType::String, format: None, ref_type: None, description: None },
        )],
        required: vec![],
    };
    assert!(compare_types("T", &rust_info, &schema_info).is_ok());
}

#[test]
fn field_missing_in_schema_is_drift() {
    let rust_info = RustTypeInfo {
        name: s("T"),
        fields: vec![(
            s("extra"),
            RustFieldInfo {
                type_string: s("String"),
                is_optional: false,
                serde_rename: None,
                is_flattened: false,
                is_skipped: false,
            },
        )],
        has_flattened: false,
        flattened_types: vec![],
    };
    let schema_info = JsonSchemaInfo { name: s("T"), properties: vec![], required: vec![] };
    match compare_types("T", &rust_info, &schema_info) {
        Err(DriftError::MissingInSchema { ty_name, field }) => {
            assert_eq!(ty_name, "T");
            assert_eq!(field, "extra");
        }
        other => panic!("unexpected {:?}", other),
    }
}
