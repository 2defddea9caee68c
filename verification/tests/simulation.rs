use familiar::ids::UUID;
use familiar::runtime::{CoreRuntimeConfig, SystemError, WindmillConfig};
use familiar::simulation::resolver::{
    find_fuzzy_match, levenshtein_distance, normalize_subject, ResolutionCache, ResolveAction, ResolveEvent,
};
use familiar::simulation::spawn::{
    entity_content, entity_type_name, get_field_potential_manifest, get_heddle_manifest, EntityRecord, EntitySpawn,
    SystemDomain, SystemTrigger,
};
use familiar::validation::{derive_message_type, ContractEnforcer, ContractError};

#[test]
fn test_normalize_subject() {
    assert_eq!(normalize_subject("  John  "), "john");
    assert_eq!(normalize_subject("The Meeting"), "meeting");
    assert_eq!(normalize_subject("A Project"), "project");
}

#[test]
fn test_levenshtein_distance() {
    assert_eq!(levenshtein_distance("kitten", "sitting"), 3);
    assert_eq!(levenshtein_distance("john", "jon"), 1);
    assert_eq!(levenshtein_distance("john", "john"), 0);
    assert_eq!(levenshtein_distance("", "abc"), 3);
    assert_eq!(levenshtein_distance("abc", ""), 3);
}

#[test]
fn levenshtein_short_and_non_ascii() {
    assert_eq!(levenshtein_distance("a", "b"), 1);
    assert_eq!(levenshtein_distance("a", "a"), 0);
    assert_eq!(levenshtein_distance("ab", "ba"), 2);
    assert_eq!(levenshtein_distance("x", "xyz"), 2);
    assert_eq!(levenshtein_distance("héllo", "hello"), 1);
    assert_eq!(levenshtein_distance("saturday", "sunday"), 3);
}

#[test]
fn levenshtein_is_symmetric_on_examples() {
    assert_eq!(levenshtein_distance("flaw", "lawn"), levenshtein_distance("lawn", "flaw"));
    assert_eq!(levenshtein_distance("flaw", "lawn"), 2);
}

#[test]
fn test_derive_message_type() {
    assert_eq!(derive_message_type("SignupRequest.schema.json", "contracts"), "contracts.SignupRequest");
    assert_eq!(derive_message_type("pulse.json", "entities"), "entities.pulse");
    assert_eq!(derive_message_type("MyType.schema.json", ""), "MyType");
}

#[test]
fn message_type_takes_the_file_name() {
    assert_eq!(derive_message_type("a/b/Thing.schema.json", "x"), "x.Thing");
}

#[test]
fn test_system_error_display() {
    let err = SystemError::DeserializationError("test error".to_string());
    assert!(err.message().contains("test error"));
}

#[test]
fn test_system_error_from_serde() {
    let json_err: Result<i32, _> = serde_json::from_str("not a number");
    let system_err = SystemError::from_json_error(&json_err.unwrap_err());
    assert!(matches!(system_err, SystemError::DeserializationError(_)));
}

#[test]
fn validation_outcomes() {
    let mut enforcer = ContractEnforcer::empty();
    let mut errors: Vec<String> = Vec::new();
    let schema = br#"{"type": "object", "required": ["name"], "properties": {"name": {"type": "string"}}}"#;
    enforcer.compile_schema_file("Signup.schema.json", "contracts", schema, &mut errors);
    enforcer.compile_schema_file("broken.json", "contracts", b"{not json", &mut errors);
    assert_eq!(enforcer.schema_count(), 1);
    assert!(enforcer.has_schema("contracts.Signup"));
    assert_eq!(errors.len(), 1);
    assert!(errors[0].starts_with("Invalid JSON in broken.json: "));
    assert!(matches!(enforcer.validate("contracts.Other", b"{}"), Err(ContractError::UnknownType(_))));
    assert!(matches!(enforcer.validate("contracts.Signup", b"{oops"), Err(ContractError::ParseError(_))));
    match enforcer.validate("contracts.Signup", br#"{"name": 5}"#) {
        Err(ContractError::ValidationFailed { message_type, errors }) => {
            assert_eq!(message_type, "contracts.Signup");
            assert_eq!(errors.len(), 1);
        },
        _ => panic!("expected a contract violation"),
    }
    assert!(enforcer.validate("contracts.Signup", br#"{"name": "Ann"}"#).is_ok());
    assert_eq!(ContractError::UnknownType("X".to_string()).message(), "Unknown message type: X");
    let v = ContractError::ValidationFailed { message_type: "M".to_string(), errors: vec!["a".to_string()] };
    assert_eq!(v.message(), "Contract violation for M: [\"a\"]");
}

#[test]
fn spawned_entities() {
    let e = EntitySpawn::Pulse(EntityRecord { id: UUID::from_u128(7), content: "felt fine".to_string() });
    assert_eq!(entity_type_name(&e), "Pulse");
    assert_eq!(entity_content(&e), "felt fine");
}

#[test]
fn manifests() {
    let h = get_heddle_manifest();
    assert_eq!(h.id, "sys_ingest_heddle");
    assert_eq!(h.domain, SystemDomain::Ingestion);
    assert_eq!(h.writes.len(), 8);
    assert!(matches!(h.trigger, SystemTrigger::Event(ref e) if e == "raw_input_received"));
    let p = get_field_potential_manifest();
    assert_eq!(p.reads, vec!["FieldExcitation".to_string()]);
    assert!(matches!(p.trigger, SystemTrigger::Schedule(ref c) if c == "*/1 * * * * *"));
}

#[test]
fn runtime_overrides() {
    let base = CoreRuntimeConfig {
        windmill: WindmillConfig { url: "u".to_string(), workspace: "w".to_string(), token: "t".to_string() },
    };
    let c = base.with_overrides(Some("U".to_string()), None, Some("T".to_string()));
    assert_eq!(c.windmill.url, "U");
    assert_eq!(c.windmill.workspace, "w");
    assert_eq!(c.windmill.token, "T");
}

#[test]
fn fuzzy_match_picks_first_nearest_within_reach() {
    let threads = vec![
        (UUID::from_u128(1), Some("johnny".to_string())),
        (UUID::from_u128(2), None),
        (UUID::from_u128(3), Some("jon".to_string())),
        (UUID::from_u128(4), Some("joan".to_string())),
    ];
    assert_eq!(find_fuzzy_match("john", &threads, 2).map(|u| u.as_u128()), Some(3));
    assert_eq!(find_fuzzy_match("john", &threads, 0), None);
    assert_eq!(find_fuzzy_match("zzzzzz", &threads, 2), None);
}

#[test]
fn resolution_cache_remembers_and_clears() {
    let mut cache = ResolutionCache::new();
    assert!(cache.get_cached(7, "john").is_none());
    cache.cache_resolution(7, "john", UUID::from_u128(5));
    cache.cache_resolution(7, "john", UUID::from_u128(6));
    assert_eq!(cache.get_cached(7, "john").map(|u| u.as_u128()), Some(6));
    assert!(cache.get_cached(8, "john").is_none());
    assert_eq!(cache.len(), 1);
    for k in 0..9999u128 {
        cache.cache_resolution(k, "x", UUID::from_u128(k));
    }
    assert_eq!(cache.len(), 10000);
    cache.cache_resolution(1, "y", UUID::from_u128(9));
    assert_eq!(cache.len(), 10001);
    cache.cache_resolution(2, "y", UUID::from_u128(9));
    assert_eq!(cache.len(), 1);
    assert_eq!(cache.get_cached(2, "y").map(|u| u.as_u128()), Some(9));
    cache.clear_cache();
    assert_eq!(cache.len(), 0);
}

#[test]
fn levenshtein_triangle_and_bounds_on_examples() {
    let words = ["", "kitten", "sitting", "mitten", "kit", "sit"];
    for a in words {
        for b in words {
            let dab = levenshtein_distance(a, b);
            assert_eq!(dab == 0, a == b);
            let (la, lb) = (a.chars().count(), b.chars().count());
            assert!(dab >= la.abs_diff(lb) && dab <= la.max(lb));
            for c in words {
                assert!(levenshtein_distance(a, c) <= dab + levenshtein_distance(b, c));
            }
        }
    }
}

#[test]
fn resolve_steps_follow_the_resolution_order() {
    let mut cache = ResolutionCache::new();
    let known = UUID::new();
    assert!(matches!(cache.resolve_step(1, "john", true, 2, ResolveEvent::Start), ResolveAction::FindExact));
    assert!(matches!(cache.resolve_step(1, "john", true, 2, ResolveEvent::Exact(None)), ResolveAction::LoadThreads));
    let rows = vec![(known, Some("jon".to_string()))];
    match cache.resolve_step(1, "john", true, 2, ResolveEvent::Threads(rows)) {
        ResolveAction::Resolved(id) => assert_eq!(id, known),
        _ => panic!("expected a fuzzy match"),
    }
    match cache.resolve_step(1, "john", true, 2, ResolveEvent::Start) {
        ResolveAction::Resolved(id) => assert_eq!(id, known),
        _ => panic!("expected the cached thread"),
    }
    match cache.resolve_step(1, "mary", false, 2, ResolveEvent::Exact(None)) {
        ResolveAction::Resolved(id) => assert_ne!(id, known),
        _ => panic!("expected a new thread"),
    }
}

#[test]
fn test_enforcer_creation() {
    let mut enforcer = ContractEnforcer::empty();
    let mut errors: Vec<String> = Vec::new();
    enforcer.compile_schema_file("pulse.json", "entities", br#"{"type": "object"}"#, &mut errors);
    println!("Compiled {} schemas", enforcer.schema_count());
    for t in enforcer.message_types() {
        println!("  - {}", t);
    }
    assert_eq!(enforcer.message_types(), vec![&"entities.pulse".to_string()]);
}
