use familiar::json::Json;
use familiar::settings::Settings;

fn s(x: &str) -> String {
    x.to_string()
}

fn num(n: &str) -> Json {
    Json::Number(s(n))
}

fn obj(members: Vec<(&str, Json)>) -> Json {
    Json::Object(members.into_iter().map(|(k, v)| (k.to_string(), v)).collect())
}

fn text_of(v: Option<&Json>) -> Option<&str> {
    match v {
        Some(Json::Str(t)) => Some(t.as_str()),
        _ => None,
    }
}

fn number_of(v: Option<&Json>) -> Option<&str> {
    match v {
        Some(Json::Number(t)) => Some(t.as_str()),
        _ => None,
    }
}

#[test]
fn test_settings_new() {
    let settings = Settings::new();
    assert!(settings.is_empty());
}

#[test]
fn test_settings_set_get() {
    let mut settings = Settings::new();
    settings.set("theme", Json::Str(s("dark")));
    assert_eq!(text_of(settings.get_raw("theme")), Some("dark"));
}

#[test]
fn test_settings_complex_value() {
    let mut settings = Settings::new();
    settings.set("config", obj(vec![("nested", obj(vec![("value", num("42"))]))]));
    let raw = settings.get_raw("config");
    assert!(raw.is_some());
    let nested = raw.unwrap().get("nested").unwrap();
    assert_eq!(number_of(nested.get("value")), Some("42"));
}

#[test]
fn test_settings_merge() {
    let mut base = Settings::from_value(obj(vec![("a", num("1")), ("b", obj(vec![("c", num("2")), ("d", num("3"))]))]));
    let other = Settings::from_value(obj(vec![("a", num("10")), ("b", obj(vec![("c", num("20")), ("e", num("5"))]))]));
    base.merge(&other);
    assert_eq!(number_of(base.get_raw("a")), Some("10"));
    let b = base.get_raw("b").unwrap();
    assert_eq!(number_of(b.get("c")), Some("20"));
    assert_eq!(number_of(b.get("d")), Some("3"));
    assert_eq!(number_of(b.get("e")), Some("5"));
}

#[test]
fn test_settings_remove() {
    let mut settings = Settings::from_value(obj(vec![("a", num("1")), ("b", num("2"))]));
    let removed = settings.remove("a");
    assert_eq!(number_of(removed.as_ref()), Some("1"));
    assert!(!settings.contains("a"));
    assert!(settings.contains("b"));
}

#[test]
fn test_settings_keys() {
    let settings = Settings::from_value(obj(vec![("a", num("1")), ("b", num("2"))]));
    let mut keys = settings.keys();
    keys.sort();
    assert_eq!(keys, vec![s("a"), s("b")]);
}

#[test]
fn settings_keep_members_sorted_and_replace_values() {
    let mut settings = Settings::from_value(obj(vec![("zeta", num("1")), ("alpha", num("2")), ("zeta", num("3"))]));
    assert_eq!(settings.keys(), vec![s("alpha"), s("zeta")]);
    assert_eq!(number_of(settings.get_raw("zeta")), Some("3"));
    settings.set("beta", Json::Bool(true));
    assert_eq!(settings.keys(), vec![s("alpha"), s("beta"), s("zeta")]);
    settings.set("beta", Json::Null);
    assert_eq!(settings.keys().len(), 3);
    assert!(matches!(settings.get_raw("beta"), Some(Json::Null)));
}

#[test]
fn settings_from_non_object_is_empty() {
    let settings = Settings::from_value(Json::Array(vec![num("1")]));
    assert!(settings.is_empty());
    assert!(matches!(settings.as_value(), Json::Object(m) if m.is_empty()));
}

#[test]
fn merge_replaces_arrays_and_scalars() {
    let mut base = Settings::from_value(obj(vec![("list", Json::Array(vec![num("1"), num("2")])), ("x", obj(vec![("y", num("1"))]))]));
    let other = Settings::from_value(obj(vec![("list", Json::Array(vec![num("3")])), ("x", num("7"))]));
    base.merge(&other);
    match base.get_raw("list") {
        Some(Json::Array(items)) => assert_eq!(items.len(), 1),
        _ => panic!("list is not an array"),
    }
    assert_eq!(number_of(base.get_raw("x")), Some("7"));
    let removed = base.remove("missing");
    assert!(removed.is_none());
    assert_eq!(base.keys().len(), 2);
}
