use vouch::decimal::Decimal;
use vouch::json::Json;
use vouch::schema::{compile, errors, numeric_paths};

fn j(text: &str) -> Json {
    convert(&serde_json::from_str(text).expect("valid JSON"))
}

fn convert(v: &serde_json::Value) -> Json {
    match v {
        serde_json::Value::Null => Json::Null,
        serde_json::Value::Bool(b) => Json::Bool(*b),
        serde_json::Value::Number(n) => Json::Number(Decimal::parse(&n.to_string()).expect("a number")),
        serde_json::Value::String(s) => Json::Str(s.clone()),
        serde_json::Value::Array(items) => Json::Array(items.iter().map(convert).collect()),
        serde_json::Value::Object(fields) => {
            Json::Object(fields.iter().map(|(k, v)| (k.clone(), convert(v))).collect())
        }
    }
}

#[test]
fn non_finite_numbers_cannot_enter_the_value_tree() {
    assert!(serde_json::Number::from_f64(f64::INFINITY).is_none());
    assert!(serde_json::Number::from_f64(f64::NAN).is_none());
    for literal in [r#"{"x": NaN}"#, r#"{"x": Infinity}"#, r#"{"x": 1e400}"#] {
        assert!(serde_json::from_str::<serde_json::Value>(literal).is_err(), "{literal} must not parse");
    }
    for literal in ["NaN", "Infinity", "-Infinity", "1e", "01", "+1", "1.", ".5"] {
        assert!(Decimal::parse(literal).is_none(), "{literal} is not a JSON number");
    }
}

#[test]
fn numeric_paths_walks_local_refs() {
    let schema = j(r##"{
        "type": "object",
        "properties": {
            "stats": {"$ref": "#/$defs/stats"},
            "name": {"type": "string"}
        },
        "$defs": {
            "stats": {
                "type": "object",
                "properties": {"strength": {"type": "integer"}, "ar": {"type": "number"}}
            }
        }
    }"##);
    let mut found = numeric_paths(&schema, &schema, "result");
    found.sort();
    assert_eq!(found, vec!["result.stats.ar", "result.stats.strength"]);
}

// ------------------------------------------------------------------ further cases

#[test]
fn a_value_that_satisfies_its_schema_has_no_errors() {
    let schema = j(r#"{"type": "object", "properties": {"n": {"type": "integer"}}, "required": ["n"]}"#);
    assert!(errors(&schema, &j(r#"{"n": 21}"#)).is_empty());
    let found = errors(&schema, &j(r#"{"n": "twelve"}"#));
    assert_eq!(found.len(), 1);
    assert!(found[0].starts_with("/n: "), "{}", found[0]);
    assert!(!errors(&schema, &j("{}")).is_empty());
}

#[test]
fn a_schema_that_does_not_compile_says_which_one() {
    assert!(compile(&j(r#"{"type": "object"}"#), "input schema").is_ok());
    let e = compile(&j(r#"{"type": 12}"#), "output schema").unwrap_err();
    assert!(e.reason.starts_with("output schema is not a valid JSON Schema: "), "{}", e.reason);
    assert!(e.reason.len() > "output schema is not a valid JSON Schema: ".len());
}
