use vouch::contracts::{to_cel, CelVal, Contract, Verdict};
use vouch::decimal::Decimal;
use vouch::json::Json;

fn j(text: &str) -> Json {
    convert(&serde_json::from_str(text).expect("valid JSON"))
}

fn convert(v: &serde_json::Value) -> Json {
    match v {
        serde_json::Value::Null => Json::Null,
        serde_json::Value::Bool(b) => Json::Bool(*b),
        serde_json::Value::Number(n) => Json::Number(Decimal::parse(&n.to_string()).expect("a number")),
        serde_json::Value::String(s) => Json::Str(s.clone()),
        serde_json::Value::Array(items) => Json::Array(items.iter().map(convert).collect()),
        serde_json::Value::Object(fields) => {
            Json::Object(fields.iter().map(|(k, v)| (k.clone(), convert(v))).collect())
        }
    }
}

fn eval(expr: &str, vars: Vec<(&str, CelVal)>) -> Verdict {
    let contract = Contract::compile(expr, None).expect("compiles");
    let bindings: Vec<(String, CelVal)> = vars.into_iter().map(|(n, v)| (n.to_string(), v)).collect();
    contract.evaluate(&bindings)
}

fn held(v: Verdict) -> bool {
    matches!(v, Verdict::Held)
}

fn unevaluable(v: Verdict) -> bool {
    matches!(v, Verdict::Unevaluable(_))
}

fn untyped(text: &str) -> CelVal {
    to_cel(&j(text), None, &Json::Null)
}

fn typed(text: &str, schema: &Json) -> CelVal {
    to_cel(&j(text), Some(schema), schema)
}

#[test]
fn undefined_field_is_unevaluable_not_a_pass() {
    assert!(unevaluable(eval("result.missing > 0", vec![("result", untyped(r#"{"a": 1}"#))])));
}

#[test]
fn undeclared_variable_is_unevaluable_not_a_pass() {
    assert!(unevaluable(eval("nonexistent > 0", vec![])));
}

#[test]
fn type_mismatch_is_unevaluable_not_a_pass() {
    assert!(unevaluable(eval("result.name > 0", vec![("result", untyped(r#"{"name": "x"}"#))])));
}

#[test]
fn division_by_zero_is_unevaluable_not_a_pass() {
    assert!(unevaluable(eval("result.a / result.b > 0", vec![("result", untyped(r#"{"a": 1, "b": 0}"#))])));
}

#[test]
fn non_boolean_result_is_unevaluable_not_a_pass() {
    assert!(unevaluable(eval("result.a", vec![("result", untyped(r#"{"a": 1}"#))])));
    assert!(unevaluable(eval("result", vec![("result", untyped(r#"{"a": 1}"#))])));
}

#[test]
fn genuine_violation_is_failed_not_unevaluable() {
    assert!(matches!(eval("result.a > 5", vec![("result", untyped(r#"{"a": 1}"#))]), Verdict::Failed));
}

#[test]
fn integer_schema_yields_int_even_when_json_says_float() {
    let s = j(r#"{"type": "object", "properties": {"n": {"type": "integer"}}}"#);
    match typed(r#"{"n": 40.0}"#, &s) {
        CelVal::Mapping(fields) => {
            assert_eq!(fields.len(), 1);
            assert_eq!(fields[0].0, "n");
            assert!(matches!(fields[0].1, CelVal::Int(40)), "{:?}", fields[0].1);
        }
        other => panic!("expected a map, got {other:?}"),
    }
}

#[test]
fn number_schema_yields_float_even_when_json_says_int() {
    let s = j(r#"{"type": "object", "properties": {"n": {"type": "number"}}}"#);
    let converted = typed(r#"{"n": 512}"#, &s);
    assert!(matches!(eval("v.n > 0.0", vec![("v", converted)]), Verdict::Held));
}

#[test]
fn documented_builtins_are_available() {
    let s = j(r#"{"type": "object", "properties": {"id": {"type": "string"}, "tier": {"type": "string"}}}"#);
    for expr in [
        r#"v.id.startsWith("T-")"#,
        r#"v.id.endsWith("1001")"#,
        r#"v.id.contains("-")"#,
        r#"size(v.id) == 6"#,
        r#"v.tier in ["free", "pro", "enterprise"]"#,
        r#"v.tier != "free""#,
        r#"["free", "pro"].exists(t, t == v.tier)"#,
    ] {
        let v = typed(r#"{"id": "T-1001", "tier": "pro"}"#, &s);
        let verdict = eval(expr, vec![("v", v)]);
        assert!(matches!(verdict, Verdict::Held), "{expr} should hold, got {:?}", verdict);
    }
}

#[test]
fn schema_typing_survives_a_local_ref() {
    let s = j(r##"{
        "type": "object",
        "properties": {"stats": {"$ref": "#/$defs/stats"}},
        "$defs": {"stats": {"type": "object", "properties": {"strength": {"type": "integer"}}}}
    }"##);
    let converted = typed(r#"{"stats": {"strength": 16.0}}"#, &s);
    assert!(held(eval("v.stats.strength == 16", vec![("v", converted)])));
}

#[test]
fn int_and_double_compare_across_types() {
    let s = j(r#"{"type": "object", "properties": {"i": {"type": "integer"}, "f": {"type": "number"}}}"#);
    assert!(held(eval("v.i > v.f", vec![("v", typed(r#"{"i": 10, "f": 2.5}"#, &s))])));
    assert!(held(eval("v.f < v.i", vec![("v", typed(r#"{"i": 10, "f": 2.5}"#, &s))])));
    assert!(held(eval("v.i <= 10.0", vec![("v", typed(r#"{"i": 10, "f": 2.5}"#, &s))])));
}

// ------------------------------------------------------------------ further cases

#[test]
fn a_source_that_does_not_parse_will_not_compile() {
    assert!(Contract::compile("result.a >", None).is_err());
}

#[test]
fn a_contract_explains_itself_with_its_message_or_its_expression() {
    let plain = Contract::compile("result.a   >\n 0", None).expect("compiles");
    assert_eq!(plain.explain("postcondition failed"), "postcondition failed: result.a > 0");
    let told = Contract::compile("result.a > 0", Some("a must be positive".to_string())).expect("compiles");
    assert_eq!(told.explain("postcondition failed"), "a must be positive");
}

#[test]
fn a_contract_knows_which_variables_it_reads() {
    let c = Contract::compile("result.total <= input.budget", None).expect("compiles");
    assert!(c.references("result"));
    assert!(c.references("input"));
    assert!(!c.references("other"));
}

#[test]
fn a_negative_double_and_a_large_int_survive_the_trip() {
    let s = j(r#"{"type": "object", "properties": {"d": {"type": "number"}, "i": {"type": "integer"}}}"#);
    let v = typed(r#"{"d": -0.25, "i": -9223372036854775808}"#, &s);
    assert!(held(eval("v.d == -0.25 && v.i < 0", vec![("v", v)])));
}

/// A value nested far deeper than any contract expression is bound all the same: no literal the
/// interpreter parses is nested deeper than one container.
#[test]
fn a_deeply_nested_input_is_bound_without_exhausting_the_parser() {
    for depth in [10usize, 30, 63] {
        let lists = format!("{{\"a\": {}1{}}}", "[".repeat(depth), "]".repeat(depth));
        assert!(held(eval("has(input.a)", vec![("input", untyped(&lists))])), "lists {depth} deep");
        let maps = format!("{{\"a\": {}1{}}}", "{\"b\": ".repeat(depth), "}".repeat(depth));
        assert!(held(eval("has(input.a.b)", vec![("input", untyped(&maps))])), "maps {depth} deep");
    }
    let mixed = untyped(r#"{"a": [1, {"b": [2, 3]}, "x"], "c": {"d": -4.5}}"#);
    assert!(held(eval("input.a[1].b[1] == 3 && input.a[2] == 'x' && input.c.d == -4.5 && size(input.a) == 3", vec![("input", mixed)])));
}
