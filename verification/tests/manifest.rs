use vouch::decimal::Decimal;
use vouch::error::{Outcome, VouchError};
use vouch::json::Json;
use vouch::manifest::{default_timeout, schema_location, ContractDecl, Manifest, Node};

fn j(text: &str) -> Json {
    convert(&serde_json::from_str(text).expect("valid JSON"))
}

fn convert(v: &serde_json::Value) -> Json {
    match v {
        serde_json::Value::Null => Json::Null,
        serde_json::Value::Bool(b) => Json::Bool(*b),
        serde_json::Value::Number(n) => Json::Number(Decimal::parse(&n.to_string()).expect("a number")),
        serde_json::Value::String(s) => Json::Str(s.clone()),
        serde_json::Value::Array(items) => Json::Array(items.iter().map(convert).collect()),
        serde_json::Value::Object(fields) => {
            Json::Object(fields.iter().map(|(k, v)| (k.clone(), convert(v))).collect())
        }
    }
}

fn manifest(requires: Vec<ContractDecl>, ensures: Vec<ContractDecl>, run: &[&str]) -> Manifest {
    Manifest {
        name: "ok".to_string(),
        version: "0.1.0".to_string(),
        purpose: "Doubles a number.".to_string(),
        use_when: Vec::new(),
        not_for: Vec::new(),
        run: run.iter().map(|s| s.to_string()).collect(),
        timeout_ms: default_timeout(),
        reads: Vec::new(),
        input: Json::Null,
        output: Json::Null,
        params: Vec::new(),
        requires,
        ensures,
        examples: Vec::new(),
    }
}

fn load(m: Manifest) -> Result<Node, VouchError> {
    Node::from_manifest(
        m,
        "nodes/ok".to_string(),
        j(r#"{"type": "object", "properties": {"n": {"type": "integer"}}}"#),
        j(r#"{"type": "object", "properties": {"n": {"type": "integer"}}}"#),
    )
}

fn e(expr: &str) -> ContractDecl {
    ContractDecl::Expr(expr.to_string())
}

#[test]
fn node_with_no_postconditions_will_not_load() {
    let err = load(manifest(Vec::new(), Vec::new(), &["./run.sh"])).unwrap_err();
    assert_eq!(err.outcome, Outcome::Error);
    assert_eq!(err.reason, "node declares no `ensures`; a node with no postcondition cannot be vouched for");
    assert_eq!(err.node.as_deref(), Some("ok"));
}

#[test]
fn node_with_vacuous_postcondition_will_not_load() {
    let err = load(manifest(Vec::new(), vec![e("input.n >= 0"), e("true")], &["./run.sh"])).unwrap_err();
    assert_eq!(
        err.reason,
        "no `ensures` expression references `result`; these postconditions check nothing about the returned value: input.n >= 0; true"
    );
}

#[test]
fn a_precondition_on_the_result_will_not_load() {
    let err = load(manifest(vec![e("result.n > 0")], vec![e("result.n >= 0")], &["./run.sh"])).unwrap_err();
    assert_eq!(
        err.reason,
        "`requires` expression references `result`, which does not exist before the node runs: result.n > 0"
    );
}

#[test]
fn a_node_with_nothing_to_run_will_not_load() {
    let err = load(manifest(Vec::new(), vec![e("result.n >= 0")], &[])).unwrap_err();
    assert_eq!(err.reason, "`run` is empty; nothing to execute");
}

#[test]
fn a_contract_that_does_not_compile_names_itself() {
    let err = load(manifest(Vec::new(), vec![e("result.n >")], &["./run.sh"])).unwrap_err();
    assert!(err.reason.starts_with("`ensures` expression does not compile: result.n >\n  "), "{}", err.reason);
}

#[test]
fn a_sound_node_loads_with_its_contracts_compiled() {
    let detailed = ContractDecl::Detailed { expr: "input.n >= 0".to_string(), message: Some("n must not be negative".to_string()) };
    assert_eq!(detailed.expr(), "input.n >= 0");
    assert_eq!(detailed.message().as_deref(), Some("n must not be negative"));
    let node = load(manifest(vec![detailed], vec![e("result.n == input.n * 2")], &["./run.sh"])).expect("loads");
    assert_eq!(node.requires.len(), 1);
    assert_eq!(node.requires[0].message.as_deref(), Some("n must not be negative"));
    let s = node.strength();
    assert_eq!((s.ensures, s.numeric_output_fields, s.numeric_fields_referenced), (1, 1, 1));
    assert!(s.unreferenced_numeric_fields.is_empty());
}

#[test]
fn a_schema_section_is_a_path_or_an_inline_schema() {
    assert_eq!(schema_location(&j(r#"{"schema": "input.schema.json"}"#), "input").unwrap().as_deref(), Some("input.schema.json"));
    assert_eq!(schema_location(&j(r#"{"type": "object"}"#), "input").unwrap(), None);
    assert!(schema_location(&j("{}"), "output").is_err());
    assert!(schema_location(&j("3"), "output").is_err());
}
