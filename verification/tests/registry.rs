use vouch::contracts::Contract;
use vouch::decimal::Decimal;
use vouch::json::Json;
use vouch::manifest::{Manifest, Node};
use vouch::registry::{apply_shared, check_name, sort_names, unknown_node, Preamble, Registry, Shared};
use vouch::verify::{check, conclude, precheck};

fn j(text: &str) -> Json {
    convert(&serde_json::from_str(text).expect("valid JSON"))
}

fn convert(v: &serde_json::Value) -> Json {
    match v {
        serde_json::Value::Null => Json::Null,
        serde_json::Value::Bool(b) => Json::Bool(*b),
        serde_json::Value::Number(n) => Json::Number(Decimal::parse(&n.to_string()).expect("a number")),
        serde_json::Value::String(s) => Json::Str(s.clone()),
        serde_json::Value::Array(items) => Json::Array(items.iter().map(convert).collect()),
        serde_json::Value::Object(fields) => {
            Json::Object(fields.iter().map(|(k, v)| (k.clone(), convert(v))).collect())
        }
    }
}

fn ticket_node(name: &str, input_schema: &str) -> Node {
    Node {
        manifest: Manifest {
            name: name.to_string(),
            version: "0.1.0".to_string(),
            purpose: "Looks a ticket up.".to_string(),
            use_when: Vec::new(),
            not_for: Vec::new(),
            run: vec!["./run.sh".to_string()],
            timeout_ms: 5000,
            reads: Vec::new(),
            input: Json::Null,
            output: Json::Null,
            params: Vec::new(),
            requires: Vec::new(),
            ensures: Vec::new(),
            examples: Vec::new(),
        },
        dir: format!("nodes/{name}"),
        input_schema: j(input_schema),
        output_schema: j(r#"{"type": "object", "properties": {"n": {"type": "integer"}}}"#),
        requires: vec![Contract::compile("input.ticket != \"\"", None).unwrap()],
        ensures: vec![Contract::compile("result.n >= 0", None).unwrap()],
    }
}

fn preamble() -> Preamble {
    Preamble {
        name: None,
        description: None,
        notes: Vec::new(),
        requires: vec![Shared {
            when: "ticket".to_string(),
            expr: "input.ticket.startsWith(\"T-\")".to_string(),
            message: Some("a ticket id looks like T-1001".to_string()),
        }],
        ensures: Vec::new(),
    }
}

#[test]
fn a_collection_rule_refuses_a_call_no_node_would_have() {
    let mut node = ticket_node("triage", r#"{"type": "object", "properties": {"ticket": {"type": "string"}}}"#);
    apply_shared(&mut node, &preamble()).expect("the rule compiles");
    assert_eq!(node.requires.len(), 2);
    assert_eq!(node.requires[0].source, "!has(input.ticket) || (input.ticket.startsWith(\"T-\"))");
    let e = precheck(&node, &j(r#"{"ticket": "1001"}"#)).unwrap_err();
    assert_eq!(e.code, 11);
    assert_eq!(e.reason, "a ticket id looks like T-1001");
    assert!(precheck(&node, &j(r#"{"ticket": "T-1001"}"#)).is_ok());
}

#[test]
fn an_optional_parameter_left_out_does_not_fire_the_rule() {
    let mut node = ticket_node("triage", r#"{"type": "object", "properties": {"ticket": {"type": "string"}}}"#);
    apply_shared(&mut node, &preamble()).expect("the rule compiles");
    assert!(precheck(&node, &j("{}")).is_err(), "the node's own precondition reads input.ticket");
    let mut node = ticket_node("triage", r#"{"type": "object", "properties": {"ticket": {"type": "string"}}}"#);
    node.requires.clear();
    apply_shared(&mut node, &preamble()).expect("the rule compiles");
    assert!(precheck(&node, &j("{}")).is_ok());
}

#[test]
fn a_node_that_does_not_take_the_parameter_is_untouched() {
    let mut node = ticket_node("wait", r#"{"type": "object", "properties": {"queue": {"type": "string"}}}"#);
    apply_shared(&mut node, &preamble()).expect("nothing to compile");
    assert_eq!(node.requires.len(), 1);
}

#[test]
fn a_manifest_must_be_named_for_its_directory() {
    let node = ticket_node("triage", "{}");
    assert!(check_name(&node, "triage").is_ok());
    assert_eq!(
        check_name(&node, "other").unwrap_err().reason,
        "node in nodes/other/ declares name 'triage'; the manifest name must match its directory"
    );
}

#[test]
fn describing_an_unknown_node_lists_the_known_ones() {
    let known = vec!["escalation-cost".to_string(), "triage".to_string()];
    assert_eq!(unknown_node("triag", &known).reason, "no node named 'triag'; known nodes: escalation-cost, triage");
    assert_eq!(unknown_node("x", &Vec::new()).reason, "no node named 'x'; the collection has no nodes");
}

#[test]
fn node_names_sort_by_their_bytes() {
    let names = vec!["wait-estimate", "Zed", "triage", "escalation-cost", "triage"];
    let sorted = sort_names(names.iter().map(|s| s.to_string()).collect());
    assert_eq!(sorted, vec!["Zed", "escalation-cost", "triage", "triage", "wait-estimate"]);
}

#[test]
fn the_collection_keeps_its_nodes_and_ledger_under_its_root() {
    let r = Registry { root: "/srv/c".to_string() };
    assert_eq!(r.nodes_dir(), "/srv/c/nodes");
    assert_eq!(r.preamble_path(), "/srv/c/.vouch/registry.toml");
}

/// The collection's rule on `n`, and its rule on what any node returns as `n`.
fn n_rules() -> Preamble {
    Preamble {
        name: None,
        description: None,
        notes: Vec::new(),
        requires: vec![Shared {
            when: "n".to_string(),
            expr: "input.n <= 100".to_string(),
            message: Some("n runs to 100 everywhere in this collection".to_string()),
        }],
        ensures: vec![Shared {
            when: "n".to_string(),
            expr: "result.n >= 0".to_string(),
            message: Some("no node here returns a negative n".to_string()),
        }],
    }
}

fn takes_n(name: &str) -> Node {
    let mut node = ticket_node(name, r#"{"type": "object", "properties": {"n": {"type": "integer"}}}"#);
    node.requires.clear();
    node.ensures = vec![Contract::compile("has(result.n)", None).unwrap()];
    node
}

#[test]
fn a_call_the_rule_permits_is_untouched() {
    let mut node = takes_n("takes-n");
    apply_shared(&mut node, &n_rules()).expect("the rules compile");
    let input = j(r#"{"n": 5}"#);
    assert!(precheck(&node, &input).is_ok());
    let attempt = conclude(&node, &input, Ok(j(r#"{"n": 5}"#)));
    assert_eq!(attempt.code(), 0);
    match attempt.value() {
        Some(Json::Object(fields)) => assert_eq!(fields[0].0, "n"),
        other => panic!("expected the value, got {other:?}"),
    }
    let e = precheck(&node, &j(r#"{"n": 500}"#)).unwrap_err();
    assert_eq!(e.reason, "n runs to 100 everywhere in this collection");
}

/// A postcondition is about what comes back, so it is scoped to the result: a call that left
/// the parameter out is checked all the same.
#[test]
fn a_shared_postcondition_checks_the_result_whatever_the_input_was() {
    let mut node = takes_n("negative");
    apply_shared(&mut node, &n_rules()).expect("the rules compile");
    for input in ["{}", r#"{"n": 1}"#] {
        let input = j(input);
        assert!(precheck(&node, &input).is_ok());
        let e = check(&node, &input, &j(r#"{"n": -1}"#)).unwrap_err();
        assert_eq!(e.code, 13);
        assert_eq!(e.outcome, vouch::error::Outcome::Defect);
        assert_eq!(e.reason, "no node here returns a negative n");
    }
}

/// Each directory from `start` upward, and whether it holds a collection.
fn ancestors(dirs: &[(&str, bool)]) -> Vec<(String, bool)> {
    dirs.iter().map(|(d, c)| (d.to_string(), *c)).collect()
}

#[test]
fn a_directory_without_a_collection_reports_the_discovery_failure() {
    let e = Registry::discover("/repo/src", &ancestors(&[("/repo/src", false), ("/repo", false), ("/", false)])).unwrap_err();
    assert_eq!(e.outcome, vouch::error::Outcome::Error);
    assert_eq!(e.code, 1);
    assert!(e.reason.contains("no vouch project found"), "{}", e.reason);
}

#[test]
fn without_the_flag_the_repository_root_is_not_a_collection() {
    let e = Registry::discover("/repo", &ancestors(&[("/repo", false), ("/", false)])).unwrap_err();
    assert_eq!(e.outcome, vouch::error::Outcome::Error);
    let found = Registry::discover("/repo/tests/fixtures", &ancestors(&[("/repo/tests/fixtures", true), ("/repo/tests", false), ("/repo", false)]));
    assert_eq!(found.unwrap().root, "/repo/tests/fixtures");
}
