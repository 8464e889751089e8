//! Node fixtures: each case runs the same checks a real call runs, is graded against what it
//! expects, and the run is reported. A run that checked nothing never reports success.

use vouch::cases::{grade, validate_all, Case, Outcome};
use vouch::commands::{nothing_to_test, select_nodes, test_code, test_result, test_text, test_totals};
use vouch::contracts::Contract;
use vouch::decimal::Decimal;
use vouch::error::TEST_ERROR;
use vouch::json::Json;
use vouch::manifest::{Manifest, Node};
use vouch::registry::unknown_node;
use vouch::verify::{conclude, precheck, Attempt};

fn j(text: &str) -> Json {
    convert(&serde_json::from_str(text).expect("valid JSON"))
}

fn convert(v: &serde_json::Value) -> Json {
    match v {
        serde_json::Value::Null => Json::Null,
        serde_json::Value::Bool(b) => Json::Bool(*b),
        serde_json::Value::Number(n) => Json::Number(Decimal::parse(&n.to_string()).expect("a number")),
        serde_json::Value::String(s) => Json::Str(s.clone()),
        serde_json::Value::Array(items) => Json::Array(items.iter().map(convert).collect()),
        serde_json::Value::Object(fields) => {
            Json::Object(fields.iter().map(|(k, v)| (k.clone(), convert(v))).collect())
        }
    }
}

/// The scratch collection's one node: doubles `n`, refuses a negative one.
fn double() -> Node {
    Node {
        manifest: Manifest {
            name: "double".to_string(),
            version: "0.1.0".to_string(),
            purpose: "Doubles n".to_string(),
            use_when: Vec::new(),
            not_for: Vec::new(),
            run: vec!["python3".to_string()],
            timeout_ms: 5000,
            reads: Vec::new(),
            input: Json::Null,
            output: Json::Null,
            params: Vec::new(),
            requires: Vec::new(),
            ensures: Vec::new(),
            examples: Vec::new(),
        },
        dir: "nodes/double".to_string(),
        input_schema: j(r#"{"type": "object", "additionalProperties": false, "required": ["n"], "properties": {"n": {"type": "integer"}}}"#),
        output_schema: j(r#"{"type": "object", "additionalProperties": false, "required": ["n"], "properties": {"n": {"type": "integer"}}}"#),
        requires: vec![Contract::compile("input.n >= 0", None).unwrap()],
        ensures: vec![Contract::compile("result.n >= 0", None).unwrap()],
    }
}

/// The node run on the case's input, as the command runs it: the node itself doubles `n`.
fn run(node: &Node, case: &Case) -> Attempt {
    if let Err(e) = precheck(node, &case.input) {
        return Attempt::rejected(e);
    }
    let n = match case.input.get("n") {
        Some(Json::Number(d)) => d.to_text().parse::<i64>().unwrap(),
        _ => panic!("the scratch node takes an integer n"),
    };
    conclude(node, &case.input, Ok(j(&format!(r#"{{"n": {}}}"#, 2 * n))))
}

fn case(name: &str, input: &str, expect_code: Option<i32>, expect: &[(&str, &str)]) -> Case {
    Case {
        name: name.to_string(),
        input: j(input),
        expect_code,
        expect: expect.iter().map(|(k, v)| (k.to_string(), j(v))).collect(),
    }
}

/// The report and exit code of `vouch test` over the scratch collection with `cases`.
fn test_run(cases: &[Case]) -> (String, i32) {
    let node = double();
    let outcomes: Vec<Outcome> = cases.iter().map(|c| grade(c, &run(&node, c))).collect();
    let reports = vec![("double".to_string(), outcomes)];
    let (total, passed) = test_totals(&reports);
    (test_text(&reports, &Vec::new(), &Vec::new(), total, passed), test_code(total, passed, 0))
}

#[test]
fn a_wrong_expected_value_fails_the_case_and_names_both_numbers() {
    let (text, code) = test_run(&[case("doubles", r#"{"n": 21}"#, None, &[("result.n", "41")])]);
    assert_eq!(code, 1, "a failing case exits 1; got {text}");
    assert!(text.contains("FAIL"), "{text}");
    assert!(text.contains("result.n: expected 41, got 42"), "a failure must name both numbers:\n{text}");
}

#[test]
fn an_unexpected_exit_code_names_the_reason_the_runtime_gave() {
    let (text, code) = test_run(&[case("a negative n", r#"{"n": -1}"#, Some(0), &[])]);
    assert_eq!(code, 1);
    assert!(text.contains("expected exit 0, got 11 (refusal)"), "{text}");
}

#[test]
fn a_passing_run_exits_zero() {
    let (text, code) = test_run(&[
        case("doubles", r#"{"n": 21}"#, None, &[("result.n", "42")]),
        case("refuses a negative", r#"{"n": -1}"#, Some(11), &[]),
    ]);
    assert_eq!(code, 0, "{text}");
    assert!(text.contains("2 cases, 2 passed, 0 failed"), "{text}");
}

#[test]
fn a_collection_with_no_fixtures_is_an_error_not_a_pass() {
    let e = nothing_to_test(None, "/tmp/scratch/nodes");
    assert_eq!(e.code, 2);
    assert!(e.reason.contains("nothing to test"), "{}", e.reason);
}

#[test]
fn a_named_node_with_no_fixtures_is_an_error() {
    let e = nothing_to_test(Some("double"), "/tmp/scratch/nodes");
    assert_eq!(e.code, 2);
    assert!(e.reason.contains("no cases.toml"), "{}", e.reason);
}

#[test]
fn node_cases_a_case_expecting_a_refusal_may_not_also_expect_values() {
    let cases = vec![case("impossible", r#"{"n": -1}"#, Some(11), &[("result.n", "42")])];
    let e = validate_all(&cases, "nodes/double/cases.toml").unwrap_err().with_code(TEST_ERROR);
    assert_eq!(e.code, 2);
    assert!(e.reason.contains("produces no result"), "{}", e.reason);
}

#[test]
fn an_expected_path_must_be_rooted_at_result() {
    let cases = vec![case("unrooted", r#"{"n": 21}"#, None, &[("n", "42")])];
    let e = validate_all(&cases, "nodes/double/cases.toml").unwrap_err().with_code(TEST_ERROR);
    assert_eq!(e.code, 2);
    assert!(e.reason.contains("rooted at the returned value"), "{}", e.reason);
}

/// A name that is not in the collection is a typo, an error (2); a node that is there and will
/// not load is a failure (1).
#[test]
fn a_node_name_that_does_not_exist_is_an_error_not_a_failed_node() {
    let known = vec!["double".to_string()];
    assert_eq!(select_nodes(&known, Some("doubel")), None);
    let e = unknown_node("doubel", &known).with_code(TEST_ERROR);
    assert_eq!(e.code, 2);
    assert!(e.reason.contains("no node named 'doubel'"), "{}", e.reason);
}

#[test]
fn a_named_node_that_will_not_load_is_a_failure() {
    let unloadable = vec![("no-ensures".to_string(), "node declares no `ensures`".to_string())];
    let text = test_text(&Vec::new(), &Vec::new(), &unloadable, 0, 0);
    assert_eq!(test_code(0, 0, unloadable.len()), 1, "{text}");
    assert!(text.contains("will not load"), "{text}");
}

/// One node that will not load must not hide the results of the rest, nor pass silently.
#[test]
fn an_unloadable_node_fails_the_run_without_aborting_it() {
    let node = double();
    let c = case("a postcondition violation is a defect", r#"{"n": 2}"#, None, &[("result.n", "4")]);
    let reports = vec![("double".to_string(), vec![grade(&c, &run(&node, &c))])];
    let unloadable = vec![("no-ensures".to_string(), "node declares no `ensures`".to_string())];
    let (total, passed) = test_totals(&reports);
    let text = test_text(&reports, &Vec::new(), &unloadable, total, passed);
    assert_eq!(test_code(total, passed, unloadable.len()), 1, "{text}");
    assert!(text.contains("will not load"), "an unloadable node must be reported:\n{text}");
    assert!(text.contains("a postcondition violation is a defect"), "the loadable nodes' cases must still run:\n{text}");
}

/// A `cases.toml` that declares no case checks nothing, just as a missing one does: the run
/// is an error, exit 2, not a pass over zero cases.
#[test]
fn fixture_files_that_declare_no_case_are_an_error_not_a_pass() {
    let reports: Vec<(String, Vec<Outcome>)> = vec![("double".to_string(), Vec::new())];
    let e = test_result(&reports, 0, None, "/tmp/scratch/nodes").unwrap_err();
    assert_eq!(e.code, 2);
    assert_eq!(e.reason, "no cases.toml in /tmp/scratch/nodes declares a [[case]]; there is nothing to test");
    let e = test_result(&reports, 0, Some("double"), "/tmp/scratch/nodes").unwrap_err();
    assert_eq!(e.reason, "double declares no [[case]]; there is nothing to test");
    let e = test_result(&Vec::new(), 0, None, "/tmp/scratch/nodes").unwrap_err();
    assert!(e.reason.contains("has a cases.toml"), "{}", e.reason);
    assert_eq!(test_code(0, 0, 0), 2);
    // A node that will not load is a finding, so the run still reports it as a failure.
    assert_eq!(test_result(&reports, 1, None, "/tmp/scratch/nodes").unwrap(), (0, 0));
    let node = double();
    let c = case("doubles", r#"{"n": 21}"#, None, &[("result.n", "42")]);
    let ran = vec![("double".to_string(), vec![grade(&c, &run(&node, &c))])];
    assert_eq!(test_result(&ran, 0, None, "/tmp/scratch/nodes").unwrap(), (1, 1));
}
