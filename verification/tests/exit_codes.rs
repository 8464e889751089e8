//! The exit-code taxonomy at the library's boundary: each code from the part of the pipeline
//! that decides it, with the node's process already run and its output in hand.

use vouch::contracts::Contract;
use vouch::decimal::Decimal;
use vouch::error::{Outcome, VouchError};
use vouch::exec::{exited, read_stdout, stdout_body, timed_out};
use vouch::json::Json;
use vouch::manifest::{Manifest, Node};
use vouch::verify::{check, conclude, precheck};

fn j(text: &str) -> Json {
    convert(&serde_json::from_str(text).expect("valid JSON"))
}

fn convert(v: &serde_json::Value) -> Json {
    match v {
        serde_json::Value::Null => Json::Null,
        serde_json::Value::Bool(b) => Json::Bool(*b),
        serde_json::Value::Number(n) => Json::Number(Decimal::parse(&n.to_string()).expect("a number")),
        serde_json::Value::String(s) => Json::Str(s.clone()),
        serde_json::Value::Array(items) => Json::Array(items.iter().map(convert).collect()),
        serde_json::Value::Object(fields) => {
            Json::Object(fields.iter().map(|(k, v)| (k.clone(), convert(v))).collect())
        }
    }
}

fn back(v: &Json) -> serde_json::Value {
    match v {
        Json::Null => serde_json::Value::Null,
        Json::Bool(b) => serde_json::Value::Bool(*b),
        Json::Number(d) => serde_json::from_str(&d.to_text()).expect("a number"),
        Json::Str(s) => serde_json::Value::String(s.clone()),
        Json::Array(items) => serde_json::Value::Array(items.iter().map(back).collect()),
        Json::Object(fields) => {
            serde_json::Value::Object(fields.iter().map(|(k, v)| (k.clone(), back(v))).collect())
        }
    }
}

/// What the command does with a node's stdout: trim it, and parse it as JSON.
fn stdout_of(node: &str, stdout: &str) -> Result<Json, VouchError> {
    let body = stdout_body(stdout);
    read_stdout(&body, node, "")
}

/// The details of a report, as JSON a test can index.
fn details(e: &VouchError) -> serde_json::Value {
    back(e.details.as_ref().expect("the report carries details"))
}

/// A node of the fixture collection: `n` in, an object with an integer `n` out.
fn node(name: &str, requires: &[&str], ensures: &[&str]) -> Node {
    Node {
        manifest: Manifest {
            name: name.to_string(),
            version: "0.1.0".to_string(),
            purpose: "Doubles a number.".to_string(),
            use_when: Vec::new(),
            not_for: Vec::new(),
            run: vec!["./run.sh".to_string()],
            timeout_ms: 5000,
            reads: Vec::new(),
            input: Json::Null,
            output: Json::Null,
            params: Vec::new(),
            requires: Vec::new(),
            ensures: Vec::new(),
            examples: Vec::new(),
        },
        dir: format!("nodes/{name}"),
        input_schema: j(r#"{"type": "object", "properties": {"n": {"type": "integer"}}, "required": ["n"], "additionalProperties": false}"#),
        output_schema: j(r#"{"type": "object", "properties": {"n": {"type": "integer"}}, "required": ["n"]}"#),
        requires: requires.iter().map(|s| Contract::compile(s, None).unwrap()).collect(),
        ensures: ensures.iter().map(|s| Contract::compile(s, None).unwrap()).collect(),
    }
}

fn ok_node() -> Node {
    node("ok", &["input.n >= 0"], &["result.n == input.n * 2"])
}

fn assert_failure(e: &VouchError, code: i32, outcome: Outcome) {
    assert_eq!(e.code, code, "exit code; reason was {}", e.reason);
    assert_eq!(e.outcome, outcome, "outcome; reason was {}", e.reason);
}

// ------------------------------------------------------------ caller error

#[test]
fn input_violating_its_schema_is_a_caller_error() {
    let e = precheck(&ok_node(), &j(r#"{"n": "twelve"}"#)).unwrap_err();
    assert_failure(&e, 10, Outcome::CallerError);
    assert!(e.reason.contains("input schema"));
}

#[test]
fn unknown_input_field_is_a_caller_error() {
    let e = precheck(&ok_node(), &j(r#"{"n": 1, "extra": true}"#)).unwrap_err();
    assert_failure(&e, 10, Outcome::CallerError);
}

#[test]
fn non_object_input_is_a_caller_error() {
    let e = precheck(&ok_node(), &j("[1, 2, 3]")).unwrap_err();
    assert_failure(&e, 10, Outcome::CallerError);
}

// ---------------------------------------------------------------- refusals

#[test]
fn failed_precondition_refuses() {
    let e = precheck(&ok_node(), &j(r#"{"n": -1}"#)).unwrap_err();
    assert_failure(&e, 11, Outcome::Refusal);
    assert_eq!(details(&e)["expression"], "input.n >= 0");
}

#[test]
fn timeout_refuses() {
    let e = timed_out(50, "slow");
    assert_failure(&e, 14, Outcome::Refusal);
    assert!(e.reason.contains("timeout"));
}

/// Fail closed: a postcondition that cannot be evaluated refuses, never passes.
#[test]
fn unevaluable_contract_refuses_rather_than_passing() {
    let unevaluable = node("unevaluable", &[], &["result.missing > 0"]);
    let input = j(r#"{"n": 1}"#);
    let e = check(&unevaluable, &input, &j(r#"{"n": 2}"#)).unwrap_err();
    assert_failure(&e, 15, Outcome::Refusal);
    assert_eq!(details(&e)["expression"], "result.missing > 0");
}

// ----------------------------------------------------------------- defects

#[test]
fn output_violating_its_schema_is_a_defect() {
    let wrong_type = node("wrong-type", &[], &["result.n > 0"]);
    let e = check(&wrong_type, &j(r#"{"n": 1}"#), &j(r#"{"n": "two"}"#)).unwrap_err();
    assert_failure(&e, 12, Outcome::Defect);
}

/// NaN, Infinity and an overflowing literal are not JSON, so they are caught where stdout is
/// read: a protocol violation, and no value.
#[test]
fn non_finite_output_is_a_defect() {
    let e = stdout_of("infinite", r#"{"n": 1e400}"#).unwrap_err();
    assert_failure(&e, 21, Outcome::Defect);
    assert!(e.reason.contains("out of range"), "{}", e.reason);
}

#[test]
fn failed_postcondition_is_a_defect_and_leaks_no_value() {
    let liar = node("liar", &[], &["result.n >= 0"]);
    let input = j(r#"{"n": 1}"#);
    let attempt = conclude(&liar, &input, Ok(j(r#"{"n": -5}"#)));
    assert!(attempt.value().is_none(), "a rejected result is never the value");
    let e = attempt.verdict.unwrap_err();
    assert_failure(&e, 13, Outcome::Defect);
    assert_eq!(details(&e)["expression"], "result.n >= 0");
    assert_eq!(details(&e)["rejected_result"]["n"], -5);
}

#[test]
fn node_crash_is_a_defect() {
    let e = exited(Some(1), "crasher", "Traceback: boom\n");
    assert_failure(&e, 20, Outcome::Defect);
    assert!(details(&e)["stderr"].as_str().unwrap().contains("boom"));
}

/// A node that exits 3 has understood the question and is saying the answer does not exist:
/// a refusal, in its own words, and not a defect.
#[test]
fn a_node_can_refuse_and_it_is_not_a_defect() {
    let e = exited(Some(3), "refuser", "no entry for 7 in my table; try another\n");
    assert_failure(&e, 16, Outcome::Refusal);
    assert_eq!(e.reason, "no entry for 7 in my table; try another");
    assert_eq!(e.node.as_deref(), Some("refuser"));
}

#[test]
fn a_refusal_with_no_reason_says_so() {
    let e = exited(Some(3), "silent-refuser", "  \n");
    assert_failure(&e, 16, Outcome::Refusal);
    assert!(e.reason.contains("gave no reason"), "{}", e.reason);
    assert!(e.reason.contains("silent-refuser"), "{}", e.reason);
}

/// An uncaught exception exits 1 in most languages; reading that as a refusal would launder a
/// crash into an answer.
#[test]
fn an_ordinary_crash_is_still_a_defect() {
    assert_failure(&exited(Some(1), "crasher", ""), 20, Outcome::Defect);
    assert_failure(&exited(Some(2), "crasher", ""), 20, Outcome::Defect);
    assert_failure(&exited(None, "crasher", ""), 20, Outcome::Defect);
}

/// stdout is the payload channel, and a stray log line there names the cause.
#[test]
fn log_line_on_stdout_is_a_protocol_violation() {
    let e = stdout_of("chatty", "starting up\n{\"n\": 2}\n").unwrap_err();
    assert_failure(&e, 21, Outcome::Defect);
    assert!(details(&e)["hint"].as_str().unwrap().contains("stderr"));
}

#[test]
fn non_object_stdout_is_a_protocol_violation() {
    let e = stdout_of("array-out", "[1, 2]").unwrap_err();
    assert_failure(&e, 21, Outcome::Defect);
    assert!(e.reason.contains("expected a JSON object"));
}

/// Every failure reports the working behind it: the expression, what stopped it, and for a
/// broken node the end of what it wrote to stderr. A node refusing in its own words needs none.
#[test]
fn failures_carry_their_details() {
    let unevaluable = node("unevaluable", &[], &["result.missing > 0"]);
    let e = check(&unevaluable, &j(r#"{"n": 1}"#), &j(r#"{"n": 2}"#)).unwrap_err();
    let d = details(&e);
    assert_eq!(d["expression"], "result.missing > 0");
    assert!(d["error"].as_str().is_some(), "{d}");
    assert_eq!(details(&exited(Some(1), "crasher", "boom\n"))["stderr"], "boom");
    assert!(exited(Some(3), "refuser", "not here").details.is_none());
}

/// A problem with the collection rather than with a call is code 1.
#[test]
fn a_collection_problem_is_code_one() {
    let e = vouch::registry::unknown_node("nope", &vec!["ok".to_string()]);
    assert_eq!((e.code, e.outcome), (1, Outcome::Error));
    let e = vouch::eval::Agent::new("   ").unwrap_err();
    assert_eq!((e.code, e.outcome), (1, Outcome::Error));
    assert_eq!(e.reason, "--agent is empty; nothing to run");
}
