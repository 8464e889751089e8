//! The ledger and attestation: what a call leaves on record, and how prose is reconciled
//! against it.

use vouch::attest::{attest, ledger_scalars};
use vouch::commands::{attest_code, attestation_text};
use vouch::contracts::Contract;
use vouch::decimal::Decimal;
use vouch::error::{Outcome, VouchError};
use vouch::eval::Session;
use vouch::exec::exited;
use vouch::json::Json;
use vouch::ledger::entry;
use vouch::manifest::{Manifest, Node};
use vouch::verify::{conclude, precheck, Attempt};

fn j(text: &str) -> Json {
    convert(&serde_json::from_str(text).expect("valid JSON"))
}

fn convert(v: &serde_json::Value) -> Json {
    match v {
        serde_json::Value::Null => Json::Null,
        serde_json::Value::Bool(b) => Json::Bool(*b),
        serde_json::Value::Number(n) => Json::Number(Decimal::parse(&n.to_string()).expect("a number")),
        serde_json::Value::String(s) => Json::Str(s.clone()),
        serde_json::Value::Array(items) => Json::Array(items.iter().map(convert).collect()),
        serde_json::Value::Object(fields) => {
            Json::Object(fields.iter().map(|(k, v)| (k.clone(), convert(v))).collect())
        }
    }
}

fn back(v: &Json) -> serde_json::Value {
    match v {
        Json::Null => serde_json::Value::Null,
        Json::Bool(b) => serde_json::Value::Bool(*b),
        Json::Number(d) => serde_json::from_str(&d.to_text()).expect("a number"),
        Json::Str(s) => serde_json::Value::String(s.clone()),
        Json::Array(items) => serde_json::Value::Array(items.iter().map(back).collect()),
        Json::Object(fields) => {
            serde_json::Value::Object(fields.iter().map(|(k, v)| (k.clone(), back(v))).collect())
        }
    }
}

fn node(name: &str, requires: &[&str], ensures: &[&str]) -> Node {
    Node {
        manifest: Manifest {
            name: name.to_string(),
            version: "0.1.0".to_string(),
            purpose: "Doubles a number.".to_string(),
            use_when: Vec::new(),
            not_for: Vec::new(),
            run: vec!["./run.sh".to_string()],
            timeout_ms: 5000,
            reads: Vec::new(),
            input: Json::Null,
            output: Json::Null,
            params: Vec::new(),
            requires: Vec::new(),
            ensures: Vec::new(),
            examples: Vec::new(),
        },
        dir: format!("nodes/{name}"),
        input_schema: j(r#"{"type": "object", "properties": {"n": {"type": "integer"}}, "required": ["n"], "additionalProperties": false}"#),
        output_schema: j(r#"{"type": "object", "properties": {"n": {"type": "integer"}}, "required": ["n"]}"#),
        requires: requires.iter().map(|s| Contract::compile(s, None).unwrap()).collect(),
        ensures: ensures.iter().map(|s| Contract::compile(s, None).unwrap()).collect(),
    }
}

fn ok_node() -> Node {
    node("ok", &["input.n >= 0"], &["result.n == input.n * 2"])
}

const TS: &str = "2026-08-31T13:02:54Z";

/// One call as the command makes it: checked, run (here: what the node said), concluded.
fn call(node: &Node, input: &str, ran: Result<Json, VouchError>) -> Attempt {
    let input = j(input);
    match precheck(node, &input) {
        Err(e) => Attempt::rejected(e),
        Ok(()) => conclude(node, &input, ran),
    }
}

/// What a call leaves in the session's ledger.
fn record(session: &mut Session, node: &Node, input: &str, attempt: Attempt) {
    session.record(node, j(input), attempt, TS, Vec::new());
}

/// The doubling node called once with 21, and the ledger that call leaves.
fn doubled_21() -> Vec<Json> {
    let ok = ok_node();
    let mut session = Session::new();
    record(&mut session, &ok, r#"{"n": 21}"#, call(&ok, r#"{"n": 21}"#, Ok(j(r#"{"n": 42}"#))));
    session.entries
}

#[test]
fn a_successful_call_is_recorded_with_its_scalars() {
    let entries = doubled_21();
    assert_eq!(entries.len(), 1);
    let entry = back(&entries[0]);
    assert_eq!(entry["node"], "ok");
    assert_eq!(entry["outcome"], "ok");
    assert_eq!(entry["code"], 0);
    assert_eq!(entry["input"]["n"], 21);
    assert_eq!(entry["result"]["n"], 42);
    assert_eq!(entry["scalars"]["result.n"], 42);
    assert!(entry["ts"].as_str().unwrap().ends_with('Z'), "an RFC3339 UTC timestamp");
}

/// The ledger is an account of the session: a result that failed its postcondition is the
/// evidence, and a crash is recorded with no result at all.
#[test]
fn refusals_and_defects_are_recorded_too() {
    let liar = node("liar", &[], &["result.n >= 0"]);
    let crasher = node("crasher", &[], &["result.n >= 0"]);
    let mut session = Session::new();
    let lied = call(&liar, r#"{"n": 1}"#, Ok(j(r#"{"n": -5}"#)));
    record(&mut session, &liar, r#"{"n": 1}"#, lied);
    let crashed = call(&crasher, r#"{"n": 1}"#, Err(exited(Some(1), "crasher", "boom")));
    record(&mut session, &crasher, r#"{"n": 1}"#, crashed);

    let entries: Vec<serde_json::Value> = session.entries.iter().map(back).collect();
    assert_eq!(entries.len(), 2);
    assert_eq!(entries[0]["outcome"], "defect");
    assert_eq!(entries[0]["code"], 13);
    assert_eq!(entries[0]["result"]["n"], -5);
    assert_eq!(entries[1]["outcome"], "defect");
    assert_eq!(entries[1]["code"], 20);
    assert!(entries[1].get("result").is_none(), "a crash produced no value");
}

/// A precondition is checked before the node runs, so a refusal there costs nothing and
/// records nothing.
#[test]
fn a_precondition_refusal_records_nothing() {
    let ok = ok_node();
    let attempt = call(&ok, r#"{"n": -1}"#, Ok(j(r#"{"n": -2}"#)));
    assert!(!attempt.executed);
    assert_eq!(attempt.code(), 11);
    assert_eq!(attempt.verdict.as_ref().unwrap_err().outcome, Outcome::Refusal);
    let mut session = Session::new();
    record(&mut session, &ok, r#"{"n": -1}"#, attempt);
    assert!(session.entries.is_empty(), "nothing ran, so nothing is recorded");
}

#[test]
fn entries_accumulate_across_calls() {
    let ok = ok_node();
    let mut session = Session::new();
    for n in ["1", "2", "3"] {
        let input = format!(r#"{{"n": {n}}}"#);
        let doubled = format!(r#"{{"n": {}}}"#, 2 * n.parse::<i64>().unwrap());
        let attempt = call(&ok, &input, Ok(j(&doubled)));
        record(&mut session, &ok, &input, attempt);
    }
    assert_eq!(session.entries.len(), 3, "the ledger is append-only");
}

#[test]
fn attest_accepts_an_answer_built_from_verified_values() {
    let entries = doubled_21();
    let scalars = ledger_scalars(&entries, false);
    let report = attest("The doubled value is 42 units.", &scalars, None);
    assert_eq!(attest_code(&report), 0);
    assert!(attestation_text(&report, "session.jsonl", entries.len(), scalars.len()).contains("clean"));
}

/// A hand-edited digit in otherwise correct prose.
#[test]
fn attest_catches_a_changed_digit() {
    let entries = doubled_21();
    let scalars = ledger_scalars(&entries, false);
    let report = attest("The doubled value is 43 units.", &scalars, None);
    assert_eq!(attest_code(&report), 1, "an unmatched numeral exits 1");
    let text = attestation_text(&report, "session.jsonl", entries.len(), scalars.len());
    assert!(text.contains("UNATTESTED"), "{text}");
    assert!(text.contains("43"), "{text}");
}

/// 21 is the input, not a result, so it is not on record; but when the user said it, it is
/// theirs and not a fabrication.
#[test]
fn attest_does_not_treat_the_users_own_numbers_as_fabrication() {
    let entries = doubled_21();
    let scalars = ledger_scalars(&entries, false);
    let dirty = attest("Doubling 21 gives 42.", &scalars, None);
    assert_eq!(attest_code(&dirty), 1, "without the question, 21 is unaccounted for");
    let clean = attest("Doubling 21 gives 42.", &scalars, Some("what is 21 doubled?"));
    assert_eq!(attest_code(&clean), 0);
}

/// Inputs are recorded but not provenanced: an agent chose them. Admitting them is opt-in.
#[test]
fn input_values_count_only_when_asked_for() {
    let entries = doubled_21();
    let without = attest("the input was 21", &ledger_scalars(&entries, false), None);
    assert_eq!(attest_code(&without), 1);
    let with = attest("the input was 21", &ledger_scalars(&entries, true), None);
    assert_eq!(attest_code(&with), 0);
}

/// A line built directly carries the same account as one the session records.
#[test]
fn a_recorded_line_is_the_entry_for_the_call() {
    let ok = ok_node();
    let attempt = call(&ok, r#"{"n": 21}"#, Ok(j(r#"{"n": 42}"#)));
    let line = entry(&ok, j(r#"{"n": 21}"#), attempt.outcome(), attempt.code(), attempt.produced.as_ref().map(Json::copy), TS, Vec::new());
    let mut session = Session::new();
    record(&mut session, &ok, r#"{"n": 21}"#, attempt);
    assert_eq!(back(&session.entries[0]), back(&line));
}

/// A ledger read back from its text: blank lines skipped, each line one entry, and a line that
/// is not JSON named by its number.
#[test]
fn a_ledger_reads_back_one_entry_per_line() {
    let text = "{\"node\": \"ok\", \"scalars\": {\"result.n\": 42}}\n\n  \n{\"node\": \"ok\", \"code\": 13}\n";
    let entries = vouch::ledger::parse_ledger(text, "session.jsonl").unwrap();
    assert_eq!(entries.len(), 2);
    assert_eq!(back(&entries[0])["scalars"]["result.n"], 42);
    assert_eq!(back(&entries[1])["code"], 13);
    let scalars = ledger_scalars(&entries, false);
    assert_eq!(attest_code(&attest("it came to 42", &scalars, None)), 0);
    let e = vouch::ledger::parse_ledger("{\"node\": \"ok\"}\n\n{not json}\n", "session.jsonl").unwrap_err();
    assert_eq!(e.code, 1);
    assert!(e.reason.starts_with("session.jsonl:3: not a valid ledger entry: "), "{}", e.reason);
}

/// JSON text read exactly: an integer stays an integer, a decimal keeps its digits.
#[test]
fn json_text_is_read_with_its_numbers_exact() {
    let j = vouch::json::parse_json(r#"{"strength": 16, "ar": 190.9, "tiny": 1e-7, "list": [true, null, "x"]}"#).unwrap();
    assert_eq!(j.to_text(), r#"{"ar":190.9,"list":[true,null,"x"],"strength":16,"tiny":0.0000001}"#);
    assert!(vouch::json::parse_json("{\"n\": 1").is_err());
    let e = vouch::verify::parse_input("[1, 2", "--input").unwrap_err();
    assert_eq!((e.code, e.outcome), (10, Outcome::CallerError));
    assert!(e.reason.starts_with("--input is not valid JSON: "), "{}", e.reason);
    assert_eq!(back(&vouch::verify::parse_input(r#"{"n": 21}"#, "--input").unwrap())["n"], 21);
}
