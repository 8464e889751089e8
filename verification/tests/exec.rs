use vouch::decimal::Decimal;
use vouch::error::{Outcome, NODE_CRASHED, PROTOCOL, TIMEOUT};
use vouch::exec::{exited, failed_to_start, json_kind, read_stdout, stdout_body, tail, timed_out, STDERR_TAIL};
use vouch::json::Json;

fn j(text: &str) -> Json {
    convert(&serde_json::from_str(text).expect("valid JSON"))
}

fn convert(v: &serde_json::Value) -> Json {
    match v {
        serde_json::Value::Null => Json::Null,
        serde_json::Value::Bool(b) => Json::Bool(*b),
        serde_json::Value::Number(n) => Json::Number(Decimal::parse(&n.to_string()).expect("a number")),
        serde_json::Value::String(s) => Json::Str(s.clone()),
        serde_json::Value::Array(items) => Json::Array(items.iter().map(convert).collect()),
        serde_json::Value::Object(fields) => {
            Json::Object(fields.iter().map(|(k, v)| (k.clone(), convert(v))).collect())
        }
    }
}

/// What a node's stdout comes to, parsed the way the runtime parses it.
fn stdout(text: &str) -> Result<Json, vouch::error::VouchError> {
    let body = stdout_body(text);
    read_stdout(&body, "ok", "")
}

#[test]
fn a_short_stderr_is_kept_whole_less_its_trailing_space() {
    assert_eq!(tail("boom\n\n"), "boom");
    assert_eq!(tail(""), "");
}

#[test]
fn a_long_stderr_keeps_its_end() {
    let long = "x".repeat(STDERR_TAIL + 10);
    let t = tail(&long);
    assert_eq!(t, format!("...{}", "x".repeat(STDERR_TAIL)));
}

#[test]
fn the_tail_does_not_split_a_character() {
    let long = format!("{}é{}", "a".repeat(10), "b".repeat(STDERR_TAIL - 1));
    let t = tail(&long);
    assert_eq!(t, format!("...{}", "b".repeat(STDERR_TAIL - 1)));
}

#[test]
fn an_object_on_stdout_is_the_result() {
    assert!(matches!(stdout("  {\"n\": 42}\n"), Ok(Json::Object(_))));
}

#[test]
fn log_lines_on_stdout_are_a_protocol_violation() {
    let e = stdout("starting up\n{\"n\": 42}").unwrap_err();
    assert_eq!(e.code, PROTOCOL);
    assert_eq!(e.outcome, Outcome::Defect);
    assert!(e.reason.starts_with("stdout is not a single valid JSON object: "), "{}", e.reason);
}

#[test]
fn a_bare_value_on_stdout_names_its_kind() {
    let e = stdout("[1, 2]").unwrap_err();
    assert_eq!(e.reason, "node wrote a JSON array to stdout; expected a JSON object");
    let e = stdout("   ").unwrap_err();
    assert_eq!(e.reason, "node wrote nothing to stdout; expected one JSON object");
    assert_eq!(json_kind(&j("null")), "null");
    assert_eq!(json_kind(&j("\"s\"")), "string");
    assert_eq!(json_kind(&j("1.5")), "number");
}

#[test]
fn a_failed_run_is_a_defect_and_a_slow_one_a_refusal() {
    let e = exited(Some(4), "ok", "trace");
    assert_eq!((e.code, e.outcome, e.reason.as_str()), (NODE_CRASHED, Outcome::Defect, "node exited with exit 4"));
    assert_eq!(e.node.as_deref(), Some("ok"));
    assert_eq!(exited(None, "ok", "").reason, "node exited with killed by signal");
    let e = timed_out(250, "ok");
    assert_eq!((e.code, e.outcome, e.reason.as_str()), (TIMEOUT, Outcome::Refusal, "node exceeded its 250ms timeout and was killed"));
    let e = failed_to_start("cannot start `./run.sh`", "No such file", "ok");
    assert_eq!(e.code, NODE_CRASHED);
    assert!(e.reason.contains("No such file"), "{}", e.reason);
}
