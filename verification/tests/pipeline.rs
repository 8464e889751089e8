use vouch::attest::{attest, ledger_scalars};
use vouch::commands::{
    attest_code, attestation_json, attestation_text, call_result, case_report, eval_json, eval_totals,
};
use vouch::contracts::Contract;
use vouch::decimal::Decimal;
use vouch::eval::{Action, Case, Ending, Session, MAX_DECISIONS};
use vouch::json::Json;
use vouch::ledger::{entry, read_failure, read_record};
use vouch::manifest::{Manifest, Node};
use vouch::registry::Registry;
use vouch::verify::{conclude, precheck, Attempt};

fn j(text: &str) -> Json {
    convert(&serde_json::from_str(text).expect("valid JSON"))
}

fn convert(v: &serde_json::Value) -> Json {
    match v {
        serde_json::Value::Null => Json::Null,
        serde_json::Value::Bool(b) => Json::Bool(*b),
        serde_json::Value::Number(n) => Json::Number(Decimal::parse(&n.to_string()).expect("a number")),
        serde_json::Value::String(s) => Json::Str(s.clone()),
        serde_json::Value::Array(items) => Json::Array(items.iter().map(convert).collect()),
        serde_json::Value::Object(fields) => {
            Json::Object(fields.iter().map(|(k, v)| (k.clone(), convert(v))).collect())
        }
    }
}

fn back(v: &Json) -> serde_json::Value {
    match v {
        Json::Null => serde_json::Value::Null,
        Json::Bool(b) => serde_json::Value::Bool(*b),
        Json::Number(d) => serde_json::from_str(&d.to_text()).expect("a number"),
        Json::Str(s) => serde_json::Value::String(s.clone()),
        Json::Array(items) => serde_json::Value::Array(items.iter().map(back).collect()),
        Json::Object(fields) => {
            serde_json::Value::Object(fields.iter().map(|(k, v)| (k.clone(), back(v))).collect())
        }
    }
}

/// The doubling node of the fixture collection: `n` in, `2n` out.
fn ok_node() -> Node {
    Node {
        manifest: Manifest {
            name: "ok".to_string(),
            version: "0.1.0".to_string(),
            purpose: "Doubles a number.".to_string(),
            use_when: vec!["a number needs doubling".to_string()],
            not_for: Vec::new(),
            run: vec!["./double.sh".to_string()],
            timeout_ms: 5000,
            reads: Vec::new(),
            input: Json::Null,
            output: Json::Null,
            params: Vec::new(),
            requires: Vec::new(),
            ensures: Vec::new(),
            examples: Vec::new(),
        },
        dir: "nodes/ok".to_string(),
        input_schema: j(r#"{"type": "object", "properties": {"n": {"type": "integer"}}, "required": ["n"], "additionalProperties": false}"#),
        output_schema: j(r#"{"type": "object", "properties": {"n": {"type": "integer"}}, "required": ["n"]}"#),
        requires: vec![Contract::compile("input.n >= 0", Some("n must not be negative".to_string())).unwrap()],
        ensures: vec![Contract::compile("result.n == input.n * 2", None).unwrap()],
    }
}

/// A call of the doubling node that ran and wrote `result`.
fn ran(input: &Json, result: &str) -> Attempt {
    let node = ok_node();
    assert!(precheck(&node, input).is_ok());
    conclude(&node, input, Ok(j(result)))
}

#[test]
fn success_returns_the_value_on_stdout() {
    let input = j(r#"{"n": 21}"#);
    let (value, warning) = call_result(ran(&input, r#"{"n": 42}"#), Some(Ok(())));
    assert!(warning.is_none());
    assert_eq!(back(&value.expect("a value"))["n"], 42);
}

#[test]
fn discovery_still_walks_upward_from_the_target() {
    for start in ["tests/fixtures/nodes", "tests/fixtures/nodes/ok"] {
        let mut ancestors: Vec<(String, bool)> = Vec::new();
        let mut dir = start.to_string();
        loop {
            ancestors.push((dir.clone(), dir == "tests/fixtures"));
            match dir.rfind('/') {
                Some(i) => dir.truncate(i),
                None => break,
            }
        }
        let registry = Registry::discover(start, &ancestors).expect("a collection");
        assert_eq!(registry.root, "tests/fixtures");
    }
    let e = Registry::discover("/tmp/nowhere", &vec![("/tmp/nowhere".to_string(), false)]).unwrap_err();
    assert!(e.reason.contains("no vouch project found in /tmp/nowhere"));
}

#[test]
fn attest_emits_a_machine_readable_report() {
    let input = j(r#"{"n": 21}"#);
    let attempt = ran(&input, r#"{"n": 42}"#);
    let line = entry(&ok_node(), input, attempt.outcome(), attempt.code(), attempt.produced, "2026-08-31T13:02:54Z", Vec::new());
    let entries = vec![line];
    let scalars = ledger_scalars(&entries, false);
    let report = attest("42 and 99", &scalars, None);
    let json = back(&attestation_json(&report, "session-test.jsonl", entries.len(), scalars.len()));
    assert_eq!(json["clean"], false);
    assert_eq!(json["matched"], 1);
    assert_eq!(json["unmatched"][0]["numeral"], "99");
    assert!(json["unmatched"][0]["line"].is_number());
    assert_eq!(json["accounted"][0]["paths"][0], "0:result.n");
    assert_eq!(attest_code(&report), 1);
}

fn doubling_case() -> Case {
    Case {
        ask: "what is 21 doubled?".to_string(),
        expect_node: Some("ok".to_string()),
        expect_params: Some(j(r#"{"n": 21}"#)),
        attest: true,
        expect_stop: false,
    }
}

/// One run in which the agent calls the doubling node and then writes `prose`.
fn run_with_prose(prose: &str) -> vouch::eval::Run {
    let case = doubling_case();
    let nodes = vec![ok_node()];
    let mut s = Session::new();
    assert!(s.next("the pack", &case.ask).is_some());
    let input = match s.decide(Ok(j(r#"{"call": {"node": "ok", "input": {"n": 21}}}"#)), &nodes, &case.ask) {
        Action::Call(0, input) => input,
        other => panic!("expected a call, got {other:?}"),
    };
    let attempt = ran(&input, r#"{"n": 42}"#);
    s.record(&nodes[0], input, attempt, "2026-08-31T13:02:54Z", Vec::new());
    let prompt = s.next("the pack", &case.ask).expect("a second decision");
    assert!(prompt.contains("ok({\"n\":21})\n  → {\"n\":42}"), "{prompt}");
    match s.decide(Ok(j(r#"{"done": true}"#)), &nodes, &case.ask) {
        Action::Narrate(p) => assert!(p.contains("The user asked: what is 21 doubled?")),
        other => panic!("expected narration, got {other:?}"),
    }
    s.answered(prose.to_string());
    assert!(s.next("the pack", &case.ask).is_none());
    s.finish(&case)
}

#[test]
fn the_json_report_carries_the_rate_and_the_route() {
    let run = run_with_prose("21 doubled is 43.");
    let results = vec![(0usize, vec![run])];
    let (total, passed) = eval_totals(&results);
    let asks = vec![doubling_case().ask];
    let report = back(&eval_json(".vouch/evals.toml", &asks, &results, 1, total, passed, j("0.0"), j("1.0")));
    assert_eq!(report["total"], 1);
    assert_eq!(report["passed"], 0);
    assert_eq!(report["rate"], 0.0);
    assert_eq!(report["cases"][0]["ask"], "what is 21 doubled?");
    assert_eq!(report["cases"][0]["runs_detail"][0]["ending"], "answered");
    assert_eq!(report["cases"][0]["runs_detail"][0]["calls"][0]["node"], "ok");
    assert_eq!(report["cases"][0]["runs_detail"][0]["calls"][0]["input"]["n"], 21);
}

// ------------------------------------------------------------------ further cases

#[test]
fn a_run_that_routes_and_attests_passes() {
    let run = run_with_prose("21 doubled is 42.");
    assert!(matches!(run.ending, Ending::Answered));
    assert!(run.passed(), "{:?}", run.failures);
    assert_eq!(run.calls.len(), 1);
}

#[test]
fn a_fabricated_figure_fails_the_run() {
    let run = run_with_prose("21 doubled is 43.");
    assert_eq!(run.failures, vec!["1 of 2 numerals did not come from a node: 43".to_string()]);
}

#[test]
fn a_call_to_a_node_that_does_not_exist_is_corrected() {
    let nodes = vec![ok_node()];
    let mut s = Session::new();
    s.next("pack", "ask");
    let action = s.decide(Ok(j(r#"{"call": {"node": "triple", "input": {"n": 2}}}"#)), &nodes, "ask");
    assert!(matches!(action, Action::Continue));
    assert_eq!(
        s.correction.as_deref(),
        Some("there is no node called 'triple' in this collection; the nodes are: ok")
    );
    let prompt = s.next("pack", "ask").expect("another decision");
    assert!(prompt.contains("Your last call was rejected by the runtime, which said:\n  there is no node called 'triple'"));
    assert!(s.correction.is_none());
}

#[test]
fn a_refusal_is_handed_back_as_a_correction() {
    let nodes = vec![ok_node()];
    let mut s = Session::new();
    s.next("pack", "ask");
    let input = j(r#"{"n": -1}"#);
    let refused = match precheck(&nodes[0], &input) {
        Err(e) => Attempt::rejected(e),
        Ok(()) => panic!("a negative n is refused"),
    };
    s.record(&nodes[0], input, refused, "ts", Vec::new());
    assert_eq!(s.correction.as_deref(), Some("n must not be negative"));
    assert!(s.entries.is_empty(), "a refusal before the node ran records nothing");
    assert!(s.calls.is_empty());
}

#[test]
fn a_reply_the_loop_cannot_act_on_ends_the_run() {
    let nodes = vec![ok_node()];
    let mut s = Session::new();
    s.next("pack", "ask");
    assert!(matches!(s.decide(Ok(j(r#"{"hmm": 1}"#)), &nodes, "ask"), Action::Finished));
    match &s.ending {
        Some(Ending::Confused(why)) => assert_eq!(why, "reply had no call, done or stop: {\"hmm\":1}"),
        other => panic!("expected a confused ending, got {other:?}"),
    }
    let mut s = Session::new();
    s.next("pack", "ask");
    s.decide(Ok(j(r#"{"call": {"input": {}}}"#)), &nodes, "ask");
    match &s.ending {
        Some(Ending::Confused(why)) => assert_eq!(why, "call named no node: {\"input\":{}}"),
        other => panic!("expected a confused ending, got {other:?}"),
    }
}

#[test]
fn a_stop_is_the_answer_and_done_with_nothing_is_a_stop() {
    let nodes = vec![ok_node()];
    let mut s = Session::new();
    s.next("pack", "ask");
    s.decide(Ok(j(r#"{"stop": "nothing here answers that"}"#)), &nodes, "ask");
    assert!(matches!(s.ending, Some(Ending::Stopped)));
    assert_eq!(s.answer.as_deref(), Some("nothing here answers that"));
    let mut s = Session::new();
    s.next("pack", "ask");
    assert!(matches!(s.decide(Ok(j(r#"{"done": true}"#)), &nodes, "ask"), Action::Finished));
    assert!(matches!(s.ending, Some(Ending::Stopped)));
}

#[test]
fn a_run_with_no_answer_runs_out_of_decisions() {
    let nodes = vec![ok_node()];
    let mut s = Session::new();
    let mut asked = 0;
    while s.next("pack", "ask").is_some() {
        asked += 1;
        s.decide(Ok(j(r#"{"call": {"node": "nope"}}"#)), &nodes, "ask");
    }
    assert_eq!(asked, MAX_DECISIONS);
    let case = Case { ask: "ask".to_string(), expect_node: None, expect_params: None, attest: false, expect_stop: false };
    let run = s.finish(&case);
    assert!(matches!(run.ending, Ending::Exhausted));
    assert_eq!(run.failures, vec![format!("no answer after {MAX_DECISIONS} decisions")]);
}

#[test]
fn a_defect_stops_the_run_as_broken() {
    let nodes = vec![ok_node()];
    let mut s = Session::new();
    s.next("pack", "ask");
    let input = j(r#"{"n": 2}"#);
    let attempt = ran(&input, r#"{"n": 5}"#);
    s.record(&nodes[0], input, attempt, "ts", Vec::new());
    assert!(matches!(s.ending, Some(Ending::Broken)));
    assert_eq!(s.entries.len(), 1, "a call that ran is recorded whatever its outcome");
    let case = Case { ask: "ask".to_string(), expect_node: None, expect_params: None, attest: false, expect_stop: true };
    let run = s.finish(&case);
    assert_eq!(
        run.failures,
        vec!["a node reported itself broken".to_string(), "expected the agent to decline; it hit a broken node".to_string()]
    );
}

#[test]
fn routing_to_the_wrong_node_names_what_was_called_instead() {
    let mut other = ok_node();
    other.manifest.name = "other".to_string();
    let nodes = vec![other];
    let mut s = Session::new();
    s.next("pack", "ask");
    let input = match s.decide(Ok(j(r#"{"call": {"node": "other", "input": {"n": 1}}}"#)), &nodes, "ask") {
        Action::Call(0, input) => input,
        other => panic!("expected a call, got {other:?}"),
    };
    let attempt = conclude(&nodes[0], &input, Ok(j(r#"{"n": 2}"#)));
    s.record(&nodes[0], input, attempt, "ts", Vec::new());
    s.decide(Ok(j(r#"{"stop": "done"}"#)), &nodes, "ask");
    let case = Case { ask: "ask".to_string(), expect_node: Some("ok".to_string()), expect_params: None, attest: false, expect_stop: false };
    let run = s.finish(&case);
    assert_eq!(run.failures, vec!["expected a call to ok; called other".to_string()]);
}

#[test]
fn a_case_report_counts_runs_and_lists_each_route_once() {
    let runs = vec![run_with_prose("21 doubled is 42."), run_with_prose("21 doubled is 43."), run_with_prose("21 doubled is 43.")];
    assert_eq!(
        case_report("what is 21 doubled?", &runs),
        "what is 21 doubled?\n  1/3 runs passed\n    [answered: ok]\n    1 of 2 numerals did not come from a node: 43\n\n"
    );
}

#[test]
fn a_ledger_line_records_the_call_and_its_figures() {
    let input = j(r#"{"n": 21}"#);
    let attempt = ran(&input, r#"{"n": 42}"#);
    let reads = vec![read_record("data.csv", b"abc"), read_failure("gone.csv", "No such file")];
    let line = back(&entry(&ok_node(), input, attempt.outcome(), attempt.code(), attempt.produced, "2026-08-31T13:02:54Z", reads));
    assert_eq!(line["node"], "ok");
    assert_eq!(line["version"], "0.1.0");
    assert_eq!(line["outcome"], "ok");
    assert_eq!(line["code"], 0);
    assert_eq!(line["input"]["n"], 21);
    assert_eq!(line["result"]["n"], 42);
    assert_eq!(line["scalars"]["result.n"], 42);
    assert_eq!(line["ts"], "2026-08-31T13:02:54Z");
    assert_eq!(line["reads"][0]["bytes"], 3);
    assert_eq!(line["reads"][0]["sha256"], "ba7816bf8f01cfea414140de5dae2223b00361a396177a9cb410ff61f20015ad");
    assert_eq!(line["reads"][1]["error"], "No such file");
    let keys: Vec<&String> = line.as_object().unwrap().keys().collect();
    assert_eq!(keys, ["code", "input", "node", "outcome", "reads", "result", "scalars", "ts", "version"]);
}

#[test]
fn an_unrecorded_success_is_no_value_and_an_unrecorded_failure_warns() {
    let input = j(r#"{"n": 21}"#);
    let lost = vouch::error::VouchError::error("disk full".to_string());
    let (value, warning) = call_result(ran(&input, r#"{"n": 42}"#), Some(Err(lost)));
    assert_eq!(value.unwrap_err().reason, "disk full");
    assert!(warning.is_none());
    let lost = vouch::error::VouchError::error("disk full".to_string());
    let (value, warning) = call_result(ran(&input, r#"{"n": 40}"#), Some(Err(lost)));
    assert_eq!(value.unwrap_err().code, 13);
    assert_eq!(warning.as_deref(), Some("warning: this call was not recorded: disk full"));
}

#[test]
fn the_attestation_report_reads_for_a_person() {
    let input = j(r#"{"n": 21}"#);
    let attempt = ran(&input, r#"{"n": 42}"#);
    let entries = vec![entry(&ok_node(), input, attempt.outcome(), attempt.code(), attempt.produced, "ts", Vec::new())];
    let scalars = ledger_scalars(&entries, false);
    let report = attest("it is 42", &scalars, None);
    assert_eq!(
        attestation_text(&report, "l.jsonl", 1, scalars.len()),
        "ledger: l.jsonl (1 entry, 1 scalar)\nclean: 1 numeral checked, 1 matched, 0 ignored\n"
    );
    let report = attest("it is 4200 km", &scalars, None);
    assert_eq!(
        attestation_text(&report, "l.jsonl", 1, 1),
        "ledger: l.jsonl (1 entry, 1 scalar)\nUNATTESTED: 1 of 1 numeral did not come from the ledger\n\n  line 1, column 7: 4200\n    it is 4200 km\n"
    );
}

// ------------------------------------------------------------ the routing eval's cases

/// A refusal is a routing correction: an agent that reads one and fixes its argument has
/// routed correctly, and the run passes.
#[test]
fn a_run_that_recovers_from_a_refusal_still_passes() {
    let case = doubling_case();
    let nodes = vec![ok_node()];
    let mut s = Session::new();
    s.next("the pack", &case.ask).expect("a first decision");
    let wrong = match s.decide(Ok(j(r#"{"call": {"node": "ok", "input": {"n": -21}}}"#)), &nodes, &case.ask) {
        Action::Call(0, input) => input,
        other => panic!("expected a call, got {other:?}"),
    };
    let refused = match precheck(&nodes[0], &wrong) {
        Err(e) => Attempt::rejected(e),
        Ok(()) => panic!("a negative n is refused"),
    };
    s.record(&nodes[0], wrong, refused, "ts", Vec::new());
    let prompt = s.next("the pack", &case.ask).expect("a second decision");
    assert!(prompt.contains("n must not be negative"), "{prompt}");
    let input = match s.decide(Ok(j(r#"{"call": {"node": "ok", "input": {"n": 21}}}"#)), &nodes, &case.ask) {
        Action::Call(0, input) => input,
        other => panic!("expected a call, got {other:?}"),
    };
    let attempt = ran(&input, r#"{"n": 42}"#);
    s.record(&nodes[0], input, attempt, "ts", Vec::new());
    s.next("the pack", &case.ask).expect("a third decision");
    assert!(matches!(s.decide(Ok(j(r#"{"done": true}"#)), &nodes, &case.ask), Action::Narrate(_)));
    s.answered("21 doubled is 42.".to_string());
    let run = s.finish(&case);
    assert!(run.passed(), "{:?}", run.failures);
}

/// Every call succeeded and every contract held; the prose then quoted a number no node
/// produced. The route is still reported as right: only the prose was wrong.
#[test]
fn a_fabricated_figure_fails_the_run_even_though_every_call_succeeded() {
    let run = run_with_prose("21 doubled is 43.");
    assert!(!run.passed());
    assert!(run.failures.iter().any(|f| f.contains("did not come from a node: 43")), "{:?}", run.failures);
    let report = case_report("what is 21 doubled?", &vec![run]);
    assert!(report.contains("[answered: ok]"), "{report}");
}

/// A model that will not answer is a rate, not an error: the run fails and says why.
#[test]
fn a_reply_the_loop_cannot_act_on_is_a_failed_run_not_a_failed_command() {
    let case = doubling_case();
    let nodes = vec![ok_node()];
    let mut s = Session::new();
    s.next("the pack", &case.ask).expect("a first decision");
    let unreadable = vouch::error::VouchError::error("the agent's reply held no JSON object".to_string());
    assert!(matches!(s.decide(Err(unreadable), &nodes, &case.ask), Action::Finished));
    let run = s.finish(&case);
    assert!(!run.passed());
    assert!(run.failures.iter().any(|f| f.contains("could not be acted on")), "{:?}", run.failures);
}

/// The honest "there is no answer": a case can require it, and an agent that answers anyway
/// fails the case.
#[test]
fn a_case_can_require_the_agent_to_decline() {
    let case = Case {
        ask: "what is the airspeed velocity of an unladen swallow?".to_string(),
        expect_node: None,
        expect_params: None,
        attest: false,
        expect_stop: true,
    };
    let nodes = vec![ok_node()];
    let mut s = Session::new();
    s.next("the pack", &case.ask).expect("a first decision");
    s.decide(Ok(j(r#"{"stop": "no node measures airspeed"}"#)), &nodes, &case.ask);
    let declined = s.finish(&case);
    assert!(declined.passed(), "{:?}", declined.failures);

    let mut s = Session::new();
    s.next("the pack", &case.ask).expect("a first decision");
    let input = match s.decide(Ok(j(r#"{"call": {"node": "ok", "input": {"n": 21}}}"#)), &nodes, &case.ask) {
        Action::Call(0, input) => input,
        other => panic!("expected a call, got {other:?}"),
    };
    let attempt = ran(&input, r#"{"n": 42}"#);
    s.record(&nodes[0], input, attempt, "ts", Vec::new());
    s.next("the pack", &case.ask).expect("a second decision");
    s.decide(Ok(j(r#"{"done": true}"#)), &nodes, &case.ask);
    s.answered("It is 42.".to_string());
    let answered = s.finish(&case);
    assert!(!answered.passed());
    assert!(answered.failures.iter().any(|f| f.contains("expected the agent to decline")), "{:?}", answered.failures);
}

#[test]
fn a_missing_suite_is_an_error_rather_than_an_empty_pass() {
    let e = vouch::commands::missing_suite("/tmp/vouch-evals-not-here.toml");
    assert_eq!(e.code, 2);
    assert!(e.reason.contains("no eval suite at"), "{}", e.reason);
}

#[test]
fn a_suite_with_no_cases_is_an_error() {
    let e = vouch::commands::unrunnable("/tmp/empty.toml", 0, 1).expect("an empty suite cannot run");
    assert_eq!(e.code, 2);
    assert!(e.reason.contains("nothing to run"), "{}", e.reason);
}

#[test]
fn expecting_params_without_a_node_is_rejected_when_the_suite_loads() {
    let cases = vec![Case {
        ask: "what is 21 doubled?".to_string(),
        expect_node: None,
        expect_params: Some(j(r#"{"n": 21}"#)),
        attest: false,
        expect_stop: false,
    }];
    let e = vouch::eval::check_suite(&cases, "params-no-node.toml").unwrap_err().with_code(vouch::error::TEST_ERROR);
    assert_eq!(e.code, 2);
    assert!(e.reason.contains("nothing to check them against"), "{}", e.reason);
}

/// A run that stops writes no answer, so there is nothing for attestation to check.
#[test]
fn expecting_a_stop_and_an_attestation_is_rejected() {
    let cases = vec![Case {
        ask: "what is 21 doubled?".to_string(),
        expect_node: None,
        expect_params: None,
        attest: true,
        expect_stop: true,
    }];
    let e = vouch::eval::check_suite(&cases, "stop-and-attest.toml").unwrap_err().with_code(vouch::error::TEST_ERROR);
    assert_eq!(e.code, 2);
    assert!(e.reason.contains("writes no answer to check"), "{}", e.reason);
}
