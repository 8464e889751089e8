use vouch::cases::Outcome;
use vouch::commands::{
    collection_name, cost_lines, cut_short, declared_name, eval_header, list_text, missing_suite, nothing_to_test,
    select_nodes, test_code, test_json, test_text, test_totals, unrunnable,
};
use vouch::json::Json;
use vouch::registry::Preamble;

fn outcome(name: &str, failures: &[&str]) -> Outcome {
    Outcome { name: name.to_string(), failures: failures.iter().map(|s| s.to_string()).collect() }
}

fn reports() -> Vec<(String, Vec<Outcome>)> {
    vec![
        ("stat-optimizer".to_string(), vec![outcome("lothric", &[]), outcome("broken", &["result.ar: expected 190.9, got 191.2"])]),
        ("weapon-lookup".to_string(), vec![outcome("found", &[])]),
    ]
}

#[test]
fn the_fixture_report_names_every_case_and_tallies_them() {
    let r = reports();
    let (total, passed) = test_totals(&r);
    assert_eq!((total, passed), (3, 2));
    let unloadable = vec![("triage".to_string(), "cannot parse node.toml".to_string())];
    let without = vec!["wait-estimate".to_string(), "escalation".to_string()];
    assert_eq!(
        test_text(&r, &without, &unloadable, total, passed),
        "stat-optimizer\n  ok    lothric\n  FAIL  broken\n          result.ar: expected 190.9, got 191.2\nweapon-lookup\n  ok    found\ntriage\n  FAIL  will not load\n          cannot parse node.toml\n\nno cases.toml: wait-estimate, escalation\n\n3 cases, 2 passed, 1 failed; 1 node will not load\n"
    );
    assert_eq!(test_text(&Vec::new(), &Vec::new(), &Vec::new(), 1, 1), "\n1 case, 1 passed, 0 failed\n");
    assert_eq!(test_code(total, passed, 0), 1);
    assert_eq!(test_code(3, 3, 1), 1);
    assert_eq!(test_code(3, 3, 0), 0);
}

#[test]
fn the_json_report_carries_every_case() {
    let r = reports();
    let j = test_json(&r, &vec!["wait-estimate".to_string()], &Vec::new(), 3, 2);
    let fields = match j {
        Json::Object(f) => f,
        other => panic!("expected an object, got {other:?}"),
    };
    let keys: Vec<&str> = fields.iter().map(|(k, _)| k.as_str()).collect();
    assert_eq!(keys, ["cases", "failed", "nodes", "passed", "unloadable", "without_cases"]);
    match &fields[2].1 {
        Json::Array(nodes) => assert_eq!(nodes.len(), 2),
        other => panic!("expected the nodes, got {other:?}"),
    }
}

#[test]
fn a_node_name_that_does_not_exist_selects_nothing() {
    let known = vec!["a".to_string(), "b".to_string()];
    assert_eq!(select_nodes(&known, None), Some(known.clone()));
    assert_eq!(select_nodes(&known, Some("b")), Some(vec!["b".to_string()]));
    assert_eq!(select_nodes(&known, Some("c")), None);
}

#[test]
fn a_run_with_nothing_to_test_is_an_error_not_a_pass() {
    let e = nothing_to_test(None, "/c/nodes");
    assert_eq!(e.code, 2);
    assert_eq!(e.reason, "no node in /c/nodes has a cases.toml; there is nothing to test");
    assert_eq!(nothing_to_test(Some("ok"), "/c/nodes").reason, "ok has no cases.toml; there is nothing to test");
}

#[test]
fn a_suite_that_cannot_run_says_why() {
    assert_eq!(missing_suite("evals.toml").reason, "no eval suite at evals.toml; write one, or name it with --file");
    assert_eq!(missing_suite("evals.toml").code, 2);
    assert_eq!(unrunnable("e.toml", 0, 3).unwrap().reason, "e.toml declares no [[eval]] cases; there is nothing to run");
    assert_eq!(unrunnable("e.toml", 2, 0).unwrap().reason, "-n must be at least 1");
    assert!(unrunnable("e.toml", 2, 1).is_none());
}

#[test]
fn the_suite_lines_say_what_ran_and_what_it_cost() {
    assert_eq!(eval_header(".vouch/evals.toml", 1, 3), "suite: .vouch/evals.toml (1 case, 3 runs each)\n\n");
    assert_eq!(
        cut_short(1, 3, 1),
        "run cut short in case 2 of 3, after 1 of 3 complete case. No rate is reported: the cases below are what ran, not the suite.\n"
    );
    assert_eq!(cost_lines(7, 0), "\n7 agent call(s) made.\n");
    assert_eq!(cost_lines(7, 2), "\n7 agent call(s) made.\n2 run(s) were skipped as already finished and are not scored.\n");
}

#[test]
fn list_reports_every_loadable_node_and_does_not_hide_broken_ones() {
    let rows = vec![
        ("ok".to_string(), Ok("Doubles a number.".to_string())),
        ("broken-node".to_string(), Err("cannot parse node.toml".to_string())),
    ];
    assert_eq!(list_text(&rows), "ok           Doubles a number.\nbroken-node  <unloadable: cannot parse node.toml>\n");
}

#[test]
fn the_collection_is_called_what_its_preamble_says() {
    assert_eq!(collection_name(Some("support-triage")), "support-triage");
    assert_eq!(collection_name(None), "collection");
    let named = Preamble { name: Some("triage".to_string()), description: None, notes: Vec::new(), requires: Vec::new(), ensures: Vec::new() };
    assert_eq!(declared_name(Some(&named), Some("dir")), "triage");
    assert_eq!(declared_name(Some(&Preamble::empty()), Some("dir")), "dir");
    assert_eq!(declared_name(None, None), "collection");
}

#[test]
fn a_resumed_suite_skips_only_the_runs_that_finished() {
    let done = vec![(0, 0), (0, 1), (2, 0)];
    assert!(vouch::commands::already_finished(&done, 0, 1));
    assert!(vouch::commands::already_finished(&done, 2, 0));
    assert!(!vouch::commands::already_finished(&done, 1, 0));
    assert!(!vouch::commands::already_finished(&Vec::new(), 0, 0));
}
