use vouch::commands::{describe, describe_all, Format, Rendering};
use vouch::contracts::Contract;
use vouch::decimal::Decimal;
use vouch::json::Json;
use vouch::manifest::{Example, Manifest, Node, Param, ReadDecl};
use vouch::registry::Preamble;
use vouch::verify::{conclude, precheck};

fn j(text: &str) -> Json {
    convert(&serde_json::from_str(text).expect("valid JSON"))
}

fn convert(v: &serde_json::Value) -> Json {
    match v {
        serde_json::Value::Null => Json::Null,
        serde_json::Value::Bool(b) => Json::Bool(*b),
        serde_json::Value::Number(n) => Json::Number(Decimal::parse(&n.to_string()).expect("a number")),
        serde_json::Value::String(s) => Json::Str(s.clone()),
        serde_json::Value::Array(items) => Json::Array(items.iter().map(convert).collect()),
        serde_json::Value::Object(fields) => {
            Json::Object(fields.iter().map(|(k, v)| (k.clone(), convert(v))).collect())
        }
    }
}

/// The library's JSON as serde's, to read fields by name.
fn back(v: &Json) -> serde_json::Value {
    match v {
        Json::Null => serde_json::Value::Null,
        Json::Bool(b) => serde_json::Value::Bool(*b),
        Json::Number(d) => serde_json::from_str(&d.to_text()).expect("a number"),
        Json::Str(s) => serde_json::Value::String(s.clone()),
        Json::Array(items) => serde_json::Value::Array(items.iter().map(back).collect()),
        Json::Object(fields) => {
            serde_json::Value::Object(fields.iter().map(|(k, v)| (k.clone(), back(v))).collect())
        }
    }
}

fn strings(items: &[&str]) -> Vec<String> {
    items.iter().map(|s| s.to_string()).collect()
}

fn manifest(name: &str, params: Vec<(String, Param)>, examples: Vec<Example>) -> Manifest {
    Manifest {
        name: name.to_string(),
        version: "0.1.0".to_string(),
        purpose: format!("The {name} node."),
        use_when: strings(&["the question is about this"]),
        not_for: strings(&["anything else"]),
        run: strings(&["./run.sh"]),
        timeout_ms: 5000,
        reads: vec![ReadDecl { path: "data.csv".to_string() }],
        input: Json::Null,
        output: Json::Null,
        params,
        requires: Vec::new(),
        ensures: Vec::new(),
        examples,
    }
}

fn node(m: Manifest, input_schema: &str, output_schema: &str, ensures: &[&str]) -> Node {
    Node {
        manifest: m,
        dir: "nodes/x".to_string(),
        input_schema: j(input_schema),
        output_schema: j(output_schema),
        requires: Vec::new(),
        ensures: ensures.iter().map(|e| Contract::compile(e, None).expect("compiles")).collect(),
    }
}

fn verbose() -> Node {
    let params = vec![
        ("n".to_string(), Param {
            guidance: "Use the count the user asked for, never one you worked out.".to_string(),
            judgement: false,
            options: Vec::new(),
        }),
        ("tag".to_string(), Param { guidance: "A label.".to_string(), judgement: false, options: Vec::new() }),
    ];
    let examples = vec![
        Example { ask: "the first example, which is a shape to copy".to_string(), call: j(r#"{"n": 1}"#) },
        Example { ask: "a second example".to_string(), call: j(r#"{"n": 2}"#) },
    ];
    node(
        manifest("verbose", params, examples),
        r#"{
            "$schema": "https://json-schema.org/draft/2020-12/schema",
            "title": "Verbose input",
            "type": "object",
            "properties": {
                "n": {"type": "integer", "description": "How many."},
                "tag": {"type": "string", "description": "A label."}
            },
            "required": ["n"],
            "additionalProperties": false
        }"#,
        r#"{"type": "object", "properties": {"n": {"type": "integer"}}, "required": ["n"]}"#,
        &["result.n >= 0"],
    )
}

fn judged() -> Node {
    let params = vec![
        ("floor".to_string(), Param {
            guidance: "How much to hold back; there is no right answer in the data.".to_string(),
            judgement: true,
            options: vec![j(r#"{"floor": 40, "label": "balanced"}"#), j(r#"{"floor": 60, "label": "survivability first"}"#)],
        }),
        ("tag".to_string(), Param { guidance: "Any label.".to_string(), judgement: false, options: Vec::new() }),
    ];
    node(
        manifest("judged", params, Vec::new()),
        r#"{"type": "object", "properties": {"floor": {"type": "integer"}, "tag": {"type": "string"}}}"#,
        r#"{"type": "object", "properties": {"n": {"type": "integer"}}, "required": ["n"]}"#,
        &["result.n == input.floor"],
    )
}

fn preamble() -> Preamble {
    Preamble {
        name: Some("describe-shapes".to_string()),
        description: Some("Two nodes that exercise every shape describe can emit.".to_string()),
        notes: strings(&["A collection-wide note that belongs in the pack."]),
        requires: Vec::new(),
        ensures: Vec::new(),
    }
}

fn json_of(r: Rendering) -> serde_json::Value {
    match r {
        Rendering::Json(j) | Rendering::PrettyJson(j) => back(&j),
        Rendering::Text(t) => panic!("expected JSON, got text: {t}"),
    }
}

fn all(format: Format) -> serde_json::Value {
    json_of(describe_all(Some(&preamble()), &[verbose(), judged()], Some("fixtures-describe"), format))
}

fn only_node(format: Format, name: &str) -> serde_json::Value {
    let key = if format == Format::Json { "name" } else { "node" };
    all(format)["nodes"]
        .as_array()
        .expect("nodes is an array")
        .iter()
        .find(|n| n[key] == name)
        .expect("the node is in the pack")
        .clone()
}

#[test]
fn compact_drops_what_only_a_validator_reads() {
    let schema = &only_node(Format::Compact, "verbose")["input_schema"];
    assert!(schema.get("$schema").is_none(), "$schema is for a validator");
    assert!(schema.get("title").is_none(), "title is for a doc generator");
    assert!(schema["properties"]["n"].is_object());
    assert_eq!(schema["required"][0], "n");
}

#[test]
fn compact_folds_guidance_into_the_description_without_losing_either() {
    let properties = &only_node(Format::Compact, "verbose")["input_schema"]["properties"];
    let n = properties["n"]["description"].as_str().unwrap();
    assert!(n.contains("How many."), "the description survives: {n}");
    assert!(n.contains("never one you worked out"), "the guidance survives: {n}");
    assert_eq!(properties["tag"]["description"], "A label.");
}

#[test]
fn compact_keeps_one_example_and_leaves_the_enforcing_material_out() {
    let node = only_node(Format::Compact, "verbose");
    assert_eq!(node["examples"].as_array().unwrap().len(), 1);
    assert_eq!(node["examples"][0]["ask"], "the first example, which is a shape to copy");
    for absent in ["requires", "ensures", "output_schema", "contract_strength", "reads", "params"] {
        assert!(node.get(absent).is_none(), "{absent} is not routing context");
    }
}

#[test]
fn the_index_is_enough_to_choose_a_node_and_nothing_to_call_one() {
    let node = only_node(Format::Index, "verbose");
    let keys: Vec<&str> = node.as_object().unwrap().keys().map(String::as_str).collect();
    assert_eq!(keys, ["node", "not_for", "purpose", "use_when"]);
    assert!(all(Format::Index).get("notes").is_none());
    assert!(all(Format::Compact)["notes"][0].as_str().unwrap().contains("collection-wide note"));
}

#[test]
fn both_shapes_work_for_a_single_node() {
    assert_eq!(json_of(describe(verbose(), Some("fixtures-describe"), Format::Compact))["node"], "verbose");
    assert_eq!(json_of(describe(verbose(), Some("fixtures-describe"), Format::Index))["node"], "verbose");
}

#[test]
fn every_shape_agrees_on_what_the_collection_is_called() {
    for format in [Format::Json, Format::Compact, Format::Index] {
        assert_eq!(all(format)["collection"], "describe-shapes", "{format:?}");
    }
    match describe_all(Some(&preamble()), &[verbose(), judged()], Some("fixtures-describe"), Format::Markdown) {
        Rendering::Text(pack) => assert!(pack.starts_with("# describe-shapes\n"), "{pack}"),
        other => panic!("expected the pack, got {other:?}"),
    }
}

#[test]
fn a_missing_judgement_is_a_question_not_a_bad_call() {
    let e = precheck(&judged(), &j("{}")).expect_err("a judgement is missing");
    assert_eq!(e.code, 17);
    let report = back(&e.into_json());
    assert_eq!(report["outcome"], "refusal");
    assert_eq!(report["details"]["judgement"], "floor");
    assert_eq!(report["details"]["options"][0]["floor"], 40);
    assert_eq!(report["details"]["options"][1]["label"], "survivability first");
}

#[test]
fn a_judgement_that_was_supplied_is_not_asked_about() {
    let node = judged();
    let input = j(r#"{"floor": 40}"#);
    assert!(precheck(&node, &input).is_ok());
    let attempt = conclude(&node, &input, Ok(j(r#"{"n": 40}"#)));
    let value = back(attempt.value().expect("every check held"));
    assert_eq!(value["n"], 40);
}

#[test]
fn the_compact_pack_says_which_parameters_will_ask() {
    let judged = only_node(Format::Compact, "judged");
    assert_eq!(judged["judgements"]["floor"][0]["label"], "balanced");
    let verbose = only_node(Format::Compact, "verbose");
    assert_eq!(verbose["judgements"].as_object().unwrap().len(), 0);
}

#[test]
fn all_json_carries_the_preamble_and_every_node() {
    let described = all(Format::Json);
    assert_eq!(described["collection"], "describe-shapes");
    assert!(described["description"].as_str().unwrap().contains("every shape"));
    assert_eq!(described["nodes"].as_array().unwrap().len(), 2);
    let notes = described["notes"].as_array().unwrap();
    assert!(notes.iter().any(|n| n.as_str().unwrap().contains("collection-wide note")));
}

// ------------------------------------------------------------------ further cases

#[test]
fn an_ordinary_optional_parameter_is_not_a_judgement() {
    assert!(precheck(&judged(), &j(r#"{"floor": 1}"#)).is_ok());
}

#[test]
fn the_full_description_carries_the_contract_strength() {
    let node = only_node(Format::Json, "judged");
    assert_eq!(node["name"], "judged");
    assert_eq!(node["contract_strength"]["ensures"], 1);
    assert_eq!(node["contract_strength"]["numeric_output_fields"], 1);
    assert_eq!(node["contract_strength"]["numeric_fields_referenced"], 1);
    assert_eq!(node["reads"][0]["path"], "data.csv");
    assert_eq!(node["timeout_ms"], 5000);
    assert_eq!(node["ensures"][0]["expr"], "result.n == input.floor");
}

#[test]
fn a_node_described_for_a_person_reads_top_to_bottom() {
    match describe(judged(), None, Format::Human) {
        Rendering::Text(t) => {
            assert!(t.starts_with("judged 0.1.0\n\nThe judged node.\n\n"), "{t}");
            assert!(t.contains("Parameters:\n  floor [judgement]: How much to hold back"), "{t}");
            assert!(t.contains("    offer: {\"floor\":40,\"label\":\"balanced\"}\n"), "{t}");
            assert!(t.contains("Contract strength: 1 postcondition, covering 1/1 numeric output field\n"), "{t}");
            assert!(t.ends_with("Timeout: 5000ms\n"), "{t}");
        }
        other => panic!("expected text, got {other:?}"),
    }
}

#[test]
fn a_collection_without_a_declared_name_goes_by_its_directory() {
    let out = json_of(describe_all(None, &[verbose()], Some("tools"), Format::Index));
    assert_eq!(out["collection"], "tools");
    assert!(out["description"].is_null());
    let out = json_of(describe_all(None, &[verbose()], None, Format::Compact));
    assert_eq!(out["collection"], "collection");
    assert_eq!(out["notes"].as_array().unwrap().len(), 0);
}

#[test]
fn a_rejected_result_never_becomes_a_value() {
    let node = judged();
    let input = j(r#"{"floor": 40}"#);
    let attempt = conclude(&node, &input, Ok(j(r#"{"n": 41}"#)));
    assert!(attempt.value().is_none());
    assert_eq!(attempt.code(), 13);
    assert_eq!(attempt.outcome(), "defect");
    let attempt = conclude(&node, &input, Ok(j(r#"{"n": "x"}"#)));
    assert_eq!(attempt.code(), 12);
}

/// The point of the compact shape: no whitespace nothing reads. `--json` stays laid out for a
/// person.
#[test]
fn compact_is_not_pretty_printed_and_json_still_is() {
    let nodes = [verbose(), judged()];
    let compact = match describe_all(Some(&preamble()), &nodes, Some("fixtures-describe"), Format::Compact) {
        Rendering::Json(j) => j.to_text(),
        other => panic!("compact is printed on one line, got {other:?}"),
    };
    assert!(!compact.contains("\n  "), "compact must not be indented");
    let full = match describe_all(Some(&preamble()), &nodes, Some("fixtures-describe"), Format::Json) {
        Rendering::PrettyJson(j) => serde_json::to_string_pretty(&back(&j)).unwrap(),
        other => panic!("--json is laid out for reading, got {other:?}"),
    };
    assert!(full.contains("\n  "), "--json stays readable");
    assert!(compact.len() < full.len() / 2, "{} vs {}", compact.len(), full.len());
}
