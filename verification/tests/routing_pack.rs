//! The routing pack: what a collection says about itself to whoever will call it. What it
//! omits matters as much as what it carries: contracts are enforcing, not advisory.

use vouch::commands::{describe, describe_all, Format, Rendering};
use vouch::contracts::Contract;
use vouch::decimal::Decimal;
use vouch::json::Json;
use vouch::manifest::{Example, Manifest, Node, Param};
use vouch::registry::Preamble;

fn j(text: &str) -> Json {
    convert(&serde_json::from_str(text).expect("valid JSON"))
}

fn convert(v: &serde_json::Value) -> Json {
    match v {
        serde_json::Value::Null => Json::Null,
        serde_json::Value::Bool(b) => Json::Bool(*b),
        serde_json::Value::Number(n) => Json::Number(Decimal::parse(&n.to_string()).expect("a number")),
        serde_json::Value::String(s) => Json::Str(s.clone()),
        serde_json::Value::Array(items) => Json::Array(items.iter().map(convert).collect()),
        serde_json::Value::Object(fields) => {
            Json::Object(fields.iter().map(|(k, v)| (k.clone(), convert(v))).collect())
        }
    }
}

fn strings(items: &[&str]) -> Vec<String> {
    items.iter().map(|s| s.to_string()).collect()
}

struct Spec<'a> {
    name: &'a str,
    purpose: &'a str,
    use_when: &'a [&'a str],
    not_for: &'a [&'a str],
    params: &'a [(&'a str, &'a str)],
    example: (&'a str, &'a str),
    input_schema: &'a str,
    requires: &'a [&'a str],
    ensures: &'a [&'a str],
}

fn node(s: Spec) -> Node {
    Node {
        manifest: Manifest {
            name: s.name.to_string(),
            version: "0.1.0".to_string(),
            purpose: s.purpose.to_string(),
            use_when: strings(s.use_when),
            not_for: strings(s.not_for),
            run: strings(&["node", "run.js"]),
            timeout_ms: 5000,
            reads: Vec::new(),
            input: Json::Null,
            output: Json::Null,
            params: s
                .params
                .iter()
                .map(|(n, g)| (n.to_string(), Param { guidance: g.to_string(), judgement: false, options: Vec::new() }))
                .collect(),
            requires: Vec::new(),
            ensures: Vec::new(),
            examples: vec![Example { ask: s.example.0.to_string(), call: j(s.example.1) }],
        },
        dir: format!("nodes/{}", s.name),
        input_schema: j(s.input_schema),
        output_schema: j(r#"{"type": "object"}"#),
        requires: s.requires.iter().map(|e| Contract::compile(e, None).unwrap()).collect(),
        ensures: s.ensures.iter().map(|e| Contract::compile(e, None).unwrap()).collect(),
    }
}

/// The support-triage collection: three nodes over one CSV, and a preamble.
fn triage_collection() -> (Preamble, Vec<Node>) {
    let preamble = Preamble {
        name: Some("support-triage".to_string()),
        description: Some("SLA status, breach credits and queue waits, computed over a local CSV.".to_string()),
        notes: strings(&[
            "Call triage first for any question about a specific ticket. The other nodes take their arguments from what it returns.",
            "Only pro and enterprise plans carry an SLA commitment. A free-tier breach has no credit to compute — say so rather than quoting zero.",
        ]),
        requires: Vec::new(),
        ensures: Vec::new(),
    };
    let triage = node(Spec {
        name: "triage",
        purpose: "Where a support ticket stands against its SLA.",
        use_when: &["the question is about a specific ticket"],
        not_for: &["questions about the queue as a whole"],
        params: &[("ticket_id", "The ticket's id; if the user gives a bare number, prefix it with 'T-'.")],
        example: ("where does T-1001 stand?", r#"{"ticket_id": "T-1001"}"#),
        input_schema: r#"{"type": "object", "properties": {"ticket_id": {"type": "string"}}, "required": ["ticket_id"], "additionalProperties": false}"#,
        requires: &["input.ticket_id.startsWith(\"T-\")"],
        ensures: &["result.minutes_remaining == result.sla_minutes - result.minutes_open"],
    });
    let cost = node(Spec {
        name: "escalation-cost",
        purpose: "What a missed SLA costs in service credit.",
        use_when: &["triage reported breached = true and the tier is pro or enterprise"],
        not_for: &["tickets that are still within their SLA — call wait-estimate instead"],
        params: &[("minutes_over", "How far past the SLA, as a positive number: triage's minutes_remaining with its sign flipped.")],
        example: ("what do we owe on T-1001?", r#"{"tier": "enterprise", "minutes_over": 250}"#),
        input_schema: r#"{"type": "object", "properties": {"tier": {"type": "string"}, "minutes_over": {"type": "integer"}}, "required": ["tier", "minutes_over"]}"#,
        requires: &["input.minutes_over > 0"],
        ensures: &["result.credit_usd <= result.monthly_fee_usd * 0.25"],
    });
    let wait = node(Spec {
        name: "wait-estimate",
        purpose: "How much longer a person in the queue will wait.",
        use_when: &["triage reported breached = false"],
        not_for: &["breached tickets"],
        params: &[("agents_available", "Agents on shift now.")],
        example: ("how long will T-1002 wait?", r#"{"queue_depth": 12, "agents_available": 4, "avg_handle_minutes": 20}"#),
        input_schema: r#"{"type": "object", "properties": {"queue_depth": {"type": "integer"}, "agents_available": {"type": "integer"}, "avg_handle_minutes": {"type": "integer"}}, "required": ["queue_depth", "agents_available", "avg_handle_minutes"]}"#,
        requires: &["input.agents_available > 0"],
        ensures: &["result.estimated_wait_minutes >= 0"],
    });
    (preamble, vec![triage, cost, wait])
}

fn text(r: Rendering) -> String {
    match r {
        Rendering::Text(t) => t,
        Rendering::Json(_) | Rendering::PrettyJson(_) => panic!("expected markdown"),
    }
}

fn triage_pack() -> String {
    let (preamble, nodes) = triage_collection();
    text(describe_all(Some(&preamble), &nodes, Some("support-triage"), Format::Markdown))
}

#[test]
fn the_pack_leads_with_the_collections_own_context() {
    let pack = triage_pack();
    assert!(pack.starts_with("# support-triage\n"), "{pack}");
    assert!(pack.contains("SLA status, breach credits and queue waits"));
    assert!(pack.contains("Call triage first"), "{pack}");
}

#[test]
fn the_pack_carries_every_nodes_routing_context() {
    let pack = triage_pack();
    for node in ["## triage", "## escalation-cost", "## wait-estimate"] {
        assert!(pack.contains(node), "missing {node}");
    }
    assert!(pack.contains("**Use when**"));
    assert!(pack.contains("**Not for**"));
    assert!(pack.contains("call wait-estimate instead"));
    assert!(pack.contains("`ticket_id` (string, required)"), "{pack}");
    assert!(pack.contains("prefix it with 'T-'"));
    assert!(pack.contains(r#"vouch call triage --input '{"ticket_id":"T-1001"}'"#), "{pack}");
}

#[test]
fn the_pack_omits_the_contracts() {
    let pack = triage_pack();
    assert!(!pack.contains("startsWith"), "no CEL expressions belong in the pack");
    assert!(!pack.contains("result.minutes_remaining =="), "no postconditions either");
    assert!(!pack.contains("ensures"));
}

#[test]
fn the_pack_explains_how_to_call_and_how_to_read_the_result() {
    let pack = triage_pack();
    assert!(pack.contains("vouch call <node> --input"));
    assert!(pack.contains("JSON object on stdout"));
    assert!(pack.contains("exit 0"));
    assert!(pack.contains("A refusal is a good outcome when it is the true one."));
}

#[test]
fn a_collection_without_a_preamble_still_produces_a_pack() {
    let (_, nodes) = triage_collection();
    let mut ok = nodes.into_iter().next().unwrap();
    ok.manifest.name = "ok".to_string();
    let pack = text(describe_all(None, &[ok], Some("fixtures"), Format::Markdown));
    assert!(pack.starts_with("# fixtures\n"), "falls back to the directory name: {pack}");
    assert!(pack.contains("## ok"));
}

#[test]
fn a_single_node_can_be_rendered_as_markdown_too() {
    let (_, nodes) = triage_collection();
    let triage = nodes.into_iter().next().unwrap();
    let pack = text(describe(triage, Some("support-triage"), Format::Markdown));
    assert!(pack.contains("## triage"));
    assert!(!pack.contains("## wait-estimate"));
}
