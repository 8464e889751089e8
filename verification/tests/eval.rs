use vouch::decimal::Decimal;
use vouch::eval::{parse_reply, split, subset};
use vouch::json::Json;

fn j(text: &str) -> Json {
    convert(&serde_json::from_str(text).expect("valid JSON"))
}

fn convert(v: &serde_json::Value) -> Json {
    match v {
        serde_json::Value::Null => Json::Null,
        serde_json::Value::Bool(b) => Json::Bool(*b),
        serde_json::Value::Number(n) => Json::Number(Decimal::parse(&n.to_string()).expect("a number")),
        serde_json::Value::String(s) => Json::Str(s.clone()),
        serde_json::Value::Array(items) => Json::Array(items.iter().map(convert).collect()),
        serde_json::Value::Object(fields) => {
            Json::Object(fields.iter().map(|(k, v)| (k.clone(), convert(v))).collect())
        }
    }
}

/// The library's JSON as serde's, to compare with what a test expects.
fn back(v: &Json) -> serde_json::Value {
    match v {
        Json::Null => serde_json::Value::Null,
        Json::Bool(b) => serde_json::Value::Bool(*b),
        Json::Number(d) => serde_json::from_str(&d.to_text()).expect("a number"),
        Json::Str(s) => serde_json::Value::String(s.clone()),
        Json::Array(items) => serde_json::Value::Array(items.iter().map(back).collect()),
        Json::Object(fields) => {
            serde_json::Value::Object(fields.iter().map(|(k, v)| (k.clone(), back(v))).collect())
        }
    }
}

#[test]
fn an_agent_command_splits_on_quotes() {
    assert_eq!(split("my-agent -p"), vec!["my-agent", "-p"]);
    assert_eq!(split(r#"sh -c 'echo hi' {prompt}"#), vec!["sh", "-c", "echo hi", "{prompt}"]);
    assert!(split("   ").is_empty());
}

#[test]
fn a_fenced_reply_still_parses() {
    let fenced = "sure!\n```json\n{\"done\": true}\n```\n";
    assert_eq!(back(&parse_reply(fenced).unwrap()), serde_json::from_str::<serde_json::Value>(r#"{"done": true}"#).unwrap());
    assert_eq!(back(&parse_reply("{\"stop\": \"no\"}").unwrap()), serde_json::from_str::<serde_json::Value>(r#"{"stop": "no"}"#).unwrap());
    let e = parse_reply("I refuse to emit JSON").unwrap_err();
    assert_eq!(e.code, 1);
    assert!(e.reason.starts_with("no JSON object in the agent's reply"), "{}", e.reason);
    let e = parse_reply("here: {\"done\": tru}").unwrap_err();
    assert!(e.reason.starts_with("the agent's reply is not valid JSON: "), "{}", e.reason);
}

#[test]
fn expected_params_are_a_subset_not_an_equality() {
    let actual = j(r#"{"weapon": "Uchigatana", "soul_level": 120}"#);
    assert!(subset(&j(r#"{"soul_level": 120}"#), &actual));
    assert!(subset(&j(r#"{"soul_level": 120.0}"#), &actual));
    assert!(!subset(&j(r#"{"soul_level": 125}"#), &actual));
    assert!(!subset(&j(r#"{"missing": 1}"#), &actual));
}
