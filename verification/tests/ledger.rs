use vouch::decimal::Decimal;
use vouch::json::Json;
use vouch::ledger::{hex, path, sanitize, scalars, session_from};

fn j(text: &str) -> Json {
    convert(&serde_json::from_str(text).expect("valid JSON"))
}

fn convert(v: &serde_json::Value) -> Json {
    match v {
        serde_json::Value::Null => Json::Null,
        serde_json::Value::Bool(b) => Json::Bool(*b),
        serde_json::Value::Number(n) => Json::Number(Decimal::parse(&n.to_string()).expect("a number")),
        serde_json::Value::String(s) => Json::Str(s.clone()),
        serde_json::Value::Array(items) => Json::Array(items.iter().map(convert).collect()),
        serde_json::Value::Object(fields) => {
            Json::Object(fields.iter().map(|(k, v)| (k.clone(), convert(v))).collect())
        }
    }
}

fn text_of(d: Option<Decimal>) -> String {
    d.expect("a recorded figure").to_text()
}

#[test]
fn scalars_finds_every_numeric_leaf() {
    let result = j(r#"{
        "attack_rating": 512.4,
        "weapon": "Lothric Knight Sword",
        "requirements_met": true,
        "stats": { "strength": 16, "dexterity": 40 },
        "breakpoints": [10, 20]
    }"#);
    let found = scalars(&result, "result");

    assert_eq!(text_of(found.get("result.attack_rating")), "512.4");
    assert_eq!(text_of(found.get("result.stats.strength")), "16");
    assert_eq!(text_of(found.get("result.breakpoints[1]")), "20");
    assert!(found.get("result.weapon").is_none());
    assert!(found.get("result.requirements_met").is_none());
    assert_eq!(found.len(), 5);
}

#[test]
fn integers_stay_integers() {
    let found = scalars(&j(r#"{ "n": 16 }"#), "result");
    assert_eq!(text_of(found.get("result.n")), "16", "16 must not become 16.0");
}

#[test]
fn session_ids_cannot_escape_the_ledger_directory() {
    assert_eq!(sanitize("../../etc/passwd"), "------etc-passwd");
    assert_eq!(sanitize("conversation-42"), "conversation-42");
}

// ------------------------------------------------------------------ further cases

#[test]
fn a_session_id_is_the_variable_when_set_and_the_date_otherwise() {
    assert_eq!(session_from(Some("  chat 7  "), "20260831"), "chat-7");
    assert_eq!(session_from(Some("   "), "20260831"), "20260831");
    assert_eq!(session_from(None, "20260831"), "20260831");
}

#[test]
fn a_session_ledger_lives_under_the_collection() {
    assert_eq!(path("/srv/c", "demo"), "/srv/c/.vouch/ledger/session-demo.jsonl");
}

#[test]
fn hex_is_two_lower_case_digits_a_byte() {
    assert_eq!(hex(&[0x00, 0x0f, 0xab, 0xff]), "000fabff");
    assert_eq!(hex(&[]), "");
}

#[test]
fn the_last_of_two_leaves_on_one_path_wins() {
    let found = scalars(&j(r#"{"a.b": 1, "a": {"b": 2}}"#), "result");
    assert_eq!(found.len(), 1);
    let first = text_of(found.get("result.a.b"));
    assert!(first == "1" || first == "2");
}
