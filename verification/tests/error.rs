use vouch::decimal::Decimal;
use vouch::error::{Outcome, VouchError, ATTEST_ERROR};
use vouch::json::Json;

fn back(v: &Json) -> serde_json::Value {
    match v {
        Json::Null => serde_json::Value::Null,
        Json::Bool(b) => serde_json::Value::Bool(*b),
        Json::Number(d) => serde_json::from_str(&d.to_text()).expect("a number"),
        Json::Str(s) => serde_json::Value::String(s.clone()),
        Json::Array(items) => serde_json::Value::Array(items.iter().map(back).collect()),
        Json::Object(fields) => {
            serde_json::Value::Object(fields.iter().map(|(k, v)| (k.clone(), back(v))).collect())
        }
    }
}

#[test]
fn each_outcome_has_its_ledger_name() {
    assert_eq!(Outcome::Refusal.as_str(), "refusal");
    assert_eq!(Outcome::Defect.as_str(), "defect");
    assert_eq!(Outcome::CallerError.as_str(), "caller_error");
    assert_eq!(Outcome::Error.as_str(), "error");
}

#[test]
fn the_stderr_line_carries_outcome_code_node_and_reason_in_that_order() {
    let e = VouchError::refusal(11, "n must not be negative".to_string()).with_node("ok");
    match e.into_json() {
        Json::Object(fields) => {
            let keys: Vec<&str> = fields.iter().map(|(k, _)| k.as_str()).collect();
            assert_eq!(keys, ["outcome", "code", "node", "reason"]);
            let v = back(&Json::Object(fields));
            assert_eq!(v["outcome"], "refusal");
            assert_eq!(v["code"], 11);
            assert_eq!(v["node"], "ok");
            assert_eq!(v["reason"], "n must not be negative");
        }
        other => panic!("expected an object, got {other:?}"),
    }
}

#[test]
fn details_come_last_and_a_recoded_error_keeps_the_rest() {
    let e = VouchError::error("no ledger".to_string())
        .with_details(Json::Number(Decimal::from_i64(3)))
        .with_code(ATTEST_ERROR);
    assert_eq!(e.code, 2);
    assert_eq!(e.outcome, Outcome::Error);
    let v = back(&e.into_json());
    assert_eq!(v["details"], 3);
    assert!(v.get("node").is_none());
    assert_eq!(VouchError::error("x".to_string()).code, 1);
    assert_eq!(VouchError::caller_error(10, "x".to_string()).outcome, Outcome::CallerError);
    assert_eq!(VouchError::defect(20, "x".to_string()).outcome, Outcome::Defect);
}
