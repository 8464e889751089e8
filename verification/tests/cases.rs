use vouch::cases::{decimals, equal, validate, Case};
use vouch::decimal::Decimal;
use vouch::json::Json;

/// JSON text as the library's value, numbers kept as written.
fn j(text: &str) -> Json {
    convert(&serde_json::from_str(text).expect("valid JSON"))
}

fn convert(v: &serde_json::Value) -> Json {
    match v {
        serde_json::Value::Null => Json::Null,
        serde_json::Value::Bool(b) => Json::Bool(*b),
        serde_json::Value::Number(n) => Json::Number(Decimal::parse(&n.to_string()).expect("a number")),
        serde_json::Value::String(s) => Json::Str(s.clone()),
        serde_json::Value::Array(items) => Json::Array(items.iter().map(convert).collect()),
        serde_json::Value::Object(fields) => {
            Json::Object(fields.iter().map(|(k, v)| (k.clone(), convert(v))).collect())
        }
    }
}

fn number(text: &str) -> Decimal {
    Decimal::parse(text).expect("a number")
}

fn case(expect_code: Option<i32>, expect: &[(&str, &str)]) -> Case {
    Case {
        name: "x".to_string(),
        input: j("{}"),
        expect_code,
        expect: expect.iter().map(|(k, v)| (k.to_string(), j(v))).collect(),
    }
}

#[test]
fn an_integer_matches_the_same_number_written_as_a_float() {
    assert!(equal(&j("40.0"), &j("40")));
    assert!(equal(&j("40"), &j("40.0")));
    assert!(!equal(&j("40"), &j("41")));
    assert!(!equal(&j("\"40\""), &j("40")));
    assert!(equal(&j("true"), &j("true")));
}

#[test]
fn a_float_expectation_is_checked_to_the_precision_it_was_written_to() {
    assert!(equal(&j("543.1948140689826"), &j("543.1948141")));
    assert!(equal(&j("0.6300000000000001"), &j("0.63")));
    assert!(equal(&j("0.8999999999999999"), &j("0.9")));
    assert!(equal(&j("543.1948149"), &j("543.19481")));
    assert!(!equal(&j("543.1948149"), &j("543.1948141")));
    assert!(!equal(&j("543.2"), &j("543.1948141")));
    assert!(!equal(&j("0.64"), &j("0.63")));
    assert!(!equal(&j("347.7"), &j("347")));
}

#[test]
fn decimals_reads_the_authors_spelling() {
    assert_eq!(decimals(&number("40.0")).0, 0);
    assert_eq!(decimals(&number("0.495")).0, 3);
    assert_eq!(decimals(&number("543.1948141")).0, 7);
}

#[test]
fn cases_a_case_expecting_a_refusal_may_not_also_expect_values() {
    let bad = case(Some(11), &[("result.n", "1")]);
    assert!(validate(&bad).is_err());
}

#[test]
fn expected_paths_must_be_rooted_at_result() {
    let bad = case(None, &[("stats.dexterity", "40")]);
    assert!(validate(&bad).unwrap_err().contains("rooted"));
    let good = case(None, &[("result.stats.dexterity", "40")]);
    assert!(validate(&good).is_ok());
}

// ------------------------------------------------------------------ further cases

#[test]
fn a_refusal_message_names_the_exit_it_expects() {
    let bad = case(Some(11), &[("result.n", "1")]);
    assert_eq!(
        validate(&bad).unwrap_err(),
        "expects exit 11 and also expects values; a non-zero exit produces no result to read them from"
    );
}

#[test]
fn result_itself_is_a_rooted_path() {
    assert!(validate(&case(None, &[("result", "1")])).is_ok());
    assert!(validate(&case(None, &[("resultx", "1")])).is_err());
}
