use vouch::attest::{attest, extract, has_unit_suffix, is_sign_boundary, line_and_column};
use vouch::decimal::Decimal;
use vouch::scalar_map::ScalarMap;

fn number(v: f64) -> Decimal {
    Decimal::parse(&format!("{v}")).expect("a finite number")
}

fn as_f64(d: &Decimal) -> f64 {
    d.to_text().parse().expect("decimal text")
}

fn values(text: &str) -> Vec<f64> {
    extract(text)
        .iter()
        .map(|n| as_f64(n.value.as_ref().expect("a value")))
        .collect()
}

/// A ledger of the given values, under throwaway paths. These tests are about matching and
/// rounding, not about provenance, so the paths only have to be distinct.
fn ledger(scalars: &[f64]) -> ScalarMap {
    let mut m = ScalarMap::new();
    for (i, v) in scalars.iter().enumerate() {
        m.insert(format!("0:result.f{i}"), number(*v));
    }
    m
}

#[test]
fn a_multi_byte_character_before_a_numeral_is_handled() {
    for text in ["AR figures are ±5", "roughly —3 points", "→7 of them", "±5"] {
        let _ = extract(text);
    }
    assert_eq!(values("AR figures are from memory, ±5"), vec![5.0]);

    for (text, symbol) in [("$5", "$"), ("£5", "£"), ("€5", "€"), ("¥5", "¥")] {
        let found = extract(text);
        assert_eq!(found.len(), 1, "{text}");
        assert!(found[0].has_unit, "{symbol} should mark {text} as measured");
    }
    assert!(!extract("x5").first().unwrap().has_unit);
}

#[test]
fn finds_plain_numbers() {
    assert_eq!(values("the count is 3 and the length is 10"), vec![3.0, 10.0]);
}

#[test]
fn reads_thousands_separators_but_not_list_commas() {
    assert_eq!(values("1,234.5 spent"), vec![1234.5]);
    assert_eq!(values("items 1, 234 and 5"), vec![1.0, 234.0, 5.0]);
    assert_eq!(values("1,2345"), vec![1.0, 2345.0]);
}

#[test]
fn treats_a_leading_dash_as_a_sign_only_at_a_word_boundary() {
    assert_eq!(values("remaining -250 minutes"), vec![-250.0]);
    assert_eq!(values("ticket T-1001 is open"), vec![1001.0]);
}

#[test]
fn records_precision_as_written() {
    let found = extract("190.9 and 512 and 0.123");
    assert_eq!(found[0].precision, 1);
    assert_eq!(found[1].precision, 0);
    assert_eq!(found[2].precision, 3);
}

#[test]
fn spots_units_before_and_after() {
    assert!(extract("$2000 monthly").first().unwrap().has_unit, "currency prefix");
    assert!(extract("40 kg").first().unwrap().has_unit, "spaced unit");
    assert!(extract("512 AR").first().unwrap().has_unit, "spaced unit");
    assert!(extract("40kg").first().unwrap().has_unit, "glued unit");
    assert!(extract("25% credit").first().unwrap().percent);
}

#[test]
fn following_prose_is_not_mistaken_for_a_unit() {
    assert!(!extract("in 2026 there were three").first().unwrap().has_unit);
    assert!(!extract("3 of them").first().unwrap().has_unit);
    assert!(!extract("7 items").first().unwrap().has_unit, "'items' is too long to be a unit");
    assert!(!extract("there were 7").first().unwrap().has_unit);
}

#[test]
fn an_exact_figure_matches() {
    assert!(attest("the credit is 500", &ledger(&[500.0]), None).is_clean());
}

#[test]
fn a_rounded_figure_matches_the_recorded_one() {
    assert!(attest("about 512 AR", &ledger(&[512.4]), None).is_clean());
    assert!(attest("190.9 exactly", &ledger(&[190.9]), None).is_clean());
}

#[test]
fn a_wrong_digit_does_not_match() {
    let report = attest("an attack rating of 512.9", &ledger(&[512.4]), None);
    assert_eq!(report.unmatched.len(), 1);
    assert_eq!(report.unmatched[0].numeral.raw, "512.9");
}

#[test]
fn a_transposed_digit_is_caught() {
    let report = attest("the credit is $509", &ledger(&[500.0]), None);
    assert_eq!(report.unmatched.len(), 1, "509 is not 500");
}

#[test]
fn percent_matches_both_forms() {
    assert!(attest("a 12.3% credit", &ledger(&[12.3]), None).is_clean());
    assert!(attest("a 12.3% credit", &ledger(&[0.123]), None).is_clean());
}

#[test]
fn thousands_separators_match_the_bare_figure() {
    assert!(attest("1,234.5 total", &ledger(&[1234.5]), None).is_clean());
}

#[test]
fn numbers_from_the_question_are_not_fabrication() {
    let report = attest("at soul level 120 you get 42", &ledger(&[42.0]), Some("build at SL120?"));
    assert!(report.is_clean(), "{:?}", report.unmatched);
    assert_eq!(report.ignored, 1);
}

#[test]
fn bare_years_and_small_integers_are_ignored() {
    let report = attest("in 2026 there were 3 of them", &ledger(&[]), None);
    assert!(report.is_clean(), "{:?}", report.unmatched);
    assert_eq!(report.ignored, 2);
}

#[test]
fn a_year_shaped_number_with_a_unit_is_still_checked() {
    let report = attest("a $2000 monthly fee", &ledger(&[]), None);
    assert_eq!(report.unmatched.len(), 1, "a currency figure is never a year");
}

#[test]
fn matching_takes_precedence_over_ignoring() {
    let report = attest("strength 10", &ledger(&[10.0]), None);
    assert_eq!(report.matched, 1);
    assert_eq!(report.ignored, 0);
}

#[test]
fn positions_are_reported() {
    let report = attest("line one\nthe value is 999 here", &ledger(&[1.0]), None);
    let found = &report.unmatched[0];
    assert_eq!(found.numeral.line, 2);
    assert_eq!(found.numeral.column, 14);
    assert!(found.context.contains("999"));
}

// ------------------------------------------------------------------ further cases

#[test]
fn an_accounted_figure_names_the_path_that_accounts_for_it() {
    let report = attest("the credit is 500", &ledger(&[500.0]), None);
    assert_eq!(report.accounted.len(), 1);
    assert_eq!(report.accounted[0].paths, vec!["0:result.f0".to_string()]);
    assert_eq!(report.accounted[0].accounted_by, 1);
    assert_eq!(report.ambiguous(), 0);
}

#[test]
fn a_figure_two_values_round_to_is_ambiguous() {
    let report = attest("about 512", &ledger(&[512.4, 511.6]), None);
    assert!(report.is_clean());
    assert_eq!(report.ambiguous(), 1);
    assert_eq!(report.accounted[0].accounted_by, 2);
}

#[test]
fn every_numeral_is_checked_once() {
    let report = attest("1 and 2 and 3000 kg", &ledger(&[]), None);
    assert_eq!(report.checked, 3);
    assert_eq!(report.checked, report.matched + report.ignored + report.unmatched.len());
}

#[test]
fn a_short_word_after_a_number_is_its_unit_and_a_common_word_is_not() {
    assert!(has_unit_suffix("kg of flour"));
    assert!(has_unit_suffix(" AR"));
    assert!(has_unit_suffix(" kg."));
    assert!(!has_unit_suffix(" of them"));
    assert!(!has_unit_suffix(" items"));
    assert!(!has_unit_suffix(" "));
    assert!(!has_unit_suffix(", then"));
}

#[test]
fn a_sign_follows_only_what_is_not_part_of_a_word() {
    assert!(is_sign_boundary(b' '));
    assert!(is_sign_boundary(b'('));
    assert!(!is_sign_boundary(b'T'));
    assert!(!is_sign_boundary(b'7'));
    assert!(!is_sign_boundary(b'.'));
    assert!(!is_sign_boundary(b'-'));
}

#[test]
fn lines_and_columns_count_from_one() {
    assert_eq!(line_and_column("abc", 0), (1, 1));
    assert_eq!(line_and_column("line one\nthe value is 999", 22), (2, 14));
    assert_eq!(line_and_column("a\n\nb", 3), (3, 1));
}

/// More evidence never takes an account away: each added value or stated figure can only move
/// numerals out of the unmatched list.
#[test]
fn more_evidence_never_unmatches_a_figure() {
    let text = "42 units at level 120, and 17.5 more";
    let bare = attest(text, &ledger(&[42.0]), None);
    assert_eq!(bare.unmatched.len(), 2);
    let more = attest(text, &ledger(&[42.0, 17.5]), None);
    assert_eq!(more.unmatched.len(), 1);
    let asked = attest(text, &ledger(&[42.0, 17.5]), Some("what about level 120?"));
    assert!(asked.is_clean(), "{:?}", asked.unmatched);
    assert_eq!((asked.matched, asked.ignored), (2, 1));
}

/// What accounts for a figure is listed by path, in ascending order, every path a key of the
/// ledger.
#[test]
fn the_paths_that_account_for_a_figure_come_in_order() {
    let mut m = ScalarMap::new();
    m.insert("1:result.b".to_string(), number(42.0));
    m.insert("0:result.z".to_string(), number(42.0));
    m.insert("0:result.a".to_string(), number(7.0));
    let report = attest("it is 42", &m, None);
    assert_eq!(report.accounted.len(), 1);
    assert_eq!(report.accounted[0].accounted_by, 2);
    assert_eq!(report.accounted[0].paths, vec!["0:result.z".to_string(), "1:result.b".to_string()]);
}
