use vouch::markdown::pack;
use vouch::registry::Preamble;

#[test]
fn a_pack_without_a_preamble_still_names_the_collection() {
    let out = pack("support-triage", None, &[]);
    assert!(out.starts_with("# support-triage\n"));
    assert!(out.contains("no callable nodes"));
}

#[test]
fn the_preamble_leads_and_its_name_wins() {
    let preamble = Preamble {
        name: Some("ds3-tools".into()),
        description: Some("Build optimization over a local CSV.".into()),
        notes: vec!["All numbers come from patch 1.15.".into()],
        requires: Vec::new(),
        ensures: Vec::new(),
    };
    let out = pack("ignored-dir-name", Some(&preamble), &[]);
    assert!(out.starts_with("# ds3-tools\n"));
    assert!(out.contains("Build optimization over a local CSV."));
    assert!(out.contains("- All numbers come from patch 1.15."));
}

#[test]
fn usage_explains_what_each_outcome_calls_for() {
    let out = pack("c", None, &[]);
    assert!(out.contains("vouch call <node> --input"));
    assert!(out.contains("exit 0"));
    assert!(out.contains("exit 11, 14 or 15"));
    assert!(out.contains("No answer beats a wrong one."));
}
