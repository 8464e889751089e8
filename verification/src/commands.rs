//! What each subcommand reports: the text a person reads on stderr, the JSON a program reads
//! on stdout, and the exit code, decided from what was found. Finding it is the caller's
//! part; deciding what it comes to is made here.

use crate::attest::{ambiguous_pred, Accounted, Report, Unmatched};
use crate::cases::Outcome;
use crate::contracts::Contract;
use crate::eval::{ending_label, Run};
use crate::json::same_json;
use crate::manifest::{Example, Node, Param, ReadDecl};
use crate::registry::Preamble;
use crate::verify::Attempt;
use crate::error::{VouchError, ATTEST_UNMATCHED, OK, TEST_ERROR, TEST_FAILED};
use crate::json::{count, entry, strings, strings_are, text, Json};
use crate::ledger::{nat_digits, push_digits};
use crate::text::{owned, push_str, string_views};
use vstd::prelude::*;

verus! {

/// A count in decimal.
#[verifier::opaque]
pub open spec fn count_text(n: int) -> Seq<char> {
    nat_digits(n as nat)
}

/// The plural ending for a count: nothing for one, `s` otherwise.
pub open spec fn plural(n: int) -> Seq<char> {
    if n == 1 {
        seq![]
    } else {
        "s"@
    }
}

fn push_count(out: &mut String, n: usize)
    ensures
        final(out)@ == old(out)@ + count_text(n as int),
{
    reveal(count_text);
    push_digits(out, n as u128);
}

fn push_plural(out: &mut String, n: usize)
    ensures
        final(out)@ == old(out)@ + plural(n as int),
{
    if n != 1 {
        push_str(out, "s");
    } else {
        assert(old(out)@ + plural(n as int) =~= old(out)@);
    }
}

/// A JSON count.
pub open spec fn number(n: int) -> Json {
    Json::Number(crate::decimal::decimal_of_int(n))
}

/// Whether `j` is the string `s`.
pub open spec fn is_text(j: Json, s: Seq<char>) -> bool {
    j matches Json::Str(t) && t@ == s
}

// ------------------------------------------------------------------------- attestation

/// Each unattested numeral, where it is and what surrounds it.
pub open spec fn unmatched_lines(us: Seq<Unmatched>) -> Seq<char>
    decreases us.len(),
{
    if us.len() == 0 {
        seq![]
    } else {
        let u = us.last();
        unmatched_lines(us.drop_last()) + "  line "@ + count_text(u.numeral.line as int) + ", column "@
            + count_text(u.numeral.column as int) + ": "@ + u.numeral.raw@ + "\n    "@ + u.context@
            + "\n"@
    }
}

/// The attestation report a person reads: which ledger, how much it held, and the verdict —
/// clean with how firmly, or every numeral that did not come from the ledger.
pub open spec fn attestation_text_spec(r: Report, file: Seq<char>, entries: int, scalars: int) -> Seq<char> {
    let ambiguous = r.accounted@.filter(ambiguous_pred()).len() as int;
    let head = "ledger: "@ + file + " ("@ + count_text(entries) + " entr"@ + (if entries == 1 {
        "y"@
    } else {
        "ies"@
    }) + ", "@ + count_text(scalars) + " scalar"@ + plural(scalars) + ")\n"@;
    if r.unmatched@.len() == 0 {
        head + "clean: "@ + count_text(r.checked as int) + " numeral"@ + plural(r.checked as int)
            + " checked, "@ + count_text(r.matched as int) + " matched, "@ + count_text(r.ignored as int)
            + " ignored\n"@ + (if ambiguous > 0 {
            "  "@ + count_text(ambiguous)
                + " of those matched more than one recorded value; --json lists what accounted for each\n"@
        } else {
            seq![]
        })
    } else {
        head + "UNATTESTED: "@ + count_text(r.unmatched@.len() as int) + " of "@ + count_text(r.checked as int)
            + " numeral"@ + plural(r.checked as int) + " did not come from the ledger\n\n"@
            + unmatched_lines(r.unmatched@)
    }
}

fn push_unmatched(t: &mut String, us: &Vec<Unmatched>)
    ensures
        final(t)@ == old(t)@ + unmatched_lines(us@),
{
    let mut i: usize = 0;
    while i < us.len()
        invariant
            i <= us@.len(),
            t@ == old(t)@ + unmatched_lines(us@.take(i as int)),
        decreases us@.len() - i,
    {
        let u = &us[i];
        push_str(t, "  line ");
        push_count(t, u.numeral.line);
        push_str(t, ", column ");
        push_count(t, u.numeral.column);
        push_str(t, ": ");
        push_str(t, u.numeral.raw.as_str());
        push_str(t, "\n    ");
        push_str(t, u.context.as_str());
        push_str(t, "\n");
        proof {
            assert(us@.take(i + 1).drop_last() =~= us@.take(i as int));
        }
        i = i + 1;
    }
    assert(us@.take(i as int) =~= us@);
}

/// The attestation report for stderr.
///
/// A clean result can be clean for weak reasons: attestation asks whether *any* recorded
/// value rounds to a figure, so in a large ledger a wrong number can be accounted for by
/// something it has nothing to do with. Saying how often that happened is the only warning a
/// reader gets that the ledger has grown big enough to start passing things on its own.
pub fn attestation_text(report: &Report, file: &str, entries: usize, scalars: usize) -> (t: String)
    ensures
        t@ == attestation_text_spec(*report, file@, entries as int, scalars as int),
{
    let mut t = owned("ledger: ");
    push_str(&mut t, file);
    push_str(&mut t, " (");
    push_count(&mut t, entries);
    push_str(&mut t, " entr");
    push_str(&mut t, if entries == 1 { "y" } else { "ies" });
    push_str(&mut t, ", ");
    push_count(&mut t, scalars);
    push_str(&mut t, " scalar");
    push_plural(&mut t, scalars);
    push_str(&mut t, ")\n");
    let ghost head = t@;
    if report.is_clean() {
        push_str(&mut t, "clean: ");
        push_count(&mut t, report.checked);
        push_str(&mut t, " numeral");
        push_plural(&mut t, report.checked);
        push_str(&mut t, " checked, ");
        push_count(&mut t, report.matched);
        push_str(&mut t, " matched, ");
        push_count(&mut t, report.ignored);
        push_str(&mut t, " ignored\n");
        let ambiguous = report.ambiguous();
        if ambiguous > 0 {
            push_str(&mut t, "  ");
            push_count(&mut t, ambiguous);
            push_str(&mut t, " of those matched more than one recorded value; --json lists what accounted for each\n");
        }
    } else {
        push_str(&mut t, "UNATTESTED: ");
        push_count(&mut t, report.unmatched.len());
        push_str(&mut t, " of ");
        push_count(&mut t, report.checked);
        push_str(&mut t, " numeral");
        push_plural(&mut t, report.checked);
        push_str(&mut t, " did not come from the ledger\n\n");
        push_unmatched(&mut t, &report.unmatched);
    }
    proof {
        assert(t@ =~= attestation_text_spec(*report, file@, entries as int, scalars as int));
    }
    t
}

/// An unattested numeral as JSON: where it is, what it was, and what surrounds it.
pub open spec fn unmatched_json(j: Json, u: Unmatched) -> bool {
    j matches Json::Object(fs) && fs@.len() == 5 && fs@[0].0@ == "column"@ && fs@[0].1 == number(
        u.numeral.column as int,
    ) && fs@[1].0@ == "context"@ && is_text(fs@[1].1, u.context@) && fs@[2].0@ == "line"@ && fs@[2].1
        == number(u.numeral.line as int) && fs@[3].0@ == "numeral"@ && is_text(fs@[3].1, u.numeral.raw@)
        && fs@[4].0@ == "offset"@ && fs@[4].1 == number(u.numeral.offset as int)
}

/// An accounted numeral as JSON: where it is, what it was, and what accounted for it.
pub open spec fn accounted_json(j: Json, a: Accounted) -> bool {
    j matches Json::Object(fs) && fs@.len() == 5 && fs@[0].0@ == "accounted_by"@ && fs@[0].1 == number(
        a.accounted_by as int,
    ) && fs@[1].0@ == "column"@ && fs@[1].1 == number(a.numeral.column as int) && fs@[2].0@ == "line"@
        && fs@[2].1 == number(a.numeral.line as int) && fs@[3].0@ == "numeral"@ && is_text(
        fs@[3].1,
        a.numeral.raw@,
    ) && fs@[4].0@ == "paths"@ && strings_are(fs@[4].1, string_views(a.paths@))
}

/// The attestation report a program reads, its keys sorted.
pub open spec fn attestation_fields(fs: Seq<(String, Json)>, r: Report, file: Seq<char>, entries: int, scalars: int) -> bool {
    &&& fs.len() == 10
    &&& fs[0].0@ == "accounted"@ && (fs[0].1 matches Json::Array(v) && v@.len() == r.accounted@.len()
        && forall|k: int| 0 <= k < v@.len() ==> accounted_json(#[trigger] v@[k], r.accounted@[k]))
    &&& fs[1].0@ == "ambiguous"@ && fs[1].1 == number(r.accounted@.filter(ambiguous_pred()).len() as int)
    &&& fs[2].0@ == "checked"@ && fs[2].1 == number(r.checked as int)
    &&& fs[3].0@ == "clean"@ && fs[3].1 == Json::Bool(r.unmatched@.len() == 0)
    &&& fs[4].0@ == "entries"@ && fs[4].1 == number(entries)
    &&& fs[5].0@ == "ignored"@ && fs[5].1 == number(r.ignored as int)
    &&& fs[6].0@ == "ledger"@ && is_text(fs[6].1, file)
    &&& fs[7].0@ == "matched"@ && fs[7].1 == number(r.matched as int)
    &&& fs[8].0@ == "scalars"@ && fs[8].1 == number(scalars)
    &&& fs[9].0@ == "unmatched"@ && (fs[9].1 matches Json::Array(v) && v@.len() == r.unmatched@.len()
        && forall|k: int| 0 <= k < v@.len() ==> unmatched_json(#[trigger] v@[k], r.unmatched@[k]))
}

/// The attestation report as JSON. `accounted` is the working behind the finding, what
/// accounted for each figure that did check out, which is the difference between a check
/// that can be audited and one that can only be believed.
pub fn attestation_json(report: &Report, file: &str, entries: usize, scalars: usize) -> (j: Json)
    ensures
        j matches Json::Object(fs) && attestation_fields(fs@, *report, file@, entries as int, scalars as int),
{
    let mut accounted: Vec<Json> = Vec::new();
    let mut i: usize = 0;
    while i < report.accounted.len()
        invariant
            i <= report.accounted@.len(),
            accounted@.len() == i,
            forall|k: int| 0 <= k < i ==> accounted_json(#[trigger] accounted@[k], report.accounted@[k]),
        decreases report.accounted@.len() - i,
    {
        let a = &report.accounted[i];
        let mut fs: Vec<(String, Json)> = Vec::new();
        fs.push(entry("accounted_by", count(a.accounted_by)));
        fs.push(entry("column", count(a.numeral.column)));
        fs.push(entry("line", count(a.numeral.line)));
        fs.push(entry("numeral", Json::Str(a.numeral.raw.clone())));
        fs.push(entry("paths", strings(&a.paths)));
        accounted.push(Json::Object(fs));
        i = i + 1;
    }
    let mut unmatched: Vec<Json> = Vec::new();
    let mut i: usize = 0;
    while i < report.unmatched.len()
        invariant
            i <= report.unmatched@.len(),
            unmatched@.len() == i,
            forall|k: int| 0 <= k < i ==> unmatched_json(#[trigger] unmatched@[k], report.unmatched@[k]),
        decreases report.unmatched@.len() - i,
    {
        let u = &report.unmatched[i];
        let mut fs: Vec<(String, Json)> = Vec::new();
        fs.push(entry("column", count(u.numeral.column)));
        fs.push(entry("context", Json::Str(u.context.clone())));
        fs.push(entry("line", count(u.numeral.line)));
        fs.push(entry("numeral", Json::Str(u.numeral.raw.clone())));
        fs.push(entry("offset", count(u.numeral.offset)));
        unmatched.push(Json::Object(fs));
        i = i + 1;
    }
    let mut fields: Vec<(String, Json)> = Vec::new();
    fields.push(entry("accounted", Json::Array(accounted)));
    fields.push(entry("ambiguous", count(report.ambiguous())));
    fields.push(entry("checked", count(report.checked)));
    fields.push(entry("clean", Json::Bool(report.is_clean())));
    fields.push(entry("entries", count(entries)));
    fields.push(entry("ignored", count(report.ignored)));
    fields.push(entry("ledger", text(file)));
    fields.push(entry("matched", count(report.matched)));
    fields.push(entry("scalars", count(scalars)));
    fields.push(entry("unmatched", Json::Array(unmatched)));
    Json::Object(fields)
}

/// `attest` exits 0 when every numeral is accounted for and 1 when any is not: a finding,
/// not a failure of the command.
pub fn attest_code(report: &Report) -> (c: i32)
    ensures
        c == if report.unmatched@.len() == 0 { OK } else { ATTEST_UNMATCHED },
{
    if report.is_clean() { OK } else { ATTEST_UNMATCHED }
}

// -------------------------------------------------------------------------------- test

/// The nodes a `test` run covers: the one named, or every node when none is. `None` when the
/// name is not in the collection, which is a typo rather than a finding about the collection.
pub fn select_nodes(known: &Vec<String>, name: Option<&str>) -> (r: Option<Vec<String>>)
    ensures
        match name {
            None => r matches Some(v) && string_views(v@) == string_views(known@),
            Some(n) => if string_views(known@).contains(n@) {
                r matches Some(v) && string_views(v@) == seq![n@]
            } else {
                r is None
            },
        },
{
    match name {
        None => {
            let mut v: Vec<String> = Vec::new();
            let mut i: usize = 0;
            while i < known.len()
                invariant
                    i <= known@.len(),
                    string_views(v@) == string_views(known@.take(i as int)),
                decreases known@.len() - i,
            {
                let ghost before = v@;
                v.push(known[i].clone());
                proof {
                    assert(string_views(v@) =~= string_views(before).push(known@[i as int]@));
                    assert(string_views(known@.take(i + 1)) =~= string_views(known@.take(i as int)).push(known@[i as int]@));
                }
                i = i + 1;
            }
            assert(known@.take(i as int) =~= known@);
            Some(v)
        },
        Some(n) => {
            let mut i: usize = 0;
            while i < known.len()
                invariant
                    i <= known@.len(),
                    name == Some(n),
                    forall|j: int| 0 <= j < i ==> known@[j]@ != n@,
                decreases known@.len() - i,
            {
                if crate::text::str_eq(known[i].as_str(), n) {
                    proof {
                        assert(string_views(known@)[i as int] == n@);
                        assert(string_views(known@).contains(n@));
                    }
                    let mut v: Vec<String> = Vec::new();
                    v.push(owned(n));
                    assert(string_views(v@) =~= seq![n@]);
                    return Some(v);
                }
                i = i + 1;
            }
            proof {
                if string_views(known@).contains(n@) {
                    let j = choose|j: int| 0 <= j < string_views(known@).len() && string_views(known@)[j] == n@;
                    assert(known@[j]@ == n@);
                }
            }
            None
        },
    }
}

/// A checking tool that reports success having checked nothing gives false assurance, so a
/// run with no cases at all fails, saying where it looked.
pub fn nothing_to_test(name: Option<&str>, nodes_dir: &str) -> (e: VouchError)
    ensures
        e.outcome == crate::error::Outcome::Error,
        e.code == TEST_ERROR,
        e.reason@ == match name {
            Some(n) => n@ + " has no cases.toml; there is nothing to test"@,
            None => "no node in "@ + nodes_dir@ + " has a cases.toml; there is nothing to test"@,
        },
{
    let reason = match name {
        Some(n) => {
            let mut r = owned(n);
            push_str(&mut r, " has no cases.toml; there is nothing to test");
            r
        },
        None => {
            let mut r = owned("no node in ");
            push_str(&mut r, nodes_dir);
            push_str(&mut r, " has a cases.toml; there is nothing to test");
            r
        },
    };
    VouchError::error(reason).with_code(TEST_ERROR)
}

/// How many cases a set of reports holds.
pub open spec fn cases_total(reports: Seq<(String, Vec<Outcome>)>) -> int
    decreases reports.len(),
{
    if reports.len() == 0 {
        0
    } else {
        cases_total(reports.drop_last()) + reports.last().1@.len()
    }
}

/// How many of a node's cases passed.
pub open spec fn outcomes_passed(outcomes: Seq<Outcome>) -> int {
    outcomes.filter(|o: Outcome| o.failures@.len() == 0).len() as int
}

/// How many cases in a set of reports passed.
pub open spec fn cases_passed(reports: Seq<(String, Vec<Outcome>)>) -> int
    decreases reports.len(),
{
    if reports.len() == 0 {
        0
    } else {
        cases_passed(reports.drop_last()) + outcomes_passed(reports.last().1@)
    }
}

proof fn lemma_passed_within(reports: Seq<(String, Vec<Outcome>)>)
    ensures
        0 <= cases_passed(reports) <= cases_total(reports),
    decreases reports.len(),
{
    if reports.len() > 0 {
        lemma_passed_within(reports.drop_last());
        reports.last().1@.lemma_filter_len(|o: Outcome| o.failures@.len() == 0);
    }
}

proof fn lemma_total_grows(reports: Seq<(String, Vec<Outcome>)>, i: int)
    requires
        0 <= i <= reports.len(),
    ensures
        cases_total(reports.take(i)) <= cases_total(reports),
    decreases reports.len() - i,
{
    if i < reports.len() {
        lemma_total_grows(reports, i + 1);
        assert(reports.take(i + 1).drop_last() =~= reports.take(i));
    } else {
        assert(reports.take(i) =~= reports);
    }
}

fn count_passed(outcomes: &Vec<Outcome>) -> (n: usize)
    ensures
        n == outcomes_passed(outcomes@),
{
    let ghost pred = |o: Outcome| o.failures@.len() == 0;
    let mut n: usize = 0;
    let mut i: usize = 0;
    while i < outcomes.len()
        invariant
            i <= outcomes@.len(),
            pred == (|o: Outcome| o.failures@.len() == 0),
            n == outcomes@.take(i as int).filter(pred).len(),
        decreases outcomes@.len() - i,
    {
        proof {
            assert(outcomes@.take(i + 1) =~= outcomes@.take(i as int).push(outcomes@[i as int]));
            outcomes@.take(i as int).lemma_filter_push(outcomes@[i as int], pred);
            outcomes@.take(i as int).lemma_filter_len(pred);
        }
        if outcomes[i].passed() {
            n = n + 1;
        }
        i = i + 1;
    }
    assert(outcomes@.take(i as int) =~= outcomes@);
    n
}

/// How many cases ran, and how many passed.
pub fn test_totals(reports: &Vec<(String, Vec<Outcome>)>) -> (r: (usize, usize))
    requires
        cases_total(reports@) <= usize::MAX,
    ensures
        r.0 == cases_total(reports@),
        r.1 == cases_passed(reports@),
        r.1 <= r.0,
{
    let mut total: usize = 0;
    let mut passed: usize = 0;
    let mut i: usize = 0;
    proof {
        lemma_passed_within(reports@);
    }
    while i < reports.len()
        invariant
            i <= reports@.len(),
            cases_total(reports@) <= usize::MAX,
            total == cases_total(reports@.take(i as int)),
            passed == cases_passed(reports@.take(i as int)),
        decreases reports@.len() - i,
    {
        proof {
            assert(reports@.take(i + 1).drop_last() =~= reports@.take(i as int));
            lemma_total_grows(reports@, i + 1);
            lemma_passed_within(reports@.take(i + 1));
        }
        total = total + reports[i].1.len();
        passed = passed + count_passed(&reports[i].1);
        i = i + 1;
    }
    assert(reports@.take(i as int) =~= reports@);
    proof {
        lemma_passed_within(reports@);
    }
    (total, passed)
}

/// `test` exits 0 only when a case ran, every case passed and every node loaded; a run that
/// checked nothing at all is an error, 2, not a pass.
pub fn test_code(total: usize, passed: usize, unloadable: usize) -> (c: i32)
    ensures
        c == if total == 0 && unloadable == 0 {
            TEST_ERROR
        } else if passed == total && unloadable == 0 {
            OK
        } else {
            TEST_FAILED
        },
{
    if total == 0 && unloadable == 0 {
        TEST_ERROR
    } else if passed == total && unloadable == 0 {
        OK
    } else {
        TEST_FAILED
    }
}

/// The reason a run whose fixtures declare no case at all gives for having checked nothing.
pub open spec fn no_cases_reason(name: Option<Seq<char>>, nodes_dir: Seq<char>) -> Seq<char> {
    match name {
        Some(n) => n + " declares no [[case]]; there is nothing to test"@,
        None => "no cases.toml in "@ + nodes_dir + " declares a [[case]]; there is nothing to test"@,
    }
}

/// What a run of node fixtures found, or why it checked nothing. A run with no case at all
/// and no node that failed to load checked nothing, so it fails with exit 2 rather than
/// reporting success over zero cases: with no `cases.toml` anywhere (`reports` is empty), or
/// with only files that declare no case. Otherwise the totals: how many cases ran and passed.
pub fn test_result(
    reports: &Vec<(String, Vec<Outcome>)>,
    unloadable: usize,
    name: Option<&str>,
    nodes_dir: &str,
) -> (r: Result<(usize, usize), VouchError>)
    requires
        cases_total(reports@) <= usize::MAX,
    ensures
        r is Err <==> cases_total(reports@) == 0 && unloadable == 0,
        r matches Ok(t) ==> t.0 == cases_total(reports@) && t.1 == cases_passed(reports@) && t.1 <= t.0,
        r matches Err(e) ==> e.outcome == crate::error::Outcome::Error && e.code == TEST_ERROR && e.reason@ == if reports@.len()
            == 0 {
            match name {
                Some(n) => n@ + " has no cases.toml; there is nothing to test"@,
                None => "no node in "@ + nodes_dir@ + " has a cases.toml; there is nothing to test"@,
            }
        } else {
            no_cases_reason(
                match name {
                    Some(n) => Some(n@),
                    None => None,
                },
                nodes_dir@,
            )
        },
{
    let (total, passed) = test_totals(reports);
    if total > 0 || unloadable > 0 {
        return Ok((total, passed));
    }
    if reports.len() == 0 {
        return Err(nothing_to_test(name, nodes_dir));
    }
    let reason = match name {
        Some(n) => {
            let mut r = owned(n);
            push_str(&mut r, " declares no [[case]]; there is nothing to test");
            r
        },
        None => {
            let mut r = owned("no cases.toml in ");
            push_str(&mut r, nodes_dir);
            push_str(&mut r, " declares a [[case]]; there is nothing to test");
            r
        },
    };
    Err(VouchError::error(reason).with_code(TEST_ERROR))
}

/// Whether run `repeat` of case `case` already finished in an earlier, interrupted run of the
/// suite, and so is skipped on resume rather than run and counted twice.
pub fn already_finished(done: &Vec<(usize, usize)>, case: usize, repeat: usize) -> (r: bool)
    ensures
        r == done@.contains((case, repeat)),
{
    let mut i: usize = 0;
    while i < done.len()
        invariant
            i <= done@.len(),
            forall|k: int| 0 <= k < i ==> done@[k] != (case, repeat),
        decreases done@.len() - i,
    {
        if done[i].0 == case && done[i].1 == repeat {
            assert(done@[i as int] == (case, repeat));
            return true;
        }
        i = i + 1;
    }
    false
}

/// One case's lines: `ok` and its name, or `FAIL`, its name and each failure.
pub open spec fn outcome_lines(o: Outcome) -> Seq<char> {
    if o.failures@.len() == 0 {
        "  ok    "@ + o.name@ + "\n"@
    } else {
        "  FAIL  "@ + o.name@ + "\n"@ + failure_lines(string_views(o.failures@))
    }
}

pub open spec fn failure_lines(fs: Seq<Seq<char>>) -> Seq<char>
    decreases fs.len(),
{
    if fs.len() == 0 {
        seq![]
    } else {
        failure_lines(fs.drop_last()) + "          "@ + fs.last() + "\n"@
    }
}

pub open spec fn node_lines(outcomes: Seq<Outcome>) -> Seq<char>
    decreases outcomes.len(),
{
    if outcomes.len() == 0 {
        seq![]
    } else {
        node_lines(outcomes.drop_last()) + outcome_lines(outcomes.last())
    }
}

pub open spec fn report_lines(reports: Seq<(String, Vec<Outcome>)>) -> Seq<char>
    decreases reports.len(),
{
    if reports.len() == 0 {
        seq![]
    } else {
        report_lines(reports.drop_last()) + reports.last().0@ + "\n"@ + node_lines(reports.last().1@)
    }
}

pub open spec fn unloadable_lines(nodes: Seq<(String, String)>) -> Seq<char>
    decreases nodes.len(),
{
    if nodes.len() == 0 {
        seq![]
    } else {
        unloadable_lines(nodes.drop_last()) + nodes.last().0@ + "\n  FAIL  will not load\n          "@
            + nodes.last().1@ + "\n"@
    }
}

/// The fixture report a person reads: each node's cases, the nodes that will not load, the
/// nodes with no fixtures named rather than counted, and the tally.
pub open spec fn test_text_spec(
    reports: Seq<(String, Vec<Outcome>)>,
    without_cases: Seq<Seq<char>>,
    unloadable: Seq<(String, String)>,
    total: int,
    passed: int,
) -> Seq<char> {
    report_lines(reports) + unloadable_lines(unloadable) + uncased_spec(without_cases) + tally_spec(
        unloadable.len() as int,
        total,
        passed,
    )
}

fn push_failures(t: &mut String, failures: &Vec<String>)
    ensures
        final(t)@ == old(t)@ + failure_lines(string_views(failures@)),
{
    let mut i: usize = 0;
    while i < failures.len()
        invariant
            i <= failures@.len(),
            t@ == old(t)@ + failure_lines(string_views(failures@.take(i as int))),
        decreases failures@.len() - i,
    {
        push_str(t, "          ");
        push_str(t, failures[i].as_str());
        push_str(t, "\n");
        proof {
            assert(string_views(failures@.take(i + 1)).drop_last() =~= string_views(failures@.take(i as int)));
        }
        i = i + 1;
    }
    assert(failures@.take(i as int) =~= failures@);
}

fn push_outcomes(t: &mut String, outcomes: &Vec<Outcome>)
    ensures
        final(t)@ == old(t)@ + node_lines(outcomes@),
{
    let mut i: usize = 0;
    while i < outcomes.len()
        invariant
            i <= outcomes@.len(),
            t@ == old(t)@ + node_lines(outcomes@.take(i as int)),
        decreases outcomes@.len() - i,
    {
        let o = &outcomes[i];
        if o.passed() {
            push_str(t, "  ok    ");
            push_str(t, o.name.as_str());
            push_str(t, "\n");
        } else {
            push_str(t, "  FAIL  ");
            push_str(t, o.name.as_str());
            push_str(t, "\n");
            push_failures(t, &o.failures);
        }
        proof {
            assert(outcomes@.take(i + 1).drop_last() =~= outcomes@.take(i as int));
        }
        i = i + 1;
    }
    assert(outcomes@.take(i as int) =~= outcomes@);
}

/// The nodes with no fixtures, named rather than counted: a node with no fixtures is the gap
/// most worth seeing, and it is invisible in a pass count.
pub open spec fn uncased_spec(without_cases: Seq<Seq<char>>) -> Seq<char> {
    if without_cases.len() > 0 {
        "\nno cases.toml: "@ + crate::text::join_spec(without_cases, ", "@) + "\n"@
    } else {
        seq![]
    }
}

/// The tally that closes the fixture report.
pub open spec fn tally_spec(unloadable: int, total: int, passed: int) -> Seq<char> {
    counts_spec(total, passed) + unloadable_spec(unloadable)
}

pub open spec fn counts_spec(total: int, passed: int) -> Seq<char> {
    "\n"@ + count_text(total) + " case"@ + plural(total) + ", "@ + count_text(passed) + " passed, "@ + count_text(
        total - passed,
    ) + " failed"@
}

pub open spec fn unloadable_spec(unloadable: int) -> Seq<char> {
    if unloadable == 0 {
        "\n"@
    } else {
        "; "@ + count_text(unloadable) + " node"@ + plural(unloadable) + " will not load\n"@
    }
}

fn push_uncased(t: &mut String, without_cases: &Vec<String>)
    ensures
        final(t)@ == old(t)@ + uncased_spec(string_views(without_cases@)),
{
    if without_cases.len() > 0 {
        push_str(t, "\nno cases.toml: ");
        let listed = crate::text::join(without_cases, ", ");
        push_str(t, listed.as_str());
        push_str(t, "\n");
    } else {
        assert(old(t)@ + uncased_spec(string_views(without_cases@)) =~= old(t)@);
    }
}

fn push_counts(t: &mut String, total: usize, passed: usize)
    requires
        passed <= total,
    ensures
        final(t)@ == old(t)@ + counts_spec(total as int, passed as int),
{
    push_str(t, "\n");
    push_count(t, total);
    push_str(t, " case");
    push_plural(t, total);
    push_str(t, ", ");
    push_count(t, passed);
    push_str(t, " passed, ");
    push_count(t, total - passed);
    push_str(t, " failed");
}

fn push_unloadable_count(t: &mut String, unloadable: usize)
    ensures
        final(t)@ == old(t)@ + unloadable_spec(unloadable as int),
{
    if unloadable == 0 {
        push_str(t, "\n");
    } else {
        push_str(t, "; ");
        push_count(t, unloadable);
        push_str(t, " node");
        push_plural(t, unloadable);
        push_str(t, " will not load\n");
    }
}

fn push_unloadable(t: &mut String, unloadable: &Vec<(String, String)>)
    ensures
        final(t)@ == old(t)@ + unloadable_lines(unloadable@),
{
    let mut i: usize = 0;
    while i < unloadable.len()
        invariant
            i <= unloadable@.len(),
            t@ == old(t)@ + unloadable_lines(unloadable@.take(i as int)),
        decreases unloadable@.len() - i,
    {
        push_str(t, unloadable[i].0.as_str());
        push_str(t, "\n  FAIL  will not load\n          ");
        push_str(t, unloadable[i].1.as_str());
        push_str(t, "\n");
        proof {
            assert(unloadable@.take(i + 1).drop_last() =~= unloadable@.take(i as int));
        }
        i = i + 1;
    }
    assert(unloadable@.take(i as int) =~= unloadable@);
}

/// The fixture report for stderr.
pub fn test_text(
    reports: &Vec<(String, Vec<Outcome>)>,
    without_cases: &Vec<String>,
    unloadable: &Vec<(String, String)>,
    total: usize,
    passed: usize,
) -> (t: String)
    requires
        passed <= total,
    ensures
        t@ == test_text_spec(reports@, string_views(without_cases@), unloadable@, total as int, passed as int),
{
    let mut t = String::new();
    let mut i: usize = 0;
    while i < reports.len()
        invariant
            i <= reports@.len(),
            t@ == report_lines(reports@.take(i as int)),
        decreases reports@.len() - i,
    {
        push_str(&mut t, reports[i].0.as_str());
        push_str(&mut t, "\n");
        push_outcomes(&mut t, &reports[i].1);
        proof {
            assert(reports@.take(i + 1).drop_last() =~= reports@.take(i as int));
        }
        i = i + 1;
    }
    assert(reports@.take(i as int) =~= reports@);
    push_unloadable(&mut t, unloadable);
    push_uncased(&mut t, without_cases);
    push_counts(&mut t, total, passed);
    push_unloadable_count(&mut t, unloadable.len());
    proof {
        assert(t@ =~= test_text_spec(reports@, string_views(without_cases@), unloadable@, total as int, passed as int));
    }
    t
}

/// A case's result as JSON.
pub open spec fn case_json(j: Json, o: Outcome) -> bool {
    j matches Json::Object(fs) && fs@.len() == 3 && fs@[0].0@ == "failures"@ && strings_are(
        fs@[0].1,
        string_views(o.failures@),
    ) && fs@[1].0@ == "name"@ && is_text(fs@[1].1, o.name@) && fs@[2].0@ == "passed"@ && fs@[2].1
        == Json::Bool(o.failures@.len() == 0)
}

/// A node's cases as JSON.
pub open spec fn node_json(j: Json, name: Seq<char>, outcomes: Seq<Outcome>) -> bool {
    j matches Json::Object(fs) && fs@.len() == 2 && fs@[0].0@ == "cases"@ && (fs@[0].1 matches Json::Array(
        v,
    ) && v@.len() == outcomes.len() && forall|k: int| 0 <= k < v@.len() ==> case_json(#[trigger] v@[k], outcomes[k]))
        && fs@[1].0@ == "node"@ && is_text(fs@[1].1, name)
}

/// The fixture report a program reads, its keys sorted.
pub open spec fn test_fields(
    fs: Seq<(String, Json)>,
    reports: Seq<(String, Vec<Outcome>)>,
    without_cases: Seq<Seq<char>>,
    unloadable: Seq<(String, String)>,
    total: int,
    passed: int,
) -> bool {
    &&& fs.len() == 6
    &&& fs[0].0@ == "cases"@ && fs[0].1 == number(total)
    &&& fs[1].0@ == "failed"@ && fs[1].1 == number(total - passed)
    &&& fs[2].0@ == "nodes"@ && (fs[2].1 matches Json::Array(v) && v@.len() == reports.len() && forall|k: int|
        0 <= k < v@.len() ==> node_json(#[trigger] v@[k], reports[k].0@, reports[k].1@))
    &&& fs[3].0@ == "passed"@ && fs[3].1 == number(passed)
    &&& fs[4].0@ == "unloadable"@ && (fs[4].1 matches Json::Array(v) && v@.len() == unloadable.len()
        && forall|k: int| 0 <= k < v@.len() ==> ((#[trigger] v@[k]) matches Json::Object(u) && u@.len() == 2
            && u@[0].0@ == "node"@ && is_text(u@[0].1, unloadable[k].0@) && u@[1].0@ == "reason"@
            && is_text(u@[1].1, unloadable[k].1@)))
    &&& fs[5].0@ == "without_cases"@ && strings_are(fs[5].1, without_cases)
}

fn node_report(name: &String, outcomes: &Vec<Outcome>) -> (j: Json)
    ensures
        node_json(j, name@, outcomes@),
{
    let mut cases: Vec<Json> = Vec::new();
    let mut i: usize = 0;
    while i < outcomes.len()
        invariant
            i <= outcomes@.len(),
            cases@.len() == i,
            forall|k: int| 0 <= k < i ==> case_json(#[trigger] cases@[k], outcomes@[k]),
        decreases outcomes@.len() - i,
    {
        let o = &outcomes[i];
        let mut fs: Vec<(String, Json)> = Vec::new();
        fs.push(entry("failures", strings(&o.failures)));
        fs.push(entry("name", Json::Str(o.name.clone())));
        fs.push(entry("passed", Json::Bool(o.passed())));
        cases.push(Json::Object(fs));
        i = i + 1;
    }
    let mut fs: Vec<(String, Json)> = Vec::new();
    fs.push(entry("cases", Json::Array(cases)));
    fs.push(entry("node", Json::Str(name.clone())));
    Json::Object(fs)
}

/// The fixture report as JSON.
pub fn test_json(
    reports: &Vec<(String, Vec<Outcome>)>,
    without_cases: &Vec<String>,
    unloadable: &Vec<(String, String)>,
    total: usize,
    passed: usize,
) -> (j: Json)
    requires
        passed <= total,
    ensures
        j matches Json::Object(fs) && test_fields(
            fs@,
            reports@,
            string_views(without_cases@),
            unloadable@,
            total as int,
            passed as int,
        ),
{
    let mut nodes: Vec<Json> = Vec::new();
    let mut i: usize = 0;
    while i < reports.len()
        invariant
            i <= reports@.len(),
            nodes@.len() == i,
            forall|k: int| 0 <= k < i ==> node_json(#[trigger] nodes@[k], reports@[k].0@, reports@[k].1@),
        decreases reports@.len() - i,
    {
        nodes.push(node_report(&reports[i].0, &reports[i].1));
        i = i + 1;
    }
    let mut broken: Vec<Json> = Vec::new();
    let mut i: usize = 0;
    while i < unloadable.len()
        invariant
            i <= unloadable@.len(),
            broken@.len() == i,
            forall|k: int| 0 <= k < i ==> ((#[trigger] broken@[k]) matches Json::Object(u) && u@.len() == 2
                && u@[0].0@ == "node"@ && is_text(u@[0].1, unloadable@[k].0@) && u@[1].0@ == "reason"@
                && is_text(u@[1].1, unloadable@[k].1@)),
        decreases unloadable@.len() - i,
    {
        let mut fs: Vec<(String, Json)> = Vec::new();
        fs.push(entry("node", Json::Str(unloadable[i].0.clone())));
        fs.push(entry("reason", Json::Str(unloadable[i].1.clone())));
        broken.push(Json::Object(fs));
        i = i + 1;
    }
    let mut fields: Vec<(String, Json)> = Vec::new();
    fields.push(entry("cases", count(total)));
    fields.push(entry("failed", count(total - passed)));
    fields.push(entry("nodes", Json::Array(nodes)));
    fields.push(entry("passed", count(passed)));
    fields.push(entry("unloadable", Json::Array(broken)));
    fields.push(entry("without_cases", strings(without_cases)));
    Json::Object(fields)
}

// -------------------------------------------------------------------------------- eval

/// Each distinct item, in the order it first appears.
pub open spec fn distinct(s: Seq<Seq<char>>) -> Seq<Seq<char>>
    decreases s.len(),
{
    if s.len() == 0 {
        seq![]
    } else {
        let d = distinct(s.drop_last());
        if d.contains(s.last()) {
            d
        } else {
            d.push(s.last())
        }
    }
}

/// The route a run took: how it ended and the nodes it called, in order.
pub open spec fn route_of(run: Run) -> Seq<char> {
    if run.calls@.len() == 0 {
        ending_label(run.ending) + ", no calls"@
    } else {
        ending_label(run.ending) + ": "@ + crate::text::join_spec(crate::eval::call_names(run.calls@), " → "@)
    }
}

pub open spec fn routes(runs: Seq<Run>) -> Seq<Seq<char>> {
    runs.map_values(|r: Run| route_of(r))
}

/// Every failure of every run, in order.
pub open spec fn all_failures(runs: Seq<Run>) -> Seq<Seq<char>>
    decreases runs.len(),
{
    if runs.len() == 0 {
        seq![]
    } else {
        all_failures(runs.drop_last()) + string_views(runs.last().failures@)
    }
}

/// How many runs passed.
pub open spec fn runs_passed(runs: Seq<Run>) -> int {
    runs.filter(|r: Run| r.failures@.len() == 0).len() as int
}

/// Lines indented under a case, one per item.
pub open spec fn indented(items: Seq<Seq<char>>, open: Seq<char>, close: Seq<char>) -> Seq<char>
    decreases items.len(),
{
    if items.len() == 0 {
        seq![]
    } else {
        indented(items.drop_last(), open, close) + "    "@ + open + items.last() + close + "\n"@
    }
}

/// One case's result as a person reads it: the question, how many runs passed, each distinct
/// route the runs took, and each distinct reason they failed. A rate that has dropped is
/// unactionable without knowing which node the agent went to instead; ten runs failing the
/// same way is one fact, and printing it ten times buries the run that failed differently.
pub open spec fn case_report_spec(ask: Seq<char>, runs: Seq<Run>) -> Seq<char> {
    ask + "\n  "@ + count_text(runs_passed(runs)) + "/"@ + count_text(runs.len() as int) + " runs passed\n"@
        + indented(distinct(routes(runs)), "["@, "]"@) + indented(distinct(all_failures(runs)), seq![], seq![])
        + "\n"@
}

fn contains_text(items: &Vec<String>, s: &String) -> (r: bool)
    ensures
        r == string_views(items@).contains(s@),
{
    let mut i: usize = 0;
    while i < items.len()
        invariant
            i <= items@.len(),
            forall|j: int| 0 <= j < i ==> items@[j]@ != s@,
        decreases items@.len() - i,
    {
        if crate::text::str_eq(items[i].as_str(), s.as_str()) {
            assert(string_views(items@)[i as int] == s@);
            return true;
        }
        i = i + 1;
    }
    proof {
        if string_views(items@).contains(s@) {
            let j = choose|j: int| 0 <= j < string_views(items@).len() && string_views(items@)[j] == s@;
            assert(items@[j]@ == s@);
        }
    }
    false
}

/// Adds `s` unless it is already there.
fn add_distinct(items: &mut Vec<String>, s: String)
    ensures
        string_views(final(items)@) == if string_views(old(items)@).contains(s@) {
            string_views(old(items)@)
        } else {
            string_views(old(items)@).push(s@)
        },
{
    if !contains_text(items, &s) {
        let ghost before = items@;
        items.push(s);
        assert(string_views(items@) =~= string_views(before).push(s@));
    }
}

fn route(run: &Run) -> (r: String)
    ensures
        r@ == route_of(*run),
{
    let mut r = owned(run.ending.label());
    if run.calls.len() == 0 {
        push_str(&mut r, ", no calls");
    } else {
        push_str(&mut r, ": ");
        let mut names: Vec<String> = Vec::new();
        let mut i: usize = 0;
        while i < run.calls.len()
            invariant
                i <= run.calls@.len(),
                string_views(names@) == crate::eval::call_names(run.calls@.take(i as int)),
            decreases run.calls@.len() - i,
        {
            let ghost before = names@;
            names.push(run.calls[i].0.clone());
            proof {
                assert(string_views(names@) =~= string_views(before).push(run.calls@[i as int].0@));
                assert(crate::eval::call_names(run.calls@.take(i + 1)) =~= crate::eval::call_names(
                    run.calls@.take(i as int),
                ).push(run.calls@[i as int].0@));
            }
            i = i + 1;
        }
        assert(run.calls@.take(i as int) =~= run.calls@);
        let listed = crate::text::join(&names, " → ");
        push_str(&mut r, listed.as_str());
    }
    r
}

fn push_indented(t: &mut String, items: &Vec<String>, open: &str, close: &str)
    ensures
        final(t)@ == old(t)@ + indented(string_views(items@), open@, close@),
{
    let mut i: usize = 0;
    while i < items.len()
        invariant
            i <= items@.len(),
            t@ == old(t)@ + indented(string_views(items@.take(i as int)), open@, close@),
        decreases items@.len() - i,
    {
        push_str(t, "    ");
        push_str(t, open);
        push_str(t, items[i].as_str());
        push_str(t, close);
        push_str(t, "\n");
        proof {
            assert(string_views(items@.take(i + 1)).drop_last() =~= string_views(items@.take(i as int)));
        }
        i = i + 1;
    }
    assert(items@.take(i as int) =~= items@);
}

/// One case's result for stderr, printed as soon as it is known.
pub fn case_report(ask: &str, runs: &Vec<Run>) -> (t: String)
    ensures
        t@ == case_report_spec(ask@, runs@),
{
    let ghost pred = |r: Run| r.failures@.len() == 0;
    let mut ok: usize = 0;
    let mut seen_routes: Vec<String> = Vec::new();
    let mut seen_failures: Vec<String> = Vec::new();
    let mut i: usize = 0;
    while i < runs.len()
        invariant
            i <= runs@.len(),
            pred == (|r: Run| r.failures@.len() == 0),
            ok == runs@.take(i as int).filter(pred).len(),
            string_views(seen_routes@) == distinct(routes(runs@.take(i as int))),
            string_views(seen_failures@) == distinct(all_failures(runs@.take(i as int))),
        decreases runs@.len() - i,
    {
        let run = &runs[i];
        proof {
            assert(runs@.take(i + 1) =~= runs@.take(i as int).push(runs@[i as int]));
            runs@.take(i as int).lemma_filter_push(runs@[i as int], pred);
            runs@.take(i as int).lemma_filter_len(pred);
        }
        if run.passed() {
            ok = ok + 1;
        }
        let r = route(run);
        add_distinct(&mut seen_routes, r);
        proof {
            assert(routes(runs@.take(i + 1)).drop_last() =~= routes(runs@.take(i as int)));
        }
        let ghost before = all_failures(runs@.take(i as int));
        let mut k: usize = 0;
        while k < run.failures.len()
            invariant
                k <= run.failures@.len(),
                string_views(seen_failures@) == distinct(before + string_views(run.failures@.take(k as int))),
            decreases run.failures@.len() - k,
        {
            add_distinct(&mut seen_failures, run.failures[k].clone());
            proof {
                assert((before + string_views(run.failures@.take(k + 1))).drop_last() =~= before + string_views(
                    run.failures@.take(k as int),
                ));
            }
            k = k + 1;
        }
        proof {
            assert(run.failures@.take(k as int) =~= run.failures@);
            assert(all_failures(runs@.take(i + 1)) =~= before + string_views(run.failures@)) by {
                assert(runs@.take(i + 1).drop_last() =~= runs@.take(i as int));
            }
        }
        i = i + 1;
    }
    assert(runs@.take(i as int) =~= runs@);
    let mut t = owned(ask);
    push_str(&mut t, "\n  ");
    push_count(&mut t, ok);
    push_str(&mut t, "/");
    push_count(&mut t, runs.len());
    push_str(&mut t, " runs passed\n");
    push_indented(&mut t, &seen_routes, "[", "]");
    push_indented(&mut t, &seen_failures, "", "");
    push_str(&mut t, "\n");
    proof {
        reveal_strlit("");
        assert(""@ =~= Seq::<char>::empty());
    }
    t
}

/// The line a suite run opens with.
pub open spec fn eval_header_spec(path: Seq<char>, cases: int, runs: int) -> Seq<char> {
    "suite: "@ + path + " ("@ + count_text(cases) + " case"@ + plural(cases) + ", "@ + count_text(runs) + " run"@
        + plural(runs) + " each)\n\n"@
}

pub fn eval_header(path: &str, cases: usize, runs: usize) -> (t: String)
    ensures
        t@ == eval_header_spec(path@, cases as int, runs as int),
{
    let mut t = owned("suite: ");
    push_str(&mut t, path);
    push_str(&mut t, " (");
    push_count(&mut t, cases);
    push_str(&mut t, " case");
    push_plural(&mut t, cases);
    push_str(&mut t, ", ");
    push_count(&mut t, runs);
    push_str(&mut t, " run");
    push_plural(&mut t, runs);
    push_str(&mut t, " each)\n\n");
    t
}

/// There is no suite where one was looked for.
pub fn missing_suite(path: &str) -> (e: VouchError)
    ensures
        e.outcome == crate::error::Outcome::Error,
        e.code == TEST_ERROR,
        e.reason@ == "no eval suite at "@ + path@ + "; write one, or name it with --file"@,
{
    let mut r = owned("no eval suite at ");
    push_str(&mut r, path);
    push_str(&mut r, "; write one, or name it with --file");
    VouchError::error(r).with_code(TEST_ERROR)
}

/// Why a suite that loaded cannot be run, if it cannot: it has no cases, or each case is to
/// run no times.
pub fn unrunnable(path: &str, cases: usize, runs: usize) -> (r: Option<VouchError>)
    ensures
        cases == 0 ==> (r matches Some(e) && e.code == TEST_ERROR && e.reason@ == path@
            + " declares no [[eval]] cases; there is nothing to run"@),
        cases > 0 && runs == 0 ==> (r matches Some(e) && e.code == TEST_ERROR && e.reason@
            == "-n must be at least 1"@),
        cases > 0 && runs > 0 ==> r is None,
        r matches Some(e) ==> e.outcome == crate::error::Outcome::Error,
{
    if cases == 0 {
        let mut m = owned(path);
        push_str(&mut m, " declares no [[eval]] cases; there is nothing to run");
        return Some(VouchError::error(m).with_code(TEST_ERROR));
    }
    if runs == 0 {
        return Some(VouchError::error(owned("-n must be at least 1")).with_code(TEST_ERROR));
    }
    None
}

/// What is said when an agent command stops working mid-suite: which case, how much had
/// completed, and that no rate follows, because a suite that dies on its last case must not
/// read the same as one that died on its first.
pub open spec fn cut_short_spec(case: int, cases: int, complete: int) -> Seq<char> {
    "run cut short in case "@ + count_text(case + 1) + " of "@ + count_text(cases) + ", after "@
        + count_text(complete) + " of "@ + count_text(cases) + " complete case"@ + plural(complete)
        + ". No rate is reported: the cases below are what ran, not the suite.\n"@
}

pub fn cut_short(case: usize, cases: usize, complete: usize) -> (t: String)
    requires
        case < cases,
    ensures
        t@ == cut_short_spec(case as int, cases as int, complete as int),
{
    let mut t = owned("run cut short in case ");
    push_count(&mut t, case + 1);
    push_str(&mut t, " of ");
    push_count(&mut t, cases);
    push_str(&mut t, ", after ");
    push_count(&mut t, complete);
    push_str(&mut t, " of ");
    push_count(&mut t, cases);
    push_str(&mut t, " complete case");
    push_plural(&mut t, complete);
    push_str(&mut t, ". No rate is reported: the cases below are what ran, not the suite.\n");
    t
}

/// What a suite cost, in the only unit the command can count, and what it skipped.
pub open spec fn cost_lines_spec(spent: int, skipped: int) -> Seq<char> {
    "\n"@ + count_text(spent) + " agent call(s) made.\n"@ + if skipped > 0 {
        count_text(skipped) + " run(s) were skipped as already finished and are not scored.\n"@
    } else {
        seq![]
    }
}

pub fn cost_lines(spent: usize, skipped: usize) -> (t: String)
    ensures
        t@ == cost_lines_spec(spent as int, skipped as int),
{
    let mut t = owned("\n");
    push_count(&mut t, spent);
    push_str(&mut t, " agent call(s) made.\n");
    if skipped > 0 {
        push_count(&mut t, skipped);
        push_str(&mut t, " run(s) were skipped as already finished and are not scored.\n");
    }
    t
}

/// How many runs of a suite there were, and how many passed.
pub open spec fn suite_runs(results: Seq<(usize, Vec<Run>)>) -> int
    decreases results.len(),
{
    if results.len() == 0 {
        0
    } else {
        suite_runs(results.drop_last()) + results.last().1@.len()
    }
}

pub open spec fn suite_passed(results: Seq<(usize, Vec<Run>)>) -> int
    decreases results.len(),
{
    if results.len() == 0 {
        0
    } else {
        suite_passed(results.drop_last()) + runs_passed(results.last().1@)
    }
}

proof fn lemma_suite_passed_within(results: Seq<(usize, Vec<Run>)>)
    ensures
        0 <= suite_passed(results) <= suite_runs(results),
    decreases results.len(),
{
    if results.len() > 0 {
        lemma_suite_passed_within(results.drop_last());
        results.last().1@.lemma_filter_len(|r: Run| r.failures@.len() == 0);
    }
}

proof fn lemma_suite_runs_grow(results: Seq<(usize, Vec<Run>)>, i: int)
    requires
        0 <= i <= results.len(),
    ensures
        suite_runs(results.take(i)) <= suite_runs(results),
    decreases results.len() - i,
{
    if i < results.len() {
        lemma_suite_runs_grow(results, i + 1);
        assert(results.take(i + 1).drop_last() =~= results.take(i));
    } else {
        assert(results.take(i) =~= results);
    }
}

fn count_runs_passed(runs: &Vec<Run>) -> (n: usize)
    ensures
        n == runs_passed(runs@),
{
    let ghost pred = |r: Run| r.failures@.len() == 0;
    let mut n: usize = 0;
    let mut i: usize = 0;
    while i < runs.len()
        invariant
            i <= runs@.len(),
            pred == (|r: Run| r.failures@.len() == 0),
            n == runs@.take(i as int).filter(pred).len(),
        decreases runs@.len() - i,
    {
        proof {
            assert(runs@.take(i + 1) =~= runs@.take(i as int).push(runs@[i as int]));
            runs@.take(i as int).lemma_filter_push(runs@[i as int], pred);
            runs@.take(i as int).lemma_filter_len(pred);
        }
        if runs[i].passed() {
            n = n + 1;
        }
        i = i + 1;
    }
    assert(runs@.take(i as int) =~= runs@);
    n
}

/// How many runs a suite made, and how many passed: the rate's two halves.
pub fn eval_totals(results: &Vec<(usize, Vec<Run>)>) -> (r: (usize, usize))
    requires
        suite_runs(results@) <= usize::MAX,
    ensures
        r.0 == suite_runs(results@),
        r.1 == suite_passed(results@),
        r.1 <= r.0,
{
    let mut total: usize = 0;
    let mut passed: usize = 0;
    let mut i: usize = 0;
    while i < results.len()
        invariant
            i <= results@.len(),
            suite_runs(results@) <= usize::MAX,
            total == suite_runs(results@.take(i as int)),
            passed == suite_passed(results@.take(i as int)),
        decreases results@.len() - i,
    {
        proof {
            assert(results@.take(i + 1).drop_last() =~= results@.take(i as int));
            lemma_suite_runs_grow(results@, i + 1);
            lemma_suite_passed_within(results@.take(i + 1));
        }
        total = total + results[i].1.len();
        passed = passed + count_runs_passed(&results[i].1);
        i = i + 1;
    }
    assert(results@.take(i as int) =~= results@);
    proof {
        lemma_suite_passed_within(results@);
    }
    (total, passed)
}

/// A call a run made, as JSON.
pub open spec fn call_json(j: Json, call: (String, Json)) -> bool {
    j matches Json::Object(fs) && fs@.len() == 2 && fs@[0].0@ == "input"@ && crate::json::same_json(
        call.1,
        fs@[0].1,
    ) && fs@[1].0@ == "node"@ && is_text(fs@[1].1, call.0@)
}

/// One run, as JSON: its answer, its calls, how it ended, and whether and why it failed.
pub open spec fn run_json(j: Json, run: Run) -> bool {
    j matches Json::Object(fs) && fs@.len() == 5 && fs@[0].0@ == "answer"@ && match run.answer {
        Some(a) => is_text(fs@[0].1, a@),
        None => fs@[0].1 is Null,
    } && fs@[1].0@ == "calls"@ && (fs@[1].1 matches Json::Array(v) && v@.len() == run.calls@.len()
        && forall|k: int| 0 <= k < v@.len() ==> call_json(#[trigger] v@[k], run.calls@[k])) && fs@[2].0@
        == "ending"@ && is_text(fs@[2].1, ending_label(run.ending)) && fs@[3].0@ == "failures"@
        && strings_are(fs@[3].1, string_views(run.failures@)) && fs@[4].0@ == "passed"@ && fs@[4].1
        == Json::Bool(run.failures@.len() == 0)
}

/// One case's runs, as JSON.
pub open spec fn eval_case_json(j: Json, ask: Seq<char>, runs: Seq<Run>) -> bool {
    j matches Json::Object(fs) && fs@.len() == 5 && fs@[0].0@ == "ask"@ && is_text(fs@[0].1, ask)
        && fs@[1].0@ == "failures"@ && strings_are(fs@[1].1, all_failures(runs)) && fs@[2].0@ == "passed"@
        && fs@[2].1 == number(runs_passed(runs)) && fs@[3].0@ == "runs"@ && fs@[3].1 == number(
        runs.len() as int,
    ) && fs@[4].0@ == "runs_detail"@ && (fs@[4].1 matches Json::Array(v) && v@.len() == runs.len()
        && forall|k: int| 0 <= k < v@.len() ==> run_json(#[trigger] v@[k], runs[k]))
}

fn run_report(run: &Run) -> (j: Json)
    ensures
        run_json(j, *run),
{
    let mut calls: Vec<Json> = Vec::new();
    let mut i: usize = 0;
    while i < run.calls.len()
        invariant
            i <= run.calls@.len(),
            calls@.len() == i,
            forall|k: int| 0 <= k < i ==> call_json(#[trigger] calls@[k], run.calls@[k]),
        decreases run.calls@.len() - i,
    {
        let mut fs: Vec<(String, Json)> = Vec::new();
        fs.push(entry("input", run.calls[i].1.copy()));
        fs.push(entry("node", Json::Str(run.calls[i].0.clone())));
        calls.push(Json::Object(fs));
        i = i + 1;
    }
    let mut fs: Vec<(String, Json)> = Vec::new();
    fs.push(entry("answer", match &run.answer {
        Some(a) => Json::Str(a.clone()),
        None => Json::Null,
    }));
    fs.push(entry("calls", Json::Array(calls)));
    fs.push(entry("ending", text(run.ending.label())));
    fs.push(entry("failures", strings(&run.failures)));
    fs.push(entry("passed", Json::Bool(run.passed())));
    Json::Object(fs)
}

fn eval_case_report(ask: &String, runs: &Vec<Run>) -> (j: Json)
    ensures
        eval_case_json(j, ask@, runs@),
{
    let mut failures: Vec<String> = Vec::new();
    let mut detail: Vec<Json> = Vec::new();
    let mut i: usize = 0;
    while i < runs.len()
        invariant
            i <= runs@.len(),
            string_views(failures@) == all_failures(runs@.take(i as int)),
            detail@.len() == i,
            forall|k: int| 0 <= k < i ==> run_json(#[trigger] detail@[k], runs@[k]),
        decreases runs@.len() - i,
    {
        let run = &runs[i];
        let ghost before = failures@;
        let mut k: usize = 0;
        while k < run.failures.len()
            invariant
                k <= run.failures@.len(),
                string_views(failures@) == string_views(before) + string_views(run.failures@.take(k as int)),
            decreases run.failures@.len() - k,
        {
            let ghost b = failures@;
            failures.push(run.failures[k].clone());
            proof {
                assert(string_views(failures@) =~= string_views(b).push(run.failures@[k as int]@));
                assert(string_views(run.failures@.take(k + 1)) =~= string_views(run.failures@.take(k as int)).push(
                    run.failures@[k as int]@,
                ));
            }
            k = k + 1;
        }
        proof {
            assert(run.failures@.take(k as int) =~= run.failures@);
            assert(runs@.take(i + 1).drop_last() =~= runs@.take(i as int));
        }
        detail.push(run_report(run));
        i = i + 1;
    }
    assert(runs@.take(i as int) =~= runs@);
    let mut fs: Vec<(String, Json)> = Vec::new();
    fs.push(entry("ask", Json::Str(ask.clone())));
    fs.push(entry("failures", strings(&failures)));
    fs.push(entry("passed", count(count_runs_passed(runs))));
    fs.push(entry("runs", count(runs.len())));
    fs.push(entry("runs_detail", Json::Array(detail)));
    Json::Object(fs)
}

/// The suite report a program reads, its keys sorted. `rate` and `min_rate` are carried as
/// given: the rate is a ratio the caller computed, and the floor is what the user asked for.
pub open spec fn eval_fields(
    fs: Seq<(String, Json)>,
    suite: Seq<char>,
    asks: Seq<Seq<char>>,
    results: Seq<(usize, Vec<Run>)>,
    runs: int,
    total: int,
    passed: int,
    rate: Json,
    min_rate: Json,
) -> bool {
    &&& fs.len() == 7
    &&& fs[0].0@ == "cases"@ && (fs[0].1 matches Json::Array(v) && v@.len() == results.len() && forall|k: int|
        0 <= k < v@.len() ==> eval_case_json(#[trigger] v@[k], asks[results[k].0 as int], results[k].1@))
    &&& fs[1].0@ == "min_rate"@ && fs[1].1 == min_rate
    &&& fs[2].0@ == "passed"@ && fs[2].1 == number(passed)
    &&& fs[3].0@ == "rate"@ && fs[3].1 == rate
    &&& fs[4].0@ == "runs"@ && fs[4].1 == number(runs)
    &&& fs[5].0@ == "suite"@ && is_text(fs[5].1, suite)
    &&& fs[6].0@ == "total"@ && fs[6].1 == number(total)
}

/// The suite report as JSON: each case's question, its pass count, every failure, and what
/// each run did.
pub fn eval_json(
    suite: &str,
    asks: &Vec<String>,
    results: &Vec<(usize, Vec<Run>)>,
    runs: usize,
    total: usize,
    passed: usize,
    rate: Json,
    min_rate: Json,
) -> (j: Json)
    requires
        forall|k: int| 0 <= k < results@.len() ==> (#[trigger] results@[k]).0 < asks@.len(),
    ensures
        j matches Json::Object(fs) && eval_fields(
            fs@,
            suite@,
            string_views(asks@),
            results@,
            runs as int,
            total as int,
            passed as int,
            rate,
            min_rate,
        ),
{
    let mut cases: Vec<Json> = Vec::new();
    let mut i: usize = 0;
    while i < results.len()
        invariant
            i <= results@.len(),
            forall|k: int| 0 <= k < results@.len() ==> (#[trigger] results@[k]).0 < asks@.len(),
            cases@.len() == i,
            forall|k: int| 0 <= k < i ==> eval_case_json(
                #[trigger] cases@[k],
                string_views(asks@)[results@[k].0 as int],
                results@[k].1@,
            ),
        decreases results@.len() - i,
    {
        let idx = results[i].0;
        assert(results@[i as int].0 < asks@.len());
        cases.push(eval_case_report(&asks[idx], &results[i].1));
        i = i + 1;
    }
    let mut fields: Vec<(String, Json)> = Vec::new();
    fields.push(entry("cases", Json::Array(cases)));
    fields.push(entry("min_rate", min_rate));
    fields.push(entry("passed", count(passed)));
    fields.push(entry("rate", rate));
    fields.push(entry("runs", count(runs)));
    fields.push(entry("suite", text(suite)));
    fields.push(entry("total", count(total)));
    Json::Object(fields)
}

// ---------------------------------------------------------------------------- describe

/// Enough to pick a node, and nothing to call one with: prose a person or a model chooses by.
pub open spec fn index_fields(fs: Seq<(String, Json)>, node: Node) -> bool {
    let m = node.manifest;
    &&& fs.len() == 4
    &&& fs[0].0@ == "node"@ && is_text(fs[0].1, m.name@)
    &&& fs[1].0@ == "not_for"@ && strings_are(fs[1].1, string_views(m.not_for@))
    &&& fs[2].0@ == "purpose"@ && is_text(fs[2].1, m.purpose@)
    &&& fs[3].0@ == "use_when"@ && strings_are(fs[3].1, string_views(m.use_when@))
}

/// A node's index entry, for a caller that wants a shortlist before it reads any schema.
pub fn index_json(node: &Node) -> (j: Json)
    ensures
        j matches Json::Object(fs) && index_fields(fs@, *node),
{
    let m = &node.manifest;
    let mut fields: Vec<(String, Json)> = Vec::new();
    fields.push(entry("node", Json::Str(m.name.clone())));
    fields.push(entry("not_for", strings(&m.not_for)));
    fields.push(entry("purpose", Json::Str(m.purpose.clone())));
    fields.push(entry("use_when", strings(&m.use_when)));
    Json::Object(fields)
}

/// A contract as JSON: its expression, and its message when it has one.
pub open spec fn contract_fields(j: Json, c: Contract) -> bool {
    j matches Json::Object(fs) && fs@.len() >= 1 && fs@[0].0@ == "expr"@ && is_text(fs@[0].1, c.source@)
        && match c.message {
        Some(m) => fs@.len() == 2 && fs@[1].0@ == "message"@ && is_text(fs@[1].1, m@),
        None => fs@.len() == 1,
    }
}

pub fn contract_json(contract: &Contract) -> (j: Json)
    ensures
        contract_fields(j, *contract),
{
    let mut fields: Vec<(String, Json)> = Vec::new();
    fields.push(entry("expr", Json::Str(contract.source.clone())));
    match &contract.message {
        Some(m) => fields.push(entry("message", Json::Str(m.clone()))),
        None => {},
    }
    Json::Object(fields)
}

fn contracts_json(contracts: &Vec<Contract>) -> (j: Json)
    ensures
        j matches Json::Array(v) && v@.len() == contracts@.len() && forall|k: int|
            0 <= k < v@.len() ==> contract_fields(#[trigger] v@[k], contracts@[k]),
{
    let mut v: Vec<Json> = Vec::new();
    let mut i: usize = 0;
    while i < contracts.len()
        invariant
            i <= contracts@.len(),
            v@.len() == i,
            forall|k: int| 0 <= k < i ==> contract_fields(#[trigger] v@[k], contracts@[k]),
        decreases contracts@.len() - i,
    {
        v.push(contract_json(&contracts[i]));
        i = i + 1;
    }
    Json::Array(v)
}

/// A worked example as JSON.
pub open spec fn example_fields(j: Json, e: Example) -> bool {
    j matches Json::Object(fs) && fs@.len() == 2 && fs@[0].0@ == "ask"@ && is_text(fs@[0].1, e.ask@)
        && fs@[1].0@ == "call"@ && same_json(e.call, fs@[1].1)
}

fn example_json(e: &Example) -> (j: Json)
    ensures
        example_fields(j, *e),
{
    let mut fs: Vec<(String, Json)> = Vec::new();
    fs.push(entry("ask", Json::Str(e.ask.clone())));
    fs.push(entry("call", e.call.copy()));
    Json::Object(fs)
}

/// The first `limit` examples, as JSON.
fn examples_json(examples: &Vec<Example>, limit: usize) -> (j: Json)
    ensures
        j matches Json::Array(v) && v@.len() == (if examples@.len() < limit { examples@.len() } else { limit as nat })
            && forall|k: int| 0 <= k < v@.len() ==> example_fields(#[trigger] v@[k], examples@[k]),
{
    let mut v: Vec<Json> = Vec::new();
    let mut i: usize = 0;
    while i < examples.len() && i < limit
        invariant
            i <= examples@.len(),
            i <= limit,
            v@.len() == i,
            forall|k: int| 0 <= k < i ==> example_fields(#[trigger] v@[k], examples@[k]),
        decreases examples@.len() - i,
    {
        v.push(example_json(&examples[i]));
        i = i + 1;
    }
    Json::Array(v)
}

/// Whether `j` is an array of copies of `items`.
pub open spec fn copies(j: Json, items: Seq<Json>) -> bool {
    j matches Json::Array(v) && v@.len() == items.len() && forall|k: int|
        0 <= k < items.len() ==> same_json(items[k], #[trigger] v@[k])
}

fn copy_all(items: &Vec<Json>) -> (j: Json)
    ensures
        copies(j, items@),
{
    let mut v: Vec<Json> = Vec::new();
    let mut i: usize = 0;
    while i < items.len()
        invariant
            i <= items@.len(),
            v@.len() == i,
            forall|k: int| 0 <= k < i ==> same_json(items@[k], #[trigger] v@[k]),
        decreases items@.len() - i,
    {
        v.push(items[i].copy());
        i = i + 1;
    }
    Json::Array(v)
}

/// A parameter's guidance as JSON.
pub open spec fn param_fields(j: Json, p: Param) -> bool {
    j matches Json::Object(fs) && fs@.len() == 3 && fs@[0].0@ == "guidance"@ && is_text(fs@[0].1, p.guidance@)
        && fs@[1].0@ == "judgement"@ && fs@[1].1 == Json::Bool(p.judgement) && fs@[2].0@ == "options"@
        && copies(fs@[2].1, p.options@)
}

/// The numeric fields of a node's output, as `result.…` paths.
pub open spec fn numeric_fields(node: Node) -> Seq<Seq<char>> {
    crate::schema::numeric_leaves(node.output_schema, node.output_schema, "result"@, 0)
}

/// The numeric output fields no postcondition mentions.
pub open spec fn unchecked_fields(node: Node) -> Seq<Seq<char>> {
    crate::manifest::unreferenced(numeric_fields(node), crate::manifest::joined_sources(node.ensures@, 0))
}

/// How much a node's postconditions check, as JSON.
pub open spec fn strength_fields(j: Json, node: Node) -> bool {
    j matches Json::Object(fs) && fs@.len() == 4 && fs@[0].0@ == "ensures"@ && fs@[0].1 == number(
        node.ensures@.len() as int,
    ) && fs@[1].0@ == "numeric_fields_referenced"@ && fs@[1].1 == number(
        numeric_fields(node).len() - unchecked_fields(node).len(),
    ) && fs@[2].0@ == "numeric_output_fields"@ && fs@[2].1 == number(numeric_fields(node).len() as int)
        && fs@[3].0@ == "unreferenced_numeric_fields"@ && strings_are(fs@[3].1, unchecked_fields(node))
}

/// Everything about a node, for a program: routing prose, parameters, both schemas, the
/// contracts, how much they check, what it reads, its timeout and examples.
pub open spec fn describe_fields(fs: Seq<(String, Json)>, node: Node) -> bool {
    let m = node.manifest;
    &&& fs.len() == 14
    &&& fs[0].0@ == "contract_strength"@ && strength_fields(fs[0].1, node)
    &&& fs[1].0@ == "ensures"@ && (fs[1].1 matches Json::Array(v) && v@.len() == node.ensures@.len()
        && forall|k: int| 0 <= k < v@.len() ==> contract_fields(#[trigger] v@[k], node.ensures@[k]))
    &&& fs[2].0@ == "examples"@ && (fs[2].1 matches Json::Array(v) && v@.len() == m.examples@.len()
        && forall|k: int| 0 <= k < v@.len() ==> example_fields(#[trigger] v@[k], m.examples@[k]))
    &&& fs[3].0@ == "input_schema"@ && same_json(node.input_schema, fs[3].1)
    &&& fs[4].0@ == "name"@ && is_text(fs[4].1, m.name@)
    &&& fs[5].0@ == "not_for"@ && strings_are(fs[5].1, string_views(m.not_for@))
    &&& fs[6].0@ == "output_schema"@ && same_json(node.output_schema, fs[6].1)
    &&& fs[7].0@ == "params"@ && (fs[7].1 matches Json::Object(ps) && ps@.len() == m.params@.len()
        && forall|k: int| 0 <= k < ps@.len() ==> (#[trigger] ps@[k]).0@ == m.params@[k].0@ && param_fields(
            ps@[k].1,
            m.params@[k].1,
        ))
    &&& fs[8].0@ == "purpose"@ && is_text(fs[8].1, m.purpose@)
    &&& fs[9].0@ == "reads"@ && (fs[9].1 matches Json::Array(v) && v@.len() == m.reads@.len() && forall|k: int|
        0 <= k < v@.len() ==> ((#[trigger] v@[k]) matches Json::Object(r) && r@.len() == 1 && r@[0].0@ == "path"@
            && is_text(r@[0].1, m.reads@[k].path@)))
    &&& fs[10].0@ == "requires"@ && (fs[10].1 matches Json::Array(v) && v@.len() == node.requires@.len()
        && forall|k: int| 0 <= k < v@.len() ==> contract_fields(#[trigger] v@[k], node.requires@[k]))
    &&& fs[11].0@ == "timeout_ms"@ && fs[11].1 == number(m.timeout_ms as int)
    &&& fs[12].0@ == "use_when"@ && strings_are(fs[12].1, string_views(m.use_when@))
    &&& fs[13].0@ == "version"@ && is_text(fs[13].1, m.version@)
}

/// A node described in full, for `describe --json`.
pub fn describe_json(node: &Node) -> (j: Json)
    ensures
        j matches Json::Object(fs) && describe_fields(fs@, *node),
{
    let m = &node.manifest;
    let strength = node.strength();
    let mut sf: Vec<(String, Json)> = Vec::new();
    sf.push(entry("ensures", count(strength.ensures)));
    sf.push(entry("numeric_fields_referenced", count(strength.numeric_fields_referenced)));
    sf.push(entry("numeric_output_fields", count(strength.numeric_output_fields)));
    sf.push(entry("unreferenced_numeric_fields", strings(&strength.unreferenced_numeric_fields)));
    let mut params: Vec<(String, Json)> = Vec::new();
    let mut i: usize = 0;
    while i < m.params.len()
        invariant
            i <= m.params@.len(),
            params@.len() == i,
            forall|k: int| 0 <= k < i ==> (#[trigger] params@[k]).0@ == m.params@[k].0@ && param_fields(
                params@[k].1,
                m.params@[k].1,
            ),
        decreases m.params@.len() - i,
    {
        let p = &m.params[i].1;
        let mut pf: Vec<(String, Json)> = Vec::new();
        pf.push(entry("guidance", Json::Str(p.guidance.clone())));
        pf.push(entry("judgement", Json::Bool(p.judgement)));
        pf.push(entry("options", copy_all(&p.options)));
        params.push((m.params[i].0.clone(), Json::Object(pf)));
        i = i + 1;
    }
    let mut reads: Vec<Json> = Vec::new();
    let mut i: usize = 0;
    while i < m.reads.len()
        invariant
            i <= m.reads@.len(),
            reads@.len() == i,
            forall|k: int| 0 <= k < i ==> ((#[trigger] reads@[k]) matches Json::Object(r) && r@.len() == 1
                && r@[0].0@ == "path"@ && is_text(r@[0].1, m.reads@[k].path@)),
        decreases m.reads@.len() - i,
    {
        let mut r: Vec<(String, Json)> = Vec::new();
        r.push(entry("path", Json::Str(m.reads[i].path.clone())));
        reads.push(Json::Object(r));
        i = i + 1;
    }
    let mut fields: Vec<(String, Json)> = Vec::new();
    fields.push(entry("contract_strength", Json::Object(sf)));
    fields.push(entry("ensures", contracts_json(&node.ensures)));
    fields.push(entry("examples", examples_json(&m.examples, m.examples.len())));
    fields.push(entry("input_schema", node.input_schema.copy()));
    fields.push(entry("name", Json::Str(m.name.clone())));
    fields.push(entry("not_for", strings(&m.not_for)));
    fields.push(entry("output_schema", node.output_schema.copy()));
    fields.push(entry("params", Json::Object(params)));
    fields.push(entry("purpose", Json::Str(m.purpose.clone())));
    fields.push(entry("reads", Json::Array(reads)));
    fields.push(entry("requires", contracts_json(&node.requires)));
    fields.push(entry("timeout_ms", Json::Number(crate::decimal::Decimal::from_u64(m.timeout_ms))));
    fields.push(entry("use_when", strings(&m.use_when)));
    fields.push(entry("version", Json::Str(m.version.clone())));
    Json::Object(fields)
}

// ------------------------------------------------------------------------------ compact

/// The description a property ends up with, from the description it had and the author's
/// guidance, both trimmed: neither is dropped where they say different things, because those
/// strings are where the traps are recorded.
pub open spec fn merged_description(described: Seq<char>, guidance: Seq<char>) -> Seq<char> {
    if described.len() == 0 || crate::text::contains_text(guidance, described) {
        guidance
    } else if crate::text::contains_text(described, guidance) {
        described
    } else {
        described + " "@ + guidance
    }
}

/// The description a property's fields carry, trimmed; nothing when it has none.
pub open spec fn described(fields: Seq<(String, Json)>) -> Seq<char> {
    match crate::json::field(fields, "description"@) {
        Some(Json::Str(d)) => crate::text::trimmed(d@),
        _ => seq![],
    }
}

/// The first index from `i` on of a field named `key`.
pub open spec fn first_key(fields: Seq<(String, Json)>, key: Seq<char>, i: int) -> Option<int>
    decreases fields.len() - i,
{
    if i < 0 || i >= fields.len() {
        None
    } else if fields[i].0@ == key {
        Some(i)
    } else {
        first_key(fields, key, i + 1)
    }
}

/// `new` is `old` with its `description` set to `text`: in place where it had one, after
/// everything else where it did not.
pub open spec fn redescribed(old: Seq<(String, Json)>, new: Seq<(String, Json)>, text: Seq<char>) -> bool {
    match first_key(old, "description"@, 0) {
        Some(i) => {
            &&& new.len() == old.len()
            &&& forall|j: int| 0 <= j < old.len() && j != i ==> (#[trigger] new[j]).0@ == old[j].0@ && same_json(
                old[j].1,
                new[j].1,
            )
            &&& new[i].0@ == "description"@ && is_text(new[i].1, text)
        },
        None => {
            &&& new.len() == old.len() + 1
            &&& forall|j: int| 0 <= j < old.len() ==> (#[trigger] new[j]).0@ == old[j].0@ && same_json(old[j].1, new[j].1)
            &&& new[old.len() as int].0@ == "description"@ && is_text(new[old.len() as int].1, text)
        },
    }
}

/// What becomes of one property of the input schema: where the author wrote guidance for the
/// parameter it describes, the guidance is folded into its description.
pub open spec fn folded_property(name: Seq<char>, old: Json, new: Json, params: Seq<(String, Param)>) -> bool {
    match (crate::markdown::param_guidance(params, name), old) {
        (Some(g), Json::Object(pf)) => if crate::text::trimmed(g).len() > 0 {
            new matches Json::Object(nf) && redescribed(
                pf@,
                nf@,
                merged_description(described(pf@), crate::text::trimmed(g)),
            )
        } else {
            same_json(old, new)
        },
        _ => same_json(old, new),
    }
}

/// What becomes of the schema's `properties`.
pub open spec fn folded_properties(old: Json, new: Json, params: Seq<(String, Param)>) -> bool {
    match old {
        Json::Object(op) => new matches Json::Object(np) && np@.len() == op@.len() && forall|k: int|
            0 <= k < op@.len() ==> (#[trigger] np@[k]).0@ == op@[k].0@ && folded_property(
                op@[k].0@,
                op@[k].1,
                np@[k].1,
                params,
            ),
        _ => same_json(old, new),
    }
}

/// Whether a top-level key of the input schema is kept: `$schema` and `title` are for a
/// validator and a documentation generator, and nothing routing reads them.
pub open spec fn kept_key(f: (String, Json)) -> bool {
    f.0@ != "$schema"@ && f.0@ != "title"@
}

/// The input schema as a router sees it: without `$schema` and `title`, and with each
/// parameter's guidance folded into its property's description.
pub open spec fn compact_schema(old: Json, new: Json, params: Seq<(String, Param)>) -> bool {
    match old {
        Json::Object(of) => {
            let kept = of@.filter(|f: (String, Json)| kept_key(f));
            new matches Json::Object(nf) && nf@.len() == kept.len() && forall|k: int|
                0 <= k < kept.len() ==> (#[trigger] nf@[k]).0@ == kept[k].0@ && if kept[k].0@ == "properties"@ {
                    folded_properties(kept[k].1, nf@[k].1, params)
                } else {
                    same_json(kept[k].1, nf@[k].1)
                }
        },
        _ => same_json(old, new),
    }
}

/// Which parameters a node will not decide, and what to offer for each: a router that knows
/// before calling can ask once.
pub open spec fn judgement_params(params: Seq<(String, Param)>) -> Seq<(String, Param)> {
    params.filter(|p: (String, Param)| p.1.judgement)
}

/// One node's routing entry, with everything a router does not read taken out: the schema's
/// `$schema` and `title`, the guidance that duplicates a description, every example after the
/// first, and the contracts, output schema, reads and timeout.
pub open spec fn compact_fields(fs: Seq<(String, Json)>, node: Node) -> bool {
    let m = node.manifest;
    let judged = judgement_params(m.params@);
    &&& fs.len() == 7
    &&& fs[0].0@ == "examples"@ && (fs[0].1 matches Json::Array(v) && v@.len() == (if m.examples@.len() == 0 {
        0nat
    } else {
        1nat
    }) && forall|k: int| 0 <= k < v@.len() ==> example_fields(#[trigger] v@[k], m.examples@[k]))
    &&& fs[1].0@ == "input_schema"@ && compact_schema(node.input_schema, fs[1].1, m.params@)
    &&& fs[2].0@ == "judgements"@ && (fs[2].1 matches Json::Object(js) && js@.len() == judged.len() && forall|k: int|
        0 <= k < js@.len() ==> (#[trigger] js@[k]).0@ == judged[k].0@ && copies(js@[k].1, judged[k].1.options@))
    &&& fs[3].0@ == "node"@ && is_text(fs[3].1, m.name@)
    &&& fs[4].0@ == "not_for"@ && strings_are(fs[4].1, string_views(m.not_for@))
    &&& fs[5].0@ == "purpose"@ && is_text(fs[5].1, m.purpose@)
    &&& fs[6].0@ == "use_when"@ && strings_are(fs[6].1, string_views(m.use_when@))
}

fn trimmed_text(s: &str) -> (r: String)
    ensures
        r@ == crate::text::trimmed(s@),
{
    let mut r = String::new();
    crate::text::push_trimmed(&mut r, s);
    r
}

fn contains_str(hay: &str, needle: &str) -> (r: bool)
    ensures
        r == crate::text::contains_text(hay@, needle@),
{
    let h = crate::text::chars_of(hay);
    let n = crate::text::chars_of(needle);
    crate::text::find_text(&h, &n)
}

fn merge_description(described: &str, guidance: &str) -> (r: String)
    ensures
        r@ == merged_description(described@, guidance@),
{
    if described.unicode_len() == 0 || contains_str(guidance, described) {
        owned(guidance)
    } else if contains_str(described, guidance) {
        owned(described)
    } else {
        let mut r = owned(described);
        push_str(&mut r, " ");
        push_str(&mut r, guidance);
        r
    }
}

/// A property's fields with the description set.
fn redescribe(fields: &Vec<(String, Json)>, text: String) -> (r: Vec<(String, Json)>)
    ensures
        redescribed(fields@, r@, text@),
{
    let mut out: Vec<(String, Json)> = Vec::new();
    let mut at: Option<usize> = None;
    let ghost t = text@;
    let mut text = Some(text);
    let mut i: usize = 0;
    while i < fields.len()
        invariant
            i <= fields@.len(),
            out@.len() == i,
            match at {
                Some(a) => a < i && first_key(fields@, "description"@, 0) == Some(a as int) && text is None
                    && out@[a as int].0@ == "description"@ && is_text(out@[a as int].1, t),
                None => first_key(fields@, "description"@, 0) == first_key(fields@, "description"@, i as int)
                    && (text matches Some(x) && x@ == t),
            },
            forall|j: int| 0 <= j < i && (at matches Some(a) ==> j != a) ==> (#[trigger] out@[j]).0@ == fields@[j].0@
                && same_json(fields@[j].1, out@[j].1),
        decreases fields@.len() - i,
    {
        let is_description = at.is_none() && crate::text::str_eq(fields[i].0.as_str(), "description");
        if is_description {
            let x = text.take().unwrap();
            out.push(entry("description", Json::Str(x)));
            at = Some(i);
        } else {
            out.push((fields[i].0.clone(), fields[i].1.copy()));
        }
        i = i + 1;
    }
    if let Some(x) = text {
        out.push(entry("description", Json::Str(x)));
    }
    out
}

fn description_of(fields: &Vec<(String, Json)>) -> (r: String)
    ensures
        r@ == described(fields@),
{
    let f = Json::Object(Vec::new());
    let mut i: usize = 0;
    assert(fields@.skip(0) =~= fields@);
    while i < fields.len()
        invariant
            i <= fields@.len(),
            crate::json::field(fields@, "description"@) == crate::json::field(fields@.skip(i as int), "description"@),
        decreases fields@.len() - i,
    {
        proof {
            assert(fields@.skip(i as int).drop_first() =~= fields@.skip(i + 1));
            assert(fields@.skip(i as int)[0] == fields@[i as int]);
        }
        if crate::text::str_eq(fields[i].0.as_str(), "description") {
            return match &fields[i].1 {
                Json::Str(d) => trimmed_text(d.as_str()),
                _ => String::new(),
            };
        }
        i = i + 1;
    }
    String::new()
}

fn fold_property(name: &String, property: &Json, params: &Vec<(String, Param)>) -> (r: Json)
    ensures
        folded_property(name@, *property, r, params@),
{
    match (crate::markdown::guidance_for(params, name.as_str()), property) {
        (Some(g), Json::Object(pf)) => {
            let guidance = trimmed_text(g.as_str());
            if guidance.unicode_len() > 0 {
                let d = description_of(pf);
                let merged = merge_description(d.as_str(), guidance.as_str());
                Json::Object(redescribe(pf, merged))
            } else {
                property.copy()
            }
        },
        _ => property.copy(),
    }
}

fn fold_properties(properties: &Json, params: &Vec<(String, Param)>) -> (r: Json)
    ensures
        folded_properties(*properties, r, params@),
{
    match properties {
        Json::Object(op) => {
            let mut np: Vec<(String, Json)> = Vec::new();
            let mut i: usize = 0;
            while i < op.len()
                invariant
                    i <= op@.len(),
                    np@.len() == i,
                    forall|k: int| 0 <= k < i ==> (#[trigger] np@[k]).0@ == op@[k].0@ && folded_property(
                        op@[k].0@,
                        op@[k].1,
                        np@[k].1,
                        params@,
                    ),
                decreases op@.len() - i,
            {
                let f = fold_property(&op[i].0, &op[i].1, params);
                np.push((op[i].0.clone(), f));
                i = i + 1;
            }
            Json::Object(np)
        },
        _ => properties.copy(),
    }
}

fn compact_input_schema(schema: &Json, params: &Vec<(String, Param)>) -> (r: Json)
    ensures
        compact_schema(*schema, r, params@),
{
    match schema {
        Json::Object(of) => {
            let ghost keep = |f: (String, Json)| kept_key(f);
            let mut nf: Vec<(String, Json)> = Vec::new();
            let mut i: usize = 0;
            while i < of.len()
                invariant
                    i <= of@.len(),
                    keep == (|f: (String, Json)| kept_key(f)),
                    nf@.len() == of@.take(i as int).filter(keep).len(),
                    forall|k: int| 0 <= k < nf@.len() ==> (#[trigger] nf@[k]).0@ == of@.take(i as int).filter(keep)[k].0@
                        && if of@.take(i as int).filter(keep)[k].0@ == "properties"@ {
                        folded_properties(of@.take(i as int).filter(keep)[k].1, nf@[k].1, params@)
                    } else {
                        same_json(of@.take(i as int).filter(keep)[k].1, nf@[k].1)
                    },
                decreases of@.len() - i,
            {
                proof {
                    assert(of@.take(i + 1) =~= of@.take(i as int).push(of@[i as int]));
                    of@.take(i as int).lemma_filter_push(of@[i as int], keep);
                }
                let key = of[i].0.as_str();
                if !crate::text::str_eq(key, "$schema") && !crate::text::str_eq(key, "title") {
                    if crate::text::str_eq(key, "properties") {
                        nf.push((of[i].0.clone(), fold_properties(&of[i].1, params)));
                    } else {
                        nf.push((of[i].0.clone(), of[i].1.copy()));
                    }
                }
                i = i + 1;
            }
            assert(of@.take(i as int) =~= of@);
            Json::Object(nf)
        },
        _ => schema.copy(),
    }
}

/// A node's routing entry, sized for a context window: read once and re-sent on every routing
/// decision an agent makes, so everything in it is something a router uses to choose a node
/// or fill its arguments.
pub fn compact_json(node: &Node) -> (j: Json)
    ensures
        j matches Json::Object(fs) && compact_fields(fs@, *node),
{
    let m = &node.manifest;
    let ghost pred = |p: (String, Param)| p.1.judgement;
    let mut judgements: Vec<(String, Json)> = Vec::new();
    let mut i: usize = 0;
    while i < m.params.len()
        invariant
            i <= m.params@.len(),
            pred == (|p: (String, Param)| p.1.judgement),
            judgements@.len() == m.params@.take(i as int).filter(pred).len(),
            forall|k: int| 0 <= k < judgements@.len() ==> (#[trigger] judgements@[k]).0@ == m.params@.take(i as int).filter(
                pred,
            )[k].0@ && copies(judgements@[k].1, m.params@.take(i as int).filter(pred)[k].1.options@),
        decreases m.params@.len() - i,
    {
        proof {
            assert(m.params@.take(i + 1) =~= m.params@.take(i as int).push(m.params@[i as int]));
            m.params@.take(i as int).lemma_filter_push(m.params@[i as int], pred);
        }
        if m.params[i].1.judgement {
            judgements.push((m.params[i].0.clone(), copy_all(&m.params[i].1.options)));
        }
        i = i + 1;
    }
    assert(m.params@.take(i as int) =~= m.params@);
    let mut fields: Vec<(String, Json)> = Vec::new();
    fields.push(entry("examples", examples_json(&m.examples, 1)));
    fields.push(entry("input_schema", compact_input_schema(&node.input_schema, &m.params)));
    fields.push(entry("judgements", Json::Object(judgements)));
    fields.push(entry("node", Json::Str(m.name.clone())));
    fields.push(entry("not_for", strings(&m.not_for)));
    fields.push(entry("purpose", Json::Str(m.purpose.clone())));
    fields.push(entry("use_when", strings(&m.use_when)));
    Json::Object(fields)
}

// -------------------------------------------------------------------------- description

/// Each item on a line of its own after `lead`.
pub open spec fn led_lines(items: Seq<Seq<char>>, lead: Seq<char>) -> Seq<char>
    decreases items.len(),
{
    if items.len() == 0 {
        seq![]
    } else {
        led_lines(items.drop_last(), lead) + lead + items.last() + "\n"@
    }
}

/// A titled list, or nothing when the list is empty.
pub open spec fn titled(title: Seq<char>, items: Seq<Seq<char>>, lead: Seq<char>) -> Seq<char> {
    if items.len() == 0 {
        seq![]
    } else {
        title + "\n"@ + led_lines(items, lead) + "\n"@
    }
}

/// A parameter's lines: its name, whether it is a judgement, its guidance, and each option to
/// offer for it.
pub open spec fn param_lines(name: Seq<char>, p: Param) -> Seq<char> {
    "  "@ + name + (if p.judgement { " [judgement]"@ } else { seq![] }) + ": "@ + p.guidance@ + "\n"@
        + led_lines(p.options@.map_values(|o: Json| crate::json::render(o)), "    offer: "@)
}

pub open spec fn params_lines(params: Seq<(String, Param)>) -> Seq<char>
    decreases params.len(),
{
    if params.len() == 0 {
        seq![]
    } else {
        params_lines(params.drop_last()) + param_lines(params.last().0@, params.last().1)
    }
}

/// A contract's lines: its expression on one line, and what a failure says when it says
/// something of its own.
pub open spec fn requires_lines(cs: Seq<Contract>) -> Seq<char>
    decreases cs.len(),
{
    if cs.len() == 0 {
        seq![]
    } else {
        let c = cs.last();
        requires_lines(cs.drop_last()) + "  "@ + crate::text::one_line_spec(c.source@) + "\n"@ + match c.message {
            Some(m) => "    on failure: "@ + m@ + "\n"@,
            None => seq![],
        }
    }
}

pub open spec fn contract_sources(cs: Seq<Contract>) -> Seq<Seq<char>> {
    cs.map_values(|c: Contract| crate::text::one_line_spec(c.source@))
}

pub open spec fn example_lines(es: Seq<Example>) -> Seq<char>
    decreases es.len(),
{
    if es.len() == 0 {
        seq![]
    } else {
        example_lines(es.drop_last()) + "  ask:  "@ + es.last().ask@ + "\n  call: "@ + crate::json::render(es.last().call)
            + "\n"@
    }
}

/// How much the postconditions check, and what they leave unchecked.
pub open spec fn strength_lines(node: Node) -> Seq<char> {
    let posts = node.ensures@.len() as int;
    let numeric = numeric_fields(node).len() as int;
    let unchecked = unchecked_fields(node);
    "Contract strength: "@ + count_text(posts) + " postcondition"@ + plural(posts) + ", covering "@ + count_text(
        numeric - unchecked.len(),
    ) + "/"@ + count_text(numeric) + " numeric output field"@ + plural(numeric) + "\n"@ + (if unchecked.len() > 0 {
        "  unchecked: "@ + crate::text::join_spec(unchecked, ", "@) + "\n"@
    } else {
        seq![]
    }) + "\n"@
}

/// A node described for a person at a terminal: what it is for and not for, its parameters
/// and what to offer for the judgements, its contracts and how much they check, what it
/// reads, its examples and its timeout.
pub open spec fn description_spec(node: Node) -> Seq<char> {
    let m = node.manifest;
    m.name@ + " "@ + m.version@ + "\n\n"@ + m.purpose@ + "\n\n"@ + titled("Use when:"@, string_views(m.use_when@), "  - "@)
        + titled("Not for:"@, string_views(m.not_for@), "  - "@) + (if m.params@.len() > 0 {
        "Parameters:\n"@ + params_lines(m.params@) + "\n"@
    } else {
        seq![]
    }) + (if node.requires@.len() > 0 {
        "Requires (checked before the node runs; failure refuses with exit 11):\n"@ + requires_lines(node.requires@)
            + "\n"@
    } else {
        seq![]
    }) + "Ensures (checked against the returned value; failure is a defect, exit 13):\n"@ + led_lines(
        contract_sources(node.ensures@),
        "  "@,
    ) + "\n"@ + strength_lines(node) + titled("Reads:"@, m.reads@.map_values(|r: ReadDecl| r.path@), "  "@) + (if m.examples@.len()
        > 0 {
        "Examples:\n"@ + example_lines(m.examples@) + "\n"@
    } else {
        seq![]
    }) + "Timeout: "@ + count_text(m.timeout_ms as int) + "ms\n"@
}

fn push_led(t: &mut String, items: &Vec<String>, lead: &str)
    ensures
        final(t)@ == old(t)@ + led_lines(string_views(items@), lead@),
{
    let mut i: usize = 0;
    while i < items.len()
        invariant
            i <= items@.len(),
            t@ == old(t)@ + led_lines(string_views(items@.take(i as int)), lead@),
        decreases items@.len() - i,
    {
        push_str(t, lead);
        push_str(t, items[i].as_str());
        push_str(t, "\n");
        proof {
            assert(string_views(items@.take(i + 1)).drop_last() =~= string_views(items@.take(i as int)));
        }
        i = i + 1;
    }
    assert(items@.take(i as int) =~= items@);
}

fn push_titled(t: &mut String, title: &str, items: &Vec<String>, lead: &str)
    ensures
        final(t)@ == old(t)@ + titled(title@, string_views(items@), lead@),
{
    if items.len() > 0 {
        push_str(t, title);
        push_str(t, "\n");
        push_led(t, items, lead);
        push_str(t, "\n");
    } else {
        assert(old(t)@ + titled(title@, string_views(items@), lead@) =~= old(t)@);
    }
}

fn push_param(t: &mut String, name: &String, p: &Param)
    ensures
        final(t)@ == old(t)@ + param_lines(name@, *p),
{
    push_str(t, "  ");
    push_str(t, name.as_str());
    if p.judgement {
        push_str(t, " [judgement]");
    }
    push_str(t, ": ");
    push_str(t, p.guidance.as_str());
    push_str(t, "\n");
    let ghost base = t@;
    let ghost rendered = p.options@.map_values(|o: Json| crate::json::render(o));
    let mut i: usize = 0;
    while i < p.options.len()
        invariant
            i <= p.options@.len(),
            rendered == p.options@.map_values(|o: Json| crate::json::render(o)),
            t@ == base + led_lines(rendered.take(i as int), "    offer: "@),
        decreases p.options@.len() - i,
    {
        push_str(t, "    offer: ");
        crate::json::write_json(t, &p.options[i]);
        push_str(t, "\n");
        proof {
            assert(rendered.take(i + 1).drop_last() =~= rendered.take(i as int));
        }
        i = i + 1;
    }
    assert(rendered.take(i as int) =~= rendered);
    proof {
        assert(t@ =~= old(t)@ + param_lines(name@, *p));
    }
}

fn push_strength(t: &mut String, node: &Node)
    ensures
        final(t)@ == old(t)@ + strength_lines(*node),
{
    let s = node.strength();
    push_str(t, "Contract strength: ");
    push_count(t, s.ensures);
    push_str(t, " postcondition");
    push_plural(t, s.ensures);
    push_str(t, ", covering ");
    push_count(t, s.numeric_fields_referenced);
    push_str(t, "/");
    push_count(t, s.numeric_output_fields);
    push_str(t, " numeric output field");
    push_plural(t, s.numeric_output_fields);
    push_str(t, "\n");
    if s.unreferenced_numeric_fields.len() > 0 {
        push_str(t, "  unchecked: ");
        let listed = crate::text::join(&s.unreferenced_numeric_fields, ", ");
        push_str(t, listed.as_str());
        push_str(t, "\n");
    }
    push_str(t, "\n");
}

fn push_contracts(t: &mut String, node: &Node)
    ensures
        final(t)@ == old(t)@ + (if node.requires@.len() > 0 {
            "Requires (checked before the node runs; failure refuses with exit 11):\n"@ + requires_lines(node.requires@)
                + "\n"@
        } else {
            seq![]
        }) + "Ensures (checked against the returned value; failure is a defect, exit 13):\n"@ + led_lines(
            contract_sources(node.ensures@),
            "  "@,
        ) + "\n"@,
{
    let ghost start = t@;
    if node.requires.len() > 0 {
        push_str(t, "Requires (checked before the node runs; failure refuses with exit 11):\n");
        let ghost base = t@;
        let mut i: usize = 0;
        while i < node.requires.len()
            invariant
                i <= node.requires@.len(),
                t@ == base + requires_lines(node.requires@.take(i as int)),
            decreases node.requires@.len() - i,
        {
            let c = &node.requires[i];
            push_str(t, "  ");
            let line = crate::text::one_line(c.source.as_str());
            push_str(t, line.as_str());
            push_str(t, "\n");
            if let Some(m) = &c.message {
                push_str(t, "    on failure: ");
                push_str(t, m.as_str());
                push_str(t, "\n");
            }
            proof {
                assert(node.requires@.take(i + 1).drop_last() =~= node.requires@.take(i as int));
            }
            i = i + 1;
        }
        assert(node.requires@.take(i as int) =~= node.requires@);
        push_str(t, "\n");
    }
    let ghost middle = t@;
    push_str(t, "Ensures (checked against the returned value; failure is a defect, exit 13):\n");
    let ghost base = t@;
    let mut i: usize = 0;
    while i < node.ensures.len()
        invariant
            i <= node.ensures@.len(),
            t@ == base + led_lines(contract_sources(node.ensures@.take(i as int)), "  "@),
        decreases node.ensures@.len() - i,
    {
        push_str(t, "  ");
        let line = crate::text::one_line(node.ensures[i].source.as_str());
        push_str(t, line.as_str());
        push_str(t, "\n");
        proof {
            assert(contract_sources(node.ensures@.take(i + 1)).drop_last() =~= contract_sources(node.ensures@.take(i as int)));
        }
        i = i + 1;
    }
    assert(node.ensures@.take(i as int) =~= node.ensures@);
    push_str(t, "\n");
    proof {
        assert(t@ =~= start + (if node.requires@.len() > 0 {
            "Requires (checked before the node runs; failure refuses with exit 11):\n"@ + requires_lines(node.requires@)
                + "\n"@
        } else {
            seq![]
        }) + "Ensures (checked against the returned value; failure is a defect, exit 13):\n"@ + led_lines(
            contract_sources(node.ensures@),
            "  "@,
        ) + "\n"@);
    }
}

fn push_tail(t: &mut String, node: &Node)
    ensures
        final(t)@ == old(t)@ + titled("Reads:"@, node.manifest.reads@.map_values(|r: ReadDecl| r.path@), "  "@) + (if node.manifest.examples@.len()
            > 0 {
            "Examples:\n"@ + example_lines(node.manifest.examples@) + "\n"@
        } else {
            seq![]
        }) + "Timeout: "@ + count_text(node.manifest.timeout_ms as int) + "ms\n"@,
{
    let m = &node.manifest;
    let ghost start = t@;
    let ghost paths = m.reads@.map_values(|r: ReadDecl| r.path@);
    if m.reads.len() > 0 {
        push_str(t, "Reads:");
        push_str(t, "\n");
        let ghost base = t@;
        let mut i: usize = 0;
        while i < m.reads.len()
            invariant
                i <= m.reads@.len(),
                paths == m.reads@.map_values(|r: ReadDecl| r.path@),
                t@ == base + led_lines(paths.take(i as int), "  "@),
            decreases m.reads@.len() - i,
        {
            push_str(t, "  ");
            push_str(t, m.reads[i].path.as_str());
            push_str(t, "\n");
            proof {
                assert(paths.take(i + 1).drop_last() =~= paths.take(i as int));
            }
            i = i + 1;
        }
        assert(paths.take(i as int) =~= paths);
        push_str(t, "\n");
    }
    let ghost middle = t@;
    if m.examples.len() > 0 {
        push_str(t, "Examples:\n");
        let ghost base = t@;
        let mut i: usize = 0;
        while i < m.examples.len()
            invariant
                i <= m.examples@.len(),
                t@ == base + example_lines(m.examples@.take(i as int)),
            decreases m.examples@.len() - i,
        {
            push_str(t, "  ask:  ");
            push_str(t, m.examples[i].ask.as_str());
            push_str(t, "\n  call: ");
            crate::json::write_json(t, &m.examples[i].call);
            push_str(t, "\n");
            proof {
                assert(m.examples@.take(i + 1).drop_last() =~= m.examples@.take(i as int));
            }
            i = i + 1;
        }
        assert(m.examples@.take(i as int) =~= m.examples@);
        push_str(t, "\n");
    }
    push_str(t, "Timeout: ");
    proof {
        reveal(count_text);
    }
    push_digits(t, m.timeout_ms as u128);
    push_str(t, "ms\n");
    proof {
        assert(t@ =~= start + titled("Reads:"@, paths, "  "@) + (if m.examples@.len() > 0 {
            "Examples:\n"@ + example_lines(m.examples@) + "\n"@
        } else {
            seq![]
        }) + "Timeout: "@ + count_text(m.timeout_ms as int) + "ms\n"@);
    }
}

fn push_params(t: &mut String, params: &Vec<(String, Param)>)
    ensures
        final(t)@ == old(t)@ + (if params@.len() > 0 {
            "Parameters:\n"@ + params_lines(params@) + "\n"@
        } else {
            seq![]
        }),
{
    if params.len() > 0 {
        push_str(t, "Parameters:\n");
        let ghost base = t@;
        let mut i: usize = 0;
        while i < params.len()
            invariant
                i <= params@.len(),
                t@ == base + params_lines(params@.take(i as int)),
            decreases params@.len() - i,
        {
            push_param(t, &params[i].0, &params[i].1);
            proof {
                assert(params@.take(i + 1).drop_last() =~= params@.take(i as int));
            }
            i = i + 1;
        }
        assert(params@.take(i as int) =~= params@);
        push_str(t, "\n");
    } else {
        assert(old(t)@ + seq![] =~= old(t)@);
    }
}

/// A node described for a person, for `describe` with no format asked for.
pub fn description_text(node: &Node) -> (t: String)
    ensures
        t@ == description_spec(*node),
{
    let m = &node.manifest;
    let mut t = m.name.clone();
    push_str(&mut t, " ");
    push_str(&mut t, m.version.as_str());
    push_str(&mut t, "\n\n");
    push_str(&mut t, m.purpose.as_str());
    push_str(&mut t, "\n\n");
    push_titled(&mut t, "Use when:", &m.use_when, "  - ");
    push_titled(&mut t, "Not for:", &m.not_for, "  - ");
    push_params(&mut t, &m.params);
    let ghost after_params = t@;
    push_contracts(&mut t, node);
    push_strength(&mut t, node);
    push_tail(&mut t, node);
    proof {
        assert(t@ =~= description_spec(*node));
    }
    t
}

// ---------------------------------------------------------------------------- catalogs

/// The collection's name when nothing declares one: its directory's name, or `collection`
/// when the directory has none.
pub open spec fn collection_name_spec(dir_name: Option<Seq<char>>) -> Seq<char> {
    match dir_name {
        Some(n) => n,
        None => "collection"@,
    }
}

pub fn collection_name(dir_name: Option<&str>) -> (r: String)
    ensures
        r@ == collection_name_spec(match dir_name {
            Some(n) => Some(n@),
            None => None,
        }),
{
    match dir_name {
        Some(n) => owned(n),
        None => owned("collection"),
    }
}

/// What the collection calls itself: the preamble's `name`, or the directory's. The preamble
/// wins, because it is the only one anybody chose.
pub open spec fn declared_name_spec(preamble: Option<Preamble>, dir_name: Option<Seq<char>>) -> Seq<char> {
    match preamble {
        Some(p) => match p.name {
            Some(n) => n@,
            None => collection_name_spec(dir_name),
        },
        None => collection_name_spec(dir_name),
    }
}

pub fn declared_name(preamble: Option<&Preamble>, dir_name: Option<&str>) -> (r: String)
    ensures
        r@ == declared_name_spec(match preamble {
            Some(p) => Some(*p),
            None => None,
        }, match dir_name {
            Some(n) => Some(n@),
            None => None,
        }),
{
    match preamble {
        Some(p) => match &p.name {
            Some(n) => n.clone(),
            None => collection_name(dir_name),
        },
        None => collection_name(dir_name),
    }
}

/// How `describe` should render what it found.
#[derive(Debug, Clone, Copy, PartialEq, Eq, Structural)]
pub enum Format {
    /// Laid out for a person at a terminal.
    Human,
    /// Everything, for a program.
    Json,
    /// The routing pack, for pasting into an agent's instructions file.
    Markdown,
    /// The same routing context, sized for a context window.
    Compact,
    /// Names and when to reach for them, for picking a shortlist before reading schemas.
    Index,
}

/// What `describe` prints: text as it is, or JSON, compact or laid out for reading.
#[derive(Debug)]
pub enum Rendering {
    Text(String),
    Json(Json),
    PrettyJson(Json),
}

/// One node's entry in a catalog of the given shape.
pub open spec fn catalog_entry(j: Json, node: Node, shape: Format) -> bool {
    match shape {
        Format::Compact => j matches Json::Object(fs) && compact_fields(fs@, node),
        Format::Index => j matches Json::Object(fs) && index_fields(fs@, node),
        _ => j matches Json::Object(fs) && describe_fields(fs@, node),
    }
}

/// The collection describing itself: its declared name, its description, its notes (not in
/// an index, where they would dwarf the shortlist), and every node's entry.
pub open spec fn catalog_fields(fs: Seq<(String, Json)>, name: Seq<char>, preamble: Option<Preamble>, nodes: Seq<Node>, shape: Format) -> bool {
    let notes: Seq<Seq<char>> = match preamble {
        Some(p) => string_views(p.notes@),
        None => seq![],
    };
    &&& fs.len() == (if shape == Format::Index { 3nat } else { 4nat })
    &&& fs[0].0@ == "collection"@ && is_text(fs[0].1, name)
    &&& fs[1].0@ == "description"@ && match preamble {
        Some(p) => match p.description {
            Some(d) => is_text(fs[1].1, d@),
            None => fs[1].1 is Null,
        },
        None => fs[1].1 is Null,
    }
    &&& fs[2].0@ == "nodes"@ && (fs[2].1 matches Json::Array(v) && v@.len() == nodes.len() && forall|k: int|
        0 <= k < v@.len() ==> catalog_entry(#[trigger] v@[k], nodes[k], shape))
    &&& shape != Format::Index ==> fs[3].0@ == "notes"@ && strings_are(fs[3].1, notes)
}

/// Every node at once, for `describe --all` as JSON: every node in full, compact routing
/// entries, or an index.
pub fn catalog(name: &str, preamble: Option<&Preamble>, nodes: &[Node], shape: Format) -> (j: Json)
    ensures
        j matches Json::Object(fs) && catalog_fields(fs@, name@, match preamble {
            Some(p) => Some(*p),
            None => None,
        }, nodes@, shape),
{
    let mut described: Vec<Json> = Vec::new();
    let mut i: usize = 0;
    while i < nodes.len()
        invariant
            i <= nodes@.len(),
            described@.len() == i,
            forall|k: int| 0 <= k < i ==> catalog_entry(#[trigger] described@[k], nodes@[k], shape),
        decreases nodes@.len() - i,
    {
        let e = match shape {
            Format::Compact => compact_json(&nodes[i]),
            Format::Index => index_json(&nodes[i]),
            _ => describe_json(&nodes[i]),
        };
        described.push(e);
        i = i + 1;
    }
    let description = match preamble {
        Some(p) => match &p.description {
            Some(d) => Json::Str(d.clone()),
            None => Json::Null,
        },
        None => Json::Null,
    };
    let mut fields: Vec<(String, Json)> = Vec::new();
    fields.push(entry("collection", text(name)));
    fields.push(entry("description", description));
    fields.push(entry("nodes", Json::Array(described)));
    if shape != Format::Index {
        let notes = match preamble {
            Some(p) => strings(&p.notes),
            None => {
                let empty: Vec<String> = Vec::new();
                let j = strings(&empty);
                assert(string_views(empty@) =~= Seq::<Seq<char>>::empty());
                j
            },
        };
        fields.push(entry("notes", notes));
    }
    Json::Object(fields)
}

// -------------------------------------------------------------------------------- list

/// One line per node: its name padded to the widest name, then its purpose, or why it will
/// not load. One broken node must not hide the rest of the collection.
pub open spec fn list_line(name: Seq<char>, loaded: Result<String, String>, width: int) -> Seq<char> {
    name + Seq::new((width - name.len()) as nat, |i: int| ' ') + "  "@ + match loaded {
        Ok(purpose) => purpose@,
        Err(reason) => "<unloadable: "@ + reason@ + ">"@,
    } + "\n"@
}

/// The widest of the names, in characters.
pub open spec fn widest(rows: Seq<(String, Result<String, String>)>) -> int
    decreases rows.len(),
{
    if rows.len() == 0 {
        0
    } else {
        let w = widest(rows.drop_last());
        let n = rows.last().0@.len() as int;
        if n > w { n } else { w }
    }
}

pub open spec fn list_lines(rows: Seq<(String, Result<String, String>)>, width: int) -> Seq<char>
    decreases rows.len(),
{
    if rows.len() == 0 {
        seq![]
    } else {
        list_lines(rows.drop_last(), width) + list_line(rows.last().0@, rows.last().1, width)
    }
}

proof fn lemma_widest(rows: Seq<(String, Result<String, String>)>, k: int)
    requires
        0 <= k < rows.len(),
    ensures
        rows[k].0@.len() <= widest(rows),
        0 <= widest(rows),
    decreases rows.len(),
{
    if k < rows.len() - 1 {
        lemma_widest(rows.drop_last(), k);
    } else if rows.len() > 1 {
        lemma_widest(rows.drop_last(), 0);
    }
}

/// The collection listed for a person: each node's name and purpose, the names aligned.
pub fn list_text(rows: &Vec<(String, Result<String, String>)>) -> (t: String)
    ensures
        t@ == list_lines(rows@, widest(rows@)),
{
    let mut width: usize = 0;
    let mut i: usize = 0;
    while i < rows.len()
        invariant
            i <= rows@.len(),
            width == widest(rows@.take(i as int)),
        decreases rows@.len() - i,
    {
        proof {
            assert(rows@.take(i + 1).drop_last() =~= rows@.take(i as int));
        }
        let n = rows[i].0.as_str().unicode_len();
        if n > width {
            width = n;
        }
        i = i + 1;
    }
    assert(rows@.take(i as int) =~= rows@);
    let mut t = String::new();
    let mut i: usize = 0;
    while i < rows.len()
        invariant
            i <= rows@.len(),
            width == widest(rows@),
            t@ == list_lines(rows@.take(i as int), width as int),
        decreases rows@.len() - i,
    {
        let ghost before = t@;
        push_str(&mut t, rows[i].0.as_str());
        let n = rows[i].0.as_str().unicode_len();
        proof {
            lemma_widest(rows@, i as int);
        }
        let mut k: usize = n;
        while k < width
            invariant
                n <= k <= width,
                n == rows@[i as int].0@.len(),
                t@ == before + rows@[i as int].0@ + Seq::new((k - n) as nat, |j: int| ' '),
            decreases width - k,
        {
            crate::text::push_char(&mut t, ' ');
            proof {
                assert(Seq::new((k + 1 - n) as nat, |j: int| ' ') =~= Seq::new((k - n) as nat, |j: int| ' ').push(' '));
            }
            k = k + 1;
        }
        push_str(&mut t, "  ");
        match &rows[i].1 {
            Ok(purpose) => push_str(&mut t, purpose.as_str()),
            Err(reason) => {
                push_str(&mut t, "<unloadable: ");
                push_str(&mut t, reason.as_str());
                push_str(&mut t, ">");
            },
        }
        push_str(&mut t, "\n");
        proof {
            assert(rows@.take(i + 1).drop_last() =~= rows@.take(i as int));
            assert(t@ =~= list_lines(rows@.take(i + 1), width as int));
        }
        i = i + 1;
    }
    assert(rows@.take(i as int) =~= rows@);
    t
}

// -------------------------------------------------------------------------------- call

/// What a call comes to once its attempt has been made and, if the node ran, its ledger line
/// written (`written`, present exactly when the node ran): the verified value, or the error,
/// and a warning for stderr.
///
/// Recording is part of the guarantee: a result that passed its contracts but could not be
/// recorded has nothing to vouch for it, so the write's failure is fatal and no value comes
/// out. On a failing path the refusal or defect matters more to the caller than a write that
/// did not happen, so the error stands and the lost record is a warning.
pub fn call_result(attempt: Attempt, written: Option<Result<(), VouchError>>) -> (r: (Result<Json, VouchError>, Option<String>))
    requires
        attempt.verdict is Ok ==> attempt.produced is Some,
    ensures
        match attempt.verdict {
            Ok(()) => match written {
                Some(Err(e)) => r.0 == Err::<Json, VouchError>(e) && r.1 is None,
                _ => r.0 == Ok::<Json, VouchError>(attempt.produced->0) && r.1 is None,
            },
            Err(v) => r.0 == Err::<Json, VouchError>(v) && match written {
                Some(Err(e)) => r.1 matches Some(w) && w@ == "warning: this call was not recorded: "@ + e.reason@,
                _ => r.1 is None,
            },
        },
{
    let Attempt { executed: _, produced, verdict } = attempt;
    match verdict {
        Ok(()) => match written {
            Some(Err(e)) => (Err(e), None),
            _ => match produced {
                Some(v) => (Ok(v), None),
                None => (Err(VouchError::error(owned("a verdict that held has no value"))), None),
            },
        },
        Err(v) => {
            let warning = match written {
                Some(Err(e)) => {
                    let mut w = owned("warning: this call was not recorded: ");
                    push_str(&mut w, e.reason.as_str());
                    Some(w)
                },
                _ => None,
            };
            (Err(v), warning)
        },
    }
}

/// Every shape of `describe --all` agrees on what the collection is called: the pack's title
/// is the name the JSON catalogs carry, the preamble's when it has one, else the directory's.
pub proof fn every_shape_agrees_on_the_name(preamble: Option<Preamble>, nodes: Seq<Node>, dir_name: Option<Seq<char>>)
    ensures
        crate::markdown::pack_text(collection_name_spec(dir_name), preamble, nodes).subrange(
            0,
            declared_name_spec(preamble, dir_name).len() + 4int,
        ) == "# "@ + declared_name_spec(preamble, dir_name) + "\n\n"@,
{
    let name = declared_name_spec(preamble, dir_name);
    let pack = crate::markdown::pack_text(collection_name_spec(dir_name), preamble, nodes);
    reveal_strlit("# ");
    reveal_strlit("\n\n");
    assert(pack.subrange(0, name.len() + 4int) =~= "# "@ + name + "\n\n"@);
}

/// What `describe` prints for one node: a compact routing entry or an index entry, small and
/// on one line; everything as laid-out JSON; the routing pack for just this node, under the
/// collection's directory name; or the node described for a person.
pub open spec fn described_as(r: Rendering, node: Node, dir_name: Option<Seq<char>>, format: Format) -> bool {
    match format {
        Format::Compact => r matches Rendering::Json(j) && (j matches Json::Object(fs) && compact_fields(fs@, node)),
        Format::Index => r matches Rendering::Json(j) && (j matches Json::Object(fs) && index_fields(fs@, node)),
        Format::Json => r matches Rendering::PrettyJson(j) && (j matches Json::Object(fs) && describe_fields(fs@, node)),
        Format::Markdown => r matches Rendering::Text(t) && t@ == crate::markdown::pack_text(
            collection_name_spec(dir_name),
            None,
            seq![node],
        ),
        Format::Human => r matches Rendering::Text(t) && t@ == description_spec(node),
    }
}

pub fn describe(node: Node, dir_name: Option<&str>, format: Format) -> (r: Rendering)
    ensures
        described_as(r, node, match dir_name {
            Some(n) => Some(n@),
            None => None,
        }, format),
{
    match format {
        Format::Compact => Rendering::Json(compact_json(&node)),
        Format::Index => Rendering::Json(index_json(&node)),
        Format::Json => Rendering::PrettyJson(describe_json(&node)),
        Format::Human => Rendering::Text(description_text(&node)),
        Format::Markdown => {
            let name = collection_name(dir_name);
            let ghost n = node;
            let nodes = vec![node];
            assert(nodes@ =~= seq![n]);
            Rendering::Text(crate::markdown::pack(name.as_str(), None, nodes.as_slice()))
        },
    }
}

/// What `describe --all` prints: a catalog under the collection's declared name, compact for
/// the routing shapes and laid out for the full one; or the routing pack, which is also what
/// a person asking about a whole collection wants.
pub open spec fn all_described_as(
    r: Rendering,
    preamble: Option<Preamble>,
    nodes: Seq<Node>,
    dir_name: Option<Seq<char>>,
    format: Format,
) -> bool {
    match format {
        Format::Compact | Format::Index => r matches Rendering::Json(j) && (j matches Json::Object(fs) && catalog_fields(
            fs@,
            declared_name_spec(preamble, dir_name),
            preamble,
            nodes,
            format,
        )),
        Format::Json => r matches Rendering::PrettyJson(j) && (j matches Json::Object(fs) && catalog_fields(
            fs@,
            declared_name_spec(preamble, dir_name),
            preamble,
            nodes,
            format,
        )),
        _ => r matches Rendering::Text(t) && t@ == crate::markdown::pack_text(collection_name_spec(dir_name), preamble, nodes),
    }
}

pub fn describe_all(preamble: Option<&Preamble>, nodes: &[Node], dir_name: Option<&str>, format: Format) -> (r: Rendering)
    ensures
        all_described_as(r, match preamble {
            Some(p) => Some(*p),
            None => None,
        }, nodes@, match dir_name {
            Some(n) => Some(n@),
            None => None,
        }, format),
{
    match format {
        Format::Compact | Format::Index => {
            let name = declared_name(preamble, dir_name);
            Rendering::Json(catalog(name.as_str(), preamble, nodes, format))
        },
        Format::Json => {
            let name = declared_name(preamble, dir_name);
            Rendering::PrettyJson(catalog(name.as_str(), preamble, nodes, format))
        },
        _ => {
            let name = collection_name(dir_name);
            Rendering::Text(crate::markdown::pack(name.as_str(), preamble, nodes))
        },
    }
}

} // verus!
