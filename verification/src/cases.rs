//! `cases.toml` — node fixture tests.
//!
//! Fixed input, expected exit code, expected values at named paths. No model, no network,
//! nothing to average: a case passes or it does not. This is the layer that catches the
//! scaling math silently breaking, and it must not be confused with `vouch eval`, which has a
//! model in the loop and therefore reports a rate.
//!
//! A case runs the identical pipeline a real call runs, minus the ledger and stdout; this
//! module grades what that pipeline produced.

use crate::decimal::{pow10, rounded_scaled, same_value, signed, Decimal};
use crate::error::{outcome_name, VouchError};
use crate::json::{json_equal, render, Json};
use crate::text::{chars_of, find_char, first_of, int_text, lemma_first_of_bounds, owned, push_str, split_on, split_spec, string_of, string_views};
use crate::verify::Attempt;
use vstd::prelude::*;
use vstd::string::StrSliceExecFns;

verus! {

/// Expected values are addressed by the same dotted paths the ledger uses for scalars, and so
/// are rooted at `result`: one path grammar across `cases.toml`, a ledger entry and an
/// attestation report, rather than three that nearly agree.
pub const ROOT: &'static str = "result";

/// One fixture.
#[derive(Debug)]
pub struct Case {
    pub name: String,
    pub input: Json,
    /// The exit code this input should produce. Omitted means 0.
    pub expect_code: Option<i32>,
    /// Dotted path to expected value, e.g. `"result.stats.dexterity" = 40`, in path order.
    pub expect: Vec<(String, Json)>,
}

/// What one case did. `failures` empty means it passed.
#[derive(Debug)]
pub struct Outcome {
    pub name: String,
    pub failures: Vec<String>,
}

impl Outcome {
    pub fn passed(&self) -> (r: bool)
        ensures
            r == (self.failures@.len() == 0),
    {
        self.failures.len() == 0
    }
}

// ------------------------------------------------------------------------ validating

pub open spec fn expected_code(case: Case) -> int {
    match case.expect_code {
        Some(c) => c as int,
        None => 0,
    }
}

/// Whether a path is rooted at `result`: `result` itself, or `result.` and more.
pub open spec fn rooted(path: Seq<char>) -> bool {
    path == "result"@ || (path.len() >= 7 && path.subrange(0, 7) == "result."@)
}

/// The first expected path of `paths[i..]` that is not rooted at `result`.
pub open spec fn first_unrooted(paths: Seq<(String, Json)>, i: int) -> Option<int>
    decreases paths.len() - i,
{
    if i < 0 || i >= paths.len() {
        None
    } else if !rooted(paths[i].0@) {
        Some(i)
    } else {
        first_unrooted(paths, i + 1)
    }
}

/// Why a case cannot mean what it says, if it cannot.
pub open spec fn case_problem(case: Case) -> Option<Seq<char>> {
    if expected_code(case) != 0 && case.expect@.len() > 0 {
        Some(
            "expects exit "@ + crate::text::int_text(expected_code(case))
                + " and also expects values; a non-zero exit produces no result to read them from"@,
        )
    } else {
        match first_unrooted(case.expect@, 0) {
            Some(k) => Some(
                "expected path '"@ + case.expect@[k].0@
                    + "' does not start with 'result.'; paths are rooted at the returned value, as they are in the ledger"@,
            ),
            None => None,
        }
    }
}

fn is_rooted(path: &str) -> (r: bool)
    ensures
        r == rooted(path@),
{
    proof {
        reveal_strlit("result");
        reveal_strlit("result.");
    }
    if crate::text::str_eq(path, "result") {
        return true;
    }
    let n = path.unicode_len();
    if n < 7 {
        return false;
    }
    let head = path.substring_char(0, 7);
    crate::text::str_eq(head, "result.")
}

/// Reject a case that cannot mean what it says, at load time rather than as a mysterious
/// failure later.
pub fn validate(case: &Case) -> (r: Result<(), String>)
    ensures
        match r {
            Ok(()) => case_problem(*case) is None,
            Err(m) => case_problem(*case) == Some(m@),
        },
{
    let code: i32 = match case.expect_code {
        Some(c) => c,
        None => 0,
    };
    if code != 0 && case.expect.len() > 0 {
        let mut m = owned("expects exit ");
        crate::text::push_int(&mut m, code as i64);
        push_str(
            &mut m,
            " and also expects values; a non-zero exit produces no result to read them from",
        );
        return Err(m);
    }
    let mut i: usize = 0;
    while i < case.expect.len()
        invariant
            i <= case.expect@.len(),
            !(expected_code(*case) != 0 && case.expect@.len() > 0),
            first_unrooted(case.expect@, 0) == first_unrooted(case.expect@, i as int),
        decreases case.expect@.len() - i,
    {
        let path = case.expect[i].0.as_str();
        if !is_rooted(path) {
            let mut m = owned("expected path '");
            push_str(&mut m, path);
            push_str(
                &mut m,
                "' does not start with 'result.'; paths are rooted at the returned value, as they are in the ledger",
            );
            return Err(m);
        }
        i = i + 1;
    }
    Ok(())
}

/// Every case of a `cases.toml` must make sense, or the file is refused, naming the case.
pub fn validate_all(cases: &Vec<Case>, file: &str) -> (r: Result<(), VouchError>)
    ensures
        match r {
            Ok(()) => forall|k: int| 0 <= k < cases@.len() ==> case_problem(#[trigger] cases@[k]) is None,
            Err(e) => e.outcome == crate::error::Outcome::Error && e.code == crate::error::ERROR && exists|k: int|
                0 <= k < cases@.len() && (case_problem(#[trigger] cases@[k]) matches Some(p) && e.reason@
                    == file@ + ": case '"@ + cases@[k].name@ + "': "@ + p),
        },
{
    let mut i: usize = 0;
    while i < cases.len()
        invariant
            i <= cases@.len(),
            forall|k: int| 0 <= k < i ==> case_problem(#[trigger] cases@[k]) is None,
        decreases cases@.len() - i,
    {
        if let Err(p) = validate(&cases[i]) {
            let mut m = owned(file);
            push_str(&mut m, ": case '");
            push_str(&mut m, cases[i].name.as_str());
            push_str(&mut m, "': ");
            push_str(&mut m, p.as_str());
            return Err(VouchError::error(m));
        }
        i = i + 1;
    }
    Ok(())
}

// ------------------------------------------------------------------------- comparing

/// How many of the trailing digits of `m`, at most `limit`, are zeros.
pub open spec fn trailing_zeros(m: nat, limit: nat) -> nat
    decreases limit,
{
    if limit == 0 || m == 0 || m % 10 != 0 {
        0
    } else {
        1 + trailing_zeros(m / 10, (limit - 1) as nat)
    }
}

/// How many decimal places a number was written to, read as its shortest spelling: `40` and
/// `40.0` are 0, `0.495` is 3. The author's spelling, not a binary expansion of it.
pub open spec fn decimals_spec(d: Decimal) -> nat {
    if d.exponent >= 0 || d.mantissa == 0 {
        0
    } else {
        ((-d.exponent) - trailing_zeros(d.mantissa as nat, (-d.exponent) as nat)) as nat
    }
}

/// The digits of `d` at its shortest spelling.
pub open spec fn shortest_units(d: Decimal) -> int {
    if d.exponent >= 0 || d.mantissa == 0 {
        d.mantissa as int
    } else {
        (d.mantissa as int) / pow10(trailing_zeros(d.mantissa as nat, (-d.exponent) as nat))
    }
}

/// Whether a found number meets an expected one. The same number passes however it is
/// spelled; otherwise a float expectation is checked **to the precision it was written to**:
/// `543.1948141` asserts seven decimals and passes against `543.1948140689826`. An integer
/// expectation has no decimals to round to, so it compares exactly.
pub open spec fn number_meets(found: Decimal, expected: Decimal) -> bool {
    ||| same_value(found, expected)
    ||| (decimals_spec(expected) > 0 && rounded_scaled(found, decimals_spec(expected) as int) == signed(
        expected.negative,
        shortest_units(expected),
    ))
}

/// JSON equality, except that numbers compare as `number_meets` says.
pub open spec fn meets(found: Json, expected: Json) -> bool {
    match (found, expected) {
        (Json::Number(f), Json::Number(e)) => number_meets(f, e),
        _ => json_equal(found, expected),
    }
}

/// How many decimal places a number was written to, and its digits at that spelling.
pub fn decimals(d: &Decimal) -> (r: (u64, u128))
    ensures
        r.0 == decimals_spec(*d),
        r.1 == shortest_units(*d),
{
    if d.exponent >= 0 || d.mantissa == 0 {
        return (0, d.mantissa);
    }
    let limit: u64 = (-(d.exponent as i64)) as u64;
    let mut m = d.mantissa;
    let mut z: u64 = 0;
    proof {
        assert(pow10(0) == 1);
    }
    while z < limit && m % 10 == 0
        invariant
            z <= limit,
            m > 0,
            d.mantissa > 0,
            m as int * pow10(z as nat) == d.mantissa as int,
            trailing_zeros(d.mantissa as nat, limit as nat) == z + trailing_zeros(m as nat, (limit - z) as nat),
        decreases limit - z,
    {
        let next = m / 10;
        proof {
            assert(m == next * 10);
            assert(pow10((z + 1) as nat) == 10 * pow10(z as nat));
            assert(next as int * pow10((z + 1) as nat) == d.mantissa as int) by (nonlinear_arith)
                requires
                    m as int * pow10(z as nat) == d.mantissa as int,
                    m == next * 10,
                    pow10((z + 1) as nat) == 10 * pow10(z as nat),
            ;
        }
        m = next;
        z = z + 1;
    }
    proof {
        crate::decimal::lemma_pow10_positive(z as nat);
        assert(trailing_zeros(m as nat, (limit - z) as nat) == 0);
        vstd::arithmetic::div_mod::lemma_div_multiples_vanish(m as int, pow10(z as nat));
        vstd::arithmetic::mul::lemma_mul_is_commutative(m as int, pow10(z as nat));
    }
    (limit - z, m)
}

/// `m` ends in `trailing_zeros(m, limit)` zeros: it is a whole multiple of that power of ten,
/// and, when there is at least one, the digit above the last removed one is a zero too.
proof fn lemma_trailing_zeros(m: nat, limit: nat)
    ensures
        trailing_zeros(m, limit) <= limit,
        (m as int) == ((m as int) / pow10(trailing_zeros(m, limit))) * pow10(trailing_zeros(m, limit)),
        trailing_zeros(m, limit) > 0 ==> ((m as int) / pow10((trailing_zeros(m, limit) - 1) as nat)) % 10 == 0,
    decreases limit,
{
    let t = trailing_zeros(m, limit);
    crate::decimal::lemma_pow10_positive(t);
    if limit == 0 || m == 0 || m % 10 != 0 {
        assert(pow10(0) == 1);
    } else {
        let q = m / 10;
        lemma_trailing_zeros(q, (limit - 1) as nat);
        let u = trailing_zeros(q, (limit - 1) as nat);
        assert(t == u + 1);
        crate::decimal::lemma_pow10_positive(u);
        let r = (q as int) / pow10(u);
        assert(pow10(t) == 10 * pow10(u));
        assert((m as int) == 10 * (q as int));
        assert((m as int) == r * pow10(t)) by (nonlinear_arith)
            requires
                (m as int) == 10 * (q as int),
                (q as int) == r * pow10(u),
                pow10(t) == 10 * pow10(u),
        ;
        assert((m as int) / pow10(t) == r) by (nonlinear_arith)
            requires
                (m as int) == r * pow10(t),
                pow10(t) > 0,
        ;
        assert(pow10((t - 1) as nat) == pow10(u));
        assert((m as int) == (10 * r) * pow10(u)) by (nonlinear_arith)
            requires
                (m as int) == 10 * (q as int),
                (q as int) == r * pow10(u),
        ;
        assert((m as int) / pow10(u) == 10 * r) by (nonlinear_arith)
            requires
                (m as int) == (10 * r) * pow10(u),
                pow10(u) > 0,
        ;
        assert((10 * r) % 10 == 0) by (nonlinear_arith);
    }
}

/// An expected number rounded to the decimals it was written to is itself, signed.
proof fn lemma_expected_rounds_to_itself(e: Decimal)
    requires
        decimals_spec(e) > 0,
    ensures
        rounded_scaled(e, decimals_spec(e) as int) == signed(e.negative, shortest_units(e)),
{
    let limit = (-e.exponent) as nat;
    lemma_trailing_zeros(e.mantissa as nat, limit);
    let t = trailing_zeros(e.mantissa as nat, limit);
    assert(e.exponent + decimals_spec(e) == -t);
    if t == 0 {
        assert(pow10(0) == 1);
    }
}

/// A found number meets an expected one exactly when the two agree: they are the same number,
/// or the expected one was written with decimals and the found one, rounded to those decimals,
/// is the expected one rounded the same way. An integer expectation is met only exactly, and a
/// figure never meets its negation: 12.5 does not meet -12.5.
pub proof fn a_figure_meets_only_what_it_rounds_to(found: Decimal, expected: Decimal)
    ensures
        number_meets(found, expected) <==> same_value(found, expected) || (decimals_spec(expected) > 0 && rounded_scaled(
            found,
            decimals_spec(expected) as int,
        ) == rounded_scaled(expected, decimals_spec(expected) as int)),
{
    if decimals_spec(expected) > 0 {
        lemma_expected_rounds_to_itself(expected);
    }
}

/// Whether a found number meets an expected one.
pub fn number_equal(found: &Decimal, expected: &Decimal) -> (r: bool)
    ensures
        r == number_meets(*found, *expected),
{
    if found.same_value_as(expected) {
        return true;
    }
    let (places, units) = decimals(expected);
    places > 0 && found.rounds_to(expected.negative, units, places)
}

/// JSON equality, except that numbers compare numerically and to the precision the expected
/// one was written to: TOML's `40` and a node's `40.0` are the same number, and a fixture
/// should not fail on the spelling.
pub fn equal(found: &Json, expected: &Json) -> (r: bool)
    ensures
        r == meets(*found, *expected),
{
    match (found, expected) {
        (Json::Number(f), Json::Number(e)) => number_equal(f, e),
        _ => found.equals(expected),
    }
}


// ------------------------------------------------------------------------------ paths

/// Follows the `[n]` steps at the start of `rest` from `j`.
pub open spec fn index_steps(j: Json, rest: Seq<char>) -> Option<Json>
    decreases rest.len(),
{
    if rest.len() == 0 {
        Some(j)
    } else if rest[0] != '[' {
        None
    } else {
        let q = first_of(rest, ']', 1);
        if q >= rest.len() || q < 1 {
            None
        } else {
            match crate::schema::token_index(rest.subrange(1, q)) {
                Some(k) => match j {
                    Json::Array(items) => if k < items@.len() {
                        index_steps(items@[k], rest.subrange(q + 1, rest.len() as int))
                    } else {
                        None
                    },
                    _ => None,
                },
                None => None,
            }
        }
    }
}

/// Follows one dotted segment from `j`: a field name, then any `[n]` steps.
pub open spec fn segment_step(j: Json, seg: Seq<char>) -> Option<Json> {
    let b = first_of(seg, '[', 0);
    match j.get_spec(seg.subrange(0, b)) {
        Some(next) => index_steps(next, seg.subrange(b, seg.len() as int)),
        None => None,
    }
}

/// Follows the segments `segs[i..]` from `j`.
pub open spec fn follow(j: Json, segs: Seq<Seq<char>>, i: int) -> Option<Json>
    decreases segs.len() - i,
{
    if i < 0 || i >= segs.len() {
        Some(j)
    } else {
        match segment_step(j, segs[i]) {
            Some(next) => follow(next, segs, i + 1),
            None => None,
        }
    }
}

/// Where a dotted path rooted at `result` (`result.stats.dexterity`, `result.breakpoints[1]`)
/// leads, starting from the result itself.
pub open spec fn path_target(result: Json, path: Seq<char>) -> Option<Json> {
    let segs = split_spec(path, '.');
    let first = segs[0];
    let b = first_of(first, '[', 0);
    if first.subrange(0, b) != "result"@ {
        None
    } else {
        match index_steps(result, first.subrange(b, first.len() as int)) {
            Some(next) => follow(next, segs, 1),
            None => None,
        }
    }
}

fn index_steps_exec<'a>(j: &'a Json, seg: &Vec<char>, from: usize) -> (r: Option<&'a Json>)
    requires
        from <= seg@.len(),
    ensures
        match r {
            Some(x) => index_steps(*j, seg@.subrange(from as int, seg@.len() as int)) == Some(*x),
            None => index_steps(*j, seg@.subrange(from as int, seg@.len() as int)) is None,
        },
    decreases seg@.len() - from,
{
    let ghost rest = seg@.subrange(from as int, seg@.len() as int);
    if from == seg.len() {
        return Some(j);
    }
    if seg[from] != '[' {
        return None;
    }
    let q = find_char(seg, ']', from + 1);
    proof {
        lemma_first_of_bounds(seg@, ']', from + 1);
        lemma_first_of_shift(seg@, ']', from as int, 1);
    }
    if q >= seg.len() {
        return None;
    }
    let token = string_of(seg, from + 1, q);
    assert(token@ =~= rest.subrange(1, q - from));
    match crate::schema::index_of(token.as_str()) {
        Ok(Some(k)) => match j {
            Json::Array(items) => {
                if k < items.len() {
                    proof {
                        assert(rest.subrange(q - from + 1, rest.len() as int) =~= seg@.subrange(q + 1, seg@.len() as int));
                    }
                    index_steps_exec(&items[k], seg, q + 1)
                } else {
                    None
                }
            },
            _ => None,
        },
        Ok(None) => {
            proof {
                if let Json::Array(items) = j {
                    let len = items@.len();
                    assert(len <= usize::MAX) by {
                        assert(items.len() == len);
                    }
                }
            }
            None
        },
        Err(_) => None,
    }
}

/// Searching from `lo + d` in `s` is searching from `d` in `s[lo..]`, shifted by `lo`.
proof fn lemma_first_of_shift(s: Seq<char>, c: char, lo: int, d: int)
    requires
        0 <= lo <= s.len(),
        0 <= d,
    ensures
        first_of(s, c, lo + d) - lo == first_of(s.subrange(lo, s.len() as int), c, d),
    decreases s.len() - lo - d,
{
    if lo + d < s.len() && s[lo + d] != c {
        lemma_first_of_shift(s, c, lo, d + 1);
    }
}

/// What a path rooted at `result` names in a case's result.
pub fn value_at<'a>(result: &'a Json, path: &str) -> (r: Option<&'a Json>)
    ensures
        match r {
            Some(x) => path_target(*result, path@) == Some(*x),
            None => path_target(*result, path@) is None,
        },
{
    let segs = split_on(path, '.');
    let ghost views = string_views(segs@);
    proof {
        crate::text::lemma_split_nonempty(path@, '.');
    }
    assert(views.len() >= 1);
    let first = chars_of(segs[0].as_str());
    let b = find_char(&first, '[', 0);
    proof {
        lemma_first_of_bounds(first@, '[', 0);
    }
    let key = string_of(&first, 0, b);
    proof {
        reveal_strlit("result");
    }
    if !crate::text::str_eq(key.as_str(), "result") {
        return None;
    }
    let mut current = match index_steps_exec(result, &first, b) {
        Some(x) => x,
        None => {
            return None;
        },
    };
    let mut i: usize = 1;
    while i < segs.len()
        invariant
            1 <= i <= segs@.len(),
            views == string_views(segs@),
            path_target(*result, path@) == follow(*current, views, i as int),
        decreases segs@.len() - i,
    {
        let seg = chars_of(segs[i].as_str());
        let b = find_char(&seg, '[', 0);
        proof {
            lemma_first_of_bounds(seg@, '[', 0);
        }
        let name = string_of(&seg, 0, b);
        let next = match current.get(name.as_str()) {
            Some(x) => x,
            None => {
                return None;
            },
        };
        current = match index_steps_exec(next, &seg, b) {
            Some(x) => x,
            None => {
                return None;
            },
        };
        i = i + 1;
    }
    Some(current)
}

// ----------------------------------------------------------------------------- grading

/// A failure line naming what the run gave instead of the expected exit code.
pub open spec fn code_failure(expected: int, verdict: Result<(), VouchError>, actual: int) -> Seq<char> {
    match verdict {
        Ok(()) => "expected exit "@ + int_text(expected) + ", got 0 and a value"@,
        Err(e) => "expected exit "@ + int_text(expected) + ", got "@ + int_text(actual) + " ("@
            + outcome_name(e.outcome) + "): "@ + e.reason@,
    }
}

/// The failure line for one expected value, if it failed.
pub open spec fn value_failure(result: Json, path: Seq<char>, expected: Json) -> Option<Seq<char>> {
    match path_target(result, path) {
        None => Some(path + ": nothing at that path"@),
        Some(found) => if meets(found, expected) {
            None
        } else {
            Some(path + ": expected "@ + render(expected) + ", got "@ + render(found))
        },
    }
}

/// The failure lines for `expect[i..]`.
pub open spec fn value_failures(result: Json, expect: Seq<(String, Json)>, i: int) -> Seq<Seq<char>>
    decreases expect.len() - i,
{
    if i < 0 || i >= expect.len() {
        seq![]
    } else {
        (match value_failure(result, expect[i].0@, expect[i].1) {
            Some(f) => seq![f],
            None => seq![],
        }) + value_failures(result, expect, i + 1)
    }
}

/// Everything a case's run got wrong, in the order a reader wants it: the exit code first,
/// then each expected value. Values are only checked when the runtime accepted a value;
/// reading them off a rejected result would report a fixture as passing against a value the
/// runtime refused to hand a caller.
pub open spec fn case_failures(case: Case, a: Attempt) -> Seq<Seq<char>> {
    let expected = expected_code(case);
    let actual: int = match a.verdict {
        Ok(()) => 0,
        Err(e) => e.code as int,
    };
    let code = if actual != expected {
        seq![code_failure(expected, a.verdict, actual)]
    } else {
        seq![]
    };
    let values = match (a.verdict, a.produced) {
        (Ok(()), Some(v)) => value_failures(v, case.expect@, 0),
        _ => if case.expect@.len() > 0 && actual == expected {
            seq!["no result was produced, so no expected value could be checked"@]
        } else {
            seq![]
        },
    };
    code + values
}

/// Grades one case against what its run produced.
pub fn grade(case: &Case, attempt: &Attempt) -> (o: Outcome)
    ensures
        o.name@ == case.name@,
        string_views(o.failures@) == case_failures(*case, *attempt),
{
    let mut failures: Vec<String> = Vec::new();
    let expected: i32 = match case.expect_code {
        Some(c) => c,
        None => 0,
    };
    let actual = attempt.code();
    if actual != expected {
        let mut m = owned("expected exit ");
        crate::text::push_int(&mut m, expected as i64);
        match &attempt.verdict {
            Ok(()) => push_str(&mut m, ", got 0 and a value"),
            Err(e) => {
                push_str(&mut m, ", got ");
                crate::text::push_int(&mut m, actual as i64);
                push_str(&mut m, " (");
                push_str(&mut m, e.outcome.as_str());
                push_str(&mut m, "): ");
                push_str(&mut m, e.reason.as_str());
            },
        }
        failures.push(m);
    }
    let ghost head = string_views(failures@);
    assert(head == if actual != expected {
        seq![code_failure(expected as int, attempt.verdict, actual as int)]
    } else {
        seq![]
    });
    match attempt.value() {
        Some(value) => {
            let mut i: usize = 0;
            while i < case.expect.len()
                invariant
                    i <= case.expect@.len(),
                    string_views(failures@) + value_failures(*value, case.expect@, i as int) == head
                        + value_failures(*value, case.expect@, 0),
                decreases case.expect@.len() - i,
            {
                let ghost before = string_views(failures@);
                let (path, wanted) = (&case.expect[i].0, &case.expect[i].1);
                match value_at(value, path.as_str()) {
                    None => {
                        let mut m = path.clone();
                        push_str(&mut m, ": nothing at that path");
                        failures.push(m);
                    },
                    Some(found) => {
                        if !equal(found, wanted) {
                            let mut m = path.clone();
                            push_str(&mut m, ": expected ");
                            let w = wanted.to_text();
                            push_str(&mut m, w.as_str());
                            push_str(&mut m, ", got ");
                            let f = found.to_text();
                            push_str(&mut m, f.as_str());
                            failures.push(m);
                        }
                    },
                }
                proof {
                    assert(string_views(failures@) + value_failures(*value, case.expect@, i + 1) =~= before
                        + value_failures(*value, case.expect@, i as int));
                }
                i = i + 1;
            }
            assert(string_views(failures@) + value_failures(*value, case.expect@, i as int) =~= string_views(failures@));
        },
        None => {
            if case.expect.len() > 0 && actual == expected {
                failures.push(owned("no result was produced, so no expected value could be checked"));
                assert(string_views(failures@) =~= head + seq!["no result was produced, so no expected value could be checked"@]);
            } else {
                assert(head + seq![] =~= head);
            }
        },
    }
    Outcome { name: case.name.clone(), failures }
}

} // verus!
