//! One attempt at a call: schema, judgements, contracts, subprocess, schema, contracts.
//!
//! This is the whole guarantee, and it deliberately knows nothing about the ledger or about
//! stdout. A real call is this plus recording plus printing; a fixture is this plus a
//! comparison, and records nothing. Both run the identical pipeline, because a fixture that
//! passed through a different path than a real call would be testing something nobody ships.
//!
//! The pipeline has two halves around the subprocess. `precheck` decides whether the node may
//! run at all; `check` decides whether what it wrote may reach the caller. Running the node in
//! between is the caller's part, and `conclude` puts the pieces together.

use crate::contracts::{all_bindings, cel_can_yield, converts, to_cel, CelOutcome, CelVal, Contract, Verdict};
use crate::error::{
    outcome_name, Outcome, VouchError, CONTRACT_UNEVALUABLE, INPUT_SCHEMA, JUDGEMENT_REQUIRED, OK,
    OUTPUT_SCHEMA, POSTCONDITION, PRECONDITION,
};
use crate::json::{render, Json};
use crate::manifest::{Node, Param};
use crate::schema::{deref_spec, schema_errors, MAX_HOPS};
use crate::text::{join_spec, owned, push_str, string_views};
use vstd::prelude::*;

verus! {

/// What one attempt produced, and the runtime's verdict on it.
#[derive(Debug)]
pub struct Attempt {
    /// Whether the subprocess was started.
    ///
    /// This is exactly the ledger boundary: a precondition that fails costs nothing and
    /// records nothing, because nothing ran. Everything past it is part of the account of the
    /// session, whatever the outcome.
    pub executed: bool,
    /// What the node wrote, when it ran and spoke the protocol. Present even when a later
    /// check rejected it — the ledger records rejected results — but it never reaches stdout
    /// on a failing path.
    pub produced: Option<Json>,
    /// `Ok` only when the output schema and every postcondition held.
    pub verdict: Result<(), VouchError>,
}

impl Attempt {
    /// The verified value. `None` unless every check held, so a caller cannot reach a result
    /// the runtime rejected by accident.
    pub fn value(&self) -> (r: Option<&Json>)
        ensures
            match r {
                Some(v) => self.verdict is Ok && self.produced == Some(*v),
                None => self.verdict is Err || self.produced is None,
            },
    {
        match self.verdict {
            Ok(()) => match &self.produced {
                Some(v) => Some(v),
                None => None,
            },
            Err(_) => None,
        }
    }

    /// The exit code the ledger records for this outcome.
    pub open spec fn code_spec(&self) -> i32 {
        match self.verdict {
            Ok(()) => OK,
            Err(e) => e.code,
        }
    }

    /// The name the ledger records for this outcome.
    pub open spec fn outcome_spec(&self) -> Seq<char> {
        match self.verdict {
            Ok(()) => "ok"@,
            Err(e) => outcome_name(e.outcome),
        }
    }

    pub fn code(&self) -> (r: i32)
        ensures
            r == self.code_spec(),
    {
        match &self.verdict {
            Ok(()) => OK,
            Err(e) => e.code,
        }
    }

    /// The name the ledger records for this outcome.
    pub fn outcome(&self) -> (r: &'static str)
        ensures
            r@ == self.outcome_spec(),
    {
        match &self.verdict {
            Ok(()) => "ok",
            Err(e) => e.outcome.as_str(),
        }
    }

    /// Nothing ran, so there is nothing to record and no value to report.
    pub fn rejected(e: VouchError) -> (a: Attempt)
        ensures
            !a.executed,
            a.produced is None,
            a.verdict == Err::<(), VouchError>(e),
    {
        Attempt { executed: false, produced: None, verdict: Err(e) }
    }
}

// -------------------------------------------------------------------------- details

fn key(name: &str) -> (r: String)
    ensures
        r@ == name@,
{
    owned(name)
}

/// An object with one field.
fn single(name: &str, value: Json) -> (j: Json)
    ensures
        j matches Json::Object(fields) && fields@.len() == 1 && fields@[0].0@ == name@ && fields@[0].1
            == value,
{
    let mut fields: Vec<(String, Json)> = Vec::new();
    fields.push((key(name), value));
    Json::Object(fields)
}

// -------------------------------------------------------------------------- admitting

/// Whether the input carries a value for `name` other than `null`.
pub open spec fn supplied(input: Json, name: Seq<char>) -> bool {
    input.get_spec(name) matches Some(v) && !(v is Null)
}

/// The first judgement parameter in `params[i..]` the input leaves out.
pub open spec fn first_missing_judgement(params: Seq<(String, Param)>, input: Json, i: int) -> Option<int>
    decreases params.len() - i,
{
    if i < 0 || i >= params.len() {
        None
    } else if params[i].1.judgement && !supplied(input, params[i].0@) {
        Some(i)
    } else {
        first_missing_judgement(params, input, i + 1)
    }
}

/// The input's schema violations, as reported.
pub open spec fn input_violations(node: Node, input: Json) -> Seq<Seq<char>> {
    schema_errors(render(node.input_schema), render(input))
}

/// The result's schema violations, as reported.
pub open spec fn output_violations(node: Node, result: Json) -> Seq<Seq<char>> {
    schema_errors(render(node.output_schema), render(result))
}

/// A field of a report's details: `key`, holding the text `text`.
pub open spec fn text_field(f: (String, Json), key: Seq<char>, text: Seq<char>) -> bool {
    f.0@ == key && (f.1 matches Json::Str(t) && t@ == text)
}

/// Details that name the contract's expression and nothing else.
pub open spec fn expression_details(d: Option<Json>, c: Contract) -> bool {
    d matches Some(Json::Object(fs)) && fs@.len() == 1 && text_field(fs@[0], "expression"@, c.source@)
}

/// What a contract that could not be evaluated is refused with: fail closed, a contract that
/// could not be evaluated is a contract that did not hold, and the call refuses. The details
/// carry the expression and what stopped it.
pub open spec fn is_unevaluable(e: VouchError, name: Seq<char>, c: Contract, why: Seq<char>) -> bool {
    &&& e.outcome == Outcome::Refusal
    &&& e.code == CONTRACT_UNEVALUABLE
    &&& e.reason@ == "contract could not be evaluated: "@ + c.source@ + " — "@ + why
    &&& e.node matches Some(n) && n@ == name
    &&& e.details matches Some(Json::Object(fs)) && fs@.len() == 2 && text_field(fs@[0], "expression"@, c.source@)
        && text_field(fs@[1], "error"@, why)
}

/// What the verdict on one precondition makes of the call.
pub open spec fn precondition_error(e: VouchError, node: Node, c: Contract, v: Verdict) -> bool {
    match v {
        Verdict::Held => false,
        Verdict::Failed => {
            &&& e.outcome == Outcome::Refusal
            &&& e.code == PRECONDITION
            &&& e.reason@ == match c.message {
                Some(m) => m@,
                None => "precondition failed"@ + ": "@ + crate::text::one_line_spec(c.source@),
            }
            &&& e.node matches Some(n) && n@ == node.manifest.name@
            &&& expression_details(e.details, c)
        },
        Verdict::Unevaluable(why) => is_unevaluable(e, node.manifest.name@, c, why@),
    }
}

/// What the verdict on one postcondition makes of `result`. A failed one reports the
/// expression and the rejected result in its details.
pub open spec fn postcondition_error(e: VouchError, node: Node, c: Contract, v: Verdict, result: Json) -> bool {
    match v {
        Verdict::Held => false,
        Verdict::Failed => {
            &&& e.outcome == Outcome::Defect
            &&& e.code == POSTCONDITION
            &&& e.reason@ == match c.message {
                Some(m) => m@,
                None => "postcondition failed"@ + ": "@ + crate::text::one_line_spec(c.source@),
            }
            &&& e.node matches Some(n) && n@ == node.manifest.name@
            &&& e.details matches Some(Json::Object(fs)) && fs@.len() == 2 && text_field(fs@[0], "expression"@, c.source@)
                && fs@[1].0@ == "rejected_result"@ && crate::json::same_json(result, fs@[1].1)
        },
        Verdict::Unevaluable(why) => is_unevaluable(e, node.manifest.name@, c, why@),
    }
}

/// A contract that could not be evaluated refuses the call.
fn unevaluable(node: &str, contract: &Contract, why: &str) -> (e: VouchError)
    ensures
        is_unevaluable(e, node@, *contract, why@),
{
    let mut reason = owned("contract could not be evaluated: ");
    push_str(&mut reason, contract.source.as_str());
    push_str(&mut reason, " — ");
    push_str(&mut reason, why);
    let mut details: Vec<(String, Json)> = Vec::new();
    details.push((key("expression"), Json::Str(contract.source.clone())));
    details.push((key("error"), Json::Str(owned(why))));
    VouchError::refusal(CONTRACT_UNEVALUABLE, reason).with_node(node).with_details(Json::Object(details))
}

/// The refusal a precondition's verdict calls for, or nothing when it held.
pub fn precondition(node: &Node, contract: &Contract, v: Verdict) -> (r: Result<(), VouchError>)
    ensures
        r is Ok ==> v is Held,
        r matches Err(e) ==> precondition_error(e, *node, *contract, v),
{
    let name = node.manifest.name.as_str();
    match v {
        Verdict::Held => Ok(()),
        Verdict::Failed => {
            let details = single("expression", Json::Str(contract.source.clone()));
            Err(
                VouchError::refusal(PRECONDITION, contract.explain("precondition failed")).with_node(
                    name,
                ).with_details(details),
            )
        },
        Verdict::Unevaluable(why) => Err(unevaluable(name, contract, why.as_str())),
    }
}

/// The defect or refusal a postcondition's verdict calls for, or nothing when it held. A
/// broken node must not leak a value to the caller, so the rejected result is reported as a
/// detail on stderr and never written to stdout.
pub fn postcondition(node: &Node, contract: &Contract, v: Verdict, result: &Json) -> (r: Result<(), VouchError>)
    ensures
        r is Ok ==> v is Held,
        r matches Err(e) ==> postcondition_error(e, *node, *contract, v, *result),
{
    let name = node.manifest.name.as_str();
    match v {
        Verdict::Held => Ok(()),
        Verdict::Failed => {
            let mut details: Vec<(String, Json)> = Vec::new();
            details.push((key("expression"), Json::Str(contract.source.clone())));
            details.push((key("rejected_result"), result.copy()));
            Err(
                VouchError::defect(POSTCONDITION, contract.explain("postcondition failed")).with_node(
                    name,
                ).with_details(Json::Object(details)),
            )
        },
        Verdict::Unevaluable(why) => Err(unevaluable(name, contract, why.as_str())),
    }
}

/// `b` begins with `input` bound to the input as the contracts see it: typed by the input
/// schema.
pub open spec fn input_bound(node: Node, input: Json, b: Seq<(String, CelVal)>) -> bool {
    &&& b.len() >= 1
    &&& b[0].0@ == "input"@
    &&& converts(input, Some(deref_spec(node.input_schema, node.input_schema, MAX_HOPS as nat)), node.input_schema, 0, b[0].1)
}

/// `b` holds `input`, then `result` bound to the result typed by the output schema.
pub open spec fn result_bound(node: Node, input: Json, result: Json, b: Seq<(String, CelVal)>) -> bool {
    &&& b.len() == 2
    &&& input_bound(node, input, b)
    &&& b[1].0@ == "result"@
    &&& converts(result, Some(deref_spec(node.output_schema, node.output_schema, MAX_HOPS as nat)), node.output_schema, 0, b[1].1)
}

/// Every contract of `cs` evaluated to `true`, as `cel` can evaluate it, with `b` in scope.
pub open spec fn all_held(cs: Seq<Contract>, b: Seq<(String, CelVal)>) -> bool {
    forall|k: int| 0 <= k < cs.len() ==> #[trigger] cel_can_yield(cs[k].source@, all_bindings(b), CelOutcome::Bool(true))
}

/// The input as the contracts see it: typed by the input schema.
fn input_binding(node: &Node, input: &Json) -> (b: Vec<(String, CelVal)>)
    ensures
        b@.len() == 1,
        input_bound(*node, *input, b@),
{
    let mut b: Vec<(String, CelVal)> = Vec::new();
    b.push((key("input"), to_cel(input, Some(&node.input_schema), &node.input_schema)));
    b
}

/// Everything checked before the node runs: the input is an object, it satisfies the input
/// schema, it supplies every judgement the node will not make, and every precondition holds.
/// Checked in that order, and the first failure is the answer.
///
/// The judgement check comes after the schema, because a malformed call is a different
/// conversation, and before the preconditions, because those are about values and this is
/// about a value not being there. Judgements are reported one at a time in parameter order: a
/// caller putting a question in front of a person asks about one thing.
pub fn precheck(node: &Node, input: &Json) -> (r: Result<(), VouchError>)
    ensures
        match r {
            Err(e) => e.node matches Some(n) && n@ == node.manifest.name@,
            Ok(()) => true,
        },
        !(input is Object) ==> (r matches Err(e) && e.outcome == Outcome::CallerError && e.code
            == INPUT_SCHEMA && e.reason@ == "input must be a JSON object"@),
        input is Object && input_violations(*node, *input).len() > 0 ==> (r matches Err(e)
            && e.outcome == Outcome::CallerError && e.code == INPUT_SCHEMA && e.reason@
            == "input does not satisfy the input schema: "@ + join_spec(input_violations(*node, *input), "; "@)),
        input is Object && input_violations(*node, *input).len() == 0 ==> (first_missing_judgement(
            node.manifest.params@,
            *input,
            0,
        ) matches Some(k) ==> (r matches Err(e) && e.outcome == Outcome::Refusal && e.code
            == JUDGEMENT_REQUIRED && e.reason@ == "`"@ + node.manifest.params@[k].0@
            + "` is a judgement this node will not make: "@ + node.manifest.params@[k].1.guidance@)),
        input is Object && input_violations(*node, *input).len() == 0 && first_missing_judgement(
            node.manifest.params@,
            *input,
            0,
        ) is None ==> (r is Ok || (r matches Err(e) && exists|k: int, v: Verdict|
            0 <= k < node.requires@.len() && #[trigger] precondition_error(e, *node, node.requires@[k], v))),
        r is Ok ==> input is Object && input_violations(*node, *input).len() == 0
            && first_missing_judgement(node.manifest.params@, *input, 0) is None,
        r is Ok ==> exists|b: Seq<(String, CelVal)>| b.len() == 1 && input_bound(*node, *input, b)
            && all_held(node.requires@, b),
{
    let name = node.manifest.name.as_str();
    if !input.is_object() {
        return Err(
            VouchError::caller_error(INPUT_SCHEMA, owned("input must be a JSON object")).with_node(
                name,
            ),
        );
    }
    // --- input schema (exit 10) ---
    let errors = crate::schema::errors(&node.input_schema, input);
    if errors.len() > 0 {
        let mut reason = owned("input does not satisfy the input schema: ");
        let listed = crate::text::join(&errors, "; ");
        push_str(&mut reason, listed.as_str());
        let details = single("violations", crate::json::strings(&errors));
        return Err(
            VouchError::caller_error(INPUT_SCHEMA, reason).with_node(name).with_details(details),
        );
    }
    // --- judgements the collection will not make (exit 17) ---
    let params = &node.manifest.params;
    let mut i: usize = 0;
    while i < params.len()
        invariant
            i <= params@.len(),
            *params == node.manifest.params,
            name@ == node.manifest.name@,
            input is Object,
            input_violations(*node, *input).len() == 0,
            first_missing_judgement(params@, *input, 0) == first_missing_judgement(params@, *input, i as int),
        decreases params@.len() - i,
    {
        let (param, spec) = (&params[i].0, &params[i].1);
        if spec.judgement {
            let present = match input.get(param.as_str()) {
                Some(v) => !matches!(v, Json::Null),
                None => false,
            };
            if !present {
                let mut reason = owned("`");
                push_str(&mut reason, param.as_str());
                push_str(&mut reason, "` is a judgement this node will not make: ");
                push_str(&mut reason, spec.guidance.as_str());
                let mut details: Vec<(String, Json)> = Vec::new();
                details.push((key("judgement"), Json::Str(param.clone())));
                details.push((key("guidance"), Json::Str(spec.guidance.clone())));
                if spec.options.len() > 0 {
                    // Carried through as the collection wrote them: only it knows what a
                    // choice looks like here, and a caller renders these rather than
                    // interpreting them.
                    let mut options: Vec<Json> = Vec::new();
                    let mut k: usize = 0;
                    while k < spec.options.len()
                        decreases spec.options@.len() - k,
                    {
                        options.push(spec.options[k].copy());
                        k = k + 1;
                    }
                    details.push((key("options"), Json::Array(options)));
                }
                return Err(
                    VouchError::refusal(JUDGEMENT_REQUIRED, reason).with_node(name).with_details(
                        Json::Object(details),
                    ),
                );
            }
        }
        i = i + 1;
    }
    // --- preconditions (exit 11 / 15) ---
    let bindings = input_binding(node, input);
    let mut k: usize = 0;
    while k < node.requires.len()
        invariant
            k <= node.requires@.len(),
            input is Object,
            input_violations(*node, *input).len() == 0,
            first_missing_judgement(node.manifest.params@, *input, 0) is None,
            bindings@.len() == 1,
            input_bound(*node, *input, bindings@),
            forall|m: int| 0 <= m < k ==> #[trigger] cel_can_yield(node.requires@[m].source@, all_bindings(bindings@), CelOutcome::Bool(true)),
        decreases node.requires@.len() - k,
    {
        let verdict = node.requires[k].evaluate(&bindings);
        let ghost seen = verdict;
        match precondition(node, &node.requires[k], verdict) {
            Ok(()) => {},
            Err(e) => {
                assert(precondition_error(e, *node, node.requires@[k as int], seen));
                return Err(e);
            },
        }
        k = k + 1;
    }
    assert(all_held(node.requires@, bindings@));
    Ok(())
}

// --------------------------------------------------------------------------- checking

/// Everything checked once the node has answered: the result satisfies the output schema, and
/// every postcondition holds with both the input and the result in scope.
pub fn check(node: &Node, input: &Json, result: &Json) -> (r: Result<(), VouchError>)
    ensures
        match r {
            Err(e) => e.node matches Some(n) && n@ == node.manifest.name@,
            Ok(()) => true,
        },
        output_violations(*node, *result).len() > 0 ==> (r matches Err(e) && e.outcome
            == Outcome::Defect && e.code == OUTPUT_SCHEMA && e.reason@
            == "node returned a value that does not satisfy its output schema: "@ + join_spec(
            output_violations(*node, *result),
            "; "@,
        )),
        output_violations(*node, *result).len() == 0 ==> (r is Ok || (r matches Err(e) && exists|k: int, v: Verdict|
            0 <= k < node.ensures@.len() && #[trigger] postcondition_error(e, *node, node.ensures@[k], v, *result))),
        r is Ok ==> output_violations(*node, *result).len() == 0,
        r is Ok ==> exists|b: Seq<(String, CelVal)>| result_bound(*node, *input, *result, b)
            && all_held(node.ensures@, b),
{
    let name = node.manifest.name.as_str();
    let errors = crate::schema::errors(&node.output_schema, result);
    if errors.len() > 0 {
        let mut reason = owned("node returned a value that does not satisfy its output schema: ");
        let listed = crate::text::join(&errors, "; ");
        push_str(&mut reason, listed.as_str());
        let details = single("violations", crate::json::strings(&errors));
        return Err(VouchError::defect(OUTPUT_SCHEMA, reason).with_node(name).with_details(details));
    }
    let mut bindings = input_binding(node, input);
    bindings.push((key("result"), to_cel(result, Some(&node.output_schema), &node.output_schema)));
    let mut k: usize = 0;
    while k < node.ensures.len()
        invariant
            k <= node.ensures@.len(),
            output_violations(*node, *result).len() == 0,
            result_bound(*node, *input, *result, bindings@),
            forall|m: int| 0 <= m < k ==> #[trigger] cel_can_yield(node.ensures@[m].source@, all_bindings(bindings@), CelOutcome::Bool(true)),
        decreases node.ensures@.len() - k,
    {
        let verdict = node.ensures[k].evaluate(&bindings);
        let ghost seen = verdict;
        match postcondition(node, &node.ensures[k], verdict, result) {
            Ok(()) => {},
            Err(e) => {
                assert(postcondition_error(e, *node, node.ensures@[k as int], seen, *result));
                return Err(e);
            },
        }
        k = k + 1;
    }
    assert(all_held(node.ensures@, bindings@));
    Ok(())
}

/// The attempt, once the node has run: a failure to run, or to speak the protocol, stands as
/// the verdict with nothing produced; otherwise what it produced is checked.
pub fn conclude(node: &Node, input: &Json, ran: Result<Json, VouchError>) -> (a: Attempt)
    ensures
        a.executed,
        match ran {
            Err(e) => a.produced is None && a.verdict == Err::<(), VouchError>(e),
            Ok(result) => a.produced == Some(result) && (a.verdict is Ok ==> output_violations(
                *node,
                result,
            ).len() == 0) && (output_violations(*node, result).len() > 0 ==> (a.verdict matches Err(e)
                && e.code == OUTPUT_SCHEMA)) && (a.verdict is Ok ==> exists|b: Seq<(String, CelVal)>|
                result_bound(*node, *input, result, b) && all_held(node.ensures@, b)),
        },
{
    match ran {
        Err(e) => Attempt { executed: true, produced: None, verdict: Err(e) },
        Ok(result) => {
            let verdict = check(node, input, &result);
            Attempt { executed: true, produced: Some(result), verdict }
        },
    }
}


// ---------------------------------------------------------------------------- the input

/// The call's input from its text: the JSON it reads as, or a caller error that says where the
/// text came from and what is wrong with it.
pub fn parse_input(text: &str, origin: &str) -> (r: Result<Json, VouchError>)
    ensures
        r is Ok <==> crate::json::readable(text@),
        r matches Ok(j) ==> crate::json::read_as(text@, j),
        r matches Err(e) ==> e.outcome == Outcome::CallerError && e.code == INPUT_SCHEMA && e.reason@
            == origin@ + " is not valid JSON: "@ + crate::json::reading_problem(text@),
{
    match crate::json::parse_json(text) {
        Ok(j) => Ok(j),
        Err(m) => {
            let mut reason = owned(origin);
            push_str(&mut reason, " is not valid JSON: ");
            push_str(&mut reason, m.as_str());
            Err(VouchError::caller_error(INPUT_SCHEMA, reason))
        },
    }
}

} // verus!
