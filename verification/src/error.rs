//! Exit codes and the structured reason that goes to stderr.
//!
//! Three families, and the distinction between them is the product:
//!
//! - **refusal** — no answer is available; the agent should try another approach.
//! - **defect** — the node is broken; the agent should stop trusting it.
//! - **caller_error** — the call itself was malformed.
//!
//! `error` is a fourth family reserved for problems with the collection rather than with a
//! call: a missing node, an unparseable manifest. It never overlaps a call outcome.

use crate::decimal::{decimal_of_int, Decimal};
use crate::json::Json;
use crate::text::owned;
use vstd::prelude::*;

verus! {

pub const OK: i32 = 0;
pub const ERROR: i32 = 1;
pub const INPUT_SCHEMA: i32 = 10;
pub const PRECONDITION: i32 = 11;
pub const OUTPUT_SCHEMA: i32 = 12;
pub const POSTCONDITION: i32 = 13;
pub const TIMEOUT: i32 = 14;
pub const CONTRACT_UNEVALUABLE: i32 = 15;
/// The node refused: it ran, looked at its own data, and there is no answer.
pub const NODE_REFUSED: i32 = 16;
/// A judgement parameter was left out: the call was fine, one value in it is a decision the
/// collection will not make for the caller.
pub const JUDGEMENT_REQUIRED: i32 = 17;
pub const NODE_CRASHED: i32 = 20;
pub const PROTOCOL: i32 = 21;

/// `vouch attest` exit codes. Unmatched numerals are a *finding*, so they take exit 1 and the
/// command's own failures move to 2.
pub const ATTEST_UNMATCHED: i32 = 1;
pub const ATTEST_ERROR: i32 = 2;

/// `vouch test` and `vouch eval` follow the same convention, for the same reason: a failing
/// fixture is a finding about the collection, not a failure of the command, and the two must
/// be distinguishable by a script.
pub const TEST_FAILED: i32 = 1;
pub const TEST_ERROR: i32 = 2;

#[derive(Debug, Clone, Copy, PartialEq, Eq, Structural)]
pub enum Outcome {
    Refusal,
    Defect,
    CallerError,
    Error,
}

/// The name the ledger records for an outcome.
pub open spec fn outcome_name(o: Outcome) -> Seq<char> {
    match o {
        Outcome::Refusal => "refusal"@,
        Outcome::Defect => "defect"@,
        Outcome::CallerError => "caller_error"@,
        Outcome::Error => "error"@,
    }
}

impl Outcome {
    /// The name the ledger records for this outcome.
    pub fn as_str(self) -> (r: &'static str)
        ensures
            r@ == outcome_name(self),
    {
        match self {
            Outcome::Refusal => "refusal",
            Outcome::Defect => "defect",
            Outcome::CallerError => "caller_error",
            Outcome::Error => "error",
        }
    }
}

/// The fields of an error's stderr line, in order.
pub open spec fn error_fields(fields: Seq<(String, Json)>, e: VouchError) -> bool {
    let node_fields: int = if e.node is Some { 1 } else { 0 };
    let detail_fields: int = if e.details is Some { 1 } else { 0 };
    &&& fields.len() == 3 + node_fields + detail_fields
    &&& fields[0].0@ == "outcome"@
    &&& fields[0].1 matches Json::Str(s) && s@ == outcome_name(e.outcome)
    &&& fields[1].0@ == "code"@ && fields[1].1 == Json::Number(decimal_of_int(e.code as int))
    &&& (e.node matches Some(n) ==> fields[2].0@ == "node"@ && (fields[2].1 matches Json::Str(s) && s@ == n@))
    &&& fields[2 + node_fields].0@ == "reason"@
    &&& fields[2 + node_fields].1 matches Json::Str(s) && s@ == e.reason@
    &&& (e.details matches Some(d) ==> fields[3 + node_fields].0@ == "details"@ && fields[3 + node_fields].1 == d)
}

/// Why a call or a command did not produce a value.
#[derive(Debug)]
pub struct VouchError {
    pub outcome: Outcome,
    pub code: i32,
    pub node: Option<String>,
    pub reason: String,
    pub details: Option<Json>,
}

impl VouchError {
    fn new(outcome: Outcome, code: i32, reason: String) -> (e: VouchError)
        ensures
            e.outcome == outcome,
            e.code == code,
            e.node is None,
            e.reason@ == reason@,
            e.details is None,
    {
        VouchError { outcome, code, node: None, reason, details: None }
    }

    /// No answer is available. The question is outside this node's competence, or the
    /// runtime could not establish that an answer would be sound.
    pub fn refusal(code: i32, reason: String) -> (e: VouchError)
        ensures
            e.outcome == Outcome::Refusal,
            e.code == code,
            e.node is None,
            e.reason@ == reason@,
            e.details is None,
    {
        Self::new(Outcome::Refusal, code, reason)
    }

    /// The node is broken. No value reaches the caller.
    pub fn defect(code: i32, reason: String) -> (e: VouchError)
        ensures
            e.outcome == Outcome::Defect,
            e.code == code,
            e.node is None,
            e.reason@ == reason@,
            e.details is None,
    {
        Self::new(Outcome::Defect, code, reason)
    }

    /// The caller sent something the node cannot accept.
    pub fn caller_error(code: i32, reason: String) -> (e: VouchError)
        ensures
            e.outcome == Outcome::CallerError,
            e.code == code,
            e.node is None,
            e.reason@ == reason@,
            e.details is None,
    {
        Self::new(Outcome::CallerError, code, reason)
    }

    /// A problem with the collection itself, not with any particular call.
    pub fn error(reason: String) -> (e: VouchError)
        ensures
            e.outcome == Outcome::Error,
            e.code == ERROR,
            e.node is None,
            e.reason@ == reason@,
            e.details is None,
    {
        Self::new(Outcome::Error, ERROR, reason)
    }

    /// Re-code an error for a subcommand with its own exit convention: `attest` gives exit 1
    /// to "found unmatched numerals", which is a finding rather than a failure, so its genuine
    /// errors move to 2.
    pub fn with_code(self, code: i32) -> (e: VouchError)
        ensures
            e.outcome == self.outcome,
            e.code == code,
            e.node == self.node,
            e.reason == self.reason,
            e.details == self.details,
    {
        let mut e = self;
        e.code = code;
        e
    }

    pub fn with_node(self, node: &str) -> (e: VouchError)
        ensures
            e.outcome == self.outcome,
            e.code == self.code,
            e.node matches Some(n) && n@ == node@,
            e.reason == self.reason,
            e.details == self.details,
    {
        let mut e = self;
        e.node = Some(owned(node));
        e
    }

    pub fn with_details(self, details: Json) -> (e: VouchError)
        ensures
            e.outcome == self.outcome,
            e.code == self.code,
            e.node == self.node,
            e.reason == self.reason,
            e.details == Some(details),
    {
        let mut e = self;
        e.details = Some(details);
        e
    }

    /// The line that goes to stderr, as a JSON object: `outcome`, `code`, `node` when there is
    /// one, `reason`, and `details` when there are any.
    pub fn into_json(self) -> (j: Json)
        ensures
            j matches Json::Object(fields) && error_fields(fields@, self),
    {
        let mut fields: Vec<(String, Json)> = Vec::new();
        fields.push((owned("outcome"), Json::Str(owned(self.outcome.as_str()))));
        fields.push((owned("code"), Json::Number(Decimal::from_i64(self.code as i64))));
        match self.node {
            Some(n) => fields.push((owned("node"), Json::Str(n))),
            None => {},
        }
        fields.push((owned("reason"), Json::Str(self.reason)));
        match self.details {
            Some(d) => fields.push((owned("details"), d)),
            None => {},
        }
        Json::Object(fields)
    }
}

} // verus!
