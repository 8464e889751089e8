//! The subprocess protocol: a JSON object in on stdin, a JSON object out on stdout, any
//! language.
//!
//! Contract enforcement lives outside this module entirely, so the guarantee holds regardless
//! of how the node is implemented. What this module owns is the protocol boundary: a node that
//! violates it produces a defect, never a value. Starting the process and reading its pipes is
//! the caller's part; what the bytes that came back mean is decided here.

use crate::error::{Outcome, VouchError, NODE_CRASHED, NODE_REFUSED, PROTOCOL, TIMEOUT};
use crate::json::{parse_json, read_as, readable, reading_problem, Json};
use crate::text::{owned, push_char, push_str, trimmed};
use vstd::prelude::*;
use vstd::string::StrSliceExecFns;

verus! {

/// How much of a node's stderr, in bytes, to quote back in a defect report.
pub const STDERR_TAIL: usize = 2000;

/// How many bytes UTF-8 spends on a character.
pub open spec fn char_width(c: char) -> nat {
    let u = c as u32;
    if u < 0x80 {
        1
    } else if u < 0x800 {
        2
    } else if u < 0x10000 {
        3
    } else {
        4
    }
}

/// How many bytes UTF-8 spends on `s`.
pub open spec fn utf8_len(s: Seq<char>) -> nat
    decreases s.len(),
{
    if s.len() == 0 {
        0
    } else {
        utf8_len(s.drop_last()) + char_width(s.last())
    }
}

/// `s` without the white space at its end.
pub open spec fn trim_end(s: Seq<char>) -> Seq<char>
    decreases s.len(),
{
    if s.len() > 0 && crate::text::is_white_space(s.last()) {
        trim_end(s.drop_last())
    } else {
        s
    }
}

/// The first index from which the rest of `s` fits in `budget` bytes, searching from `k`.
pub open spec fn fitting_from(s: Seq<char>, budget: nat, k: int) -> int
    decreases s.len() - k,
{
    if k >= s.len() || utf8_len(s.subrange(k, s.len() as int)) <= budget {
        k
    } else {
        fitting_from(s, budget, k + 1)
    }
}

/// The end of a long text: all of it when it fits in `STDERR_TAIL` bytes once trailing white
/// space is gone, and otherwise `...` and the longest run of whole characters at its end that
/// does.
pub open spec fn tail_spec(text: Seq<char>) -> Seq<char> {
    let t = trim_end(text);
    if utf8_len(t) <= STDERR_TAIL {
        t
    } else {
        "..."@ + t.subrange(fitting_from(t, STDERR_TAIL as nat, 0), t.len() as int)
    }
}

fn width(c: char) -> (w: usize)
    ensures
        w == char_width(c),
{
    let u = c as u32;
    if u < 0x80 {
        1
    } else if u < 0x800 {
        2
    } else if u < 0x10000 {
        3
    } else {
        4
    }
}

proof fn lemma_utf8_len_split(s: Seq<char>, k: int)
    requires
        0 <= k < s.len(),
    ensures
        utf8_len(s.subrange(k, s.len() as int)) == char_width(s[k]) + utf8_len(s.subrange(k + 1, s.len() as int)),
    decreases s.len() - k,
{
    let rest = s.subrange(k, s.len() as int);
    if k + 1 < s.len() {
        lemma_utf8_len_split(s.drop_last(), k);
        assert(rest.drop_last() =~= s.drop_last().subrange(k, s.len() - 1));
        assert(s.subrange(k + 1, s.len() as int).drop_last() =~= s.drop_last().subrange(k + 1, s.len() - 1));
    } else {
        assert(rest.drop_last() =~= seq![]);
        assert(s.subrange(k + 1, s.len() as int) =~= seq![]);
    }
}

/// The end of a long text, for quoting back in a report without flooding it.
pub fn tail(text: &str) -> (r: String)
    ensures
        r@ == tail_spec(text@),
{
    let all = crate::text::chars_of(text);
    let mut end = all.len();
    proof {
        assert(all@.subrange(0, end as int) =~= all@);
    }
    while end > 0 && crate::text::char_is_white_space(all[end - 1])
        invariant
            end <= all@.len(),
            trim_end(text@) == trim_end(all@.subrange(0, end as int)),
            all@ == text@,
        decreases end,
    {
        proof {
            assert(all@.subrange(0, end as int).drop_last() =~= all@.subrange(0, end - 1));
        }
        end = end - 1;
    }
    let ghost t = all@.subrange(0, end as int);
    assert(trim_end(text@) == t);
    // Bytes from each index to the end, counted from the end backwards.
    let mut k = end;
    let mut bytes: usize = 0;
    proof {
        assert(t.subrange(end as int, end as int) =~= seq![]);
    }
    while k > 0 && bytes + width(all[k - 1]) <= STDERR_TAIL
        invariant
            k <= end <= all@.len(),
            t == all@.subrange(0, end as int),
            bytes == utf8_len(t.subrange(k as int, end as int)),
            bytes <= STDERR_TAIL,
        decreases k,
    {
        proof {
            lemma_utf8_len_split(t, k - 1);
        }
        bytes = bytes + width(all[k - 1]);
        k = k - 1;
    }
    let mut r = String::new();
    if k > 0 {
        proof {
            lemma_utf8_len_split(t, k - 1);
            lemma_fitting_from(t, k as int);
        }
        push_str(&mut r, "...");
    } else {
        proof {
            assert(t.subrange(0, end as int) =~= t);
        }
    }
    let mut i = k;
    let ghost start = r@;
    while i < end
        invariant
            k <= i <= end <= all@.len(),
            r@ == start + all@.subrange(k as int, i as int),
        decreases end - i,
    {
        push_char(&mut r, all[i]);
        proof {
            assert(r@ =~= start + all@.subrange(k as int, i + 1));
        }
        i = i + 1;
    }
    proof {
        assert(all@.subrange(k as int, end as int) =~= t.subrange(k as int, t.len() as int));
        if k == 0 {
            assert(r@ =~= t);
        }
    }
    r
}

/// When the suffix from `k` fits and the one from `k - 1` does not, and suffixes only grow as
/// they start earlier, `k` is the first index whose suffix fits.
proof fn lemma_fitting_from(t: Seq<char>, k: int)
    requires
        0 < k <= t.len(),
        utf8_len(t.subrange(k, t.len() as int)) <= STDERR_TAIL,
        utf8_len(t.subrange(k - 1, t.len() as int)) > STDERR_TAIL,
    ensures
        fitting_from(t, STDERR_TAIL as nat, 0) == k,
        utf8_len(t) > STDERR_TAIL,
{
    assert forall|j: int| 0 <= j < k implies utf8_len(#[trigger] t.subrange(j, t.len() as int)) > STDERR_TAIL by {
        lemma_suffix_grows(t, j, k - 1);
    }
    lemma_fitting_walk(t, 0, k);
    assert(t.subrange(0, t.len() as int) =~= t);
}

proof fn lemma_suffix_grows(t: Seq<char>, j: int, m: int)
    requires
        0 <= j <= m < t.len(),
    ensures
        utf8_len(t.subrange(j, t.len() as int)) >= utf8_len(t.subrange(m, t.len() as int)),
    decreases m - j,
{
    if j < m {
        lemma_utf8_len_split(t, j);
        lemma_suffix_grows(t, j + 1, m);
    }
}

proof fn lemma_fitting_walk(t: Seq<char>, j: int, k: int)
    requires
        0 <= j <= k <= t.len(),
        utf8_len(t.subrange(k, t.len() as int)) <= STDERR_TAIL,
        forall|m: int| j <= m < k ==> utf8_len(#[trigger] t.subrange(m, t.len() as int)) > STDERR_TAIL,
    ensures
        fitting_from(t, STDERR_TAIL as nat, j) == k,
    decreases k - j,
{
    if j < k {
        assert(utf8_len(t.subrange(j, t.len() as int)) > STDERR_TAIL);
        lemma_fitting_walk(t, j + 1, k);
    }
}

// ------------------------------------------------------------------------ what came back

/// The JSON type of a value, as a sentence names it.
pub open spec fn kind_name(j: Json) -> Seq<char> {
    match j {
        Json::Null => "null"@,
        Json::Bool(_) => "boolean"@,
        Json::Number(_) => "number"@,
        Json::Str(_) => "string"@,
        Json::Array(_) => "array"@,
        Json::Object(_) => "object"@,
    }
}

pub fn json_kind(value: &Json) -> (r: &'static str)
    ensures
        r@ == kind_name(*value),
{
    match value {
        Json::Null => "null",
        Json::Bool(_) => "boolean",
        Json::Number(_) => "number",
        Json::Str(_) => "string",
        Json::Array(_) => "array",
        Json::Object(_) => "object",
    }
}

/// What stdout carries: its text with the white space at either end taken off. Whether that
/// text is JSON is for a parser to say.
pub fn stdout_body(stdout: &str) -> (r: String)
    ensures
        r@ == trimmed(stdout@),
{
    let mut r = String::new();
    crate::text::push_trimmed(&mut r, stdout);
    assert(r@ =~= trimmed(stdout@));
    r
}

/// A protocol violation: stdout carries the result object and nothing else. Every language's
/// default logger writes there, and every contributor corrupts it on day one — so a violation
/// gets a message that says what happened, not a parse error.
pub fn violation(reason: String, node: &str, body: &str, stderr: &str) -> (e: VouchError)
    ensures
        e.outcome == Outcome::Defect,
        e.code == PROTOCOL,
        e.reason@ == reason@,
        e.node matches Some(n) && n@ == node@,
{
    let mut details: Vec<(String, Json)> = Vec::new();
    details.push((owned("stdout"), Json::Str(tail(body))));
    details.push((owned("stderr"), Json::Str(tail(stderr))));
    details.push(
        (
            owned("hint"),
            Json::Str(
                owned(
                    "stdout carries the result object and nothing else; send logs and progress to stderr",
                ),
            ),
        ),
    );
    VouchError::defect(PROTOCOL, reason).with_node(node).with_details(Json::Object(details))
}

/// What a node's stdout amounts to, given its trimmed text: the object it holds, or a protocol
/// violation that says what stdout held instead.
pub fn read_stdout(body: &str, node: &str, stderr: &str) -> (r: Result<Json, VouchError>)
    ensures
        body@.len() == 0 ==> (r matches Err(e) && e.code == PROTOCOL && e.reason@
            == "node wrote nothing to stdout; expected one JSON object"@),
        body@.len() > 0 && !readable(body@) ==> (r matches Err(e) && e.code == PROTOCOL && e.reason@
            == "stdout is not a single valid JSON object: "@ + reading_problem(body@)),
        body@.len() > 0 && readable(body@) ==> match r {
            Ok(v) => read_as(body@, v) && v is Object,
            Err(e) => e.code == PROTOCOL && exists|j: Json| read_as(body@, j) && !(j is Object) && e.reason@
                == "node wrote a JSON "@ + kind_name(j) + " to stdout; expected a JSON object"@,
        },
        r matches Err(e) ==> e.outcome == Outcome::Defect && (e.node matches Some(n) && n@ == node@),
{
    if body.unicode_len() == 0 {
        return Err(
            violation(
                owned("node wrote nothing to stdout; expected one JSON object"),
                node,
                body,
                stderr,
            ),
        );
    }
    match parse_json(body) {
        Ok(Json::Object(fields)) => Ok(Json::Object(fields)),
        Ok(other) => {
            let mut reason = owned("node wrote a JSON ");
            push_str(&mut reason, json_kind(&other));
            push_str(&mut reason, " to stdout; expected a JSON object");
            Err(violation(reason, node, body, stderr))
        },
        Err(m) => {
            let mut reason = owned("stdout is not a single valid JSON object: ");
            push_str(&mut reason, m.as_str());
            Err(violation(reason, node, body, stderr))
        },
    }
}

/// The exit status by which a node refuses: it understood the question, consulted its own
/// data, and the answer does not exist. Not 1 or 2, which are an uncaught exception and an
/// argument error in most languages; reading either as a considered refusal would turn a crash
/// into an answer.
pub const REFUSAL_EXIT: i32 = 3;

/// What a node that refuses is reported as saying: its own words from stderr, or, when it
/// gave none, a reason that says so and names it.
pub open spec fn refusal_reason(node: Seq<char>, stderr: Seq<char>) -> Seq<char> {
    if trimmed(stderr).len() > 0 {
        trimmed(stderr)
    } else {
        "node `"@ + node + "` refused but gave no reason"@
    }
}

/// A node that exited unsuccessfully. Exit `REFUSAL_EXIT` is the node refusing, in its own
/// words; any other status, or a kill by a signal when there is no exit code, is a broken node.
pub fn exited(code: Option<i32>, node: &str, stderr: &str) -> (e: VouchError)
    ensures
        e.node matches Some(n) && n@ == node@,
        code == Some(REFUSAL_EXIT) ==> e.outcome == Outcome::Refusal && e.code == NODE_REFUSED
            && e.reason@ == refusal_reason(node@, stderr@) && e.details is None,
        code != Some(REFUSAL_EXIT) ==> e.outcome == Outcome::Defect && e.code == NODE_CRASHED
            && e.reason@ == "node exited with "@ + match code {
            Some(c) => "exit "@ + crate::text::int_text(c as int),
            None => "killed by signal"@,
        },
        code != Some(REFUSAL_EXIT) ==> (e.details matches Some(Json::Object(fs)) && fs@.len() == 1
            && fs@[0].0@ == "stderr"@ && (fs@[0].1 matches Json::Str(t) && t@ == tail_spec(stderr@))),
{
    if code == Some(REFUSAL_EXIT) {
        let mut said = String::new();
        crate::text::push_trimmed(&mut said, stderr);
        let reason = if said.as_str().unicode_len() > 0 {
            said
        } else {
            let mut r = owned("node `");
            push_str(&mut r, node);
            push_str(&mut r, "` refused but gave no reason");
            r
        };
        return VouchError::refusal(NODE_REFUSED, reason).with_node(node);
    }
    let mut reason = owned("node exited with ");
    match code {
        Some(c) => {
            push_str(&mut reason, "exit ");
            crate::text::push_int(&mut reason, c as i64);
        },
        None => push_str(&mut reason, "killed by signal"),
    }
    let mut details: Vec<(String, Json)> = Vec::new();
    details.push((owned("stderr"), Json::Str(tail(stderr))));
    VouchError::defect(NODE_CRASHED, reason).with_node(node).with_details(Json::Object(details))
}

/// A node that outlived its timeout was killed, and the call refuses.
pub fn timed_out(timeout_ms: u64, node: &str) -> (e: VouchError)
    ensures
        e.outcome == Outcome::Refusal,
        e.code == TIMEOUT,
        e.reason@ == "node exceeded its "@ + crate::ledger::nat_digits(timeout_ms as nat)
            + "ms timeout and was killed"@,
        e.node matches Some(n) && n@ == node@,
{
    let mut reason = owned("node exceeded its ");
    crate::ledger::push_digits(&mut reason, timeout_ms as u128);
    push_str(&mut reason, "ms timeout and was killed");
    VouchError::refusal(TIMEOUT, reason).with_node(node)
}

/// A node whose program could not be started, or whose run failed before it could exit, is
/// broken: `what` says which, and `problem` is what the system said.
pub fn failed_to_start(what: &str, problem: &str, node: &str) -> (e: VouchError)
    ensures
        e.outcome == Outcome::Defect,
        e.code == NODE_CRASHED,
        e.reason@ == what@ + ": "@ + problem@,
        e.node matches Some(n) && n@ == node@,
{
    let mut reason = owned(what);
    push_str(&mut reason, ": ");
    push_str(&mut reason, problem);
    VouchError::defect(NODE_CRASHED, reason).with_node(node)
}

} // verus!
