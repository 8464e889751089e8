//! `vouch eval` — agent routing evals.
//!
//! A natural-language question goes in; the assertions are that the right node was called
//! with the right parameters, and that the prose written from the results attests clean.
//!
//! There is a model in the loop, so **this is a rate, not a pass**. A case is run `n` times and
//! reported as `9/10`. Do not conflate it with `vouch test`, which is boolean: one catches the
//! arithmetic breaking, this catches a reworded `use_when` quietly dropping routing accuracy,
//! which is otherwise invisible until someone complains.
//!
//! The loop is: plan a call, run it, feed refusals back as corrections, then narrate and attest.
//! The agent is any command that takes a prompt and prints a reply, so the runtime never
//! depends on a particular harness. Asking the agent and running nodes is the caller's part;
//! every decision the loop makes is made here.

use crate::error::{Outcome, VouchError};
use crate::json::{json_equal, render, Json};
use crate::manifest::Node;
use crate::verify::Attempt;
use crate::text::{
    chars_of, int_text, is_white_space, owned, push_char, push_str, string_of, string_views,
    trimmed,
};
use vstd::prelude::*;
use vstd::string::StrSliceExecFns;
use vstd::string::StringSliceAdditionalSpecFns;

verus! {

/// How many decisions the agent may make before a run is abandoned. Enough for a couple of
/// chained calls plus a correction, low enough that a confused model cannot spin.
pub const MAX_DECISIONS: usize = 6;

/// The rules the agent is held to.
pub const PLANNING_RULES: &'static str = "You are driving a set of verified functions, called nodes, to answer a question. You are NOT
answering it yourself.

Reply with ONLY a JSON object, in one of three shapes:

  {\"call\": {\"node\": \"<name>\", \"input\": {...}}}
      Run a node. `input` must satisfy that node's parameters exactly. Build the arguments
      from the question and from the verified results of earlier calls — never from your own
      guesses. If you need a figure you do not have, call the node that produces it first.

  {\"done\": true}
      The verified results so far are enough to answer the question.

  {\"stop\": \"<one sentence>\"}
      No node can answer this, or a node has told you the answer does not exist. Say what you
      cannot answer and why.

Stopping is a good answer when it is the true one. Never pick a node that is merely close,
and never fill a parameter with a number you invented — a wrong answer is worse than none.
";

// ------------------------------------------------------------------------ the suite

/// One eval case.
#[derive(Debug)]
pub struct Case {
    /// The question, in plain English, exactly as a user would put it.
    pub ask: String,
    /// A node the run must call.
    pub expect_node: Option<String>,
    /// Parameters that call must carry. A subset: a case pins what matters and leaves the rest
    /// free, so an added optional parameter does not break every eval.
    pub expect_params: Option<Json>,
    /// The final prose must reconcile against the run's own ledger.
    pub attest: bool,
    /// The run must end in the agent declining — the case that matters most to this project,
    /// the question whose honest answer is "there isn't one".
    pub expect_stop: bool,
}

/// Why a suite's case cannot mean what it says, if it cannot.
pub open spec fn case_problem(case: Case, path: Seq<char>) -> Option<Seq<char>> {
    if case.expect_params is Some && case.expect_node is None {
        Some(
            path + ": '"@ + case.ask@
                + "' expects params without expecting a node; there is nothing to check them against"@,
        )
    } else if case.expect_stop && case.attest {
        Some(
            path + ": '"@ + case.ask@
                + "' expects the agent to stop and also to attest; a run that stops writes no answer to check"@,
        )
    } else {
        None
    }
}

/// A suite whose cases cannot mean what they say is refused when it loads, naming the first.
pub fn check_suite(cases: &Vec<Case>, path: &str) -> (r: Result<(), VouchError>)
    ensures
        match r {
            Ok(()) => forall|k: int| 0 <= k < cases@.len() ==> case_problem(#[trigger] cases@[k], path@) is None,
            Err(e) => e.outcome == Outcome::Error && e.code == crate::error::ERROR && exists|k: int|
                0 <= k < cases@.len() && case_problem(#[trigger] cases@[k], path@) == Some(e.reason@)
                    && forall|m: int| 0 <= m < k ==> case_problem(#[trigger] cases@[m], path@) is None,
        },
{
    let mut i: usize = 0;
    while i < cases.len()
        invariant
            i <= cases@.len(),
            forall|k: int| 0 <= k < i ==> case_problem(#[trigger] cases@[k], path@) is None,
        decreases cases@.len() - i,
    {
        let case = &cases[i];
        if case.expect_params.is_some() && case.expect_node.is_none() {
            let mut m = owned(path);
            push_str(&mut m, ": '");
            push_str(&mut m, case.ask.as_str());
            push_str(
                &mut m,
                "' expects params without expecting a node; there is nothing to check them against",
            );
            return Err(VouchError::error(m));
        }
        if case.expect_stop && case.attest {
            let mut m = owned(path);
            push_str(&mut m, ": '");
            push_str(&mut m, case.ask.as_str());
            push_str(
                &mut m,
                "' expects the agent to stop and also to attest; a run that stops writes no answer to check",
            );
            return Err(VouchError::error(m));
        }
        i = i + 1;
    }
    Ok(())
}

/// Where a collection keeps its evals. Collection-level, like the registry preamble, because
/// routing is a property of the set rather than of any one node.
pub fn default_path(registry: &crate::registry::Registry) -> (r: String)
    ensures
        r@ == registry.root@ + "/.vouch/evals.toml"@,
{
    let mut r = registry.root.clone();
    push_str(&mut r, "/.vouch/evals.toml");
    r
}

// ------------------------------------------------------------------------ the agent

/// Where splitting a command line stands after some characters: the words so far, the word
/// being read, the quote it is inside, and whether a word has started.
pub type SplitState = (Seq<Seq<char>>, Seq<char>, Option<char>, bool);

/// One character of a command line read.
pub open spec fn split_step(st: SplitState, c: char) -> SplitState {
    let (args, current, quote, started) = st;
    match quote {
        Some(q) => if c == q {
            (args, current, None, started)
        } else {
            (args, current.push(c), quote, started)
        },
        None => if c == '\'' || c == '"' {
            (args, current, Some(c), true)
        } else if is_white_space(c) {
            if started {
                (args.push(current), seq![], None, false)
            } else {
                st
            }
        } else {
            (args, current.push(c), None, true)
        },
    }
}

/// Where splitting stands after all of `s`.
pub open spec fn split_state(s: Seq<char>) -> SplitState
    decreases s.len(),
{
    if s.len() == 0 {
        (seq![], seq![], None, false)
    } else {
        split_step(split_state(s.drop_last()), s.last())
    }
}

/// A command line's words: split on white space, with single and double quotes holding a word
/// together.
pub open spec fn split_spec(s: Seq<char>) -> Seq<Seq<char>> {
    let (args, current, _, started) = split_state(s);
    if started {
        args.push(current)
    } else {
        args
    }
}

/// Split a command line on whitespace, respecting single and double quotes. Enough for an
/// `--agent` string and one fewer dependency than the general case would cost.
pub fn split(command: &str) -> (r: Vec<String>)
    ensures
        string_views(r@) == split_spec(command@),
{
    let chars = chars_of(command);
    let mut args: Vec<String> = Vec::new();
    let mut current = String::new();
    let mut quote: Option<char> = None;
    let mut started = false;
    let mut i: usize = 0;
    proof {
        assert(command@.subrange(0, 0) =~= seq![]);
    }
    while i < chars.len()
        invariant
            i <= chars@.len(),
            chars@ == command@,
            split_state(command@.subrange(0, i as int)) == (string_views(args@), current@, quote, started),
        decreases chars@.len() - i,
    {
        let c = chars[i];
        proof {
            assert(command@.subrange(0, i + 1).drop_last() =~= command@.subrange(0, i as int));
        }
        match quote {
            Some(q) => {
                if c == q {
                    quote = None;
                } else {
                    push_char(&mut current, c);
                }
            },
            None => {
                if c == '\'' || c == '"' {
                    quote = Some(c);
                    started = true;
                } else if crate::text::char_is_white_space(c) {
                    if started {
                        let word = current;
                        current = String::new();
                        args.push(word);
                        started = false;
                        assert(string_views(args@) =~= string_views(args@.drop_last()).push(word@));
                    }
                } else {
                    push_char(&mut current, c);
                    started = true;
                }
            },
        }
        i = i + 1;
    }
    assert(command@.subrange(0, i as int) =~= command@);
    if started {
        let word = current;
        args.push(word);
        assert(string_views(args@) =~= string_views(args@.drop_last()).push(word@));
    }
    args
}

/// A command that takes a prompt and prints a reply — `my-agent -p {prompt}`, or anything else.
///
/// `{prompt}` is substituted where it appears; without it the prompt is appended as the last
/// argument. Staying agent-agnostic is the point: the runtime shells out to whatever harness
/// the user already has.
#[derive(Debug)]
pub struct Agent {
    pub argv: Vec<String>,
}

impl Agent {
    pub fn new(command: &str) -> (r: Result<Agent, VouchError>)
        ensures
            match r {
                Ok(a) => string_views(a.argv@) == split_spec(command@) && a.argv@.len() > 0,
                Err(e) => split_spec(command@).len() == 0 && e.outcome == Outcome::Error && e.code == crate::error::ERROR && e.reason@
                    == "--agent is empty; nothing to run"@,
            },
    {
        let argv = split(command);
        if argv.len() == 0 {
            return Err(VouchError::error(owned("--agent is empty; nothing to run")));
        }
        Ok(Agent { argv })
    }
}


/// `s` with every occurrence of `pat` replaced by `by`, scanning left to right.
pub open spec fn replace_spec(s: Seq<char>, pat: Seq<char>, by: Seq<char>) -> Seq<char>
    decreases s.len(),
{
    if s.len() == 0 {
        seq![]
    } else if pat.len() > 0 && pat.len() <= s.len() && s.subrange(0, pat.len() as int) == pat {
        by + replace_spec(s.subrange(pat.len() as int, s.len() as int), pat, by)
    } else {
        seq![s[0]] + replace_spec(s.drop_first(), pat, by)
    }
}

/// `s` with every occurrence of `pat` replaced by `by`.
pub fn replace(s: &str, pat: &str, by: &str) -> (r: String)
    ensures
        r@ == replace_spec(s@, pat@, by@),
{
    let chars = chars_of(s);
    let p = chars_of(pat);
    let n = chars.len();
    let m = p.len();
    let mut out = String::new();
    let mut i: usize = 0;
    proof {
        assert(s@.subrange(0, n as int) =~= s@);
    }
    while i < n
        invariant
            i <= n,
            n == s@.len(),
            m == pat@.len(),
            chars@ == s@,
            p@ == pat@,
            replace_spec(s@, pat@, by@) == out@ + replace_spec(s@.subrange(i as int, n as int), pat@, by@),
        decreases n - i,
    {
        let ghost rest = s@.subrange(i as int, n as int);
        let mut matched = m > 0 && m <= n - i;
        let mut j: usize = 0;
        while matched && j < m
            invariant
                j <= m,
                m == pat@.len(),
                chars@ == s@,
                p@ == pat@,
                n == s@.len(),
                i < n,
                rest == s@.subrange(i as int, n as int),
                matched ==> m > 0 && m <= n - i && forall|k: int| 0 <= k < j ==> s@[i + k] == pat@[k],
                !matched ==> !(m > 0 && m <= n - i && rest.subrange(0, m as int) == pat@),
            decreases m - j,
        {
            if chars[i + j] != p[j] {
                matched = false;
                assert(rest.subrange(0, m as int)[j as int] != pat@[j as int]);
            }
            j = j + 1;
        }
        if matched {
            push_str(&mut out, by);
            proof {
                assert(rest.subrange(0, m as int) =~= pat@);
                assert(rest.subrange(m as int, rest.len() as int) =~= s@.subrange(i + m, n as int));
            }
            i = i + m;
        } else {
            push_char(&mut out, chars[i]);
            proof {
                assert(rest.drop_first() =~= s@.subrange(i + 1, n as int));
                assert(rest[0] == s@[i as int]);
            }
            i = i + 1;
        }
    }
    proof {
        assert(s@.subrange(n as int, n as int) =~= seq![]);
    }
    assert(out@ =~= out@ + seq![]);
    out
}

/// The command line for one prompt: `{prompt}` substituted into every argument that holds it,
/// and the prompt appended as the last argument when none does.
pub open spec fn invocation_spec(argv: Seq<Seq<char>>, prompt: Seq<char>) -> Seq<Seq<char>> {
    let args = argv.map_values(|a: Seq<char>| replace_spec(a, "{prompt}"@, prompt));
    if exists|k: int| 0 <= k < argv.len() && crate::text::contains_text(#[trigger] argv[k], "{prompt}"@) {
        args
    } else {
        args.push(prompt)
    }
}

impl Agent {
    /// The command line that asks the agent `prompt`.
    pub fn invocation(&self, prompt: &str) -> (r: Vec<String>)
        ensures
            string_views(r@) == invocation_spec(string_views(self.argv@), prompt@),
    {
        let marker = chars_of("{prompt}");
        let mut substituted = false;
        let mut args: Vec<String> = Vec::new();
        let ghost argv = string_views(self.argv@);
        let mut i: usize = 0;
        while i < self.argv.len()
            invariant
                i <= self.argv@.len(),
                argv == string_views(self.argv@),
                marker@ == "{prompt}"@,
                string_views(args@) == argv.take(i as int).map_values(
                    |a: Seq<char>| replace_spec(a, "{prompt}"@, prompt@),
                ),
                substituted == exists|k: int| 0 <= k < i && crate::text::contains_text(#[trigger] argv[k], "{prompt}"@),
            decreases self.argv@.len() - i,
        {
            let arg = chars_of(self.argv[i].as_str());
            assert(argv[i as int] == self.argv@[i as int]@);
            if crate::text::find_text(&arg, &marker) {
                substituted = true;
            }
            let replaced = replace(self.argv[i].as_str(), "{prompt}", prompt);
            args.push(replaced);
            proof {
                assert(argv.take(i + 1).map_values(|a: Seq<char>| replace_spec(a, "{prompt}"@, prompt@)) =~= argv.take(
                    i as int,
                ).map_values(|a: Seq<char>| replace_spec(a, "{prompt}"@, prompt@)).push(replaced@));
                assert(string_views(args@) =~= string_views(args@.drop_last()).push(replaced@));
            }
            i = i + 1;
        }
        assert(argv.take(i as int) =~= argv);
        if !substituted {
            args.push(owned(prompt));
            assert(string_views(args@) =~= string_views(args@.drop_last()).push(prompt@));
        }
        args
    }
}

/// The agent's reply: what it printed, without white space at either end.
pub fn reply_text(stdout: &str) -> (r: String)
    ensures
        r@ == trimmed(stdout@),
{
    let mut r = String::new();
    crate::text::push_trimmed(&mut r, stdout);
    assert(r@ =~= trimmed(stdout@));
    r
}

/// What to say when the agent command failed: its stderr, or its stdout when stderr is empty
/// (a harness may report its own trouble there), or that it said nothing.
pub open spec fn agent_failure_message(status: Option<i32>, stderr: Seq<char>, stdout: Seq<char>) -> Seq<char> {
    let said = if trimmed(stderr).len() == 0 {
        trimmed(stdout)
    } else {
        trimmed(stderr)
    };
    let state = match status {
        Some(c) => "exit "@ + int_text(c as int),
        None => "killed by signal"@,
    };
    if said.len() == 0 {
        "the agent command failed ("@ + state + ") and said nothing"@
    } else {
        "the agent command failed ("@ + state + "): "@ + said
    }
}

/// The agent command ran and failed. Say what happened even when the agent is quiet about
/// it: "the agent command failed" and nothing else is the least useful sentence a checking
/// tool can end on.
pub fn agent_failed(status: Option<i32>, stderr: &str, stdout: &str) -> (e: VouchError)
    ensures
        e.outcome == Outcome::Error && e.code == crate::error::ERROR,
        e.reason@ == agent_failure_message(status, stderr@, stdout@),
{
    let err = reply_text(stderr);
    let out = reply_text(stdout);
    let said = if err.as_str().unicode_len() == 0 { out } else { err };
    let mut m = owned("the agent command failed (");
    match status {
        Some(c) => {
            push_str(&mut m, "exit ");
            crate::text::push_int(&mut m, c as i64);
        },
        None => push_str(&mut m, "killed by signal"),
    }
    if said.as_str().unicode_len() == 0 {
        push_str(&mut m, ") and said nothing");
    } else {
        push_str(&mut m, "): ");
        push_str(&mut m, said.as_str());
    }
    VouchError::error(m)
}

/// The agent command could not be started at all.
pub fn cannot_run(program: &str, problem: &str) -> (e: VouchError)
    ensures
        e.outcome == Outcome::Error && e.code == crate::error::ERROR,
        e.reason@ == "cannot run the agent command `"@ + program@ + "`: "@ + problem@,
{
    let mut m = owned("cannot run the agent command `");
    push_str(&mut m, program);
    push_str(&mut m, "`: ");
    push_str(&mut m, problem);
    VouchError::error(m)
}

// -------------------------------------------------------------------------- the reply

/// Whether `pat` occurs in `s` at `i`.
pub open spec fn occurs_at(s: Seq<char>, pat: Seq<char>, i: int) -> bool {
    0 <= i && i + pat.len() <= s.len() && s.subrange(i, i + pat.len()) == pat
}

/// The first index from `i` on at which `pat` occurs in `s`.
pub open spec fn first_from(s: Seq<char>, pat: Seq<char>, i: int) -> Option<int>
    decreases s.len() + 1 - i,
{
    if i < 0 || i + pat.len() > s.len() {
        None
    } else if occurs_at(s, pat, i) {
        Some(i)
    } else {
        first_from(s, pat, i + 1)
    }
}

/// The last index at or before `i` at which `pat` occurs in `s`.
pub open spec fn last_until(s: Seq<char>, pat: Seq<char>, i: int) -> Option<int>
    decreases i + 1,
{
    if i < 0 {
        None
    } else if occurs_at(s, pat, i) {
        Some(i)
    } else {
        last_until(s, pat, i - 1)
    }
}

/// The first index at which `pat` occurs in `s`, if it does.
pub open spec fn first_occurrence(s: Seq<char>, pat: Seq<char>) -> Option<int> {
    first_from(s, pat, 0)
}

/// The last index at which `pat` occurs in `s`, if it does.
pub open spec fn last_occurrence(s: Seq<char>, pat: Seq<char>) -> Option<int> {
    last_until(s, pat, s.len() - pat.len())
}

fn matches_at(hay: &Vec<char>, pat: &Vec<char>, i: usize) -> (r: bool)
    requires
        i + pat@.len() <= hay@.len(),
    ensures
        r == (hay@.subrange(i as int, i + pat@.len()) == pat@),
{
    let n = hay.len();
    let mut j: usize = 0;
    while j < pat.len()
        invariant
            j <= pat@.len(),
            n == hay@.len(),
            i + pat@.len() <= hay@.len(),
            forall|k: int| 0 <= k < j ==> hay@[i + k] == pat@[k],
        decreases pat@.len() - j,
    {
        if hay[i + j] != pat[j] {
            assert(hay@.subrange(i as int, i + pat@.len())[j as int] != pat@[j as int]);
            return false;
        }
        j = j + 1;
    }
    assert(hay@.subrange(i as int, i + pat@.len()) =~= pat@);
    true
}

/// The first index at which `pat` occurs in `hay`.
fn find_first(hay: &Vec<char>, pat: &Vec<char>) -> (r: Option<usize>)
    ensures
        match r {
            Some(i) => first_occurrence(hay@, pat@) == Some(i as int) && i + pat@.len() <= hay@.len(),
            None => first_occurrence(hay@, pat@) is None,
        },
{
    let n = hay.len();
    let m = pat.len();
    if m > n {
        return None;
    }
    let mut i: usize = 0;
    while i <= n - m
        invariant
            m <= n,
            n == hay@.len(),
            m == pat@.len(),
            i <= n - m + 1,
            first_from(hay@, pat@, 0) == first_from(hay@, pat@, i as int),
        decreases n - m + 1 - i,
    {
        if matches_at(hay, pat, i) {
            return Some(i);
        }
        assert(!occurs_at(hay@, pat@, i as int));
        if i == n - m {
            assert(first_from(hay@, pat@, i + 1) is None);
            return None;
        }
        i = i + 1;
    }
    None
}

/// The last index at which `pat` occurs in `hay`.
fn find_last(hay: &Vec<char>, pat: &Vec<char>) -> (r: Option<usize>)
    ensures
        match r {
            Some(i) => last_occurrence(hay@, pat@) == Some(i as int) && i + pat@.len() <= hay@.len(),
            None => last_occurrence(hay@, pat@) is None,
        },
{
    let n = hay.len();
    let m = pat.len();
    if m > n {
        return None;
    }
    let mut i: usize = n - m;
    loop
        invariant
            m <= n,
            n == hay@.len(),
            m == pat@.len(),
            i <= n - m,
            last_until(hay@, pat@, (n - m) as int) == last_until(hay@, pat@, i as int),
        decreases i,
    {
        if matches_at(hay, pat, i) {
            return Some(i);
        }
        assert(!occurs_at(hay@, pat@, i as int));
        if i == 0 {
            assert(last_until(hay@, pat@, -1) is None);
            return None;
        }
        i = i - 1;
    }
}

/// Where the fenced body of a reply lies.
fn fenced_range(chars: &Vec<char>) -> (r: (usize, usize))
    ensures
        r.0 <= r.1 <= chars@.len(),
        chars@.subrange(r.0 as int, r.1 as int) == fenced_body(chars@),
{
    let fence = chars_of("```");
    let label = chars_of("json");
    proof {
        reveal_strlit("```");
        reveal_strlit("json");
    }
    let n = chars.len();
    let (lo, hi): (usize, usize) = match (find_first(chars, &fence), find_last(chars, &fence)) {
        (Some(open), Some(close)) => {
            if close >= open + 3 {
                let start = open + 3;
                if close - start >= 4 && matches_at(chars, &label, start) {
                    proof {
                        assert(chars@.subrange(open + 3, close as int).subrange(0, 4) =~= chars@.subrange(start as int, start + 4));
                        assert(chars@.subrange(open + 3, close as int).subrange(4, close - open - 3) =~= chars@.subrange(start + 4, close as int));
                    }
                    (start + 4, close)
                } else {
                    proof {
                        if close - start >= 4 {
                            assert(chars@.subrange(open + 3, close as int).subrange(0, 4) =~= chars@.subrange(start as int, start + 4));
                        }
                    }
                    (start, close)
                }
            } else {
                (0, chars.len())
            }
        },
        _ => (0, chars.len()),
    };
    proof {
        if lo == 0 && hi == chars@.len() {
            assert(chars@.subrange(0, chars@.len() as int) =~= chars@);
        }
    }
    (lo, hi)
}

/// The part of a reply that should hold the JSON: what sits inside the outermost code fence
/// (less a `json` label), or the whole reply when there is no fence.
pub open spec fn fenced_body(text: Seq<char>) -> Seq<char> {
    match (first_occurrence(text, "```"@), last_occurrence(text, "```"@)) {
        (Some(open), Some(close)) => if close >= open + 3 {
            let inner = text.subrange(open + 3, close);
            if inner.len() >= 4 && inner.subrange(0, 4) == "json"@ {
                inner.subrange(4, inner.len() as int)
            } else {
                inner
            }
        } else {
            text
        },
        _ => text,
    }
}

/// The outermost object in a reply: from the first `{` to the last `}` of its fenced body.
pub open spec fn reply_object(text: Seq<char>) -> Option<Seq<char>> {
    let body = fenced_body(text);
    match (first_occurrence(body, seq!['{']), last_occurrence(body, seq!['}'])) {
        (Some(start), Some(end)) => if end > start {
            Some(body.subrange(start, end + 1))
        } else {
            None
        },
        _ => None,
    }
}

/// Models wrap JSON in a fence or a sentence often enough that insisting on clean output would
/// measure formatting rather than routing: take the outermost object. Whether it is JSON is for
/// a parser to say; a reply with no object in it at all is an error here, quoting the start of
/// the reply.
pub fn frame_reply(text: &str) -> (r: Result<String, VouchError>)
    ensures
        match r {
            Ok(body) => reply_object(text@) == Some(body@),
            Err(e) => reply_object(text@) is None && e.outcome == Outcome::Error && e.code == crate::error::ERROR && e.reason@
                == "no JSON object in the agent's reply: "@ + text@.take(
                if text@.len() < 200 {
                    text@.len() as int
                } else {
                    200
                },
            ),
        },
{
    let chars = chars_of(text);
    let (lo, hi) = fenced_range(&chars);
    let body = crate::text::string_of(&chars, lo, hi);
    let inner = chars_of(body.as_str());
    let open_brace = chars_of("{");
    let close_brace = chars_of("}");
    proof {
        reveal_strlit("{");
        reveal_strlit("}");
        assert(open_brace@ =~= seq!['{']);
        assert(close_brace@ =~= seq!['}']);
    }
    match (find_first(&inner, &open_brace), find_last(&inner, &close_brace)) {
        (Some(start), Some(end)) => {
            if end > start {
                return Ok(crate::text::string_of(&inner, start, end + 1));
            }
        },
        _ => {},
    }
    let mut m = owned("no JSON object in the agent's reply: ");
    let shown = if chars.len() < 200 { chars.len() } else { 200 };
    let head = crate::text::string_of(&chars, 0, shown);
    push_str(&mut m, head.as_str());
    Err(VouchError::error(m))
}

/// The reply held something shaped like an object that is not valid JSON.
pub fn invalid_reply(problem: &str) -> (e: VouchError)
    ensures
        e.outcome == Outcome::Error && e.code == crate::error::ERROR,
        e.reason@ == "the agent's reply is not valid JSON: "@ + problem@,
{
    let mut m = owned("the agent's reply is not valid JSON: ");
    push_str(&mut m, problem);
    VouchError::error(m)
}


/// Whether the agent call budget, when one was set, is spent: then no further call is made,
/// and the run stops with this error.
pub fn budget_spent(spent: usize, budget: Option<usize>) -> (r: Option<VouchError>)
    ensures
        r is Some <==> (budget matches Some(l) && spent >= l),
        r matches Some(e) ==> (e.outcome == Outcome::Error && e.code == crate::error::ERROR && (budget matches Some(l)
            && e.reason@ == "the agent call budget of "@ + crate::ledger::nat_digits(l as nat)
            + " (--max-calls) is spent"@)),
{
    match budget {
        Some(limit) => {
            if spent >= limit {
                let mut m = owned("the agent call budget of ");
                crate::ledger::push_digits(&mut m, limit as u128);
                push_str(&mut m, " (--max-calls) is spent");
                Some(VouchError::error(m))
            } else {
                None
            }
        },
        None => None,
    }
}

/// What the loop makes of a reply: the JSON object framed in it, read, or why there is none.
pub fn parse_reply(reply: &str) -> (r: Result<Json, VouchError>)
    ensures
        reply_object(reply@) is None ==> (r matches Err(e) && e.outcome == Outcome::Error && e.code
            == crate::error::ERROR && e.reason@ == "no JSON object in the agent's reply: "@ + reply@.take(
            if reply@.len() < 200 {
                reply@.len() as int
            } else {
                200
            },
        )),
        reply_object(reply@) matches Some(o) ==> match r {
            Ok(j) => crate::json::read_as(o, j),
            Err(e) => !crate::json::readable(o) && e.outcome == Outcome::Error && e.code == crate::error::ERROR
                && e.reason@ == "the agent's reply is not valid JSON: "@ + crate::json::reading_problem(o),
        },
        r is Ok <==> (reply_object(reply@) matches Some(o) && crate::json::readable(o)),
{
    let framed = frame_reply(reply)?;
    match crate::json::parse_json(framed.as_str()) {
        Ok(j) => Ok(j),
        Err(m) => Err(invalid_reply(m.as_str())),
    }
}


// -------------------------------------------------------------------------- one run

/// How one run of one case ended.
#[derive(Debug)]
pub enum Ending {
    /// The agent narrated an answer from verified results.
    Answered,
    /// The agent declined — the honest out when no answer exists.
    Stopped,
    /// A node reported itself broken, so the agent stopped rather than working around it.
    Broken,
    /// The agent used its decisions without reaching an answer.
    Exhausted,
    /// The agent did not say anything the loop could act on.
    Confused(String),
}

pub open spec fn ending_label(e: Ending) -> Seq<char> {
    match e {
        Ending::Answered => "answered"@,
        Ending::Stopped => "stopped"@,
        Ending::Broken => "broken node"@,
        Ending::Exhausted => "out of decisions"@,
        Ending::Confused(_) => "unusable reply"@,
    }
}

impl Ending {
    /// A short name for a report line. `Confused` carries its reason, which belongs in the
    /// failure list rather than in the one-line route summary.
    pub fn label(&self) -> (r: &'static str)
        ensures
            r@ == ending_label(*self),
    {
        match self {
            Ending::Answered => "answered",
            Ending::Stopped => "stopped",
            Ending::Broken => "broken node",
            Ending::Exhausted => "out of decisions",
            Ending::Confused(_) => "unusable reply",
        }
    }
}

/// One run of one case.
#[derive(Debug)]
pub struct Run {
    pub ending: Ending,
    /// Every call the runtime accepted, as (node, input).
    pub calls: Vec<(String, Json)>,
    /// The prose the agent wrote, when it wrote any.
    pub answer: Option<String>,
    /// Checks that did not hold, in the order a reader wants them.
    pub failures: Vec<String>,
}

impl Run {
    pub fn passed(&self) -> (r: bool)
        ensures
            r == (self.failures@.len() == 0),
    {
        self.failures.len() == 0
    }
}

// ---------------------------------------------------------------------------- context

/// The context an agent is given is the collection's own routing pack — the same markdown a
/// user pastes into an agent's instructions file — under the collection's directory name. Building a second,
/// eval-only description would measure a context nobody ships.
pub fn context(dir_name: Option<&str>, preamble: Option<&crate::registry::Preamble>, nodes: &[Node]) -> (r: String)
    ensures
        r@ == crate::markdown::pack_text(
            crate::commands::collection_name_spec(match dir_name {
                Some(n) => Some(n@),
                None => None,
            }),
            match preamble {
                Some(p) => Some(*p),
                None => None,
            },
            nodes@,
        ),
{
    let name = crate::commands::collection_name(dir_name);
    crate::markdown::pack(name.as_str(), preamble, nodes)
}

// --------------------------------------------------------------------------- the loop

/// What the runtime does next in a run, once the agent has decided.
#[derive(Debug)]
pub enum Action {
    /// The run is over.
    Finished,
    /// The call was not acted on; the correction goes into the next planning prompt.
    Continue,
    /// Ask the agent this narration prompt, and hand the prose to `answered`.
    Narrate(String),
    /// Run the node at this index on this input, and hand the attempt to `record`.
    Call(usize, Json),
}

/// One run of one case, between the agent's decisions.
///
/// The ledger stays in memory. An eval is a rehearsal: writing these calls to
/// `.vouch/ledger/` would let a figure that only ever appeared in an eval account for a
/// numeral in a real answer later, which is exactly the loosening `VOUCH_SESSION` exists to
/// prevent.
#[derive(Debug)]
pub struct Session {
    /// What each accepted call returned, as the agent sees it.
    pub steps: Vec<String>,
    /// The runtime's word on the last call, for the next prompt.
    pub correction: Option<String>,
    /// Every call the runtime accepted, as (node, input).
    pub calls: Vec<(String, Json)>,
    /// The in-memory ledger: one line per call that ran.
    pub entries: Vec<Json>,
    /// How many planning prompts the agent has been given.
    pub decisions: usize,
    /// How the run ended, once it has.
    pub ending: Option<Ending>,
    /// The prose the agent wrote, when it wrote any.
    pub answer: Option<String>,
}

/// The text of an optional string.
pub open spec fn string_view(t: Option<String>) -> Option<Seq<char>> {
    match t {
        Some(s) => Some(s@),
        None => None,
    }
}

/// What an accepted call is shown to the agent as: the call, then what it returned.
pub open spec fn step_text(name: Seq<char>, input: Json, result: Json) -> Seq<char> {
    name + "("@ + render(input) + ")\n  → "@ + render(result)
}

/// The reason a decision stops with, when it is a stop.
pub open spec fn stop_reason(d: Json) -> Option<Seq<char>> {
    match d.get_spec("stop"@) {
        Some(Json::Str(s)) => Some(s@),
        _ => None,
    }
}

/// Whether a decision says the results so far are enough.
pub open spec fn says_done(d: Json) -> bool {
    d.get_spec("done"@) == Some(Json::Bool(true))
}

/// The node a call names, when it names one.
pub open spec fn named_node(call: Json) -> Option<Seq<char>> {
    match call.get_spec("node"@) {
        Some(Json::Str(s)) => Some(s@),
        _ => None,
    }
}

/// The first of `nodes` from `i` on called `name`.
pub open spec fn first_named(nodes: Seq<Node>, name: Seq<char>, i: int) -> Option<int>
    decreases nodes.len() - i,
{
    if i < 0 || i >= nodes.len() {
        None
    } else if nodes[i].manifest.name@ == name {
        Some(i)
    } else {
        first_named(nodes, name, i + 1)
    }
}

pub open spec fn node_names(nodes: Seq<Node>) -> Seq<Seq<char>> {
    nodes.map_values(|n: Node| n.manifest.name@)
}

/// The correction for a call to a node the collection does not have: the nodes it does.
pub open spec fn unknown_node_correction(name: Seq<char>, nodes: Seq<Node>) -> Seq<char> {
    "there is no node called '"@ + name + "' in this collection; the nodes are: "@
        + crate::text::join_spec(node_names(nodes), ", "@)
}

/// Whether `input` is what a call carries: its `input`, or an empty object when it has none.
pub open spec fn call_input(call: Json, input: Json) -> bool {
    match call.get_spec("input"@) {
        Some(v) => crate::json::same_json(v, input),
        None => input matches Json::Object(fs) && fs@.len() == 0,
    }
}

/// What `decide` does with a decision the agent's reply parsed to, from state `o` to state
/// `f`: a stop ends the run with its reason; `done` narrates when there are results and stops
/// when there are none; a call to a node the collection has is run; a call to one it does not
/// have is corrected; anything else is a reply the loop cannot act on.
pub open spec fn decided(o: Session, f: Session, d: Json, nodes: Seq<Node>, ask: Seq<char>, r: Action) -> bool {
    &&& f.steps == o.steps && f.calls == o.calls && f.entries == o.entries && f.decisions == o.decisions
    &&& match stop_reason(d) {
        Some(reason) => r is Finished && f.ending == Some(Ending::Stopped) && string_view(f.answer) == Some(
            reason,
        ) && f.correction == o.correction,
        None => if says_done(d) {
            if o.steps@.len() == 0 {
                r is Finished && f.ending == Some(Ending::Stopped) && f.answer == o.answer && f.correction
                    == o.correction
            } else {
                (r matches Action::Narrate(p) && p@ == narrate_prompt_spec(ask, string_views(o.steps@)))
                    && f.ending == o.ending && f.answer == o.answer && f.correction == o.correction
            }
        } else {
            match d.get_spec("call"@) {
                None => r is Finished && (f.ending matches Some(Ending::Confused(w)) && w@
                    == "reply had no call, done or stop: "@ + render(d)) && f.answer == o.answer
                    && f.correction == o.correction,
                Some(call) => match named_node(call) {
                    None => r is Finished && (f.ending matches Some(Ending::Confused(w)) && w@
                        == "call named no node: "@ + render(call)) && f.answer == o.answer
                        && f.correction == o.correction,
                    Some(name) => match first_named(nodes, name, 0) {
                        None => r is Continue && string_view(f.correction) == Some(
                            unknown_node_correction(name, nodes),
                        ) && f.ending == o.ending && f.answer == o.answer,
                        Some(i) => (r matches Action::Call(j, input) && j == i && call_input(call, input))
                            && f.ending == o.ending && f.answer == o.answer && f.correction == o.correction,
                    },
                },
            }
        },
    }
}

fn find_named(nodes: &[Node], name: &str) -> (r: Option<usize>)
    ensures
        match r {
            Some(k) => first_named(nodes@, name@, 0) == Some(k as int),
            None => first_named(nodes@, name@, 0) is None,
        },
{
    let mut i: usize = 0;
    while i < nodes.len()
        invariant
            i <= nodes@.len(),
            first_named(nodes@, name@, 0) == first_named(nodes@, name@, i as int),
        decreases nodes@.len() - i,
    {
        if crate::text::str_eq(nodes[i].manifest.name.as_str(), name) {
            return Some(i);
        }
        i = i + 1;
    }
    None
}

fn names_of(nodes: &[Node]) -> (r: Vec<String>)
    ensures
        string_views(r@) == node_names(nodes@),
{
    let mut names: Vec<String> = Vec::new();
    let mut i: usize = 0;
    while i < nodes.len()
        invariant
            i <= nodes@.len(),
            string_views(names@) == node_names(nodes@.take(i as int)),
        decreases nodes@.len() - i,
    {
        names.push(nodes[i].manifest.name.clone());
        proof {
            assert(string_views(names@) =~= string_views(names@.drop_last()).push(nodes@[i as int].manifest.name@));
            assert(node_names(nodes@.take(i + 1)) =~= node_names(nodes@.take(i as int)).push(nodes@[i as int].manifest.name@));
        }
        i = i + 1;
    }
    assert(nodes@.take(i as int) =~= nodes@);
    names
}

impl Session {
    /// A run that has not started.
    pub fn new() -> (s: Session)
        ensures
            s.steps@.len() == 0,
            s.correction is None,
            s.calls@.len() == 0,
            s.entries@.len() == 0,
            s.decisions == 0,
            s.ending is None,
            s.answer is None,
    {
        Session {
            steps: Vec::new(),
            correction: None,
            calls: Vec::new(),
            entries: Vec::new(),
            decisions: 0,
            ending: None,
            answer: None,
        }
    }

    /// The next planning prompt, and with it the correction it carries spent; nothing once the
    /// run has ended or used its decisions.
    pub fn next(&mut self, context: &str, ask: &str) -> (r: Option<String>)
        ensures
            old(self).ending is Some || old(self).decisions >= MAX_DECISIONS ==> r is None && *final(self)
                == *old(self),
            old(self).ending is None && old(self).decisions < MAX_DECISIONS ==> (r matches Some(p) && p@
                == plan_prompt_spec(context@, ask@, string_views(old(self).steps@), string_view(old(self).correction)))
                && final(self).correction is None && final(self).decisions == old(self).decisions + 1
                && final(self).steps == old(self).steps && final(self).calls == old(self).calls
                && final(self).entries == old(self).entries && final(self).ending == old(self).ending
                && final(self).answer == old(self).answer,
    {
        if self.ending.is_some() || self.decisions >= MAX_DECISIONS {
            return None;
        }
        let prompt = match &self.correction {
            Some(c) => plan_prompt(context, ask, &self.steps, Some(c.as_str())),
            None => plan_prompt(context, ask, &self.steps, None),
        };
        self.correction = None;
        self.decisions = self.decisions + 1;
        Some(prompt)
    }

    /// Acts on the agent's reply to a planning prompt: the decision it parsed to, or why it
    /// could not be parsed. A reply the loop cannot act on is a failure of the run, not of the
    /// command: it is precisely the kind of thing an eval exists to count.
    pub fn decide(&mut self, reply: Result<Json, VouchError>, nodes: &[Node], ask: &str) -> (r: Action)
        ensures
            match reply {
                Err(e) => r is Finished && final(self).ending == Some(Ending::Confused(e.reason))
                    && final(self).steps == old(self).steps && final(self).calls == old(self).calls
                    && final(self).entries == old(self).entries && final(self).decisions == old(self).decisions
                    && final(self).answer == old(self).answer && final(self).correction == old(self).correction,
                Ok(d) => decided(*old(self), *final(self), d, nodes@, ask@, r),
            },
    {
        let decision = match reply {
            Err(e) => {
                self.ending = Some(Ending::Confused(e.reason));
                return Action::Finished;
            },
            Ok(d) => d,
        };
        if let Some(Json::Str(reason)) = decision.get("stop") {
            self.ending = Some(Ending::Stopped);
            self.answer = Some(reason.clone());
            return Action::Finished;
        }
        let done = match decision.get("done") {
            Some(Json::Bool(b)) => *b,
            _ => false,
        };
        if done {
            if self.steps.len() == 0 {
                self.ending = Some(Ending::Stopped);
                return Action::Finished;
            }
            return Action::Narrate(narrate_prompt(ask, &self.steps));
        }
        let call = match decision.get("call") {
            Some(c) => c,
            None => {
                let mut w = owned("reply had no call, done or stop: ");
                let text = decision.to_text();
                push_str(&mut w, text.as_str());
                self.ending = Some(Ending::Confused(w));
                return Action::Finished;
            },
        };
        let name = match call.get("node") {
            Some(Json::Str(n)) => n,
            _ => {
                let mut w = owned("call named no node: ");
                let text = call.to_text();
                push_str(&mut w, text.as_str());
                self.ending = Some(Ending::Confused(w));
                return Action::Finished;
            },
        };
        let input = match call.get("input") {
            Some(v) => v.copy(),
            None => Json::Object(Vec::new()),
        };
        match find_named(nodes, name.as_str()) {
            Some(i) => Action::Call(i, input),
            None => {
                let mut c = owned("there is no node called '");
                push_str(&mut c, name.as_str());
                push_str(&mut c, "' in this collection; the nodes are: ");
                let names = names_of(nodes);
                let listed = crate::text::join(&names, ", ");
                push_str(&mut c, listed.as_str());
                self.correction = Some(c);
                Action::Continue
            },
        }
    }

    /// What a call the agent asked for came to, once it ran (or was refused before running).
    ///
    /// A call that ran is written to the in-memory ledger, whatever its outcome. A result that
    /// held becomes a step the agent can build on. A defect means the node is broken: retrying
    /// is pointless and answering anyway would be dishonest, so the run stops there. A refusal,
    /// or an input the schema rejected, is a correction handed back to the agent.
    pub fn record(&mut self, node: &Node, input: Json, attempt: Attempt, ts: &str, reads: Vec<Json>)
        requires
            attempt.verdict is Ok ==> attempt.produced is Some,
        ensures
            final(self).decisions == old(self).decisions,
            attempt.executed ==> final(self).entries@.len() == old(self).entries@.len() + 1
                && final(self).entries@.drop_last() == old(self).entries@ && (final(self).entries@.last() matches Json::Object(
                fs,
            ) && crate::json::same_json(input, fs@[1].1) && crate::ledger::entry_fields(
                fs@,
                node.manifest.name@,
                node.manifest.version@,
                fs@[1].1,
                attempt.outcome_spec(),
                attempt.code_spec() as int,
                attempt.produced,
                ts@,
                reads@,
            )),
            !attempt.executed ==> final(self).entries == old(self).entries,
            match attempt.verdict {
                Ok(()) => string_views(final(self).steps@) == string_views(old(self).steps@).push(
                    step_text(node.manifest.name@, input, attempt.produced->0),
                ) && final(self).calls@.len() == old(self).calls@.len() + 1 && final(self).calls@.drop_last()
                    == old(self).calls@ && final(self).calls@.last().0@ == node.manifest.name@
                    && final(self).calls@.last().1 == input && final(self).ending == old(self).ending
                    && final(self).answer == old(self).answer && final(self).correction == old(self).correction,
                Err(e) => final(self).steps == old(self).steps && final(self).calls == old(self).calls && if e.outcome
                    == Outcome::Defect {
                    final(self).ending == Some(Ending::Broken) && final(self).answer == Some(e.reason)
                        && final(self).correction == old(self).correction
                } else {
                    final(self).correction == Some(e.reason) && final(self).ending == old(self).ending
                        && final(self).answer == old(self).answer
                },
            },
    {
        let ghost a = attempt;
        let outcome = attempt.outcome();
        let code = attempt.code();
        let Attempt { executed, produced, verdict } = attempt;
        let step = match (&verdict, &produced) {
            (Ok(()), Some(result)) => {
                let mut t = node.manifest.name.clone();
                push_str(&mut t, "(");
                let i = input.to_text();
                push_str(&mut t, i.as_str());
                push_str(&mut t, ")\n  → ");
                let r = result.to_text();
                push_str(&mut t, r.as_str());
                Some(t)
            },
            _ => None,
        };
        if executed {
            let e = crate::ledger::entry(node, input.copy(), outcome, code, produced, ts, reads);
            self.entries.push(e);
        }
        match verdict {
            Ok(()) => {
                if let Some(t) = step {
                    self.steps.push(t);
                    proof {
                        assert(string_views(self.steps@) =~= string_views(old(self).steps@).push(
                            step_text(node.manifest.name@, input, a.produced->0),
                        ));
                    }
                }
                self.calls.push((node.manifest.name.clone(), input));
            },
            Err(e) => {
                if e.outcome == Outcome::Defect {
                    self.ending = Some(Ending::Broken);
                    self.answer = Some(e.reason);
                } else {
                    self.correction = Some(e.reason);
                }
            },
        }
    }

    /// Judges the run, which ends out of decisions if nothing ended it sooner.
    pub fn finish(self, case: &Case) -> (r: Run)
        requires
            self.answer matches Some(a) ==> vstd::utf8::encode_utf8(a@).len() < usize::MAX,
            vstd::utf8::encode_utf8(case.ask@).len() < usize::MAX,
        ensures
            r.ending == match self.ending {
                Some(e) => e,
                None => Ending::Exhausted,
            },
            r.calls == self.calls,
            r.answer == self.answer,
            exists|m: crate::scalar_map::ScalarMap|
                m.wf() && (forall|k: Seq<char>| m.get_spec(k) == crate::attest::recorded(self.entries@, false, k))
                    && string_views(r.failures@) == judge_failures(*case, r.ending, self.calls@, string_view(self.answer), m.entries@),
    {
        let ending = match self.ending {
            Some(e) => e,
            None => Ending::Exhausted,
        };
        let failures = match &self.answer {
            Some(a) => judge(case, &ending, &self.calls, Some(a.as_str()), &self.entries),
            None => judge(case, &ending, &self.calls, None, &self.entries),
        };
        Run { ending, calls: self.calls, answer: self.answer, failures }
    }

    /// The agent narrated an answer.
    pub fn answered(&mut self, prose: String)
        ensures
            final(self).ending == Some(Ending::Answered),
            final(self).answer == Some(prose),
            final(self).steps == old(self).steps,
            final(self).calls == old(self).calls,
            final(self).entries == old(self).entries,
            final(self).decisions == old(self).decisions,
            final(self).correction == old(self).correction,
    {
        self.answer = Some(prose);
        self.ending = Some(Ending::Answered);
    }
}

// ------------------------------------------------------------------------ parameters

/// Every key of `expected` present in `actual` with a value it covers, recursively for objects;
/// anything else compares as equal JSON, numbers by value, so a soul level of `120` matches
/// whether it was spelled as an integer or not.
pub open spec fn subset_spec(expected: Json, actual: Json) -> bool
    decreases expected, 0int,
{
    match (expected, actual) {
        (Json::Object(want), Json::Object(got)) => wanted_within(want@, got@, 0),
        _ => json_equal(expected, actual),
    }
}

pub open spec fn wanted_within(want: Seq<(String, Json)>, got: Seq<(String, Json)>, i: int) -> bool
    decreases want, want.len() - i,
{
    if 0 <= i < want.len() {
        (match crate::json::field(got, want[i].0@) {
            Some(found) => subset_spec(want[i].1, found),
            None => false,
        }) && wanted_within(want, got, i + 1)
    } else {
        true
    }
}

/// `wanted_within` from `i` asks every key from `i` on, not only the first.
proof fn lemma_wanted_within_all(want: Seq<(String, Json)>, got: Seq<(String, Json)>, i: int)
    requires
        0 <= i,
    ensures
        wanted_within(want, got, i) <==> forall|k: int| i <= k < want.len() ==> (match crate::json::field(got, (#[trigger] want[k]).0@) {
            Some(found) => subset_spec(want[k].1, found),
            None => false,
        }),
    decreases want.len() - i,
{
    if i < want.len() {
        lemma_wanted_within_all(want, got, i + 1);
        if wanted_within(want, got, i) {
            assert forall|k: int| i <= k < want.len() implies (match crate::json::field(got, (#[trigger] want[k]).0@) {
                Some(found) => subset_spec(want[k].1, found),
                None => false,
            }) by {
                if k > i {
                    assert(i + 1 <= k);
                }
            }
        }
    }
}

/// An object carries what an expected object pins exactly when, for every key the expected
/// object names, the actual one has that key and its value carries what the expected value
/// pins. A mismatch at any expected key, not only the first, means it does not.
pub proof fn every_expected_key_must_be_carried(expected: Json, actual: Json)
    requires
        expected is Object,
        actual is Object,
    ensures
        subset_spec(expected, actual) <==> forall|k: int| 0 <= k < expected->Object_0@.len() ==> (match crate::json::field(
            actual->Object_0@,
            (#[trigger] expected->Object_0@[k]).0@,
        ) {
            Some(found) => subset_spec(expected->Object_0@[k].1, found),
            None => false,
        }),
{
    lemma_wanted_within_all(expected->Object_0@, actual->Object_0@, 0);
}

/// Whether `actual` carries everything `expected` pins.
pub fn subset(expected: &Json, actual: &Json) -> (r: bool)
    ensures
        r == subset_spec(*expected, *actual),
    decreases expected, 1int,
{
    match (expected, actual) {
        (Json::Object(want), Json::Object(_)) => wanted(want, actual),
        _ => expected.equals(actual),
    }
}

fn wanted(want: &Vec<(String, Json)>, actual: &Json) -> (r: bool)
    requires
        actual is Object,
    ensures
        r == wanted_within(want@, actual->Object_0@, 0),
    decreases want, 0int,
{
    let mut i: usize = 0;
    while i < want.len()
        invariant
            i <= want@.len(),
            actual is Object,
            wanted_within(want@, actual->Object_0@, 0) == wanted_within(want@, actual->Object_0@, i as int),
        decreases want@.len() - i,
    {
        let ok = match actual.get(want[i].0.as_str()) {
            Some(found) => {
                assert(decreases_to!(want => want@[i as int].1));
                subset(&want[i].1, found)
            },
            None => false,
        };
        if !ok {
            return false;
        }
        i = i + 1;
    }
    true
}

// ------------------------------------------------------------------------- prompts

/// The planning prompt: the rules, the collection, the question, the calls so far and what
/// they returned, and the runtime's correction of the last call when there is one.
pub open spec fn plan_prompt_spec(context: Seq<char>, ask: Seq<char>, steps: Seq<Seq<char>>, correction: Option<Seq<char>>) -> Seq<char> {
    PLANNING_RULES@ + "\nThe collection you are working with:\n\n"@ + context + "\n\nThe user asked: "@ + ask + "\n"@
        + (if steps.len() > 0 {
        "\nCalls made so far, and their verified results:\n"@ + step_lines(steps)
    } else {
        seq![]
    }) + match correction {
        Some(reason) => "\nYour last call was rejected by the runtime, which said:\n  "@ + reason
            + "\n\nThat message is a correction you can act on. Fix the arguments, call a different node, or stop if there is genuinely no answer to be had.\n"@,
        None => seq![],
    }
}

/// Each step, indented, on a line of its own.
pub open spec fn step_lines(steps: Seq<Seq<char>>) -> Seq<char>
    decreases steps.len(),
{
    if steps.len() == 0 {
        seq![]
    } else {
        step_lines(steps.drop_last()) + "  "@ + steps.last() + "\n"@
    }
}

/// The narration prompt: answer from the verified results and nothing else.
pub open spec fn narrate_prompt_spec(ask: Seq<char>, steps: Seq<Seq<char>>) -> Seq<char> {
    "Answer the user's question in one to three plain sentences, using ONLY the values in the verified results below.\n\nDo not calculate anything. Do not introduce any number that does not appear below. If the results do not contain what was asked for, say so plainly.\n\nThe user asked: "@
        + ask + "\n\n"@ + crate::text::join_spec(steps, "\n"@) + "\n"@
}

pub fn plan_prompt(context: &str, ask: &str, steps: &Vec<String>, correction: Option<&str>) -> (r: String)
    ensures
        r@ == plan_prompt_spec(context@, ask@, string_views(steps@), match correction {
            Some(c) => Some(c@),
            None => None,
        }),
{
    let mut prompt = owned(PLANNING_RULES);
    push_str(&mut prompt, "\nThe collection you are working with:\n\n");
    push_str(&mut prompt, context);
    push_str(&mut prompt, "\n\nThe user asked: ");
    push_str(&mut prompt, ask);
    push_str(&mut prompt, "\n");
    let ghost head = prompt@;
    if steps.len() > 0 {
        push_str(&mut prompt, "\nCalls made so far, and their verified results:\n");
        let ghost base = prompt@;
        let mut i: usize = 0;
        while i < steps.len()
            invariant
                i <= steps@.len(),
                prompt@ == base + step_lines(string_views(steps@.take(i as int))),
            decreases steps@.len() - i,
        {
            push_str(&mut prompt, "  ");
            push_str(&mut prompt, steps[i].as_str());
            push_str(&mut prompt, "\n");
            proof {
                assert(string_views(steps@.take(i + 1)).drop_last() =~= string_views(steps@.take(i as int)));
                assert(prompt@ =~= base + step_lines(string_views(steps@.take(i + 1))));
            }
            i = i + 1;
        }
        assert(steps@.take(i as int) =~= steps@);
    }
    let ghost middle = prompt@;
    if let Some(reason) = correction {
        push_str(&mut prompt, "\nYour last call was rejected by the runtime, which said:\n  ");
        push_str(&mut prompt, reason);
        push_str(
            &mut prompt,
            "\n\nThat message is a correction you can act on. Fix the arguments, call a different node, or stop if there is genuinely no answer to be had.\n",
        );
    }
    assert(prompt@ =~= plan_prompt_spec(context@, ask@, string_views(steps@), match correction {
        Some(c) => Some(c@),
        None => None,
    }));
    prompt
}

pub fn narrate_prompt(ask: &str, steps: &Vec<String>) -> (r: String)
    ensures
        r@ == narrate_prompt_spec(ask@, string_views(steps@)),
{
    let mut prompt = owned(
        "Answer the user's question in one to three plain sentences, using ONLY the values in the verified results below.\n\nDo not calculate anything. Do not introduce any number that does not appear below. If the results do not contain what was asked for, say so plainly.\n\nThe user asked: ",
    );
    push_str(&mut prompt, ask);
    push_str(&mut prompt, "\n\n");
    let listed = crate::text::join(steps, "\n");
    push_str(&mut prompt, listed.as_str());
    push_str(&mut prompt, "\n");
    prompt
}


// ---------------------------------------------------------------------------- judging

/// The calls made to `node`.
pub open spec fn calls_to(calls: Seq<(String, Json)>, node: Seq<char>) -> Seq<(String, Json)> {
    calls.filter(|c: (String, Json)| c.0@ == node)
}

pub open spec fn call_names(calls: Seq<(String, Json)>) -> Seq<Seq<char>> {
    calls.map_values(|c: (String, Json)| c.0@)
}

pub open spec fn call_inputs(calls: Seq<(String, Json)>) -> Seq<Seq<char>> {
    calls.map_values(|c: (String, Json)| render(c.1))
}

/// What a run that should have declined did instead.
pub open spec fn instead(e: Ending) -> Seq<char> {
    match e {
        Ending::Answered => "answered"@,
        Ending::Broken => "hit a broken node"@,
        Ending::Exhausted => "ran out of decisions"@,
        Ending::Confused(_) => "produced an unusable reply"@,
        Ending::Stopped => seq![],
    }
}

/// The numeral of `b` whose digits start at `ds`, as written.
pub open spec fn raw_at(b: Seq<u8>, ds: int) -> Seq<char> {
    crate::text::ascii_chars(
        b.subrange(crate::attest::numeral_start(b, ds), crate::attest::numeral_end(b, ds)),
    )
}

/// The failure an attestation of `prose` against `scalars` reports, if any: how many numerals
/// did not come from a node, and which.
pub open spec fn attest_failure(prose: Seq<u8>, scalars: Seq<(String, crate::decimal::Decimal)>, question: Seq<Option<crate::decimal::Decimal>>) -> Seq<Seq<char>> {
    let ds = crate::attest::numeral_digits(prose, 0);
    let missing = ds.filter(crate::attest::is_unmatched(prose, scalars, question));
    if missing.len() == 0 {
        seq![]
    } else {
        seq![
            int_text(missing.len() as int) + " of "@ + int_text(ds.len() as int)
                + " numerals did not come from a node: "@ + crate::text::join_spec(
                missing.map_values(|d: int| raw_at(prose, d)),
                ", "@,
            ),
        ]
    }
}

/// How the run ended, where that is a failure in itself.
pub open spec fn ending_failures(ending: Ending) -> Seq<Seq<char>> {
    match ending {
        Ending::Confused(why) => seq!["the agent's reply could not be acted on: "@ + why@],
        Ending::Exhausted => seq!["no answer after "@ + int_text(MAX_DECISIONS as int) + " decisions"@],
        Ending::Broken => seq!["a node reported itself broken"@],
        _ => seq![],
    }
}

/// Whether the expected node was called at all.
pub open spec fn route_failures(case: Case, calls: Seq<(String, Json)>) -> Seq<Seq<char>> {
    match case.expect_node {
        Some(e) => if calls_to(calls, e@).len() == 0 {
            if calls.len() == 0 {
                seq!["expected a call to "@ + e@ + "; no node was called"@]
            } else {
                seq!["expected a call to "@ + e@ + "; called "@ + crate::text::join_spec(call_names(calls), ", "@)]
            }
        } else {
            seq![]
        },
        None => seq![],
    }
}

/// Whether some call to the expected node carried the expected parameters.
pub open spec fn params_failures(case: Case, calls: Seq<(String, Json)>) -> Seq<Seq<char>> {
    match (case.expect_params, case.expect_node) {
        (Some(wanted), Some(e)) => {
            let m = calls_to(calls, e@);
            if m.len() > 0 && !(exists|k: int| 0 <= k < m.len() && subset_spec(wanted, #[trigger] m[k].1)) {
                seq![
                    "expected params "@ + render(wanted) + " in a call to "@ + e@ + "; got "@
                        + crate::text::join_spec(call_inputs(m), ", "@),
                ]
            } else {
                seq![]
            }
        },
        _ => seq![],
    }
}

/// Whether a run that should have declined did.
pub open spec fn decline_failures(case: Case, ending: Ending) -> Seq<Seq<char>> {
    if case.expect_stop && !(ending is Stopped) {
        seq!["expected the agent to decline; it "@ + instead(ending)]
    } else {
        seq![]
    }
}

/// Whether the answer attests against the run's own results.
pub open spec fn attestation_failures(case: Case, ending: Ending, answer: Option<Seq<char>>, scalars: Seq<(String, crate::decimal::Decimal)>) -> Seq<Seq<char>> {
    if case.attest {
        match (ending, answer) {
            (Ending::Answered, Some(prose)) => attest_failure(
                vstd::utf8::encode_utf8(prose),
                scalars,
                crate::attest::written_values(vstd::utf8::encode_utf8(case.ask@)),
            ),
            _ => seq!["no answer was written, so nothing could be attested"@],
        }
    } else {
        seq![]
    }
}

/// The text of an optional string.
pub open spec fn text_view(t: Option<&str>) -> Option<Seq<char>> {
    match t {
        Some(s) => Some(s@),
        None => None,
    }
}

/// What the case asserted, checked against what the run did, in the order a reader wants the
/// failures: how the run ended, where it went, with what, whether it declined, and whether
/// its prose attests.
pub open spec fn judge_failures(case: Case, ending: Ending, calls: Seq<(String, Json)>, answer: Option<Seq<char>>, scalars: Seq<(String, crate::decimal::Decimal)>) -> Seq<Seq<char>> {
    ending_failures(ending) + route_failures(case, calls) + params_failures(case, calls)
        + decline_failures(case, ending) + attestation_failures(case, ending, answer, scalars)
}

/// What a passing run is: it ended by answering or by declining; it called the expected node,
/// with the expected parameters in some call to it; it declined when it had to; and, when asked
/// to attest, it wrote an answer none of whose numerals is unmatched.
pub open spec fn run_passes(case: Case, ending: Ending, calls: Seq<(String, Json)>, answer: Option<Seq<char>>, scalars: Seq<(String, crate::decimal::Decimal)>) -> bool {
    &&& (ending is Answered || ending is Stopped)
    &&& (case.expect_node matches Some(e) ==> calls_to(calls, e@).len() > 0)
    &&& (case.expect_node matches Some(e) ==> (case.expect_params matches Some(wanted) ==> exists|k: int|
        0 <= k < calls_to(calls, e@).len() && subset_spec(wanted, #[trigger] calls_to(calls, e@)[k].1)))
    &&& (case.expect_stop ==> ending is Stopped)
    &&& (case.attest ==> (ending is Answered && (answer matches Some(prose) && crate::attest::numeral_digits(
        vstd::utf8::encode_utf8(prose),
        0,
    ).filter(crate::attest::is_unmatched(
        vstd::utf8::encode_utf8(prose),
        scalars,
        crate::attest::written_values(vstd::utf8::encode_utf8(case.ask@)),
    )).len() == 0)))
}

/// A run is judged to have failed on nothing exactly when it passes every rule: the list of
/// failures is empty if and only if `run_passes`.
pub proof fn a_run_passes_exactly_when_nothing_failed(
    case: Case,
    ending: Ending,
    calls: Seq<(String, Json)>,
    answer: Option<Seq<char>>,
    scalars: Seq<(String, crate::decimal::Decimal)>,
)
    ensures
        judge_failures(case, ending, calls, answer, scalars).len() == 0 <==> run_passes(case, ending, calls, answer, scalars),
{
}

/// The names of the calls, and the inputs of those to `node`.
fn calls_to_exec(calls: &Vec<(String, Json)>, node: &str) -> (r: (Vec<String>, Vec<usize>))
    ensures
        string_views(r.0@) == call_names(calls@),
        r.1@.len() == calls_to(calls@, node@).len(),
        forall|k: int| 0 <= k < r.1@.len() ==> (#[trigger] r.1@[k]) < calls@.len() && calls@[r.1@[k] as int]
            == calls_to(calls@, node@)[k],
{
    let ghost pred = |c: (String, Json)| c.0@ == node@;
    let mut names: Vec<String> = Vec::new();
    let mut hits: Vec<usize> = Vec::new();
    let mut i: usize = 0;
    while i < calls.len()
        invariant
            i <= calls@.len(),
            pred == (|c: (String, Json)| c.0@ == node@),
            string_views(names@) == call_names(calls@.take(i as int)),
            hits@.len() == calls@.take(i as int).filter(pred).len(),
            forall|k: int| 0 <= k < hits@.len() ==> (#[trigger] hits@[k]) < i && calls@[hits@[k] as int]
                == calls@.take(i as int).filter(pred)[k],
        decreases calls@.len() - i,
    {
        proof {
            assert(calls@.take(i + 1) =~= calls@.take(i as int).push(calls@[i as int]));
            calls@.take(i as int).lemma_filter_push(calls@[i as int], pred);
        }
        names.push(calls[i].0.clone());
        proof {
            assert(string_views(names@) =~= string_views(names@.drop_last()).push(calls@[i as int].0@));
            assert(call_names(calls@.take(i + 1)) =~= call_names(calls@.take(i as int)).push(calls@[i as int].0@));
        }
        if crate::text::str_eq(calls[i].0.as_str(), node) {
            hits.push(i);
        }
        i = i + 1;
    }
    assert(calls@.take(i as int) =~= calls@);
    (names, hits)
}

fn ending_lines(ending: &Ending) -> (r: Vec<String>)
    ensures
        string_views(r@) == ending_failures(*ending),
{
    let mut failures: Vec<String> = Vec::new();
    match ending {
        Ending::Confused(why) => {
            let mut m = owned("the agent's reply could not be acted on: ");
            push_str(&mut m, why.as_str());
            failures.push(m);
        },
        Ending::Exhausted => {
            let mut m = owned("no answer after ");
            crate::text::push_int(&mut m, MAX_DECISIONS as i64);
            push_str(&mut m, " decisions");
            failures.push(m);
        },
        Ending::Broken => {
            failures.push(owned("a node reported itself broken"));
        },
        _ => {},
    }
    assert(string_views(failures@) =~= ending_failures(*ending));
    failures
}

fn route_lines(case: &Case, calls: &Vec<(String, Json)>) -> (r: Vec<String>)
    ensures
        string_views(r@) == route_failures(*case, calls@),
{
    let mut failures: Vec<String> = Vec::new();
    if let Some(expected) = &case.expect_node {
        let (names, hits) = calls_to_exec(calls, expected.as_str());
        if hits.len() == 0 {
            let mut m = owned("expected a call to ");
            push_str(&mut m, expected.as_str());
            if calls.len() == 0 {
                push_str(&mut m, "; no node was called");
            } else {
                push_str(&mut m, "; called ");
                let listed = crate::text::join(&names, ", ");
                push_str(&mut m, listed.as_str());
            }
            failures.push(m);
        }
    }
    assert(string_views(failures@) =~= route_failures(*case, calls@));
    failures
}

fn params_lines(case: &Case, calls: &Vec<(String, Json)>) -> (r: Vec<String>)
    ensures
        string_views(r@) == params_failures(*case, calls@),
{
    let mut failures: Vec<String> = Vec::new();
    if let (Some(wanted), Some(expected)) = (&case.expect_params, &case.expect_node) {
        let (_names, hits) = calls_to_exec(calls, expected.as_str());
        let ghost matched = calls_to(calls@, expected@);
        let mut any = false;
        let mut inputs: Vec<String> = Vec::new();
        let mut k: usize = 0;
        while k < hits.len()
            invariant
                k <= hits@.len(),
                hits@.len() == matched.len(),
                forall|j: int| 0 <= j < hits@.len() ==> (#[trigger] hits@[j]) < calls@.len() && calls@[hits@[j] as int] == matched[j],
                any == exists|j: int| 0 <= j < k && subset_spec(*wanted, #[trigger] matched[j].1),
                string_views(inputs@) == call_inputs(matched.take(k as int)),
            decreases hits@.len() - k,
        {
            let c = &calls[hits[k]];
            assert(*c == matched[k as int]);
            if subset(wanted, &c.1) {
                any = true;
            }
            let text = c.1.to_text();
            inputs.push(text);
            proof {
                assert(string_views(inputs@) =~= string_views(inputs@.drop_last()).push(render(c.1)));
                assert(call_inputs(matched.take(k + 1)) =~= call_inputs(matched.take(k as int)).push(render(matched[k as int].1)));
            }
            k = k + 1;
        }
        assert(matched.take(k as int) =~= matched);
        if hits.len() > 0 && !any {
            let mut m = owned("expected params ");
            let w = wanted.to_text();
            push_str(&mut m, w.as_str());
            push_str(&mut m, " in a call to ");
            push_str(&mut m, expected.as_str());
            push_str(&mut m, "; got ");
            let listed = crate::text::join(&inputs, ", ");
            push_str(&mut m, listed.as_str());
            failures.push(m);
        }
    }
    assert(string_views(failures@) =~= params_failures(*case, calls@));
    failures
}

fn decline_lines(case: &Case, ending: &Ending) -> (r: Vec<String>)
    ensures
        string_views(r@) == decline_failures(*case, *ending),
{
    let mut failures: Vec<String> = Vec::new();
    let declined = match ending {
        Ending::Stopped => false,
        _ => true,
    };
    if case.expect_stop && declined {
        let mut m = owned("expected the agent to decline; it ");
        push_str(&mut m, match ending {
            Ending::Answered => "answered",
            Ending::Broken => "hit a broken node",
            Ending::Exhausted => "ran out of decisions",
            Ending::Confused(_) => "produced an unusable reply",
            Ending::Stopped => "",
        });
        failures.push(m);
    }
    assert(string_views(failures@) =~= decline_failures(*case, *ending));
    failures
}

fn unmatched_line(prose: &str, scalars: &crate::scalar_map::ScalarMap, question: &str) -> (r: Vec<String>)
    requires
        prose.spec_bytes().len() < usize::MAX,
        vstd::utf8::encode_utf8(question@).len() < usize::MAX,
        scalars.wf(),
    ensures
        string_views(r@) == attest_failure(
            prose.spec_bytes(),
            scalars.entries@,
            crate::attest::written_values(vstd::utf8::encode_utf8(question@)),
        ),
{
    let mut failures: Vec<String> = Vec::new();
    let report = crate::attest::attest(prose, scalars, Some(question));
    let ghost b = prose.spec_bytes();
    let ghost missing = crate::attest::numeral_digits(b, 0).filter(
        crate::attest::is_unmatched(b, scalars.entries@, crate::attest::question_values(Some(question))),
    );
    if !report.is_clean() {
        let mut m = String::new();
        crate::ledger::push_digits(&mut m, report.unmatched.len() as u128);
        push_str(&mut m, " of ");
        crate::ledger::push_digits(&mut m, report.checked as u128);
        push_str(&mut m, " numerals did not come from a node: ");
        let mut raws: Vec<String> = Vec::new();
        let mut k: usize = 0;
        while k < report.unmatched.len()
            invariant
                k <= report.unmatched@.len(),
                report.unmatched@.len() == missing.len(),
                forall|j: int| 0 <= j < missing.len() ==> crate::attest::unmatched_is(b, missing[j], #[trigger] report.unmatched@[j]),
                string_views(raws@) == missing.take(k as int).map_values(|d: int| raw_at(b, d)),
            decreases report.unmatched@.len() - k,
        {
            raws.push(report.unmatched[k].numeral.raw.clone());
            proof {
                assert(crate::attest::unmatched_is(b, missing[k as int], report.unmatched@[k as int]));
                assert(string_views(raws@) =~= string_views(raws@.drop_last()).push(raw_at(b, missing[k as int])));
                assert(missing.take(k + 1).map_values(|d: int| raw_at(b, d)) =~= missing.take(k as int).map_values(
                    |d: int| raw_at(b, d),
                ).push(raw_at(b, missing[k as int])));
            }
            k = k + 1;
        }
        assert(missing.take(k as int) =~= missing);
        let listed = crate::text::join(&raws, ", ");
        push_str(&mut m, listed.as_str());
        failures.push(m);
    }
    assert(string_views(failures@) =~= attest_failure(
        b,
        scalars.entries@,
        crate::attest::written_values(vstd::utf8::encode_utf8(question@)),
    ));
    failures
}

/// What the case asserted, checked against what the run did.
///
/// Parameters are checked as a subset, and against *any* matching call: a run that reaches the
/// right call after a correction has routed correctly, which is what is being measured. The
/// prose is attested against the run's own in-memory ledger, results only.
pub fn judge(case: &Case, ending: &Ending, calls: &Vec<(String, Json)>, answer: Option<&str>, entries: &Vec<Json>) -> (r: Vec<String>)
    requires
        answer matches Some(p) ==> p.spec_bytes().len() < usize::MAX,
        vstd::utf8::encode_utf8(case.ask@).len() < usize::MAX,
    ensures
        exists|m: crate::scalar_map::ScalarMap|
            m.wf() && (forall|k: Seq<char>| m.get_spec(k) == crate::attest::recorded(entries@, false, k))
                && string_views(r@) == judge_failures(*case, *ending, calls@, text_view(answer), m.entries@),
{
    let mut failures = ending_lines(ending);
    let mut more = route_lines(case, calls);
    failures.append(&mut more);
    let mut more = params_lines(case, calls);
    failures.append(&mut more);
    let mut more = decline_lines(case, ending);
    failures.append(&mut more);
    let scalars = crate::attest::ledger_scalars(entries.as_slice(), false);
    let mut more: Vec<String> = Vec::new();
    if case.attest {
        match (ending, answer) {
            (Ending::Answered, Some(prose)) => {
                more = unmatched_line(prose, &scalars, case.ask.as_str());
            },
            _ => {
                more.push(owned("no answer was written, so nothing could be attested"));
            },
        }
    }
    assert(string_views(more@) =~= attestation_failures(*case, *ending, text_view(answer), scalars.entries@));
    failures.append(&mut more);
    proof {
        assert(string_views(failures@) =~= judge_failures(*case, *ending, calls@, text_view(answer), scalars.entries@));
    }
    failures
}

} // verus!
