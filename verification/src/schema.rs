//! JSON Schema: validation, and the schema-derived facts other modules need.
//!
//! The schema is the single source of truth for types: the CEL environment is built from it
//! rather than inferred from the payload, so a payload that disagrees with its schema is a
//! schema violation rather than a mysterious contract failure.

use crate::error::{Outcome, VouchError};
use crate::json::{json_reading, render, Json};
use crate::text::{owned, push_char, push_str, string_views};
use vstd::prelude::*;
use vstd::string::StrSliceExecFns;

verus! {

// ------------------------------------------------------------------------ JSON pointers

/// The pieces of `s` between slashes: `a/b` is `a`, `b`; the empty text is one empty piece.
pub open spec fn pieces(s: Seq<char>) -> Seq<Seq<char>>
    decreases s.len(),
{
    if s.len() == 0 {
        seq![seq![]]
    } else {
        let init = pieces(s.drop_last());
        if s.last() == '/' {
            init.push(seq![])
        } else {
            init.update(init.len() - 1, init.last().push(s.last()))
        }
    }
}

proof fn lemma_pieces_nonempty(s: Seq<char>)
    ensures
        pieces(s).len() >= 1,
    decreases s.len(),
{
    if s.len() > 0 {
        lemma_pieces_nonempty(s.drop_last());
    }
}

/// A pointer token with its escapes undone: `~1` is `/`, then `~0` is `~`.
pub open spec fn unescape_token(t: Seq<char>) -> Seq<char> {
    replace_pair(replace_pair(t, '1', '/'), '0', '~')
}

/// `t` with every `~` followed by `second` replaced by `by`, scanning left to right.
pub open spec fn replace_pair(t: Seq<char>, second: char, by: char) -> Seq<char>
    decreases t.len(),
{
    if t.len() >= 2 && t[0] == '~' && t[1] == second {
        seq![by] + replace_pair(t.subrange(2, t.len() as int), second, by)
    } else if t.len() == 0 {
        seq![]
    } else {
        seq![t[0]] + replace_pair(t.drop_first(), second, by)
    }
}

/// The array index a pointer token names: digits, with no leading zero unless it is `0`.
pub open spec fn token_index(t: Seq<char>) -> Option<int> {
    if t.len() > 0 && (forall|k: int| 0 <= k < t.len() ==> '0' <= #[trigger] t[k] <= '9') && (t.len()
        == 1 || t[0] != '0') {
        Some(crate::decimal::chars_value(t, 0, t.len() as int))
    } else {
        None
    }
}

/// What the tokens `tokens[i..]` reach from `j`.
pub open spec fn walk(j: Json, tokens: Seq<Seq<char>>, i: int) -> Option<Json>
    decreases tokens.len() - i,
{
    if i < 0 || i >= tokens.len() {
        Some(j)
    } else {
        let t = unescape_token(tokens[i]);
        match j {
            Json::Object(fields) => match crate::json::field(fields@, t) {
                Some(next) => walk(next, tokens, i + 1),
                None => None,
            },
            Json::Array(items) => match token_index(t) {
                Some(k) => if k < items@.len() {
                    walk(items@[k], tokens, i + 1)
                } else {
                    None
                },
                None => None,
            },
            _ => None,
        }
    }
}

/// What a JSON pointer names in `root`: the empty pointer is the root itself, and any other
/// starts with `/` and names one step per token.
pub open spec fn pointer(root: Json, p: Seq<char>) -> Option<Json> {
    if p.len() == 0 {
        Some(root)
    } else if p[0] != '/' {
        None
    } else {
        walk(root, pieces(p.drop_first()), 0)
    }
}

/// The text of a string field of an object.
pub open spec fn string_field(j: Json, key: Seq<char>) -> Option<Seq<char>> {
    match j.get_spec(key) {
        Some(Json::Str(s)) => Some(s@),
        _ => None,
    }
}

/// How many `$ref` hops `deref` follows before giving up on a cycle.
pub const MAX_HOPS: usize = 32;

/// `schema` with up to `hops` local `$ref`s followed: a `$ref` that is not a `#` pointer, or
/// whose target is missing, stops the walk where it is.
pub open spec fn deref_spec(schema: Json, root: Json, hops: nat) -> Json
    decreases hops,
{
    if hops == 0 {
        schema
    } else {
        match string_field(schema, "$ref"@) {
            Some(r) => if r.len() > 0 && r[0] == '#' {
                match pointer(root, r.drop_first()) {
                    Some(target) => deref_spec(target, root, (hops - 1) as nat),
                    None => schema,
                }
            } else {
                schema
            },
            None => schema,
        }
    }
}

/// Splits `p` at its slashes.
fn split_pieces(p: &str) -> (r: Vec<String>)
    ensures
        r@.map_values(|s: String| s@) == pieces(p@),
{
    let n = p.unicode_len();
    let mut done: Vec<String> = Vec::new();
    let mut current = String::new();
    let mut i: usize = 0;
    proof {
        assert(p@.subrange(0, 0) =~= seq![]);
        assert(done@.map_values(|s: String| s@).push(current@) =~= seq![seq![]]);
    }
    while i < n
        invariant
            i <= n,
            n == p@.len(),
            pieces(p@.subrange(0, i as int)) == done@.map_values(|s: String| s@).push(current@),
        decreases n - i,
    {
        let c = p.get_char(i);
        let ghost before = p@.subrange(0, i as int);
        proof {
            assert(p@.subrange(0, i + 1).drop_last() =~= before);
            lemma_pieces_nonempty(before);
        }
        if c == '/' {
            let piece = current;
            current = String::new();
            done.push(piece);
            proof {
                assert(done@.map_values(|s: String| s@).push(current@) =~= pieces(before).push(seq![]));
            }
        } else {
            push_char(&mut current, c);
            proof {
                assert(done@.map_values(|s: String| s@).push(current@) =~= pieces(before).update(
                    pieces(before).len() - 1,
                    pieces(before).last().push(c),
                ));
            }
        }
        i = i + 1;
    }
    done.push(current);
    proof {
        assert(p@.subrange(0, n as int) =~= p@);
        assert(done@.map_values(|s: String| s@) =~= pieces(p@));
    }
    done
}


/// `t` with every `~` followed by `second` replaced by `by`.
fn replace_pair_exec(t: &str, second: char, by: char) -> (r: String)
    ensures
        r@ == replace_pair(t@, second, by),
{
    let n = t.unicode_len();
    let mut out = String::new();
    let mut i: usize = 0;
    proof {
        assert(t@.subrange(0, n as int) =~= t@);
    }
    while i < n
        invariant
            i <= n,
            n == t@.len(),
            replace_pair(t@, second, by) == out@ + replace_pair(t@.subrange(i as int, n as int), second, by),
        decreases n - i,
    {
        let ghost rest = t@.subrange(i as int, n as int);
        let c = t.get_char(i);
        if c == '~' && i + 1 < n && t.get_char(i + 1) == second {
            push_char(&mut out, by);
            proof {
                assert(rest.subrange(2, rest.len() as int) =~= t@.subrange(i + 2, n as int));
                assert(out@ + replace_pair(t@.subrange(i + 2, n as int), second, by) =~= out@.drop_last() + replace_pair(rest, second, by));
            }
            i = i + 2;
        } else {
            push_char(&mut out, c);
            proof {
                assert(rest.drop_first() =~= t@.subrange(i + 1, n as int));
                assert(out@ + replace_pair(t@.subrange(i + 1, n as int), second, by) =~= out@.drop_last() + replace_pair(rest, second, by));
            }
            i = i + 1;
        }
    }
    proof {
        assert(replace_pair(t@.subrange(n as int, n as int), second, by) =~= seq![]);
        assert(out@ + seq![] =~= out@);
    }
    out
}

/// A pointer token with its escapes undone.
fn unescape(t: &str) -> (r: String)
    ensures
        r@ == unescape_token(t@),
{
    let once = replace_pair_exec(t, '1', '/');
    replace_pair_exec(once.as_str(), '0', '~')
}

/// The array index a token names, as far as it fits: `Err(())` for a token that names no
/// index, `Ok(None)` for one too large to be any array's.
pub(crate) fn index_of(t: &str) -> (r: Result<Option<usize>, ()>)
    ensures
        match r {
            Err(_) => token_index(t@) is None,
            Ok(Some(k)) => token_index(t@) == Some(k as int),
            Ok(None) => token_index(t@) matches Some(k) && k > usize::MAX,
        },
{
    let n = t.unicode_len();
    if n == 0 {
        return Err(());
    }
    let mut i: usize = 0;
    while i < n
        invariant
            i <= n,
            n == t@.len(),
            forall|k: int| 0 <= k < i ==> '0' <= #[trigger] t@[k] <= '9',
        decreases n - i,
    {
        let c = t.get_char(i);
        if !('0' <= c && c <= '9') {
            return Err(());
        }
        i = i + 1;
    }
    if n > 1 && t.get_char(0) == '0' {
        return Err(());
    }
    proof {
        assert(0 * crate::decimal::pow10(n as nat) == 0);
    }
    match crate::decimal::read_chars(t, 0, n, 0, usize::MAX as u128) {
        Some(v) => Ok(Some(v as usize)),
        None => Ok(None),
    }
}

/// What the tokens `tokens[i..]` reach from `j`.
fn walk_exec<'a>(j: &'a Json, tokens: &Vec<String>, i: usize) -> (r: Option<&'a Json>)
    requires
        i <= tokens@.len(),
    ensures
        walk(*j, string_views(tokens@), i as int) == match r {
            Some(x) => Some(*x),
            None => None,
        },
    decreases tokens@.len() - i,
{
    let ghost view = string_views(tokens@);
    if i >= tokens.len() {
        return Some(j);
    }
    let t = unescape(tokens[i].as_str());
    assert(view.len() == tokens@.len());
    assert(t@ == unescape_token(view[i as int]));
    if let Json::Object(fields) = j {
        let found = j.get(t.as_str());
        if let Some(next) = found {
            assert(crate::json::field(fields@, t@) == Some(*next));
            assert(walk(*j, view, i as int) == walk(*next, view, i + 1));
            return walk_exec(next, tokens, i + 1);
        }
        assert(crate::json::field(fields@, t@) is None);
        return None;
    }
    if let Json::Array(items) = j {
        let index = index_of(t.as_str());
        match index {
            Ok(Some(k)) => {
                if k < items.len() {
                    return walk_exec(&items[k], tokens, i + 1);
                }
                return None;
            },
            Ok(None) => {
                let len = items.len();
                assert(token_index(t@) matches Some(k) && k >= items@.len());
                return None;
            },
            Err(_) => {
                return None;
            },
        }
    }
    None
}

/// What a JSON pointer names in `root`.
pub fn resolve<'a>(root: &'a Json, p: &str) -> (r: Option<&'a Json>)
    ensures
        match r {
            Some(x) => pointer(*root, p@) == Some(*x),
            None => pointer(*root, p@) is None,
        },
{
    let n = p.unicode_len();
    if n == 0 {
        return Some(root);
    }
    if p.get_char(0) != '/' {
        return None;
    }
    let rest = p.substring_char(1, n);
    assert(rest@ =~= p@.drop_first());
    let tokens = split_pieces(rest);
    walk_exec(root, &tokens, 0)
}

/// Resolve a local `$ref` (`#/$defs/...`, `#/definitions/...`, or any `#/`-pointer) against
/// the root schema, following a chain of them up to `MAX_HOPS` so that a self-referential
/// chain cannot spin. Remote refs are not resolved.
pub fn deref<'a>(schema: &'a Json, root: &'a Json) -> (r: &'a Json)
    ensures
        *r == deref_spec(*schema, *root, MAX_HOPS as nat),
{
    let mut current = schema;
    let mut k: usize = 0;
    while k < MAX_HOPS
        invariant
            k <= MAX_HOPS,
            deref_spec(*schema, *root, MAX_HOPS as nat) == deref_spec(*current, *root, (MAX_HOPS - k) as nat),
        decreases MAX_HOPS - k,
    {
        let reference = match current.get("$ref") {
            Some(Json::Str(r)) => r,
            _ => {
                return current;
            },
        };
        let n = reference.as_str().unicode_len();
        if n == 0 || reference.as_str().get_char(0) != '#' {
            return current;
        }
        let target = reference.as_str().substring_char(1, n);
        assert(target@ =~= reference@.drop_first());
        match resolve(root, target) {
            Some(next) => {
                current = next;
            },
            None => {
                return current;
            },
        }
        k = k + 1;
    }
    current
}


// ------------------------------------------------------------------------- validation

/// What `jsonschema` reports when the schema spelled by `schema` does not compile as a
/// draft 2020-12 schema, or `None` when it does.
pub uninterp spec fn schema_compile_problem(schema: Seq<char>) -> Option<Seq<char>>;

/// Every violation `jsonschema` finds of the schema spelled by `schema` in the instance spelled
/// by `instance`, as (instance path, message), in the order it reports them.
pub uninterp spec fn schema_violation_list(schema: Seq<char>, instance: Seq<char>) -> Seq<(Seq<char>, Seq<char>)>;

/// `jsonschema::options().with_draft(Draft202012).build`, on a schema given as JSON text: the
/// error's message when it does not build. What the message says is `jsonschema`'s own, and
/// not stated here beyond being a function of the schema.
#[verifier::external_body]
fn compile_problem(schema: &str) -> (r: Option<String>)
    ensures
        match r {
            Some(m) => schema_compile_problem(schema@) == Some(m@),
            None => schema_compile_problem(schema@) is None,
        },
{
    let value: serde_json::Value = match serde_json::from_str(schema) {
        Ok(v) => v,
        Err(e) => return Some(e.to_string()),
    };
    match jsonschema::options().with_draft(jsonschema::Draft::Draft202012).build(&value) {
        Ok(_) => None,
        Err(e) => Some(e.to_string()),
    }
}

/// `Validator::iter_errors`, for a schema and an instance given as JSON text: each error's
/// instance path and message, in the order `jsonschema` reports them. Which errors those are
/// is `jsonschema`'s own and not stated here beyond being a function of the two texts. When
/// the schema does not parse or build, or the instance does not parse, that is the error, with
/// the same message `compile_problem` and `read_json` give.
#[verifier::external_body]
fn violations(schema: &str, instance: &str) -> (r: Result<Vec<(String, String)>, String>)
    ensures
        match r {
            Ok(v) => schema_compile_problem(schema@) is None && json_reading(instance@) is Ok && v@.map_values(
                |e: (String, String)| (e.0@, e.1@),
            ) == schema_violation_list(schema@, instance@),
            Err(m) => check_problem(schema@, instance@) == Some(m@),
        },
{
    let value = serde_json::from_str::<serde_json::Value>(schema).map_err(|e| e.to_string())?;
    let validator = match jsonschema::options().with_draft(jsonschema::Draft::Draft202012).build(&value) {
        Ok(v) => v,
        Err(e) => return Err(e.to_string()),
    };
    let instance = serde_json::from_str::<serde_json::Value>(instance).map_err(|e| e.to_string())?;
    Ok(validator.iter_errors(&instance).map(|e| (e.instance_path().to_string(), e.to_string())).collect())
}

/// Why a schema cannot be applied to an instance at all: the schema does not compile, or the
/// instance is not JSON.
pub open spec fn check_problem(schema: Seq<char>, instance: Seq<char>) -> Option<Seq<char>> {
    match schema_compile_problem(schema) {
        Some(m) => Some(m),
        None => match json_reading(instance) {
            Err(m) => Some(m),
            Ok(_) => None,
        },
    }
}

/// The violation lines `errors` reports: each violation, or, when the schema cannot be applied
/// at all, one line that says why, so that validation fails closed.
pub open spec fn schema_errors(schema: Seq<char>, instance: Seq<char>) -> Seq<Seq<char>> {
    match check_problem(schema, instance) {
        Some(m) => seq!["the schema could not be applied: "@ + m],
        None => schema_violation_list(schema, instance).map_values(|v: (Seq<char>, Seq<char>)| violation_line(v)),
    }
}

/// A violation as it is reported: `instance/path: message`, or just the message at the root.
pub open spec fn violation_line(v: (Seq<char>, Seq<char>)) -> Seq<char> {
    if v.0.len() == 0 {
        v.1
    } else {
        v.0 + ": "@ + v.1
    }
}

/// Checks that `schema` compiles, so that a node whose schema is broken will not load.
pub fn compile(schema: &Json, label: &str) -> (r: Result<(), VouchError>)
    ensures
        match r {
            Ok(()) => schema_compile_problem(render(*schema)) is None,
            Err(e) => schema_compile_problem(render(*schema)) matches Some(m) && e.outcome
                == Outcome::Error && e.code == crate::error::ERROR && e.reason@ == label@ + " is not a valid JSON Schema: "@ + m,
        },
{
    let text = schema.to_text();
    match compile_problem(text.as_str()) {
        None => Ok(()),
        Some(m) => {
            let mut reason = owned(label);
            push_str(&mut reason, " is not a valid JSON Schema: ");
            push_str(&mut reason, m.as_str());
            Err(VouchError::error(reason))
        },
    }
}

/// All validation errors of `instance` against `schema`, as `instance/path: message` lines.
/// Reporting every failure at once means an agent can fix a call in one retry instead of one
/// per field. A schema that cannot be applied is reported as a failure, never as no errors.
pub fn errors(schema: &Json, instance: &Json) -> (r: Vec<String>)
    ensures
        string_views(r@) == schema_errors(render(*schema), render(*instance)),
{
    let s = schema.to_text();
    let i = instance.to_text();
    let found = match violations(s.as_str(), i.as_str()) {
        Ok(found) => found,
        Err(m) => {
            let mut line = owned("the schema could not be applied: ");
            push_str(&mut line, m.as_str());
            let mut out: Vec<String> = Vec::new();
            out.push(line);
            assert(string_views(out@) =~= schema_errors(s@, i@));
            return out;
        },
    };
    let ghost listed = schema_violation_list(s@, i@);
    let mut out: Vec<String> = Vec::new();
    let mut k: usize = 0;
    while k < found.len()
        invariant
            k <= found@.len(),
            found@.map_values(|e: (String, String)| (e.0@, e.1@)) == listed,
            string_views(out@) == listed.take(k as int).map_values(
                |v: (Seq<char>, Seq<char>)| violation_line(v),
            ),
        decreases found@.len() - k,
    {
        let (path, message) = (&found[k].0, &found[k].1);
        let line = if path.as_str().unicode_len() == 0 {
            message.clone()
        } else {
            let mut line = path.clone();
            push_str(&mut line, ": ");
            push_str(&mut line, message.as_str());
            line
        };
        proof {
            assert(listed[k as int] == (path@, message@));
            reveal_strlit(": ");
        }
        out.push(line);
        proof {
            assert(listed.take(k + 1).map_values(|v: (Seq<char>, Seq<char>)| violation_line(v)) =~= listed.take(
                k as int,
            ).map_values(|v: (Seq<char>, Seq<char>)| violation_line(v)).push(violation_line(listed[k as int])));
            assert(string_views(out@) =~= string_views(out@.drop_last()).push(line@));
        }
        k = k + 1;
    }
    assert(listed.take(k as int) =~= listed);
    out
}

// --------------------------------------------------------------------- declared types

/// The declared type(s) of a schema node: `type` may be a string or an array of strings.
pub open spec fn declared_types(schema: Json) -> Seq<Seq<char>> {
    match schema.get_spec("type"@) {
        Some(Json::Str(t)) => seq![t@],
        Some(Json::Array(ts)) => string_items(ts@),
        _ => seq![],
    }
}

/// The strings among `items`, in order.
pub open spec fn string_items(items: Seq<Json>) -> Seq<Seq<char>>
    decreases items.len(),
{
    if items.len() == 0 {
        seq![]
    } else {
        string_items(items.drop_last()) + match items.last() {
            Json::Str(s) => seq![s@],
            _ => seq![],
        }
    }
}

/// The declared type(s) of a schema node.
pub fn types(schema: &Json) -> (r: Vec<String>)
    ensures
        string_views(r@) == declared_types(*schema),
{
    let mut out: Vec<String> = Vec::new();
    match schema.get("type") {
        Some(Json::Str(t)) => {
            out.push(t.clone());
            assert(string_views(out@) =~= seq![t@]);
        },
        Some(Json::Array(ts)) => {
            let mut k: usize = 0;
            while k < ts.len()
                invariant
                    k <= ts@.len(),
                    string_views(out@) == string_items(ts@.take(k as int)),
                decreases ts@.len() - k,
            {
                proof {
                    assert(ts@.take(k + 1).drop_last() =~= ts@.take(k as int));
                }
                if let Json::Str(t) = &ts[k] {
                    out.push(t.clone());
                    assert(string_views(out@) =~= string_views(out@.drop_last()).push(t@));
                }
                k = k + 1;
            }
            assert(ts@.take(k as int) =~= ts@);
        },
        _ => {
            assert(string_views(out@) =~= seq![]);
        },
    }
    out
}

/// Whether `name` is among the declared types.
pub fn declares_type(schema: &Json, name: &str) -> (r: bool)
    ensures
        r == declared_types(*schema).contains(name@),
{
    let found = types(schema);
    let mut k: usize = 0;
    while k < found.len()
        invariant
            k <= found@.len(),
            string_views(found@) == declared_types(*schema),
            forall|m: int| 0 <= m < k ==> #[trigger] found@[m]@ != name@,
        decreases found@.len() - k,
    {
        if crate::text::str_eq(found[k].as_str(), name) {
            assert(string_views(found@)[k as int] == found@[k as int]@);
            return true;
        }
        k = k + 1;
    }
    proof {
        if declared_types(*schema).contains(name@) {
            let m = choose|m: int| 0 <= m < declared_types(*schema).len() && declared_types(*schema)[m] == name@;
            assert(string_views(found@)[m] == found@[m]@);
        }
    }
    false
}


// ---------------------------------------------------------------------- numeric fields

/// How deep `numeric_paths` looks into nested schemas.
pub const MAX_DEPTH: usize = 16;

/// Whether a schema node declares a number.
pub open spec fn is_numeric(schema: Json) -> bool {
    declared_types(schema).contains("number"@) || declared_types(schema).contains("integer"@)
}

/// Dotted paths of every numeric leaf `schema` declares below `path`: `result.stats.strength`
/// for a property, `result.breakpoints[]` for an array's items. Local `$ref`s are followed, and
/// the walk stops `MAX_DEPTH` levels down.
pub open spec fn numeric_leaves(schema: Json, root: Json, path: Seq<char>, depth: int) -> Seq<Seq<char>>
    decreases MAX_DEPTH + 1 - depth, 1int, 0int,
{
    if depth > MAX_DEPTH || depth < 0 {
        seq![]
    } else {
        let s = deref_spec(schema, root, MAX_HOPS as nat);
        if is_numeric(s) {
            seq![path]
        } else {
            (match s.get_spec("properties"@) {
                Some(Json::Object(props)) => property_leaves(props@, root, path, depth, 0),
                _ => seq![],
            }) + (match s.get_spec("items"@) {
                Some(items) => numeric_leaves(items, root, path + "[]"@, depth + 1),
                None => seq![],
            })
        }
    }
}

pub open spec fn property_leaves(props: Seq<(String, Json)>, root: Json, path: Seq<char>, depth: int, i: int) -> Seq<Seq<char>>
    decreases MAX_DEPTH + 1 - depth, 0int, props.len() - i,
{
    if 0 <= i < props.len() && 0 <= depth <= MAX_DEPTH {
        numeric_leaves(props[i].1, root, path + "."@ + props[i].0@, depth + 1) + property_leaves(
            props,
            root,
            path,
            depth,
            i + 1,
        )
    } else {
        seq![]
    }
}

fn collect_numeric(schema: &Json, root: &Json, path: &String, out: &mut Vec<String>, depth: usize)
    ensures
        string_views(final(out)@) == string_views(old(out)@) + numeric_leaves(*schema, *root, path@, depth as int),
    decreases MAX_DEPTH + 1 - depth, 1int, 0int,
{
    let ghost start = string_views(out@);
    if depth > MAX_DEPTH {
        assert(string_views(out@) =~= start + seq![]);
        return;
    }
    let s = deref(schema, root);
    if declares_type(s, "number") || declares_type(s, "integer") {
        out.push(path.clone());
        assert(string_views(out@) =~= start + seq![path@]);
        return;
    }
    match s.get("properties") {
        Some(Json::Object(props)) => {
            collect_properties(props, root, path, out, depth);
        },
        _ => {},
    }
    let ghost middle = string_views(out@);
    match s.get("items") {
        Some(items) => {
            let mut p = path.clone();
            push_str(&mut p, "[]");
            collect_numeric(items, root, &p, out, depth + 1);
        },
        None => {},
    }
    proof {
        assert(string_views(out@) =~= start + numeric_leaves(*schema, *root, path@, depth as int));
    }
}

fn collect_properties(props: &Vec<(String, Json)>, root: &Json, path: &String, out: &mut Vec<String>, depth: usize)
    requires
        depth <= MAX_DEPTH,
    ensures
        string_views(final(out)@) == string_views(old(out)@) + property_leaves(props@, *root, path@, depth as int, 0),
    decreases MAX_DEPTH + 1 - depth, 0int, props@.len(),
{
    let mut i: usize = 0;
    while i < props.len()
        invariant
            i <= props@.len(),
            depth <= MAX_DEPTH,
            string_views(out@) + property_leaves(props@, *root, path@, depth as int, i as int) == string_views(old(out)@)
                + property_leaves(props@, *root, path@, depth as int, 0),
        decreases props@.len() - i,
    {
        let ghost before = string_views(out@);
        let mut p = path.clone();
        push_str(&mut p, ".");
        push_str(&mut p, props[i].0.as_str());
        collect_numeric(&props[i].1, root, &p, out, depth + 1);
        proof {
            assert(string_views(out@) + property_leaves(props@, *root, path@, depth as int, i + 1) =~= before
                + property_leaves(props@, *root, path@, depth as int, i as int));
        }
        i = i + 1;
    }
    assert(string_views(out@) + property_leaves(props@, *root, path@, depth as int, i as int) =~= string_views(out@));
}

/// Dotted paths of every numeric leaf the schema declares, prefixed with `prefix`
/// (`result.stats.strength`). Used to report how much of a node's output its postconditions
/// check.
pub fn numeric_paths(schema: &Json, root: &Json, prefix: &str) -> (r: Vec<String>)
    ensures
        string_views(r@) == numeric_leaves(*schema, *root, prefix@, 0),
{
    let mut out: Vec<String> = Vec::new();
    collect_numeric(schema, root, &owned(prefix), &mut out, 0);
    assert(string_views(out@) =~= seq![] + numeric_leaves(*schema, *root, prefix@, 0));
    out
}

} // verus!
