//! The append-only record of what was called and what came back.
//!
//! The guarantee has two halves: the result passed its contracts, *and* its origin is
//! recorded. This module is the second half's logic. Every call appends one line —
//! successes, refusals and defects alike — so the ledger is a complete account of a session
//! rather than a highlight reel of the calls that worked.
//!
//! `reads` is an audit record, not a cache key. It says which bytes produced this number, so
//! that tomorrow someone can ask whether the data file has changed since.

use crate::decimal::{decimal_of_int, Decimal};
use crate::error::VouchError;
use crate::json::Json;
use crate::manifest::Node;
use crate::scalar_map::{last_assigned, last_number, number_fields, ScalarMap};
use crate::text::{owned, push_char, push_str};
use sha2::Digest;
use vstd::prelude::*;
use vstd::string::StrSliceExecFns;

verus! {

// ------------------------------------------------------------------------ numbers as text

/// The decimal digits of `n`, most significant first.
pub open spec fn nat_digits(n: nat) -> Seq<char>
    decreases n,
{
    if n < 10 {
        seq![((n + 48) as u8) as char]
    } else {
        nat_digits(n / 10) + seq![(((n % 10) + 48) as u8) as char]
    }
}

/// Appends the decimal digits of `n`.
pub fn push_digits(out: &mut String, n: u128)
    ensures
        final(out)@ == old(out)@ + nat_digits(n as nat),
    decreases n,
{
    if n >= 10 {
        push_digits(out, n / 10);
    }
    let d = (n % 10) as u8 + 48;
    push_char(out, d as char);
}

/// `n` written in decimal.
pub fn digits(n: usize) -> (r: String)
    ensures
        r@ == nat_digits(n as nat),
{
    let mut r = String::new();
    push_digits(&mut r, n as u128);
    r
}

// ----------------------------------------------------------------------------- sessions

/// What a session id is once it is safe to put in a file name: trimmed, with everything but
/// ASCII letters, digits, `-` and `_` replaced by `-`.
pub open spec fn sanitized(id: Seq<char>) -> Seq<char> {
    crate::text::trimmed(id).map_values(
        |c: char|
            if ('a' <= c <= 'z') || ('A' <= c <= 'Z') || ('0' <= c <= '9') || c == '-' || c
                == '_' {
                c
            } else {
                '-'
            },
    )
}

/// Session ids reach the filesystem, so they may not wander out of the ledger directory.
pub fn sanitize(id: &str) -> (r: String)
    ensures
        r@ == sanitized(id@),
{
    let mut trimmed = String::new();
    crate::text::push_trimmed(&mut trimmed, id);
    assert(trimmed@ == crate::text::trimmed(id@));
    let t = trimmed.as_str();
    let n = t.unicode_len();
    let mut r = String::new();
    let mut i: usize = 0;
    while i < n
        invariant
            n == t@.len(),
            t@ == crate::text::trimmed(id@),
            i <= n,
            r@ == sanitized(id@).subrange(0, i as int),
        decreases n - i,
    {
        let c = t.get_char(i);
        let keep = ('a' <= c && c <= 'z') || ('A' <= c && c <= 'Z') || ('0' <= c && c <= '9') || c
            == '-' || c == '_';
        push_char(&mut r, if keep { c } else { '-' });
        proof {
            assert(sanitized(id@).subrange(0, i + 1) =~= sanitized(id@).subrange(0, i as int).push(
                if keep { c } else { '-' },
            ));
        }
        i = i + 1;
    }
    assert(sanitized(id@).subrange(0, n as int) =~= sanitized(id@));
    r
}

/// A sanitized session id cannot leave the ledger directory: every character of it is an
/// ASCII letter or digit, `-` or `_`, so it holds no `/` and no `.` to climb out with.
pub proof fn a_session_id_stays_in_the_ledger_directory(id: Seq<char>)
    ensures
        forall|i: int|
            0 <= i < sanitized(id).len() ==> {
                let c = #[trigger] sanitized(id)[i];
                &&& ('a' <= c <= 'z') || ('A' <= c <= 'Z') || ('0' <= c <= '9') || c == '-' || c == '_'
                &&& c != '/' && c != '.'
            },
{
}

/// Which session a call belongs to: the `VOUCH_SESSION` the harness set, made safe for a
/// file name, or else the date.
///
/// An agent harness should set `VOUCH_SESSION` once per conversation, which is what makes
/// attestation tight: a smaller ledger is a stricter check, because a numeral can only be
/// accounted for by a call that actually happened in *this* session. Falling back to the
/// date keeps a plain shell usable, at the cost of a looser scope.
pub fn session_from(variable: Option<&str>, today: &str) -> (r: String)
    ensures
        match variable {
            Some(id) if crate::text::trimmed(id@).len() > 0 => r@ == sanitized(id@),
            _ => r@ == today@,
        },
{
    match variable {
        Some(id) => {
            let mut t = String::new();
            crate::text::push_trimmed(&mut t, id);
            if t.as_str().unicode_len() > 0 {
                sanitize(id)
            } else {
                crate::text::owned(today)
            }
        },
        None => crate::text::owned(today),
    }
}

/// Where a session's ledger lives, under the collection root.
pub open spec fn path_spec(root: Seq<char>, session: Seq<char>) -> Seq<char> {
    root + "/.vouch/ledger/session-"@ + session + ".jsonl"@
}

pub fn path(root: &str, session: &str) -> (r: String)
    ensures
        r@ == path_spec(root@, session@),
{
    let mut r = crate::text::owned(root);
    push_str(&mut r, "/.vouch/ledger/session-");
    push_str(&mut r, session);
    push_str(&mut r, ".jsonl");
    r
}

// ------------------------------------------------------------------------------ scalars

/// `path[i]`, the path of an array's `i`th item.
pub open spec fn item_path(path: Seq<char>, i: nat) -> Seq<char> {
    path + seq!['['] + nat_digits(i) + seq![']']
}

/// `path.key`, the path of an object's field.
pub open spec fn field_path(path: Seq<char>, key: Seq<char>) -> Seq<char> {
    path + seq!['.'] + key
}

/// Every numeric leaf of `j`, with its dotted path, in document order.
pub open spec fn leaves(j: Json, path: Seq<char>) -> Seq<(Seq<char>, Decimal)>
    decreases j, 0int,
{
    match j {
        Json::Number(d) => seq![(path, d)],
        Json::Array(items) => item_leaves(items@, path, 0),
        Json::Object(fields) => field_leaves(fields@, path, 0),
        _ => seq![],
    }
}

pub open spec fn item_leaves(items: Seq<Json>, path: Seq<char>, i: int) -> Seq<(Seq<char>, Decimal)>
    decreases items, items.len() - i,
{
    if 0 <= i < items.len() {
        leaves(items[i], item_path(path, i as nat)) + item_leaves(items, path, i + 1)
    } else {
        seq![]
    }
}

pub open spec fn field_leaves(fields: Seq<(String, Json)>, path: Seq<char>, i: int) -> Seq<
    (Seq<char>, Decimal),
>
    decreases fields, fields.len() - i,
{
    if 0 <= i < fields.len() {
        leaves(fields[i].1, field_path(path, fields[i].0@)) + field_leaves(fields, path, i + 1)
    } else {
        seq![]
    }
}

/// The value reached from `j` by `steps`, each a field by its key (`(true, key, _)`) or an
/// array item by its index (`(false, _, index)`); `None` when a step leads nowhere.
pub open spec fn reached(j: Json, steps: Seq<(bool, Seq<char>, nat)>) -> Option<Json>
    decreases steps.len(),
{
    if steps.len() == 0 {
        Some(j)
    } else {
        let s = steps[0];
        let next = if s.0 {
            match j {
                Json::Object(fs) => crate::json::field(fs@, s.1),
                _ => None,
            }
        } else {
            match j {
                Json::Array(items) => if s.2 < items@.len() {
                    Some(items@[s.2 as int])
                } else {
                    None
                },
                _ => None,
            }
        };
        match next {
            Some(n) => reached(n, steps.drop_first()),
            None => None,
        }
    }
}

/// The path that names what `steps` reach from `prefix`: `.key` for a field, `[i]` for an
/// item.
pub open spec fn path_of(prefix: Seq<char>, steps: Seq<(bool, Seq<char>, nat)>) -> Seq<char>
    decreases steps.len(),
{
    if steps.len() == 0 {
        prefix
    } else {
        let s = steps[0];
        path_of(
            if s.0 {
                prefix + "."@ + s.1
            } else {
                prefix + "["@ + nat_digits(s.2) + "]"@
            },
            steps.drop_first(),
        )
    }
}

proof fn lemma_field_found(fs: Seq<(String, Json)>, key: Seq<char>)
    requires
        crate::json::field(fs, key) is Some,
    ensures
        exists|i: int| 0 <= i < fs.len() && (#[trigger] fs[i]).0@ == key && fs[i].1 == crate::json::field(fs, key)->0,
    decreases fs.len(),
{
    if fs[0].0@ != key {
        lemma_field_found(fs.drop_first(), key);
        let i = choose|i: int| 0 <= i < fs.drop_first().len() && (#[trigger] fs.drop_first()[i]).0@ == key
            && fs.drop_first()[i].1 == crate::json::field(fs.drop_first(), key)->0;
        assert(fs[i + 1] == fs.drop_first()[i]);
    }
}

proof fn lemma_field_leaves_has(fs: Seq<(String, Json)>, path: Seq<char>, m: int, i: int, x: (Seq<char>, Decimal))
    requires
        0 <= m <= i < fs.len(),
        leaves(fs[i].1, field_path(path, fs[i].0@)).contains(x),
    ensures
        field_leaves(fs, path, m).contains(x),
    decreases i - m,
{
    let here = leaves(fs[m].1, field_path(path, fs[m].0@));
    let rest = field_leaves(fs, path, m + 1);
    assert(field_leaves(fs, path, m) == here + rest);
    if m == i {
        let k = choose|k: int| 0 <= k < here.len() && here[k] == x;
        assert((here + rest)[k] == x);
    } else {
        lemma_field_leaves_has(fs, path, m + 1, i, x);
        let k = choose|k: int| 0 <= k < rest.len() && rest[k] == x;
        assert((here + rest)[here.len() + k] == x);
    }
}

proof fn lemma_item_leaves_has(items: Seq<Json>, path: Seq<char>, m: int, i: int, x: (Seq<char>, Decimal))
    requires
        0 <= m <= i < items.len(),
        leaves(items[i], item_path(path, i as nat)).contains(x),
    ensures
        item_leaves(items, path, m).contains(x),
    decreases i - m,
{
    let here = leaves(items[m], item_path(path, m as nat));
    let rest = item_leaves(items, path, m + 1);
    assert(item_leaves(items, path, m) == here + rest);
    if m == i {
        let k = choose|k: int| 0 <= k < here.len() && here[k] == x;
        assert((here + rest)[k] == x);
    } else {
        lemma_item_leaves_has(items, path, m + 1, i, x);
        let k = choose|k: int| 0 <= k < rest.len() && rest[k] == x;
        assert((here + rest)[here.len() + k] == x);
    }
}

proof fn lemma_last_assigned_some(pairs: Seq<(Seq<char>, Decimal)>, x: (Seq<char>, Decimal))
    requires
        pairs.contains(x),
    ensures
        last_assigned(pairs, x.0) is Some,
        (forall|k: int| 0 <= k < pairs.len() && (#[trigger] pairs[k]).0 == x.0 ==> pairs[k].1 == x.1) ==> last_assigned(
            pairs,
            x.0,
        ) == Some(x.1),
    decreases pairs.len(),
{
    if pairs.last().0 == x.0 {
        assert(pairs[pairs.len() - 1] == pairs.last());
    } else {
        let k = choose|k: int| 0 <= k < pairs.len() && pairs[k] == x;
        assert(k != pairs.len() - 1);
        assert(pairs.drop_last()[k] == x);
        lemma_last_assigned_some(pairs.drop_last(), x);
        if forall|k: int| 0 <= k < pairs.len() && (#[trigger] pairs[k]).0 == x.0 ==> pairs[k].1 == x.1 {
            assert forall|k: int| 0 <= k < pairs.drop_last().len() && (#[trigger] pairs.drop_last()[k]).0 == x.0 implies pairs.drop_last()[k].1 == x.1 by {
                assert(pairs.drop_last()[k] == pairs[k]);
            }
        }
    }
}

/// Every number in a value is recorded: whatever number any sequence of fields and array
/// items reaches inside it is among its leaves, under the dotted path of those steps, and so
/// the scalars of that value hold a figure at that path: that very number, unless another
/// leaf carries the same path with another number.
pub proof fn every_reachable_number_is_recorded(j: Json, prefix: Seq<char>, steps: Seq<(bool, Seq<char>, nat)>)
    requires
        reached(j, steps) matches Some(Json::Number(d)),
    ensures
        leaves(j, prefix).contains((path_of(prefix, steps), reached(j, steps)->0->Number_0)),
        last_assigned(leaves(j, prefix), path_of(prefix, steps)) is Some,
        (forall|k: int| 0 <= k < leaves(j, prefix).len() && (#[trigger] leaves(j, prefix)[k]).0 == path_of(prefix, steps)
            ==> leaves(j, prefix)[k].1 == reached(j, steps)->0->Number_0) ==> last_assigned(
            leaves(j, prefix),
            path_of(prefix, steps),
        ) == Some(reached(j, steps)->0->Number_0),
    decreases steps.len(),
{
    let x = (path_of(prefix, steps), reached(j, steps)->0->Number_0);
    if steps.len() == 0 {
        assert(leaves(j, prefix)[0] == x);
    } else {
        let s = steps[0];
        if s.0 {
            let fs = j->Object_0@;
            lemma_field_found(fs, s.1);
            let i = choose|i: int| 0 <= i < fs.len() && (#[trigger] fs[i]).0@ == s.1 && fs[i].1 == crate::json::field(fs, s.1)->0;
            let np = prefix + "."@ + s.1;
            reveal_strlit(".");
            assert(field_path(prefix, fs[i].0@) =~= np);
            every_reachable_number_is_recorded(fs[i].1, np, steps.drop_first());
            lemma_field_leaves_has(fs, prefix, 0, i, x);
        } else {
            let items = j->Array_0@;
            let i = s.2 as int;
            let np = prefix + "["@ + nat_digits(s.2) + "]"@;
            reveal_strlit("[");
            reveal_strlit("]");
            assert(item_path(prefix, i as nat) =~= np);
            every_reachable_number_is_recorded(items[i], np, steps.drop_first());
            lemma_item_leaves_has(items, prefix, 0, i, x);
        }
    }
    lemma_last_assigned_some(leaves(j, prefix), x);
}

/// Whether `steps` lead from `j` to `v`: each a field by its key, through any field of that
/// name (`(true, key, _)`), or an array item by its index (`(false, _, index)`).
pub open spec fn leads_to(j: Json, steps: Seq<(bool, Seq<char>, nat)>, v: Json) -> bool
    decreases steps.len(),
{
    if steps.len() == 0 {
        v == j
    } else {
        let s = steps[0];
        if s.0 {
            match j {
                Json::Object(fs) => exists|i: int|
                    0 <= i < fs@.len() && (#[trigger] fs@[i]).0@ == s.1 && leads_to(fs@[i].1, steps.drop_first(), v),
                _ => false,
            }
        } else {
            match j {
                Json::Array(items) => s.2 < items@.len() && leads_to(items@[s.2 as int], steps.drop_first(), v),
                _ => false,
            }
        }
    }
}

proof fn lemma_leaf_is_reached(j: Json, prefix: Seq<char>, x: (Seq<char>, Decimal))
    requires
        leaves(j, prefix).contains(x),
    ensures
        exists|steps: Seq<(bool, Seq<char>, nat)>| path_of(prefix, steps) == x.0 && #[trigger] leads_to(j, steps, Json::Number(x.1)),
    decreases j, 0int,
{
    match j {
        Json::Number(d) => {
            let steps: Seq<(bool, Seq<char>, nat)> = seq![];
            assert(leaves(j, prefix)[0] == x);
            assert(path_of(prefix, steps) == x.0 && leads_to(j, steps, Json::Number(x.1)));
        },
        Json::Array(items) => {
            lemma_item_leaf_is_reached(items@, prefix, 0, x);
            let (i, rest) = choose|i: int, rest: Seq<(bool, Seq<char>, nat)>| 0 <= i < items@.len() && path_of(
                item_path(prefix, i as nat),
                rest,
            ) == x.0 && #[trigger] leads_to(items@[i], rest, Json::Number(x.1));
            let steps = seq![(false, Seq::<char>::empty(), i as nat)] + rest;
            assert(steps.drop_first() =~= rest);
            reveal_strlit("[");
            reveal_strlit("]");
            assert(prefix + "["@ + nat_digits(i as nat) + "]"@ =~= item_path(prefix, i as nat));
            assert(path_of(prefix, steps) == x.0 && leads_to(j, steps, Json::Number(x.1)));
        },
        Json::Object(fs) => {
            lemma_field_leaf_is_reached(fs@, prefix, 0, x);
            let (i, rest) = choose|i: int, rest: Seq<(bool, Seq<char>, nat)>| 0 <= i < fs@.len() && path_of(
                field_path(prefix, fs@[i].0@),
                rest,
            ) == x.0 && #[trigger] leads_to(fs@[i].1, rest, Json::Number(x.1));
            let steps = seq![(true, fs@[i].0@, 0nat)] + rest;
            assert(steps.drop_first() =~= rest);
            reveal_strlit(".");
            assert(prefix + "."@ + fs@[i].0@ =~= field_path(prefix, fs@[i].0@));
            assert(path_of(prefix, steps) == x.0 && leads_to(j, steps, Json::Number(x.1)));
        },
        _ => {
            assert(leaves(j, prefix).len() == 0);
        },
    }
}

proof fn lemma_item_leaf_is_reached(items: Seq<Json>, prefix: Seq<char>, m: int, x: (Seq<char>, Decimal))
    requires
        0 <= m,
        item_leaves(items, prefix, m).contains(x),
    ensures
        exists|i: int, rest: Seq<(bool, Seq<char>, nat)>| 0 <= i < items.len() && path_of(item_path(prefix, i as nat), rest)
            == x.0 && #[trigger] leads_to(items[i], rest, Json::Number(x.1)),
    decreases items, items.len() - m,
{
    if m < items.len() {
        let here = leaves(items[m], item_path(prefix, m as nat));
        let after = item_leaves(items, prefix, m + 1);
        assert(item_leaves(items, prefix, m) == here + after);
        let k = choose|k: int| 0 <= k < (here + after).len() && (here + after)[k] == x;
        if k < here.len() {
            assert(here[k] == x);
            lemma_leaf_is_reached(items[m], item_path(prefix, m as nat), x);
        } else {
            assert(after[k - here.len()] == x);
            lemma_item_leaf_is_reached(items, prefix, m + 1, x);
        }
    }
}

proof fn lemma_field_leaf_is_reached(fs: Seq<(String, Json)>, prefix: Seq<char>, m: int, x: (Seq<char>, Decimal))
    requires
        0 <= m,
        field_leaves(fs, prefix, m).contains(x),
    ensures
        exists|i: int, rest: Seq<(bool, Seq<char>, nat)>| 0 <= i < fs.len() && path_of(field_path(prefix, fs[i].0@), rest)
            == x.0 && #[trigger] leads_to(fs[i].1, rest, Json::Number(x.1)),
    decreases fs, fs.len() - m,
{
    if m < fs.len() {
        let here = leaves(fs[m].1, field_path(prefix, fs[m].0@));
        let after = field_leaves(fs, prefix, m + 1);
        assert(field_leaves(fs, prefix, m) == here + after);
        let k = choose|k: int| 0 <= k < (here + after).len() && (here + after)[k] == x;
        if k < here.len() {
            assert(here[k] == x);
            lemma_leaf_is_reached(fs[m].1, field_path(prefix, fs[m].0@), x);
        } else {
            assert(after[k - here.len()] == x);
            lemma_field_leaf_is_reached(fs, prefix, m + 1, x);
        }
    }
}

/// Nothing but numbers is recorded: every scalar of a value is a number that some sequence of
/// fields and array items leads to inside it, recorded under the dotted path of those steps.
pub proof fn every_recorded_figure_is_a_number_in_the_value(j: Json, prefix: Seq<char>, x: (Seq<char>, Decimal))
    requires
        leaves(j, prefix).contains(x),
    ensures
        exists|steps: Seq<(bool, Seq<char>, nat)>| path_of(prefix, steps) == x.0 && #[trigger] leads_to(j, steps, Json::Number(x.1)),
{
    lemma_leaf_is_reached(j, prefix, x);
}

pub open spec fn pairs_view(s: Seq<(String, Decimal)>) -> Seq<(Seq<char>, Decimal)> {
    s.map_values(|e: (String, Decimal)| (e.0@, e.1))
}

fn flatten(value: &Json, path: &String, out: &mut Vec<(String, Decimal)>)
    ensures
        pairs_view(final(out)@) == pairs_view(old(out)@) + leaves(*value, path@),
    decreases value, 1int,
{
    match value {
        Json::Number(d) => {
            out.push((path.clone(), *d));
            proof {
                assert(pairs_view(final(out)@) =~= pairs_view(old(out)@) + seq![(path@, *d)]);
            }
        },
        Json::Array(items) => {
            flatten_items(items, path, out);
        },
        Json::Object(fields) => {
            flatten_fields(fields, path, out);
        },
        _ => {
            assert(pairs_view(old(out)@) + seq![] =~= pairs_view(old(out)@));
        },
    }
}

fn flatten_items(items: &Vec<Json>, path: &String, out: &mut Vec<(String, Decimal)>)
    ensures
        pairs_view(final(out)@) == pairs_view(old(out)@) + item_leaves(items@, path@, 0),
    decreases items, 0int,
{
    let mut i: usize = 0;
    while i < items.len()
        invariant
            i <= items@.len(),
            pairs_view(out@) + item_leaves(items@, path@, i as int) == pairs_view(old(out)@)
                + item_leaves(items@, path@, 0),
        decreases items@.len() - i,
    {
        let mut p = path.clone();
        push_char(&mut p, '[');
        push_digits(&mut p, i as u128);
        push_char(&mut p, ']');
        assert(p@ == item_path(path@, i as nat));
        let ghost before = pairs_view(out@);
        assert(decreases_to!(items => items@[i as int]));
        flatten(&items[i], &p, out);
        proof {
            assert(item_leaves(items@, path@, i as int) == leaves(items@[i as int], p@)
                + item_leaves(items@, path@, i + 1));
            assert(pairs_view(out@) + item_leaves(items@, path@, i + 1) =~= before
                + item_leaves(items@, path@, i as int));
        }
        i = i + 1;
    }
    assert(pairs_view(out@) + item_leaves(items@, path@, i as int) =~= pairs_view(out@));
}

fn flatten_fields(fields: &Vec<(String, Json)>, path: &String, out: &mut Vec<(String, Decimal)>)
    ensures
        pairs_view(final(out)@) == pairs_view(old(out)@) + field_leaves(fields@, path@, 0),
    decreases fields, 0int,
{
    let mut i: usize = 0;
    while i < fields.len()
        invariant
            i <= fields@.len(),
            pairs_view(out@) + field_leaves(fields@, path@, i as int) == pairs_view(old(out)@)
                + field_leaves(fields@, path@, 0),
        decreases fields@.len() - i,
    {
        let mut p = path.clone();
        push_char(&mut p, '.');
        push_str(&mut p, fields[i].0.as_str());
        assert(p@ == field_path(path@, fields@[i as int].0@));
        let ghost before = pairs_view(out@);
        assert(decreases_to!(fields => fields@[i as int].1));
        flatten(&fields[i].1, &p, out);
        proof {
            assert(field_leaves(fields@, path@, i as int) == leaves(fields@[i as int].1, p@)
                + field_leaves(fields@, path@, i + 1));
            assert(pairs_view(out@) + field_leaves(fields@, path@, i + 1) =~= before
                + field_leaves(fields@, path@, i as int));
        }
        i = i + 1;
    }
    assert(pairs_view(out@) + field_leaves(fields@, path@, i as int) =~= pairs_view(out@));
}

/// Every numeric leaf in a value, as dotted paths under `prefix`: `result.stats.strength`,
/// `result.breakpoints[1]`. Booleans, strings and null carry no figure to attest against.
///
/// Numbers are kept as written rather than as floats, so an integer stays an integer: a
/// `strength` of 16 is recorded as 16, not 16.0. Where two leaves spell the same path (a key
/// with a dot in it beside a nested object), the later one in document order is kept.
pub fn scalars(value: &Json, prefix: &str) -> (r: ScalarMap)
    ensures
        r.wf(),
        forall|k: Seq<char>| r.get_spec(k) == last_assigned(leaves(*value, prefix@), k),
{
    let mut out: Vec<(String, Decimal)> = Vec::new();
    let p = crate::text::owned(prefix);
    flatten(value, &p, &mut out);
    assert(pairs_view(out@) =~= seq![] + leaves(*value, prefix@));
    ScalarMap::from_pairs(out)
}


// --------------------------------------------------------------------------------- hashes

/// The lower-case hexadecimal digit for a value below sixteen.
pub open spec fn hex_digit(v: u8) -> char {
    if v < 10 {
        ((v + 48) as u8) as char
    } else {
        ((v + 87) as u8) as char
    }
}

/// Bytes as lower-case hexadecimal, two digits each.
pub open spec fn hex_spec(bytes: Seq<u8>) -> Seq<char>
    decreases bytes.len(),
{
    if bytes.len() == 0 {
        seq![]
    } else {
        hex_spec(bytes.drop_last()) + seq![hex_digit(bytes.last() / 16), hex_digit(bytes.last() % 16)]
    }
}

pub fn hex(bytes: &[u8]) -> (r: String)
    ensures
        r@ == hex_spec(bytes@),
        r@.len() == 2 * bytes@.len(),
{
    let mut r = String::new();
    let mut i: usize = 0;
    while i < bytes.len()
        invariant
            i <= bytes@.len(),
            r@ == hex_spec(bytes@.subrange(0, i as int)),
            r@.len() == 2 * i,
        decreases bytes@.len() - i,
    {
        let b = bytes[i];
        let hi = b / 16;
        let lo = b % 16;
        push_char(&mut r, if hi < 10 { (hi + 48) as char } else { (hi + 87) as char });
        push_char(&mut r, if lo < 10 { (lo + 48) as char } else { (lo + 87) as char });
        proof {
            assert(bytes@.subrange(0, i + 1).drop_last() =~= bytes@.subrange(0, i as int));
        }
        i = i + 1;
    }
    assert(bytes@.subrange(0, i as int) =~= bytes@);
    r
}


/// The SHA-256 digest of some bytes, as the `sha2` crate computes it.
pub uninterp spec fn sha256_of(bytes: Seq<u8>) -> Seq<u8>;

/// `sha2::Sha256::digest`: the digest is a function of the bytes alone, and is 32 bytes long.
#[verifier::external_body]
fn sha256(bytes: &[u8]) -> (r: Vec<u8>)
    ensures
        r@ == sha256_of(bytes@),
        r@.len() == 32,
{
    sha2::Sha256::digest(bytes).to_vec()
}

// ---------------------------------------------------------------------------- entries

/// What the audit record of a declared read that could be opened says: how many bytes, from
/// where, with which digest.
pub open spec fn read_fields(fs: Seq<(String, Json)>, path: Seq<char>, bytes: Seq<u8>) -> bool {
    &&& fs.len() == 3
    &&& fs[0].0@ == "bytes"@ && fs[0].1 == Json::Number(decimal_of_int(bytes.len() as int))
    &&& fs[1].0@ == "path"@ && (fs[1].1 matches Json::Str(p) && p@ == path)
    &&& fs[2].0@ == "sha256"@ && (fs[2].1 matches Json::Str(h) && h@ == hex_spec(sha256_of(bytes)))
}

/// The audit record of a declared read: which bytes were in play, by digest.
pub fn read_record(path: &str, bytes: &[u8]) -> (r: Json)
    ensures
        r matches Json::Object(fs) && read_fields(fs@, path@, bytes@),
{
    let digest = sha256(bytes);
    let mut fields: Vec<(String, Json)> = Vec::new();
    fields.push((owned("bytes"), Json::Number(Decimal::from_u64(bytes.len() as u64))));
    fields.push((owned("path"), Json::Str(owned(path))));
    fields.push((owned("sha256"), Json::Str(hex(digest.as_slice()))));
    Json::Object(fields)
}

/// The audit record of a declared read that could not be opened. It is not fatal — the node
/// may not have needed it — but it is exactly the kind of thing an audit wants to see.
pub fn read_failure(path: &str, problem: &str) -> (r: Json)
    ensures
        r matches Json::Object(fs) && fs@.len() == 2 && fs@[0].0@ == "error"@ && (fs@[0].1 matches Json::Str(
            e,
        ) && e@ == problem@) && fs@[1].0@ == "path"@ && (fs@[1].1 matches Json::Str(p) && p@ == path@),
{
    let mut fields: Vec<(String, Json)> = Vec::new();
    fields.push((owned("error"), Json::Str(owned(problem))));
    fields.push((owned("path"), Json::Str(owned(path))));
    Json::Object(fields)
}

/// A `scalars` object that holds every numeric leaf of `result` under `result.…`.
pub open spec fn result_scalars(sf: Seq<(String, Json)>, result: Json) -> bool {
    forall|k: Seq<char>| #[trigger] last_number(sf, k) == last_assigned(leaves(result, "result"@), k)
}

/// The fields of one ledger line, in key order: `code`, `input`, `node`, `outcome`, `reads`,
/// then `result` and `scalars` when a result came back, then `ts` and `version`.
pub open spec fn entry_fields(
    fs: Seq<(String, Json)>,
    name: Seq<char>,
    version: Seq<char>,
    input: Json,
    outcome: Seq<char>,
    code: int,
    result: Option<Json>,
    ts: Seq<char>,
    reads: Seq<Json>,
) -> bool {
    let n: int = if result is Some { 9 } else { 7 };
    &&& fs.len() == n
    &&& fs[0].0@ == "code"@ && fs[0].1 == Json::Number(decimal_of_int(code))
    &&& fs[1].0@ == "input"@ && fs[1].1 == input
    &&& fs[2].0@ == "node"@ && (fs[2].1 matches Json::Str(s) && s@ == name)
    &&& fs[3].0@ == "outcome"@ && (fs[3].1 matches Json::Str(s) && s@ == outcome)
    &&& fs[4].0@ == "reads"@ && (fs[4].1 matches Json::Array(items) && items@ == reads)
    &&& (result matches Some(r) ==> (fs[5].0@ == "result"@ && fs[5].1 == r && fs[6].0@ == "scalars"@
        && (fs[6].1 matches Json::Object(sf) && result_scalars(sf@, r))))
    &&& fs[n - 2].0@ == "ts"@ && (fs[n - 2].1 matches Json::Str(s) && s@ == ts)
    &&& fs[n - 1].0@ == "version"@ && (fs[n - 1].1 matches Json::Str(s) && s@ == version)
}

/// One line of the ledger, its keys sorted, which is the canonical form a reader can diff.
///
/// `ts` is the time of the call and `reads` the audit records of the node's declared reads;
/// both come from outside, since they are the clock and the disk.
pub fn entry(node: &Node, input: Json, outcome: &str, code: i32, result: Option<Json>, ts: &str, reads: Vec<Json>) -> (r: Json)
    ensures
        r matches Json::Object(fs) && entry_fields(
            fs@,
            node.manifest.name@,
            node.manifest.version@,
            input,
            outcome@,
            code as int,
            result,
            ts@,
            reads@,
        ),
{
    let mut fields: Vec<(String, Json)> = Vec::new();
    fields.push((owned("code"), Json::Number(Decimal::from_i64(code as i64))));
    fields.push((owned("input"), input));
    fields.push((owned("node"), Json::Str(node.manifest.name.clone())));
    fields.push((owned("outcome"), Json::Str(owned(outcome))));
    fields.push((owned("reads"), Json::Array(reads)));
    match result {
        Some(r) => {
            let m = scalars(&r, "result");
            let sj = m.to_json();
            proof {
                let sf = sj->Object_0@;
                assert forall|k: Seq<char>| #[trigger] last_number(sf, k) == last_assigned(leaves(r, "result"@), k) by {
                    m.lemma_to_json(sf, k);
                }
            }
            fields.push((owned("result"), r));
            fields.push((owned("scalars"), sj));
        },
        None => {},
    }
    fields.push((owned("ts"), Json::Str(owned(ts))));
    fields.push((owned("version"), Json::Str(node.manifest.version.clone())));
    Json::Object(fields)
}


// ------------------------------------------------------------------------- reading it back

/// Whether a line holds nothing but white space.
pub open spec fn blank(line: Seq<char>) -> bool {
    crate::text::trimmed(line).len() == 0
}

/// `es` are the entries `lines` hold: every line that is not blank, read as JSON, in order.
pub open spec fn entries_read(lines: Seq<Seq<char>>, es: Seq<Json>) -> bool
    decreases lines.len(),
{
    if lines.len() == 0 {
        es.len() == 0
    } else if blank(lines.last()) {
        entries_read(lines.drop_last(), es)
    } else {
        es.len() > 0 && crate::json::read_as(lines.last(), es.last()) && entries_read(lines.drop_last(), es.drop_last())
    }
}

/// The first line from `i` on that is not blank and is not JSON this library reads.
pub open spec fn first_unreadable(lines: Seq<Seq<char>>, i: int) -> Option<int>
    decreases lines.len() - i,
{
    if 0 <= i < lines.len() {
        if !blank(lines[i]) && !crate::json::readable(lines[i]) {
            Some(i)
        } else {
            first_unreadable(lines, i + 1)
        }
    } else {
        None
    }
}

fn is_blank(line: &str) -> (r: bool)
    ensures
        r == blank(line@),
{
    let mut t = String::new();
    crate::text::push_trimmed(&mut t, line);
    assert(t@ =~= crate::text::trimmed(line@));
    t.as_str().unicode_len() == 0
}

/// A session ledger's entries from its text, one JSON object per line with blank lines
/// skipped; a line that is not JSON makes the whole ledger unreadable, naming the file and
/// the line, counted from 1.
pub fn parse_ledger(text: &str, file: &str) -> (r: Result<Vec<Json>, VouchError>)
    ensures
        r is Ok <==> first_unreadable(crate::text::split_spec(text@, '\n'), 0) is None,
        r matches Ok(es) ==> entries_read(crate::text::split_spec(text@, '\n'), es@),
        r matches Err(e) ==> (e.outcome == crate::error::Outcome::Error && e.code == crate::error::ERROR
            && (first_unreadable(crate::text::split_spec(text@, '\n'), 0) matches Some(k) && e.reason@ == file@
            + seq![':'] + nat_digits((k + 1) as nat) + ": not a valid ledger entry: "@ + crate::json::reading_problem(
            crate::text::split_spec(text@, '\n')[k],
        ))),
{
    let lines = crate::text::split_on(text, '\n');
    let ghost ls = crate::text::split_spec(text@, '\n');
    let mut es: Vec<Json> = Vec::new();
    let mut i: usize = 0;
    while i < lines.len()
        invariant
            crate::text::string_views(lines@) == ls,
            ls == crate::text::split_spec(text@, '\n'),
            i <= lines@.len(),
            entries_read(ls.take(i as int), es@),
            first_unreadable(ls, 0) == first_unreadable(ls, i as int),
        decreases lines@.len() - i,
    {
        let line = lines[i].as_str();
        assert(line@ == ls[i as int]);
        assert(ls.take(i + 1).drop_last() =~= ls.take(i as int));
        assert(ls.take(i + 1).last() == ls[i as int]);
        if !is_blank(line) {
            match crate::json::parse_json(line) {
                Ok(j) => {
                    let ghost before = es@;
                    es.push(j);
                    assert(es@.drop_last() =~= before);
                },
                Err(m) => {
                    let mut reason = owned(file);
                    push_char(&mut reason, ':');
                    push_digits(&mut reason, (i + 1) as u128);
                    push_str(&mut reason, ": not a valid ledger entry: ");
                    push_str(&mut reason, m.as_str());
                    return Err(VouchError::error(reason));
                },
            }
        }
        i = i + 1;
    }
    assert(ls.take(i as int) =~= ls);
    Ok(es)
}

} // verus!
