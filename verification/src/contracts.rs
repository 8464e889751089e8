//! CEL contracts.
//!
//! CEL is non-Turing-complete, terminates by construction, and is a published spec, so a
//! contributor can read a contract without learning a project-specific DSL.
//!
//! Two rules govern everything here:
//!
//! 1. **Fail closed.** An expression that errors — undefined field, type mismatch, division
//!    by zero — or that returns a non-boolean has *not held*. A contract that cannot be
//!    evaluated is a contract that did not hold, so `Verdict` has no variant that could be
//!    mistaken for a pass.
//! 2. **Types come from the JSON Schema**, never from the incoming JSON. `integer` becomes a
//!    CEL int and `number` becomes a CEL double because the schema says so, so an
//!    `attack_rating` of exactly `512` does not silently become an int and stop comparing
//!    against a float bound.
//!
//! Values reach the CEL interpreter as literals: each value is written out as the CEL
//! expression that denotes it, and the interpreter binds what that expression evaluates to.
//! A nested list or map is bound first under a name of its own, so no literal is nested
//! deeper than one container, however deep the value.

use crate::decimal::{pow10, scaled_to, signed, Decimal};
use crate::json::{hex_lower, Json};
use crate::schema::{declared_types, deref, deref_spec, declares_type, MAX_HOPS};
use crate::ledger::{nat_digits, push_digits};
use crate::text::{push_char, push_str};
use vstd::prelude::*;
use vstd::string::StrSliceExecFns;

verus! {

/// A CEL value, as the runtime builds them from JSON.
#[derive(Debug)]
pub enum CelVal {
    Null,
    Bool(bool),
    Int(i64),
    Double(Decimal),
    Str(String),
    List(Vec<CelVal>),
    Mapping(Vec<(String, CelVal)>),
}

/// How deep `to_cel` converts before it stops; anything deeper becomes `null`.
pub const MAX_NESTING: usize = 64;

// ------------------------------------------------------------------- numbers by schema

/// Whether a decimal is a whole number.
pub open spec fn is_whole(d: Decimal) -> bool {
    d.exponent >= 0 || (d.mantissa as int) % pow10((-d.exponent) as nat) == 0
}

/// The value of a whole decimal.
pub open spec fn whole_value(d: Decimal) -> int {
    if d.exponent >= 0 {
        scaled_to(d, 0)
    } else {
        signed(d.negative, (d.mantissa as int) / pow10((-d.exponent) as nat))
    }
}

pub open spec fn fits_i64(v: int) -> bool {
    i64::MIN <= v <= i64::MAX
}

/// Whether the number was written as an integer that fits an `i64`: no fraction and no
/// exponent.
pub open spec fn written_as_int(d: Decimal) -> bool {
    d.exponent == 0 && fits_i64(signed(d.negative, d.mantissa as int))
}

/// The integer/float decision, made in exactly one place.
///
/// A schema that declares `integer` gets an int whenever the number is whole (it already
/// passed validation, so it *is* an integer; JSON may just have spelled it `40.0`). One that
/// declares `number` gets a double. Otherwise the shape of the literal decides.
pub open spec fn number_value(d: Decimal, types: Seq<Seq<char>>) -> CelVal {
    if types.contains("integer"@) && is_whole(d) && fits_i64(whole_value(d)) {
        CelVal::Int(whole_value(d) as i64)
    } else if types.contains("number"@) {
        CelVal::Double(d)
    } else if written_as_int(d) {
        CelVal::Int(signed(d.negative, d.mantissa as int) as i64)
    } else {
        CelVal::Double(d)
    }
}

/// The whole value of `d`, if it is whole and fits an `i64`.
fn whole_i64(d: &Decimal) -> (r: Option<i64>)
    ensures
        match r {
            Some(v) => is_whole(*d) && fits_i64(whole_value(*d)) && v == whole_value(*d),
            None => !(is_whole(*d) && fits_i64(whole_value(*d))),
        },
{
    let magnitude: u128 = if d.exponent >= 0 {
        // Past 10^19 nothing but zero fits an i64.
        if d.mantissa == 0 {
            proof {
                assert((d.mantissa as int) * pow10((d.exponent - 0) as nat) == 0);
            }
            0
        } else if d.exponent > 19 {
            proof {
                crate::decimal::lemma_pow10_monotone(20, (d.exponent - 0) as nat);
                reveal_with_fuel(pow10, 21);
                assert(pow10(20) == 100000000000000000000int);
                assert((d.mantissa as int) * pow10((d.exponent - 0) as nat) >= pow10((d.exponent - 0) as nat))
                    by (nonlinear_arith)
                    requires
                        d.mantissa >= 1,
                        pow10((d.exponent - 0) as nat) >= 0,
                ;
            }
            return None;
        } else {
            let mut m: u128 = d.mantissa;
            let mut k: i32 = 0;
            proof {
                assert(pow10(0) == 1);
            }
            while k < d.exponent
                invariant
                    0 <= k <= d.exponent <= 19,
                    m == (d.mantissa as int) * pow10(k as nat),
                    d.mantissa >= 1,
                decreases d.exponent - k,
            {
                proof {
                    crate::decimal::lemma_pow10_positive(k as nat);
                }
                if m > 0x7fff_ffff_ffff_ffff_ffff {
                    proof {
                        crate::decimal::lemma_pow10_monotone((k + 1) as nat, (d.exponent - 0) as nat);
                        assert((d.mantissa as int) * pow10((d.exponent - 0) as nat) >= m * 10)
                            by (nonlinear_arith)
                            requires
                                m == (d.mantissa as int) * pow10(k as nat),
                                pow10((k + 1) as nat) == 10 * pow10(k as nat),
                                pow10((d.exponent - 0) as nat) >= pow10((k + 1) as nat),
                                d.mantissa >= 1,
                        ;
                    }
                    return None;
                }
                m = m * 10;
                proof {
                    assert(pow10((k + 1) as nat) == 10 * pow10(k as nat));
                    assert(m == (d.mantissa as int) * pow10((k + 1) as nat)) by (nonlinear_arith)
                        requires
                            m == 10 * ((d.mantissa as int) * pow10(k as nat)),
                            pow10((k + 1) as nat) == 10 * pow10(k as nat),
                    ;
                }
                k = k + 1;
            }
            m
        }
    } else {
        let j: u64 = (-(d.exponent as i64)) as u64;
        let mut q: u128 = d.mantissa;
        let mut s: u64 = 0;
        let mut exact = true;
        proof {
            assert(pow10(0) == 1);
        }
        while s < j && q != 0
            invariant
                s <= j,
                q == (d.mantissa as int) / pow10(s as nat),
                exact == ((d.mantissa as int) % pow10(s as nat) == 0),
            decreases q,
        {
            proof {
                crate::decimal::lemma_div_pow10_step(d.mantissa as int, s as nat);
                lemma_mod_pow10_step(d.mantissa as int, s as nat);
            }
            if q % 10 != 0 {
                exact = false;
            }
            q = q / 10;
            s = s + 1;
        }
        if s < j {
            proof {
                crate::decimal::lemma_div_pow10_zero(d.mantissa as int, s as nat, j as nat);
                lemma_mod_when_quotient_zero(d.mantissa as int, s as nat, j as nat);
            }
        }
        if !exact {
            return None;
        }
        q
    };
    if d.negative {
        if magnitude > 0x8000_0000_0000_0000 {
            return None;
        }
        Some((-(magnitude as i128)) as i64)
    } else {
        if magnitude > 0x7fff_ffff_ffff_ffff {
            return None;
        }
        Some(magnitude as i64)
    }
}


/// A multiple of the next power of ten is a multiple of this one whose quotient ends in zero.
proof fn lemma_mod_pow10_step(x: int, n: nat)
    requires
        x >= 0,
    ensures
        (x % pow10(n + 1) == 0) == (x % pow10(n) == 0 && (x / pow10(n)) % 10 == 0),
{
    crate::decimal::lemma_pow10_positive(n);
    assert(pow10(n + 1) == pow10(n) * 10);
    vstd::arithmetic::div_mod::lemma_mod_breakdown(x, pow10(n), 10);
    assert(x % pow10(n) >= 0);
    assert((x / pow10(n)) % 10 >= 0);
    assert(pow10(n) * ((x / pow10(n)) % 10) >= 0) by (nonlinear_arith)
        requires
            pow10(n) > 0,
            (x / pow10(n)) % 10 >= 0,
    ;
    assert((pow10(n) * ((x / pow10(n)) % 10) == 0) == ((x / pow10(n)) % 10 == 0)) by (nonlinear_arith)
        requires
            pow10(n) > 0,
    ;
}

/// Once the quotient is zero, the number is below every larger power, and its remainders by
/// them are all the number itself.
proof fn lemma_mod_when_quotient_zero(x: int, n: nat, m: nat)
    requires
        x >= 0,
        x / pow10(n) == 0,
        n <= m,
    ensures
        (x % pow10(n) == 0) == (x % pow10(m) == 0),
{
    crate::decimal::lemma_pow10_positive(n);
    crate::decimal::lemma_pow10_positive(m);
    crate::decimal::lemma_pow10_monotone(n, m);
    vstd::arithmetic::div_mod::lemma_small_div_converse(x, pow10(n));
    vstd::arithmetic::div_mod::lemma_small_mod(x as nat, pow10(n) as nat);
    vstd::arithmetic::div_mod::lemma_small_mod(x as nat, pow10(m) as nat);
}


// -------------------------------------------------------------------- JSON to CEL values

/// The types a schema declares, or none when there is no schema.
pub open spec fn types_of(schema: Option<Json>) -> Seq<Seq<char>> {
    match schema {
        Some(s) => declared_types(s),
        None => seq![],
    }
}

/// The schema governing an array's items.
pub open spec fn items_schema(schema: Option<Json>, root: Json) -> Option<Json> {
    match schema {
        Some(s) => match s.get_spec("items"@) {
            Some(i) => Some(deref_spec(i, root, MAX_HOPS as nat)),
            None => None,
        },
        None => None,
    }
}

/// The schema governing one object field: `properties`, then `additionalProperties` when it
/// is a schema rather than a boolean.
pub open spec fn field_schema_spec(schema: Option<Json>, key: Seq<char>, root: Json) -> Option<Json> {
    match schema {
        None => None,
        Some(s) => {
            let declared = match s.get_spec("properties"@) {
                Some(props) => props.get_spec(key),
                None => None,
            };
            match declared {
                Some(prop) => Some(deref_spec(prop, root, MAX_HOPS as nat)),
                None => match s.get_spec("additionalProperties"@) {
                    Some(Json::Object(f)) => Some(
                        deref_spec(Json::Object(f), root, MAX_HOPS as nat),
                    ),
                    _ => None,
                },
            }
        },
    }
}

/// `c` is what `value` converts to under `schema`, `depth` levels down.
pub open spec fn converts(value: Json, schema: Option<Json>, root: Json, depth: int, c: CelVal) -> bool
    decreases value, 1int, 0int,
{
    if depth > MAX_NESTING {
        c is Null
    } else {
        match value {
            Json::Null => c is Null,
            Json::Bool(b) => c == CelVal::Bool(b),
            Json::Str(s) => c matches CelVal::Str(t) && t@ == s@,
            Json::Number(d) => c == number_value(d, types_of(schema)),
            Json::Array(items) => c matches CelVal::List(cs) && cs@.len() == items@.len()
                && items_convert(items@, cs@, items_schema(schema, root), root, depth + 1, 0),
            Json::Object(fields) => c matches CelVal::Mapping(es) && es@.len() == fields@.len()
                && fields_convert(fields@, es@, schema, root, depth + 1, 0),
        }
    }
}

pub open spec fn items_convert(items: Seq<Json>, cs: Seq<CelVal>, schema: Option<Json>, root: Json, depth: int, i: int) -> bool
    decreases items, 0int, items.len() - i,
{
    if 0 <= i < items.len() && i < cs.len() {
        converts(items[i], schema, root, depth, cs[i]) && items_convert(items, cs, schema, root, depth, i + 1)
    } else {
        true
    }
}

pub open spec fn fields_convert(fields: Seq<(String, Json)>, es: Seq<(String, CelVal)>, schema: Option<Json>, root: Json, depth: int, i: int) -> bool
    decreases fields, 0int, fields.len() - i,
{
    if 0 <= i < fields.len() && i < es.len() {
        &&& es[i].0@ == fields[i].0@
        &&& converts(fields[i].1, field_schema_spec(schema, fields[i].0@, root), root, depth, es[i].1)
        &&& fields_convert(fields, es, schema, root, depth, i + 1)
    } else {
        true
    }
}

fn number(d: &Decimal, schema: Option<&Json>) -> (c: CelVal)
    ensures
        c == number_value(*d, types_of(match schema { Some(s) => Some(*s), None => None })),
{
    let (integer, number) = match schema {
        Some(s) => (declares_type(s, "integer"), declares_type(s, "number")),
        None => (false, false),
    };
    if integer {
        if let Some(v) = whole_i64(d) {
            return CelVal::Int(v);
        }
    }
    if number {
        return CelVal::Double(*d);
    }
    if d.exponent == 0 {
        if d.negative {
            if d.mantissa <= 0x8000_0000_0000_0000 {
                return CelVal::Int((-(d.mantissa as i128)) as i64);
            }
        } else if d.mantissa <= 0x7fff_ffff_ffff_ffff {
            return CelVal::Int(d.mantissa as i64);
        }
    }
    CelVal::Double(*d)
}

/// The schema governing one object field.
fn field_schema<'a>(schema: Option<&'a Json>, key: &str, root: &'a Json) -> (r: Option<&'a Json>)
    ensures
        match r {
            Some(x) => field_schema_spec(match schema { Some(s) => Some(*s), None => None }, key@, *root) == Some(*x),
            None => field_schema_spec(match schema { Some(s) => Some(*s), None => None }, key@, *root) is None,
        },
{
    let s = match schema {
        Some(s) => s,
        None => {
            return None;
        },
    };
    if let Some(props) = s.get("properties") {
        if let Some(prop) = props.get(key) {
            return Some(deref(prop, root));
        }
    }
    match s.get("additionalProperties") {
        Some(ap) => match ap {
            Json::Object(_) => Some(deref(ap, root)),
            _ => None,
        },
        None => None,
    }
}

fn convert(value: &Json, schema: Option<&Json>, root: &Json, depth: usize) -> (c: CelVal)
    requires
        depth <= MAX_NESTING + 1,
    ensures
        converts(*value, match schema { Some(s) => Some(*s), None => None }, *root, depth as int, c),
    decreases value, 1int, 0int,
{
    if depth > MAX_NESTING {
        return CelVal::Null;
    }
    match value {
        Json::Null => CelVal::Null,
        Json::Bool(b) => CelVal::Bool(*b),
        Json::Str(s) => CelVal::Str(s.clone()),
        Json::Number(d) => number(d, schema),
        Json::Array(items) => {
            let item_schema = match schema {
                Some(s) => match s.get("items") {
                    Some(i) => Some(deref(i, root)),
                    None => None,
                },
                None => None,
            };
            CelVal::List(convert_items(items, item_schema, root, depth + 1))
        },
        Json::Object(fields) => CelVal::Mapping(convert_fields(fields, schema, root, depth + 1)),
    }
}

fn convert_items(items: &Vec<Json>, schema: Option<&Json>, root: &Json, depth: usize) -> (cs: Vec<CelVal>)
    requires
        depth <= MAX_NESTING + 1,
    ensures
        cs@.len() == items@.len(),
        items_convert(items@, cs@, match schema { Some(s) => Some(*s), None => None }, *root, depth as int, 0),
    decreases items, 0int, 0int,
{
    let ghost view_schema = match schema { Some(s) => Some(*s), None => None };
    let mut cs: Vec<CelVal> = Vec::new();
    let mut i: usize = 0;
    while i < items.len()
        invariant
            i <= items@.len(),
            cs@.len() == i,
            depth <= MAX_NESTING + 1,
            view_schema == match schema { Some(s) => Some(*s), None => None },
            forall|k: int| 0 <= k < i ==> converts(items@[k], view_schema, *root, depth as int, #[trigger] cs@[k]),
        decreases items@.len() - i,
    {
        assert(decreases_to!(items => items@[i as int]));
        let c = convert(&items[i], schema, root, depth);
        cs.push(c);
        i = i + 1;
    }
    proof {
        lemma_items_convert(items@, cs@, view_schema, *root, depth as int, 0);
    }
    cs
}

fn convert_fields(fields: &Vec<(String, Json)>, schema: Option<&Json>, root: &Json, depth: usize) -> (es: Vec<(String, CelVal)>)
    requires
        depth <= MAX_NESTING + 1,
    ensures
        es@.len() == fields@.len(),
        fields_convert(fields@, es@, match schema { Some(s) => Some(*s), None => None }, *root, depth as int, 0),
    decreases fields, 0int, 0int,
{
    let ghost whole = match schema { Some(s) => Some(*s), None => None };
    let mut es: Vec<(String, CelVal)> = Vec::new();
    let mut i: usize = 0;
    while i < fields.len()
        invariant
            i <= fields@.len(),
            es@.len() == i,
            depth <= MAX_NESTING + 1,
            whole == match schema { Some(s) => Some(*s), None => None },
            forall|k: int| 0 <= k < i ==> (#[trigger] es@[k]).0@ == fields@[k].0@ && converts(
                fields@[k].1,
                field_schema_spec(whole, fields@[k].0@, *root),
                *root,
                depth as int,
                es@[k].1,
            ),
        decreases fields@.len() - i,
    {
        let sub = field_schema(schema, fields[i].0.as_str(), root);
        assert(decreases_to!(fields => fields@[i as int].1));
        let c = convert(&fields[i].1, sub, root, depth);
        es.push((fields[i].0.clone(), c));
        i = i + 1;
    }
    proof {
        lemma_fields_convert(fields@, es@, whole, *root, depth as int, 0);
    }
    es
}

proof fn lemma_items_convert(items: Seq<Json>, cs: Seq<CelVal>, schema: Option<Json>, root: Json, depth: int, i: int)
    requires
        0 <= i,
        cs.len() == items.len(),
        forall|k: int| 0 <= k < items.len() ==> converts(items[k], schema, root, depth, #[trigger] cs[k]),
    ensures
        items_convert(items, cs, schema, root, depth, i),
    decreases items.len() - i,
{
    if i < items.len() {
        lemma_items_convert(items, cs, schema, root, depth, i + 1);
    }
}

proof fn lemma_fields_convert(fields: Seq<(String, Json)>, es: Seq<(String, CelVal)>, schema: Option<Json>, root: Json, depth: int, i: int)
    requires
        0 <= i,
        es.len() == fields.len(),
        forall|k: int| 0 <= k < fields.len() ==> (#[trigger] es[k]).0@ == fields[k].0@ && converts(
            fields[k].1,
            field_schema_spec(schema, fields[k].0@, root),
            root,
            depth,
            es[k].1,
        ),
    ensures
        fields_convert(fields, es, schema, root, depth, i),
    decreases fields.len() - i,
{
    if i < fields.len() {
        lemma_fields_convert(fields, es, schema, root, depth, i + 1);
    }
}

/// Convert JSON into CEL values, taking types from `schema` rather than from the shape of the
/// data. `root` is the schema document the local `$ref`s resolve against.
pub fn to_cel(value: &Json, schema: Option<&Json>, root: &Json) -> (c: CelVal)
    ensures
        converts(
            *value,
            match schema {
                Some(s) => Some(deref_spec(*s, *root, MAX_HOPS as nat)),
                None => None,
            },
            *root,
            0,
            c,
        ),
{
    let s = match schema {
        Some(s) => Some(deref(s, root)),
        None => None,
    };
    convert(value, s, root, 0)
}


// ------------------------------------------------------------------------ CEL literals

/// How one character is written inside a double-quoted CEL string.
pub open spec fn cel_escape_char(c: char) -> Seq<char> {
    if c == '\\' {
        seq!['\\', '\\']
    } else if c == '"' {
        seq!['\\', '"']
    } else if (c as u32) < 0x20 || (c as u32) == 0x7f {
        seq!['\\', 'u', '0', '0', hex_lower(((c as u32) / 16) as int), hex_lower(((c as u32) % 16) as int)]
    } else {
        seq![c]
    }
}

pub open spec fn cel_escaped(s: Seq<char>) -> Seq<char>
    decreases s.len(),
{
    if s.len() == 0 {
        seq![]
    } else {
        cel_escaped(s.drop_last()) + cel_escape_char(s.last())
    }
}

/// `s` as a CEL string literal.
pub open spec fn cel_string(s: Seq<char>) -> Seq<char> {
    seq!['"'] + cel_escaped(s) + seq!['"']
}

/// An integer as a CEL expression. The most negative `i64` has no literal of its own, so it is
/// written as a subtraction.
pub open spec fn int_literal(v: int) -> Seq<char> {
    if v == i64::MIN {
        "(-9223372036854775807 - 1)"@
    } else if v < 0 {
        seq!['-'] + nat_digits((-v) as nat)
    } else {
        nat_digits(v as nat)
    }
}

/// A decimal as a CEL double literal: its digits, then its exponent, `5124e-1`.
pub open spec fn double_literal(d: Decimal) -> Seq<char> {
    (if d.negative {
        seq!['-']
    } else {
        seq![]
    }) + nat_digits(d.mantissa as nat) + seq!['e'] + if d.exponent < 0 {
        seq!['-'] + nat_digits((-d.exponent) as nat)
    } else {
        nat_digits(d.exponent as nat)
    }
}

/// A CEL value as the CEL expression that denotes it.
pub open spec fn literal(c: CelVal) -> Seq<char>
    decreases c, 0int,
{
    match c {
        CelVal::Null => "null"@,
        CelVal::Bool(b) => if b {
            "true"@
        } else {
            "false"@
        },
        CelVal::Int(v) => int_literal(v as int),
        CelVal::Double(d) => double_literal(d),
        CelVal::Str(s) => cel_string(s@),
        CelVal::List(items) => seq!['['] + literal_items(items@, 0) + seq![']'],
        CelVal::Mapping(es) => seq!['{'] + literal_entries(es@, 0) + seq!['}'],
    }
}

pub open spec fn comma(i: int) -> Seq<char> {
    if i > 0 {
        seq![',']
    } else {
        seq![]
    }
}

pub open spec fn literal_items(items: Seq<CelVal>, i: int) -> Seq<char>
    decreases items, items.len() - i,
{
    if 0 <= i < items.len() {
        comma(i) + literal(items[i]) + literal_items(items, i + 1)
    } else {
        seq![]
    }
}

pub open spec fn literal_entries(es: Seq<(String, CelVal)>, i: int) -> Seq<char>
    decreases es, es.len() - i,
{
    if 0 <= i < es.len() {
        comma(i) + cel_string(es[i].0@) + seq![':'] + literal(es[i].1) + literal_entries(es, i + 1)
    } else {
        seq![]
    }
}

fn hex_digit(v: u32) -> (c: char)
    requires
        v < 16,
    ensures
        c == hex_lower(v as int),
{
    if v < 10 {
        ((v + 48) as u8) as char
    } else {
        ((v + 87) as u8) as char
    }
}

fn write_cel_string(out: &mut String, s: &str)
    ensures
        final(out)@ == old(out)@ + cel_string(s@),
{
    push_char(out, '"');
    let n = s.unicode_len();
    let mut i: usize = 0;
    while i < n
        invariant
            n == s@.len(),
            i <= n,
            out@ == old(out)@ + seq!['"'] + cel_escaped(s@.subrange(0, i as int)),
        decreases n - i,
    {
        let c = s.get_char(i);
        let ghost before = out@;
        if c == '\\' {
            push_char(out, '\\');
            push_char(out, '\\');
        } else if c == '"' {
            push_char(out, '\\');
            push_char(out, '"');
        } else if (c as u32) < 0x20 || (c as u32) == 0x7f {
            push_char(out, '\\');
            push_char(out, 'u');
            push_char(out, '0');
            push_char(out, '0');
            push_char(out, hex_digit((c as u32) / 16));
            push_char(out, hex_digit((c as u32) % 16));
        } else {
            push_char(out, c);
        }
        proof {
            assert(out@ =~= before + cel_escape_char(c));
            assert(s@.subrange(0, i + 1).drop_last() =~= s@.subrange(0, i as int));
        }
        i = i + 1;
    }
    push_char(out, '"');
    proof {
        assert(s@.subrange(0, n as int) =~= s@);
        assert(out@ =~= old(out)@ + cel_string(s@));
    }
}

fn write_literal(out: &mut String, c: &CelVal)
    ensures
        final(out)@ == old(out)@ + literal(*c),
    decreases c, 1int,
{
    let ghost start = out@;
    match c {
        CelVal::Null => {
            push_str(out, "null");
        },
        CelVal::Bool(b) => {
            if *b {
                push_str(out, "true");
            } else {
                push_str(out, "false");
            }
        },
        CelVal::Int(v) => {
            if *v == i64::MIN {
                push_str(out, "(-9223372036854775807 - 1)");
            } else if *v < 0 {
                push_char(out, '-');
                push_digits(out, (-*v) as u128);
            } else {
                push_digits(out, *v as u128);
            }
        },
        CelVal::Double(d) => {
            if d.negative {
                push_char(out, '-');
            }
            push_digits(out, d.mantissa);
            push_char(out, 'e');
            if d.exponent < 0 {
                push_char(out, '-');
                push_digits(out, (-(d.exponent as i64)) as u128);
            } else {
                push_digits(out, d.exponent as u128);
            }
        },
        CelVal::Str(s) => {
            write_cel_string(out, s.as_str());
        },
        CelVal::List(items) => {
            push_char(out, '[');
            let mut i: usize = 0;
            while i < items.len()
                invariant
                    i <= items@.len(),
                    out@ + literal_items(items@, i as int) + seq![']'] == start + literal(*c),
                    *c == CelVal::List(*items),
                decreases items@.len() - i,
            {
                let ghost before = out@;
                if i > 0 {
                    push_char(out, ',');
                }
                assert(decreases_to!(*c => items@[i as int]));
                write_literal(out, &items[i]);
                proof {
                    assert(out@ + literal_items(items@, i + 1) =~= before + literal_items(items@, i as int));
                }
                i = i + 1;
            }
            push_char(out, ']');
            assert(out@ =~= start + literal(*c));
        },
        CelVal::Mapping(es) => {
            push_char(out, '{');
            let mut i: usize = 0;
            while i < es.len()
                invariant
                    i <= es@.len(),
                    out@ + literal_entries(es@, i as int) + seq!['}'] == start + literal(*c),
                    *c == CelVal::Mapping(*es),
                decreases es@.len() - i,
            {
                let ghost before = out@;
                if i > 0 {
                    push_char(out, ',');
                }
                write_cel_string(out, es[i].0.as_str());
                push_char(out, ':');
                assert(decreases_to!(*c => es@[i as int].1));
                write_literal(out, &es[i].1);
                proof {
                    assert(out@ + literal_entries(es@, i + 1) =~= before + literal_entries(es@, i as int));
                }
                i = i + 1;
            }
            push_char(out, '}');
            assert(out@ =~= start + literal(*c));
        },
    }
    proof {
        reveal_strlit("null");
        reveal_strlit("true");
        reveal_strlit("false");
        reveal_strlit("(-9223372036854775807 - 1)");
    }
    assert(out@ =~= start + literal(*c));
}

// -------------------------------------------------------------------- binding values

// A value reaches the interpreter as CEL text, and CEL's parser recurses once per level of
// nesting. So nothing is written deeper than one container: each list or map nested in a value
// is bound first, under a name of its own, and its parent's literal refers to it by that name.

/// The name a container nested at position `i` of the value bound to `name` is bound to:
/// `input_2`, and under it `input_2_0`.
pub open spec fn child_name(name: Seq<char>, i: int) -> Seq<char> {
    name + seq!['_'] + nat_digits(i as nat)
}

pub open spec fn is_container(c: CelVal) -> bool {
    c is List || c is Mapping
}

/// How the member at position `i` is written in its parent's literal: a container by the name
/// it is bound to, anything else as its own literal.
pub open spec fn member(c: CelVal, name: Seq<char>, i: int) -> Seq<char> {
    if is_container(c) {
        child_name(name, i)
    } else {
        literal(c)
    }
}

pub open spec fn shallow_items(items: Seq<CelVal>, name: Seq<char>, i: int) -> Seq<char>
    decreases items.len() - i,
{
    if 0 <= i < items.len() {
        comma(i) + member(items[i], name, i) + shallow_items(items, name, i + 1)
    } else {
        seq![]
    }
}

pub open spec fn shallow_entries(es: Seq<(String, CelVal)>, name: Seq<char>, i: int) -> Seq<char>
    decreases es.len() - i,
{
    if 0 <= i < es.len() {
        comma(i) + cel_string(es[i].0@) + seq![':'] + member(es[i].1, name, i) + shallow_entries(es, name, i + 1)
    } else {
        seq![]
    }
}

/// The literal that gives `name` its value once every container the value holds is bound.
pub open spec fn shallow(c: CelVal, name: Seq<char>) -> Seq<char> {
    match c {
        CelVal::List(items) => seq!['['] + shallow_items(items@, name, 0) + seq![']'],
        CelVal::Mapping(es) => seq!['{'] + shallow_entries(es@, name, 0) + seq!['}'],
        _ => literal(c),
    }
}

/// The bindings, each a name and a literal, that give `name` the value `c`: every nested
/// container first, innermost first and in order, then `name` itself.
pub open spec fn bindings_for(c: CelVal, name: Seq<char>) -> Seq<(Seq<char>, Seq<char>)>
    decreases c, 0int,
{
    match c {
        CelVal::List(items) => item_bindings(items@, name, 0) + seq![(name, shallow(c, name))],
        CelVal::Mapping(es) => entry_bindings(es@, name, 0) + seq![(name, shallow(c, name))],
        _ => seq![(name, literal(c))],
    }
}

pub open spec fn item_bindings(items: Seq<CelVal>, name: Seq<char>, i: int) -> Seq<(Seq<char>, Seq<char>)>
    decreases items, items.len() - i,
{
    if 0 <= i < items.len() {
        (if is_container(items[i]) {
            bindings_for(items[i], child_name(name, i))
        } else {
            seq![]
        }) + item_bindings(items, name, i + 1)
    } else {
        seq![]
    }
}

pub open spec fn entry_bindings(es: Seq<(String, CelVal)>, name: Seq<char>, i: int) -> Seq<(Seq<char>, Seq<char>)>
    decreases es, es.len() - i,
{
    if 0 <= i < es.len() {
        (if is_container(es[i].1) {
            bindings_for(es[i].1, child_name(name, i))
        } else {
            seq![]
        }) + entry_bindings(es, name, i + 1)
    } else {
        seq![]
    }
}

/// Every binding's steps, in order.
pub open spec fn all_bindings(bs: Seq<(String, CelVal)>) -> Seq<(Seq<char>, Seq<char>)>
    decreases bs.len(),
{
    if bs.len() == 0 {
        seq![]
    } else {
        all_bindings(bs.drop_last()) + bindings_for(bs.last().1, bs.last().0@)
    }
}

/// Name and literal pairs as text.
pub open spec fn texts(r: Seq<(String, String)>) -> Seq<(Seq<char>, Seq<char>)> {
    r.map_values(|p: (String, String)| (p.0@, p.1@))
}

fn child_name_of(name: &str, i: usize) -> (r: String)
    ensures
        r@ == child_name(name@, i as int),
{
    let mut r = crate::text::owned(name);
    push_char(&mut r, '_');
    push_digits(&mut r, i as u128);
    r
}

fn write_member(out: &mut String, c: &CelVal, name: &str, i: usize)
    ensures
        final(out)@ == old(out)@ + member(*c, name@, i as int),
{
    match c {
        CelVal::List(_) | CelVal::Mapping(_) => {
            let child = child_name_of(name, i);
            push_str(out, child.as_str());
        },
        _ => write_literal(out, c),
    }
}

/// The literal of a container with its members written shallowly.
fn shallow_text(c: &CelVal, name: &str) -> (r: String)
    ensures
        r@ == shallow(*c, name@),
{
    let mut out = String::new();
    match c {
        CelVal::List(items) => {
            push_char(&mut out, '[');
            let mut i: usize = 0;
            while i < items.len()
                invariant
                    i <= items@.len(),
                    out@ + shallow_items(items@, name@, i as int) == seq!['['] + shallow_items(items@, name@, 0),
                decreases items@.len() - i,
            {
                let ghost before = out@;
                if i > 0 {
                    push_char(&mut out, ',');
                }
                write_member(&mut out, &items[i], name, i);
                assert(out@ + shallow_items(items@, name@, i + 1) =~= before + shallow_items(items@, name@, i as int));
                i = i + 1;
            }
            push_char(&mut out, ']');
            assert(out@ =~= shallow(*c, name@));
        },
        CelVal::Mapping(es) => {
            push_char(&mut out, '{');
            let mut i: usize = 0;
            while i < es.len()
                invariant
                    i <= es@.len(),
                    out@ + shallow_entries(es@, name@, i as int) == seq!['{'] + shallow_entries(es@, name@, 0),
                decreases es@.len() - i,
            {
                let ghost before = out@;
                if i > 0 {
                    push_char(&mut out, ',');
                }
                write_cel_string(&mut out, es[i].0.as_str());
                push_char(&mut out, ':');
                write_member(&mut out, &es[i].1, name, i);
                assert(out@ + shallow_entries(es@, name@, i + 1) =~= before + shallow_entries(es@, name@, i as int));
                i = i + 1;
            }
            push_char(&mut out, '}');
            assert(out@ =~= shallow(*c, name@));
        },
        _ => {
            write_literal(&mut out, c);
            assert(out@ =~= shallow(*c, name@));
        },
    }
    out
}

/// Appends the bindings that give `name` the value `c`.
fn push_bindings(out: &mut Vec<(String, String)>, c: &CelVal, name: &str)
    ensures
        texts(final(out)@) == texts(old(out)@) + bindings_for(*c, name@),
    decreases c,
{
    let ghost start = texts(out@);
    match c {
        CelVal::List(items) => {
            let mut i: usize = 0;
            while i < items.len()
                invariant
                    i <= items@.len(),
                    *c == CelVal::List(*items),
                    texts(out@) + item_bindings(items@, name@, i as int) == start + item_bindings(items@, name@, 0),
                decreases items@.len() - i,
            {
                let ghost before = texts(out@);
                assert(decreases_to!(*c => c->List_0));
                assert(decreases_to!(c->List_0 => c->List_0@));
                assert(decreases_to!(c->List_0@ => c->List_0@[i as int]));
                assert(decreases_to!(*c => items@[i as int]));
                match &items[i] {
                    CelVal::List(_) | CelVal::Mapping(_) => {
                        let child = child_name_of(name, i);
                        push_bindings(out, &items[i], child.as_str());
                    },
                    _ => {},
                }
                assert(texts(out@) + item_bindings(items@, name@, i + 1) =~= before + item_bindings(items@, name@, i as int));
                i = i + 1;
            }
            let text = shallow_text(c, name);
            let ghost mid = out@;
            out.push((crate::text::owned(name), text));
            assert(texts(out@) =~= texts(mid).push((name@, shallow(*c, name@))));
            assert(texts(out@) =~= start + bindings_for(*c, name@));
        },
        CelVal::Mapping(es) => {
            let mut i: usize = 0;
            while i < es.len()
                invariant
                    i <= es@.len(),
                    *c == CelVal::Mapping(*es),
                    texts(out@) + entry_bindings(es@, name@, i as int) == start + entry_bindings(es@, name@, 0),
                decreases es@.len() - i,
            {
                let ghost before = texts(out@);
                assert(decreases_to!(*c => c->Mapping_0));
                assert(decreases_to!(c->Mapping_0 => c->Mapping_0@));
                assert(decreases_to!(c->Mapping_0@ => c->Mapping_0@[i as int]));
                assert(decreases_to!(c->Mapping_0@[i as int] => c->Mapping_0@[i as int].1));
                assert(decreases_to!(*c => es@[i as int].1));
                match &es[i].1 {
                    CelVal::List(_) | CelVal::Mapping(_) => {
                        let child = child_name_of(name, i);
                        push_bindings(out, &es[i].1, child.as_str());
                    },
                    _ => {},
                }
                assert(texts(out@) + entry_bindings(es@, name@, i + 1) =~= before + entry_bindings(es@, name@, i as int));
                i = i + 1;
            }
            let text = shallow_text(c, name);
            let ghost mid = out@;
            out.push((crate::text::owned(name), text));
            assert(texts(out@) =~= texts(mid).push((name@, shallow(*c, name@))));
            assert(texts(out@) =~= start + bindings_for(*c, name@));
        },
        _ => {
            let mut text = String::new();
            write_literal(&mut text, c);
            let ghost mid = out@;
            out.push((crate::text::owned(name), text));
            assert(texts(out@) =~= texts(mid).push((name@, literal(*c))));
            assert(texts(out@) =~= start + bindings_for(*c, name@));
        },
    }
}

/// The bindings, in order, that put each binding's value in scope under its name with no
/// literal nested deeper than one container.
pub fn binding_steps(bindings: &Vec<(String, CelVal)>) -> (r: Vec<(String, String)>)
    ensures
        texts(r@) == all_bindings(bindings@),
{
    let mut r: Vec<(String, String)> = Vec::new();
    let mut k: usize = 0;
    while k < bindings.len()
        invariant
            k <= bindings@.len(),
            texts(r@) == all_bindings(bindings@.take(k as int)),
        decreases bindings@.len() - k,
    {
        push_bindings(&mut r, &bindings[k].1, bindings[k].0.as_str());
        assert(bindings@.take(k + 1).drop_last() =~= bindings@.take(k as int));
        k = k + 1;
    }
    assert(bindings@.take(k as int) =~= bindings@);
    r
}

// ------------------------------------------------------------------------- evaluation

/// What the CEL interpreter made of a contract: a boolean, a value of another type (named as
/// `cel` names types: `int`, `float`, `list`, ...), or an error with its message.
#[derive(Debug)]
pub enum CelOutcome {
    Bool(bool),
    Other(String),
    Failed(String),
}

/// The outcome of evaluating one contract expression. There is no third state: `Held` is the
/// only way past a contract.
#[derive(Debug)]
pub enum Verdict {
    Held,
    Failed,
    /// The expression could not be evaluated to a boolean. Distinct from `Failed` because it
    /// carries a different exit code (15, a refusal) than a genuine violation.
    Unevaluable(String),
}

/// A value's type, as a reader is told about it.
pub open spec fn type_phrase(name: Seq<char>) -> Seq<char> {
    if name == "list"@ {
        "a list"@
    } else if name == "map"@ {
        "a map"@
    } else if name == "function"@ {
        "a function"@
    } else if name == "int"@ {
        "an int"@
    } else if name == "uint"@ {
        "a uint"@
    } else if name == "float"@ {
        "a double"@
    } else if name == "string"@ {
        "a string"@
    } else if name == "bytes"@ {
        "bytes"@
    } else if name == "bool"@ {
        "a bool"@
    } else if name == "null"@ {
        "null"@
    } else {
        "an unsupported type"@
    }
}

/// `v` is the verdict an outcome gives.
pub open spec fn verdict_of(o: CelOutcome, v: Verdict) -> bool {
    match o {
        CelOutcome::Bool(true) => v is Held,
        CelOutcome::Bool(false) => v is Failed,
        CelOutcome::Other(t) => v matches Verdict::Unevaluable(m) && m@ == "expression returned "@
            + type_phrase(t@) + ", not a boolean"@,
        CelOutcome::Failed(e) => v matches Verdict::Unevaluable(m) && m@ == e@,
    }
}

fn type_phrase_of(name: &str) -> (r: &'static str)
    ensures
        r@ == type_phrase(name@),
{
    proof {
        reveal_strlit("list");
        reveal_strlit("map");
        reveal_strlit("function");
        reveal_strlit("int");
        reveal_strlit("uint");
        reveal_strlit("float");
        reveal_strlit("string");
        reveal_strlit("bytes");
        reveal_strlit("bool");
        reveal_strlit("null");
    }
    if crate::text::str_eq(name, "list") {
        "a list"
    } else if crate::text::str_eq(name, "map") {
        "a map"
    } else if crate::text::str_eq(name, "function") {
        "a function"
    } else if crate::text::str_eq(name, "int") {
        "an int"
    } else if crate::text::str_eq(name, "uint") {
        "a uint"
    } else if crate::text::str_eq(name, "float") {
        "a double"
    } else if crate::text::str_eq(name, "string") {
        "a string"
    } else if crate::text::str_eq(name, "bytes") {
        "bytes"
    } else if crate::text::str_eq(name, "bool") {
        "a bool"
    } else if crate::text::str_eq(name, "null") {
        "null"
    } else {
        "an unsupported type"
    }
}

/// The verdict an outcome gives. A contract that evaluates to anything but a boolean is not a
/// contract: treating a truthy value as a pass is exactly the fall-through this module exists
/// to prevent.
pub fn verdict(o: CelOutcome) -> (v: Verdict)
    ensures
        verdict_of(o, v),
{
    match o {
        CelOutcome::Bool(true) => Verdict::Held,
        CelOutcome::Bool(false) => Verdict::Failed,
        CelOutcome::Other(t) => {
            let mut m = crate::text::owned("expression returned ");
            push_str(&mut m, type_phrase_of(t.as_str()));
            push_str(&mut m, ", not a boolean");
            Verdict::Unevaluable(m)
        },
        CelOutcome::Failed(e) => Verdict::Unevaluable(e),
    }
}

/// Fail closed: a contract holds exactly when its expression evaluated to the boolean `true`.
/// An error, a `false`, or a value of any other type — however truthy — is not a pass.
pub proof fn only_true_holds(o: CelOutcome, v: Verdict)
    requires
        verdict_of(o, v),
    ensures
        (v is Held) <==> (o == CelOutcome::Bool(true)),
{
}

/// What `cel` reports when `source` does not parse as a CEL expression, or `None` when it does.
pub uninterp spec fn cel_parse_problem(source: Seq<char>) -> Option<Seq<char>>;

/// Whether the CEL expression `source` refers to the variable `name`.
pub uninterp spec fn cel_references(source: Seq<char>, name: Seq<char>) -> bool;

/// `cel::Program::compile`: the parse error's message when `source` is not a CEL expression.
/// The message is `cel`'s own, and not stated here beyond being a function of the source.
#[verifier::external_body]
fn parse_problem(source: &str) -> (r: Option<String>)
    ensures
        match r {
            Some(m) => cel_parse_problem(source@) == Some(m@),
            None => cel_parse_problem(source@) is None,
        },
{
    match cel::Program::compile(source) {
        Ok(_) => None,
        Err(e) => Some(e.to_string()),
    }
}

/// `Program::references().has_variable`: whether the compiled expression mentions `name` as a
/// variable, and `false` for a source that does not compile. Which names an expression
/// mentions is `cel`'s own reading of it, and not stated here beyond being a function of the
/// source and the name.
#[verifier::external_body]
fn mentions(source: &str, name: &str) -> (r: bool)
    ensures
        r == cel_references(source@, name@),
{
    match cel::Program::compile(source) {
        Ok(p) => p.references().has_variable(name),
        Err(_) => false,
    }
}

/// `cel::Context`, the variables an expression is evaluated against.
#[verifier::external_type_specification]
#[verifier::external_body]
pub struct ExCelContext<'p, 'v>(cel::Context<'p, 'v>);

/// The bindings made on a context, in order: each variable's name, with the literal its value
/// was evaluated from.
pub uninterp spec fn cel_bindings(context: cel::Context<'static, 'static>) -> Seq<(Seq<char>, Seq<char>)>;

/// Whether `outcome` is one that `cel` can give for `source`, evaluated once `bindings` have
/// been made in turn on a fresh context. A relation rather than a result: `cel` walks a map's
/// entries in the order of a hash map, which varies between processes, so one source and one
/// set of bindings can give more than one outcome (a `false` in one run, an error in another).
pub uninterp spec fn cel_can_yield(source: Seq<char>, bindings: Seq<(Seq<char>, Seq<char>)>, outcome: CelOutcome) -> bool;

/// `cel::Context::default`: CEL's standard functions, and no variables bound.
#[verifier::external_body]
fn fresh_context() -> (c: cel::Context<'static, 'static>)
    ensures
        cel_bindings(c) == Seq::<(Seq<char>, Seq<char>)>::empty(),
{
    cel::Context::default()
}

/// Binds `name` to the value a CEL literal evaluates to in `context`, so that the literal can
/// refer to what is already bound: `Program::compile` on the literal, `Program::execute`
/// against `context`, then `Context::add_variable_from_value`. What comes back is the error
/// message when the literal does not compile or evaluate, and nothing is stated of it beyond
/// its presence.
#[verifier::external_body]
fn bind_literal(context: &mut cel::Context<'static, 'static>, name: &str, literal: &str) -> (r: Option<String>)
    ensures
        r is None ==> cel_bindings(*final(context)) == cel_bindings(*old(context)).push((name@, literal@)),
{
    let value = match cel::Program::compile(literal) {
        Ok(p) => p.execute(&*context),
        Err(e) => return Some(e.to_string()),
    };
    match value {
        Ok(v) => {
            context.add_variable_from_value(name, v);
            None
        },
        Err(e) => Some(e.to_string()),
    }
}

/// `Program::compile` then `Program::execute` against `context`: the boolean it evaluated to,
/// the name of the type of anything else, or the error's message. Which of these comes back
/// is stated only as one that `cel` can give (`cel_can_yield`): `cel` keeps a map's entries in
/// a hash map whose order varies between processes, so an expression that walks a map can
/// reach a different error, or none, from one run to the next. What the library does with
/// every possible result is stated by `verdict`.
#[verifier::external_body]
fn run_in(source: &str, context: &cel::Context<'static, 'static>) -> (r: CelOutcome)
    ensures
        cel_can_yield(source@, cel_bindings(*context), r),
{
    match cel::Program::compile(source).map(|p| p.execute(context)) {
        Ok(Ok(cel::Value::Bool(b))) => CelOutcome::Bool(b),
        Ok(Ok(other)) => CelOutcome::Other(other.type_of().to_string()),
        Ok(Err(e)) => CelOutcome::Failed(e.to_string()),
        Err(e) => CelOutcome::Failed(e.to_string()),
    }
}

/// Evaluates `source` after making each binding in turn, each name bound to what its literal
/// evaluates to with the earlier bindings in scope. A source that does not compile fails with
/// the parser's complaint; so does a binding that cannot be made, before anything is evaluated.
fn execute(source: &str, bindings: &Vec<(String, String)>) -> (r: CelOutcome)
    ensures
        cel_parse_problem(source@) matches Some(m) ==> (r matches CelOutcome::Failed(e) && e@ == m),
        (r is Bool || r is Other) ==> cel_can_yield(source@, texts(bindings@), r),
{
    if let Some(m) = parse_problem(source) {
        return CelOutcome::Failed(m);
    }
    let mut context = fresh_context();
    let mut i: usize = 0;
    while i < bindings.len()
        invariant
            i <= bindings@.len(),
            cel_parse_problem(source@) is None,
            cel_bindings(context) == texts(bindings@.take(i as int)),
        decreases bindings@.len() - i,
    {
        if let Some(e) = bind_literal(&mut context, bindings[i].0.as_str(), bindings[i].1.as_str()) {
            return CelOutcome::Failed(e);
        }
        assert(texts(bindings@.take(i + 1)) =~= texts(bindings@.take(i as int)).push((bindings@[i as int].0@, bindings@[i as int].1@)));
        i = i + 1;
    }
    assert(bindings@.take(i as int) =~= bindings@);
    run_in(source, &context)
}

/// A compiled contract: its expression, and the message a caller should see when it does not
/// hold.
#[derive(Debug)]
pub struct Contract {
    pub source: String,
    /// Author-written explanation, used verbatim as the refusal reason.
    ///
    /// A failed precondition is a routing correction: the reader can act on "unknown weapon
    /// 'lothric sword'; call weapon-lookup for valid names" and cannot act on the expression
    /// that produced it. Absent a message the expression is reported, which is honest but
    /// rarely useful.
    pub message: Option<String>,
}

impl Contract {
    /// A contract from its source, when the source is a CEL expression; otherwise the parser's
    /// complaint.
    pub fn compile(source: &str, message: Option<String>) -> (r: Result<Contract, String>)
        ensures
            match r {
                Ok(c) => cel_parse_problem(source@) is None && c.source@ == source@ && c.message
                    == message,
                Err(e) => cel_parse_problem(source@) == Some(e@),
            },
    {
        match parse_problem(source) {
            None => Ok(Contract { source: crate::text::owned(source), message }),
            Some(e) => Err(e),
        }
    }

    /// What to tell a caller when this contract does not hold: the author's message, or else
    /// `fallback` and the expression on one line.
    pub fn explain(&self, fallback: &str) -> (r: String)
        ensures
            r@ == match self.message {
                Some(m) => m@,
                None => fallback@ + ": "@ + crate::text::one_line_spec(self.source@),
            },
    {
        match &self.message {
            Some(m) => m.clone(),
            None => {
                let mut r = crate::text::owned(fallback);
                push_str(&mut r, ": ");
                let line = crate::text::one_line(self.source.as_str());
                push_str(&mut r, line.as_str());
                r
            },
        }
    }

    /// Whether the expression refers to the variable `name`.
    pub fn references(&self, name: &str) -> (r: bool)
        ensures
            r == cel_references(self.source@, name@),
    {
        mentions(self.source.as_str(), name)
    }

    /// Evaluates the expression with each binding's value in scope under its name, handing
    /// the interpreter exactly the `binding_steps` of the bindings.
    pub fn run(&self, bindings: &Vec<(String, CelVal)>) -> (r: CelOutcome)
        ensures
            cel_parse_problem(self.source@) matches Some(m) ==> (r matches CelOutcome::Failed(e) && e@ == m),
            (r is Bool || r is Other) ==> cel_can_yield(self.source@, all_bindings(bindings@), r),
    {
        let steps = binding_steps(bindings);
        execute(self.source.as_str(), &steps)
    }

    /// The verdict on this contract with the bindings in scope: `verdict` of what `run`
    /// produced.
    pub fn evaluate(&self, bindings: &Vec<(String, CelVal)>) -> (v: Verdict)
        ensures
            v is Held ==> cel_can_yield(self.source@, all_bindings(bindings@), CelOutcome::Bool(true)),
            v is Failed ==> cel_can_yield(self.source@, all_bindings(bindings@), CelOutcome::Bool(false)),
            cel_parse_problem(self.source@) matches Some(m) ==> (v matches Verdict::Unevaluable(w) && w@ == m),
    {
        let o = self.run(bindings);
        let ghost seen = o;
        let v = verdict(o);
        assert(verdict_of(seen, v));
        v
    }
}

} // verus!
