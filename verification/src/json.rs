//! JSON values, as this library sees them.
//!
//! Numbers are exact decimals, spelled as they were written, so that an integer stays an
//! integer — a `strength` of 16 is recorded as 16 and not quoted back as 16.0 — and so that a
//! figure is compared exactly rather than through a binary fraction.
//!
//! An object keeps its fields in order. Keys are expected to be distinct, as a parser or a
//! builder of this library makes them; a lookup takes the first field with the key.

use crate::decimal::Decimal;
use crate::decimal::plain_text;
use crate::text::{owned, push_char, push_str};
use vstd::prelude::*;
use vstd::string::StrSliceExecFns;

verus! {

#[derive(Debug)]
pub enum Json {
    Null,
    Bool(bool),
    Number(Decimal),
    Str(String),
    Array(Vec<Json>),
    Object(Vec<(String, Json)>),
}

/// The first field named `key`, if any.
pub open spec fn field(fields: Seq<(String, Json)>, key: Seq<char>) -> Option<Json>
    decreases fields.len(),
{
    if fields.len() == 0 {
        None
    } else if fields[0].0@ == key {
        Some(fields[0].1)
    } else {
        field(fields.drop_first(), key)
    }
}

impl Json {
    /// What `get` returns: the field of an object, and nothing for anything else.
    pub open spec fn get_spec(self, key: Seq<char>) -> Option<Json> {
        match self {
            Json::Object(fields) => field(fields@, key),
            _ => None,
        }
    }

    pub open spec fn is_object_spec(self) -> bool {
        self is Object
    }

    pub fn is_object(&self) -> (r: bool)
        ensures
            r == self.is_object_spec(),
    {
        match self {
            Json::Object(_) => true,
            _ => false,
        }
    }

    /// The field named `key` of an object.
    pub fn get(&self, key: &str) -> (r: Option<&Json>)
        ensures
            match r {
                Some(v) => self.get_spec(key@) == Some(*v),
                None => self.get_spec(key@) is None,
            },
    {
        match self {
            Json::Object(fields) => {
                let mut i: usize = 0;
                assert(fields@.skip(0) =~= fields@);
                while i < fields.len()
                    invariant
                        i <= fields@.len(),
                        self.get_spec(key@) == field(fields@, key@),
                        field(fields@, key@) == field(fields@.skip(i as int), key@),
                    decreases fields@.len() - i,
                {
                    proof {
                        assert(fields@.skip(i as int).drop_first() =~= fields@.skip(i + 1));
                    }
                    assert(fields@.skip(i as int)[0] == fields@[i as int]);
                    let k = crate::text::owned(key);
                    let same = k == fields[i].0;
                    if same {
                        assert(key@ == fields@[i as int].0@);
                        assert(field(fields@.skip(i as int), key@) == Some(fields@[i as int].1));
                        assert(self.get_spec(key@) == field(fields@, key@));
                        return Some(&fields[i].1);
                    }
                    i = i + 1;
                }
                None
            },
            _ => None,
        }
    }

    /// The text of a string value.
    pub fn as_str(&self) -> (r: Option<&String>)
        ensures
            match r {
                Some(s) => *self == Json::Str(*s),
                None => !(self is Str),
            },
    {
        match self {
            Json::Str(s) => Some(s),
            _ => None,
        }
    }
}


// ------------------------------------------------------------------------ as JSON text

/// A lower-case hex digit.
pub open spec fn hex_lower(v: int) -> char {
    if v < 10 {
        ((v + 48) as u8) as char
    } else {
        ((v + 87) as u8) as char
    }
}

/// How one character is written inside a JSON string: quotes, backslashes and control
/// characters escaped, everything else as it is.
pub open spec fn escape_char(c: char) -> Seq<char> {
    if c == '"' {
        seq!['\\', '"']
    } else if c == '\\' {
        seq!['\\', '\\']
    } else if c == '\n' {
        seq!['\\', 'n']
    } else if c == '\r' {
        seq!['\\', 'r']
    } else if c == '\t' {
        seq!['\\', 't']
    } else if c == '\x08' {
        seq!['\\', 'b']
    } else if c == '\x0c' {
        seq!['\\', 'f']
    } else if (c as u32) < 0x20 {
        seq!['\\', 'u', '0', '0', hex_lower(((c as u32) / 16) as int), hex_lower(((c as u32) % 16) as int)]
    } else {
        seq![c]
    }
}

/// The characters of `s`, escaped for a JSON string.
pub open spec fn escaped(s: Seq<char>) -> Seq<char>
    decreases s.len(),
{
    if s.len() == 0 {
        seq![]
    } else {
        escaped(s.drop_last()) + escape_char(s.last())
    }
}

/// `s` as a JSON string literal.
pub open spec fn quoted(s: Seq<char>) -> Seq<char> {
    seq!['"'] + escaped(s) + seq!['"']
}

/// A value as compact JSON text: no whitespace, fields in their order.
pub open spec fn render(j: Json) -> Seq<char>
    decreases j, 0int,
{
    match j {
        Json::Null => seq!['n', 'u', 'l', 'l'],
        Json::Bool(b) => if b {
            seq!['t', 'r', 'u', 'e']
        } else {
            seq!['f', 'a', 'l', 's', 'e']
        },
        Json::Number(d) => plain_text(d),
        Json::Str(s) => quoted(s@),
        Json::Array(items) => seq!['['] + render_items(items@, 0) + seq![']'],
        Json::Object(fields) => seq!['{'] + render_fields(fields@, 0) + seq!['}'],
    }
}

pub open spec fn separator(i: int) -> Seq<char> {
    if i > 0 {
        seq![',']
    } else {
        seq![]
    }
}

pub open spec fn render_items(items: Seq<Json>, i: int) -> Seq<char>
    decreases items, items.len() - i,
{
    if 0 <= i < items.len() {
        separator(i) + render(items[i]) + render_items(items, i + 1)
    } else {
        seq![]
    }
}

pub open spec fn render_fields(fields: Seq<(String, Json)>, i: int) -> Seq<char>
    decreases fields, fields.len() - i,
{
    if 0 <= i < fields.len() {
        separator(i) + quoted(fields[i].0@) + seq![':'] + render(fields[i].1) + render_fields(
            fields,
            i + 1,
        )
    } else {
        seq![]
    }
}

fn hex_char(v: u32) -> (c: char)
    requires
        v < 16,
    ensures
        c == hex_lower(v as int),
{
    if v < 10 {
        ((v + 48) as u8) as char
    } else {
        ((v + 87) as u8) as char
    }
}

/// Appends `s` as a JSON string literal.
pub fn write_quoted(out: &mut String, s: &str)
    ensures
        final(out)@ == old(out)@ + quoted(s@),
{
    push_char(out, '"');
    let n = s.unicode_len();
    let mut i: usize = 0;
    while i < n
        invariant
            n == s@.len(),
            i <= n,
            out@ == old(out)@ + seq!['"'] + escaped(s@.subrange(0, i as int)),
        decreases n - i,
    {
        let c = s.get_char(i);
        let ghost before = out@;
        if c == '"' {
            push_char(out, '\\');
            push_char(out, '"');
        } else if c == '\\' {
            push_char(out, '\\');
            push_char(out, '\\');
        } else if c == '\n' {
            push_char(out, '\\');
            push_char(out, 'n');
        } else if c == '\r' {
            push_char(out, '\\');
            push_char(out, 'r');
        } else if c == '\t' {
            push_char(out, '\\');
            push_char(out, 't');
        } else if c == '\x08' {
            push_char(out, '\\');
            push_char(out, 'b');
        } else if c == '\x0c' {
            push_char(out, '\\');
            push_char(out, 'f');
        } else if (c as u32) < 0x20 {
            push_char(out, '\\');
            push_char(out, 'u');
            push_char(out, '0');
            push_char(out, '0');
            push_char(out, hex_char((c as u32) / 16));
            push_char(out, hex_char((c as u32) % 16));
        } else {
            push_char(out, c);
        }
        proof {
            assert(out@ =~= before + escape_char(c));
            assert(s@.subrange(0, i + 1).drop_last() =~= s@.subrange(0, i as int));
        }
        i = i + 1;
    }
    push_char(out, '"');
    proof {
        assert(s@.subrange(0, n as int) =~= s@);
        assert(out@ =~= old(out)@ + quoted(s@));
    }
}

/// Appends `j` as compact JSON text.
pub fn write_json(out: &mut String, j: &Json)
    ensures
        final(out)@ == old(out)@ + render(*j),
    decreases j, 1int,
{
    let ghost start = out@;
    match j {
        Json::Null => {
            push_str(out, "null");
            proof {
                reveal_strlit("null");
            }
        },
        Json::Bool(b) => {
            if *b {
                push_str(out, "true");
                proof {
                    reveal_strlit("true");
                }
            } else {
                push_str(out, "false");
                proof {
                    reveal_strlit("false");
                }
            }
        },
        Json::Number(d) => {
            d.write(out);
        },
        Json::Str(s) => {
            write_quoted(out, s.as_str());
        },
        Json::Array(items) => {
            push_char(out, '[');
            write_items(out, items);
            push_char(out, ']');
        },
        Json::Object(fields) => {
            push_char(out, '{');
            write_fields(out, fields);
            push_char(out, '}');
        },
    }
    assert(out@ =~= start + render(*j));
}

fn write_items(out: &mut String, items: &Vec<Json>)
    ensures
        final(out)@ == old(out)@ + render_items(items@, 0),
    decreases items, 0int,
{
    let mut i: usize = 0;
    while i < items.len()
        invariant
            i <= items@.len(),
            out@ + render_items(items@, i as int) == old(out)@ + render_items(items@, 0),
        decreases items@.len() - i,
    {
        let ghost before = out@;
        if i > 0 {
            push_char(out, ',');
        }
        assert(decreases_to!(items => items@[i as int]));
        write_json(out, &items[i]);
        proof {
            assert(out@ + render_items(items@, i + 1) =~= before + render_items(items@, i as int));
        }
        i = i + 1;
    }
    assert(out@ + render_items(items@, i as int) =~= out@);
}

fn write_fields(out: &mut String, fields: &Vec<(String, Json)>)
    ensures
        final(out)@ == old(out)@ + render_fields(fields@, 0),
    decreases fields, 0int,
{
    let mut i: usize = 0;
    while i < fields.len()
        invariant
            i <= fields@.len(),
            out@ + render_fields(fields@, i as int) == old(out)@ + render_fields(fields@, 0),
        decreases fields@.len() - i,
    {
        let ghost before = out@;
        if i > 0 {
            push_char(out, ',');
        }
        write_quoted(out, fields[i].0.as_str());
        push_char(out, ':');
        assert(decreases_to!(fields => fields@[i as int].1));
        write_json(out, &fields[i].1);
        proof {
            assert(out@ + render_fields(fields@, i + 1) =~= before + render_fields(fields@, i as int));
        }
        i = i + 1;
    }
    assert(out@ + render_fields(fields@, i as int) =~= out@);
}

impl Json {
    /// The value as compact JSON text.
    pub fn to_text(&self) -> (r: String)
        ensures
            r@ == render(*self),
    {
        let mut r = String::new();
        write_json(&mut r, self);
        assert(r@ =~= render(*self));
        r
    }
}


// --------------------------------------------------------------------------- copying

/// Two values that are the same JSON: same structure, same numbers, same text.
pub open spec fn same_json(a: Json, b: Json) -> bool
    decreases a, 0int,
{
    match (a, b) {
        (Json::Null, Json::Null) => true,
        (Json::Bool(x), Json::Bool(y)) => x == y,
        (Json::Number(x), Json::Number(y)) => x == y,
        (Json::Str(x), Json::Str(y)) => x@ == y@,
        (Json::Array(xs), Json::Array(ys)) => xs@.len() == ys@.len() && same_items(xs@, ys@, 0),
        (Json::Object(xs), Json::Object(ys)) => xs@.len() == ys@.len() && same_fields(xs@, ys@, 0),
        _ => false,
    }
}

pub open spec fn same_items(xs: Seq<Json>, ys: Seq<Json>, i: int) -> bool
    decreases xs, xs.len() - i,
{
    if 0 <= i < xs.len() && i < ys.len() {
        same_json(xs[i], ys[i]) && same_items(xs, ys, i + 1)
    } else {
        true
    }
}

pub open spec fn same_fields(xs: Seq<(String, Json)>, ys: Seq<(String, Json)>, i: int) -> bool
    decreases xs, xs.len() - i,
{
    if 0 <= i < xs.len() && i < ys.len() {
        xs[i].0@ == ys[i].0@ && same_json(xs[i].1, ys[i].1) && same_fields(xs, ys, i + 1)
    } else {
        true
    }
}

impl Json {
    /// A copy of the value: the same JSON, and so the same text.
    pub fn copy(&self) -> (r: Json)
        ensures
            same_json(*self, r),
            render(r) == render(*self),
        decreases self, 1int,
    {
        match self {
            Json::Null => Json::Null,
            Json::Bool(b) => Json::Bool(*b),
            Json::Number(d) => Json::Number(*d),
            Json::Str(s) => Json::Str(s.clone()),
            Json::Array(items) => {
                let out = copy_items(items);
                proof {
                    lemma_same_items(items@, out@, 0);
                    lemma_render_items(items@, out@, 0);
                }
                Json::Array(out)
            },
            Json::Object(fields) => {
                let out = copy_fields(fields);
                proof {
                    lemma_same_fields(fields@, out@, 0);
                    lemma_render_fields(fields@, out@, 0);
                }
                Json::Object(out)
            },
        }
    }
}

fn copy_items(items: &Vec<Json>) -> (out: Vec<Json>)
    ensures
        out@.len() == items@.len(),
        forall|k: int| 0 <= k < items@.len() ==> same_json(items@[k], #[trigger] out@[k]) && render(out@[k]) == render(items@[k]),
    decreases items, 0int,
{
    let mut out: Vec<Json> = Vec::new();
    let mut i: usize = 0;
    while i < items.len()
        invariant
            i <= items@.len(),
            out@.len() == i,
            forall|k: int| 0 <= k < i ==> same_json(items@[k], #[trigger] out@[k]) && render(out@[k]) == render(items@[k]),
        decreases items@.len() - i,
    {
        assert(decreases_to!(items => items@[i as int]));
        out.push(items[i].copy());
        i = i + 1;
    }
    out
}

fn copy_fields(fields: &Vec<(String, Json)>) -> (out: Vec<(String, Json)>)
    ensures
        out@.len() == fields@.len(),
        forall|k: int| 0 <= k < fields@.len() ==> (#[trigger] out@[k]).0@ == fields@[k].0@ && same_json(fields@[k].1, out@[k].1)
            && render(out@[k].1) == render(fields@[k].1),
    decreases fields, 0int,
{
    let mut out: Vec<(String, Json)> = Vec::new();
    let mut i: usize = 0;
    while i < fields.len()
        invariant
            i <= fields@.len(),
            out@.len() == i,
            forall|k: int| 0 <= k < i ==> (#[trigger] out@[k]).0@ == fields@[k].0@ && same_json(fields@[k].1, out@[k].1)
                && render(out@[k].1) == render(fields@[k].1),
        decreases fields@.len() - i,
    {
        assert(decreases_to!(fields => fields@[i as int].1));
        out.push((fields[i].0.clone(), fields[i].1.copy()));
        i = i + 1;
    }
    out
}

proof fn lemma_same_items(xs: Seq<Json>, ys: Seq<Json>, i: int)
    requires
        0 <= i,
        xs.len() == ys.len(),
        forall|k: int| 0 <= k < xs.len() ==> same_json(xs[k], #[trigger] ys[k]),
    ensures
        same_items(xs, ys, i),
    decreases xs.len() - i,
{
    if i < xs.len() {
        lemma_same_items(xs, ys, i + 1);
    }
}

proof fn lemma_render_items(xs: Seq<Json>, ys: Seq<Json>, i: int)
    requires
        0 <= i,
        xs.len() == ys.len(),
        forall|k: int| 0 <= k < xs.len() ==> render(#[trigger] ys[k]) == render(xs[k]),
    ensures
        render_items(ys, i) == render_items(xs, i),
    decreases xs.len() - i,
{
    if i < xs.len() {
        lemma_render_items(xs, ys, i + 1);
    }
}

proof fn lemma_same_fields(xs: Seq<(String, Json)>, ys: Seq<(String, Json)>, i: int)
    requires
        0 <= i,
        xs.len() == ys.len(),
        forall|k: int| 0 <= k < xs.len() ==> (#[trigger] ys[k]).0@ == xs[k].0@ && same_json(xs[k].1, ys[k].1),
    ensures
        same_fields(xs, ys, i),
    decreases xs.len() - i,
{
    if i < xs.len() {
        lemma_same_fields(xs, ys, i + 1);
    }
}

proof fn lemma_render_fields(xs: Seq<(String, Json)>, ys: Seq<(String, Json)>, i: int)
    requires
        0 <= i,
        xs.len() == ys.len(),
        forall|k: int| 0 <= k < xs.len() ==> (#[trigger] ys[k]).0@ == xs[k].0@ && render(ys[k].1) == render(xs[k].1),
    ensures
        render_fields(ys, i) == render_fields(xs, i),
    decreases xs.len() - i,
{
    if i < xs.len() {
        lemma_render_fields(xs, ys, i + 1);
    }
}


// ------------------------------------------------------------------------- comparing

/// Whether two values are equal as JSON: numbers by value however they are spelled, strings
/// by their characters, arrays item by item, and objects as maps — the same keys, each with an
/// equal value, in any order.
pub open spec fn json_equal(a: Json, b: Json) -> bool
    decreases a, 0int,
{
    match (a, b) {
        (Json::Null, Json::Null) => true,
        (Json::Bool(x), Json::Bool(y)) => x == y,
        (Json::Number(x), Json::Number(y)) => crate::decimal::same_value(x, y),
        (Json::Str(x), Json::Str(y)) => x@ == y@,
        (Json::Array(xs), Json::Array(ys)) => xs@.len() == ys@.len() && equal_items(xs@, ys@, 0),
        (Json::Object(xs), Json::Object(ys)) => xs@.len() == ys@.len() && fields_within(xs@, ys@, 0),
        _ => false,
    }
}

pub open spec fn equal_items(xs: Seq<Json>, ys: Seq<Json>, i: int) -> bool
    decreases xs, xs.len() - i,
{
    if 0 <= i < xs.len() && i < ys.len() {
        json_equal(xs[i], ys[i]) && equal_items(xs, ys, i + 1)
    } else {
        true
    }
}

/// Every field of `xs[i..]` is a field of `ys` with an equal value.
pub open spec fn fields_within(xs: Seq<(String, Json)>, ys: Seq<(String, Json)>, i: int) -> bool
    decreases xs, xs.len() - i,
{
    if 0 <= i < xs.len() {
        (match field(ys, xs[i].0@) {
            Some(y) => json_equal(xs[i].1, y),
            None => false,
        }) && fields_within(xs, ys, i + 1)
    } else {
        true
    }
}

impl Json {
    /// Whether two values are equal as JSON.
    pub fn equals(&self, other: &Json) -> (r: bool)
        ensures
            r == json_equal(*self, *other),
        decreases self, 1int,
    {
        match (self, other) {
            (Json::Null, Json::Null) => true,
            (Json::Bool(x), Json::Bool(y)) => *x == *y,
            (Json::Number(x), Json::Number(y)) => x.same_value_as(y),
            (Json::Str(x), Json::Str(y)) => crate::text::str_eq(x.as_str(), y.as_str()),
            (Json::Array(xs), Json::Array(ys)) => xs.len() == ys.len() && items_equal(xs, ys),
            (Json::Object(xs), Json::Object(ys)) => xs.len() == ys.len() && fields_equal(xs, other),
            _ => false,
        }
    }
}

fn items_equal(xs: &Vec<Json>, ys: &Vec<Json>) -> (r: bool)
    requires
        xs@.len() == ys@.len(),
    ensures
        r == equal_items(xs@, ys@, 0),
    decreases xs, 0int,
{
    let mut i: usize = 0;
    while i < xs.len()
        invariant
            i <= xs@.len(),
            xs@.len() == ys@.len(),
            equal_items(xs@, ys@, 0) == equal_items(xs@, ys@, i as int),
        decreases xs@.len() - i,
    {
        assert(decreases_to!(xs => xs@[i as int]));
        if !xs[i].equals(&ys[i]) {
            return false;
        }
        i = i + 1;
    }
    true
}

/// Every field of `xs` is a field of the object `other` with an equal value.
fn fields_equal(xs: &Vec<(String, Json)>, other: &Json) -> (r: bool)
    requires
        other is Object,
    ensures
        r == fields_within(xs@, other->Object_0@, 0),
    decreases xs, 0int,
{
    let ghost ys = other->Object_0@;
    let mut i: usize = 0;
    while i < xs.len()
        invariant
            i <= xs@.len(),
            other is Object,
            ys == other->Object_0@,
            fields_within(xs@, ys, 0) == fields_within(xs@, ys, i as int),
        decreases xs@.len() - i,
    {
        let found = other.get(xs[i].0.as_str());
        let ok = match found {
            Some(y) => {
                assert(decreases_to!(xs => xs@[i as int].1));
                xs[i].1.equals(y)
            },
            None => false,
        };
        if !ok {
            return false;
        }
        i = i + 1;
    }
    true
}

// ------------------------------------------------------------------------- building

/// A count as a JSON number.
pub fn count(n: usize) -> (j: Json)
    ensures
        j == Json::Number(crate::decimal::decimal_of_int(n as int)),
{
    Json::Number(Decimal::from_u64(n as u64))
}

/// Text as a JSON string.
pub fn text(s: &str) -> (j: Json)
    ensures
        j matches Json::Str(t) && t@ == s@,
{
    Json::Str(crate::text::owned(s))
}

/// Whether `j` is an array of the strings `items`, in order.
pub open spec fn strings_are(j: Json, items: Seq<Seq<char>>) -> bool {
    j matches Json::Array(v) && v@.len() == items.len() && forall|k: int|
        0 <= k < items.len() ==> ((#[trigger] v@[k]) matches Json::Str(s) && s@ == items[k])
}

/// The strings as a JSON array.
pub fn strings(items: &Vec<String>) -> (j: Json)
    ensures
        strings_are(j, crate::text::string_views(items@)),
{
    let mut v: Vec<Json> = Vec::new();
    let mut k: usize = 0;
    while k < items.len()
        invariant
            k <= items@.len(),
            v@.len() == k,
            forall|m: int| 0 <= m < k ==> ((#[trigger] v@[m]) matches Json::Str(s) && s@ == items@[m]@),
        decreases items@.len() - k,
    {
        v.push(Json::Str(items[k].clone()));
        k = k + 1;
    }
    Json::Array(v)
}

/// One field of an object.
pub fn entry(name: &str, value: Json) -> (f: (String, Json))
    ensures
        f.0@ == name@,
        f.1 == value,
{
    (crate::text::owned(name), value)
}


// --------------------------------------------------------------------------- reading JSON

/// JSON as `serde_json` reads it, each number as the text `serde_json` writes it back as.
#[derive(Debug)]
pub enum RawJson {
    Null,
    Bool(bool),
    Number(String),
    Str(String),
    Array(Vec<RawJson>),
    Object(Vec<(String, RawJson)>),
}

/// `serde_json::Value`, the value `serde_json` reads JSON text into.
#[verifier::external_type_specification]
#[verifier::external_body]
pub struct ExJsonValue(serde_json::Value);

/// What `serde_json::from_str` makes of `text`: the value, with each number as the text
/// `serde_json` writes it back as, or its error message.
pub uninterp spec fn json_reading(text: Seq<char>) -> Result<RawJson, Seq<char>>;

/// A `serde_json::Value` as a `RawJson`, variant for variant; a number becomes the text
/// `Number::to_string` gives. Used by `read_json` alone.
#[verifier::external_body]
fn raw_of(v: &serde_json::Value) -> RawJson {
    match v {
        serde_json::Value::Null => RawJson::Null,
        serde_json::Value::Bool(b) => RawJson::Bool(*b),
        serde_json::Value::Number(n) => RawJson::Number(n.to_string()),
        serde_json::Value::String(t) => RawJson::Str(t.clone()),
        serde_json::Value::Array(items) => RawJson::Array(items.iter().map(raw_of).collect()),
        serde_json::Value::Object(fs) => RawJson::Object(fs.iter().map(|(k, x)| (k.clone(), raw_of(x))).collect()),
    }
}

/// `serde_json::from_str::<serde_json::Value>`: the value `text` holds, or the parser's
/// message. Both are `serde_json`'s own and are named, not stated: they depend on the text
/// alone.
#[verifier::external_body]
pub fn read_json(text: &str) -> (r: Result<RawJson, String>)
    ensures
        match r {
            Ok(v) => json_reading(text@) == Ok::<RawJson, Seq<char>>(v),
            Err(m) => json_reading(text@) == Err::<RawJson, Seq<char>>(m@),
        },
{
    serde_json::from_str::<serde_json::Value>(text).map(|v| raw_of(&v)).map_err(|e| e.to_string())
}

/// Whether every number in `r` spells a decimal this library holds exactly.
pub open spec fn numbers_read(r: RawJson) -> bool
    decreases r,
{
    match r {
        RawJson::Number(t) => crate::decimal::json_number(t@) is Some,
        RawJson::Array(items) => forall|i: int| 0 <= i < items@.len() ==> numbers_read(#[trigger] items@[i]),
        RawJson::Object(fs) => forall|i: int| 0 <= i < fs@.len() ==> numbers_read(#[trigger] fs@[i].1),
        _ => true,
    }
}

/// `j` is `r` with each number read as the decimal it spells, and each field kept in place.
pub open spec fn json_from_raw(r: RawJson, j: Json) -> bool
    decreases r,
{
    match r {
        RawJson::Null => j is Null,
        RawJson::Bool(b) => j == Json::Bool(b),
        RawJson::Number(t) => j matches Json::Number(d) && crate::decimal::json_number(t@) == Some(d),
        RawJson::Str(t) => j matches Json::Str(u) && u@ == t@,
        RawJson::Array(items) => j matches Json::Array(js) && js@.len() == items@.len() && forall|i: int|
            0 <= i < items@.len() ==> json_from_raw(#[trigger] items@[i], js@[i]),
        RawJson::Object(fs) => j matches Json::Object(gs) && gs@.len() == fs@.len() && forall|i: int|
            0 <= i < fs@.len() ==> gs@[i].0@ == (#[trigger] fs@[i]).0@ && json_from_raw(fs@[i].1, gs@[i].1),
    }
}

/// Whether `text` is JSON this library reads: it parses, and every number is held exactly.
pub open spec fn readable(text: Seq<char>) -> bool {
    json_reading(text) matches Ok(r) && numbers_read(r)
}

/// `j` is what `text` reads as.
pub open spec fn read_as(text: Seq<char>, j: Json) -> bool {
    json_reading(text) matches Ok(r) && json_from_raw(r, j)
}

/// Why `text` is not JSON this library reads: the parser's message, or that a number has more
/// digits than are held exactly.
pub open spec fn reading_problem(text: Seq<char>) -> Seq<char> {
    match json_reading(text) {
        Err(m) => m,
        Ok(_) => "a number has more digits than can be held exactly"@,
    }
}

/// A `RawJson` as this library's JSON: each number read as the decimal it spells, or `None`
/// when one does not spell a decimal held exactly.
fn json_of(r: &RawJson) -> (o: Option<Json>)
    ensures
        o is Some <==> numbers_read(*r),
        o matches Some(j) ==> json_from_raw(*r, j),
    decreases r,
{
    match r {
        RawJson::Null => Some(Json::Null),
        RawJson::Bool(b) => Some(Json::Bool(*b)),
        RawJson::Number(t) => match Decimal::parse(t.as_str()) {
            Some(d) => Some(Json::Number(d)),
            None => None,
        },
        RawJson::Str(t) => Some(Json::Str(t.clone())),
        RawJson::Array(items) => {
            let mut js: Vec<Json> = Vec::new();
            let mut i: usize = 0;
            while i < items.len()
                invariant
                    i <= items@.len(),
                    *r == RawJson::Array(*items),
                    js@.len() == i,
                    forall|k: int| 0 <= k < i ==> numbers_read(#[trigger] items@[k]) && json_from_raw(items@[k], js@[k]),
                decreases items@.len() - i,
            {
                assert(decreases_to!(*r => r->Array_0));
                assert(decreases_to!(r->Array_0 => r->Array_0@));
                assert(decreases_to!(r->Array_0@ => r->Array_0@[i as int]));
                match json_of(&items[i]) {
                    Some(j) => js.push(j),
                    None => {
                        assert(!numbers_read(items@[i as int]));
                        return None;
                    },
                }
                i = i + 1;
            }
            assert(json_from_raw(*r, Json::Array(js)));
            Some(Json::Array(js))
        },
        RawJson::Object(fs) => {
            let mut gs: Vec<(String, Json)> = Vec::new();
            let mut i: usize = 0;
            while i < fs.len()
                invariant
                    i <= fs@.len(),
                    *r == RawJson::Object(*fs),
                    gs@.len() == i,
                    forall|k: int| 0 <= k < i ==> numbers_read(#[trigger] fs@[k].1),
                    forall|k: int| 0 <= k < i ==> gs@[k].0@ == (#[trigger] fs@[k]).0@ && json_from_raw(fs@[k].1, gs@[k].1),
                decreases fs@.len() - i,
            {
                assert(decreases_to!(*r => r->Object_0));
                assert(decreases_to!(r->Object_0 => r->Object_0@));
                assert(decreases_to!(r->Object_0@ => r->Object_0@[i as int]));
                assert(decreases_to!(r->Object_0@[i as int] => r->Object_0@[i as int].1));
                match json_of(&fs[i].1) {
                    Some(j) => gs.push((fs[i].0.clone(), j)),
                    None => {
                        assert(!numbers_read(fs@[i as int].1));
                        return None;
                    },
                }
                i = i + 1;
            }
            assert(json_from_raw(*r, Json::Object(gs)));
            Some(Json::Object(gs))
        },
    }
}

/// JSON text as this library's JSON: what `serde_json` reads, each number read exactly, or
/// why it cannot be.
pub fn parse_json(text: &str) -> (r: Result<Json, String>)
    ensures
        r is Ok <==> readable(text@),
        r matches Ok(j) ==> read_as(text@, j),
        r matches Err(m) ==> m@ == reading_problem(text@),
{
    match read_json(text) {
        Err(m) => Err(m),
        Ok(raw) => match json_of(&raw) {
            Some(j) => Ok(j),
            None => Err(owned("a number has more digits than can be held exactly")),
        },
    }
}

} // verus!
